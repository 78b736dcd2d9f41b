# NBP

A recorder of meetings and dictations. It captures the microphone and the sound
of the machine, transcribes them with programs that run on the machine, and hands
the transcripts to pipelines: agents on the command line, shell commands, files,
and pages in Notion.

- `src/` decides. Each function carries a contract that Verus proves: how
  transcripts are shown and stored, how pipelines are validated, run, renamed and
  migrated, which activity may hold the microphone, how the resident transcriber
  is supervised, what is built for Notion, and the bookkeeping of audio frames.
  Public proof functions named `law_…` state what holds across several functions.
- `tests/` runs the library on concrete values.
- `app/` is the application around it: files, processes, sound devices, the
  network. The desktop shell implements the trait `Host`. `agents.json`, beside
  the settings, lists agents besides the bundled ones, and names the agent and the
  hosted model that are used where the settings name none.

Times within recordings are whole milliseconds in the library; files hold seconds.
Samples are floating point and stay in `app/`.

The library trusts serde_json (parsing), chrono (clocks and dates), uuid
(identifiers) and a few functions of the standard library. Each such function
states in its doc comment what is believed of it.
