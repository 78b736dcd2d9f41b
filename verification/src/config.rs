//! Settings: what can be configured, and the defaults.

use crate::paths::{path_join, under};
use crate::text::same;
use vstd::prelude::*;

verus! {

/// Which engine transcribes recordings. `Unknown` stands for an engine that an
/// older settings file names; consumers treat it as `FluidAudio`.
#[derive(Clone, Copy, Debug, PartialEq, Eq, Structural)]
pub enum TranscriptionProvider {
    FluidAudio,
    Qwen3,
    AppleSpeech,
    Unknown,
}

impl Default for TranscriptionProvider {
    fn default() -> (r: Self)
        ensures
            r == TranscriptionProvider::FluidAudio,
    {
        TranscriptionProvider::FluidAudio
    }
}

/// Which engine transcribes live. Kept so that older settings files load.
#[derive(Clone, Copy, Debug, PartialEq, Eq, Structural)]
pub enum RealtimeTranscriptionProvider {
    Local,
    OpenAI,
    AppleSpeech,
    Unknown,
}

impl Default for RealtimeTranscriptionProvider {
    fn default() -> (r: Self)
        ensures
            r == RealtimeTranscriptionProvider::Local,
    {
        RealtimeTranscriptionProvider::Local
    }
}

/// The command line agent that processes text.
#[derive(Debug)]
pub struct CliAgentConfig {
    /// Which one, by its name on the command line.
    pub cli: String,
    /// Its model; its own default if absent.
    pub model: Option<String>,
    pub timeout_secs: u64,
}

fn default_cli_timeout() -> (r: u64)
    ensures
        r == 300,
{
    300
}

impl CliAgentConfig {
    /// Every setting has its default, for the agent `cli`.
    pub open spec fn is_default(self, cli: Seq<char>) -> bool {
        &&& self.cli@ == cli
        &&& self.model is None
        &&& self.timeout_secs == 300
    }

    /// The defaults for the agent `cli`.
    pub fn fresh(cli: String) -> (r: Self)
        ensures
            r.is_default(cli@),
    {
        CliAgentConfig { cli, model: None, timeout_secs: default_cli_timeout() }
    }
}

/// How recordings are transcribed.
#[derive(Debug)]
pub struct TranscriptionConfig {
    pub enabled: bool,
    pub provider: TranscriptionProvider,
    /// Ignored: the provider decides. Kept so that older settings files load.
    pub realtime_enabled: bool,
    pub realtime_provider: RealtimeTranscriptionProvider,
    /// Tag who said what.
    pub diarize: bool,
    /// Which language's transliteration to correct; "off" for none.
    pub translit_lang: String,
    /// How strictly words must match, as a decimal fraction.
    pub translit_threshold: String,
    /// Words shorter than this are left alone.
    pub translit_min_len: u32,
    /// "f32" or "int8".
    pub qwen3_variant: String,
    pub apple_locale: String,
    /// Keep one process with a loaded model for dictation.
    pub keep_model_ready: bool,
}

impl TranscriptionConfig {
    /// Whether the selected provider can transcribe live.
    pub fn realtime_supported(&self) -> (r: bool)
        ensures
            r == (self.provider == TranscriptionProvider::FluidAudio || self.provider
                == TranscriptionProvider::AppleSpeech || self.provider
                == TranscriptionProvider::Unknown),
    {
        self.provider == TranscriptionProvider::FluidAudio || self.provider
            == TranscriptionProvider::AppleSpeech || self.provider == TranscriptionProvider::Unknown
    }
}

fn default_translit_lang() -> (r: String)
    ensures
        r@ == "ru"@,
{
    "ru".to_owned()
}

fn default_translit_threshold() -> (r: String)
    ensures
        r@ == "0.72"@,
{
    "0.72".to_owned()
}

fn default_translit_min_len() -> (r: u32)
    ensures
        r == 4,
{
    4
}

fn default_qwen3_variant() -> (r: String)
    ensures
        r@ == "f32"@,
{
    "f32".to_owned()
}

fn default_apple_locale() -> (r: String)
    ensures
        r@ == "en-US"@,
{
    "en-US".to_owned()
}

impl TranscriptionConfig {
    /// Every setting has its default.
    pub open spec fn is_default(self) -> bool {
        &&& self.enabled
        &&& self.provider == TranscriptionProvider::FluidAudio
        &&& !self.realtime_enabled
        &&& self.realtime_provider == RealtimeTranscriptionProvider::Local
        &&& self.diarize
        &&& self.translit_lang@ == "ru"@
        &&& self.translit_threshold@ == "0.72"@
        &&& self.translit_min_len == 4
        &&& self.qwen3_variant@ == "f32"@
        &&& self.apple_locale@ == "en-US"@
        &&& !self.keep_model_ready
    }
}

impl Default for TranscriptionConfig {
    fn default() -> (r: Self)
        ensures
            r.is_default(),
    {
        TranscriptionConfig {
            enabled: true,
            provider: TranscriptionProvider::FluidAudio,
            realtime_enabled: false,
            realtime_provider: RealtimeTranscriptionProvider::Local,
            diarize: true,
            translit_lang: default_translit_lang(),
            translit_threshold: default_translit_threshold(),
            translit_min_len: default_translit_min_len(),
            qwen3_variant: default_qwen3_variant(),
            apple_locale: default_apple_locale(),
            keep_model_ready: false,
        }
    }
}

/// What a pipeline step does.
#[derive(Clone, Copy, Debug, PartialEq, Eq, Structural, Hash)]
pub enum StepType {
    CliAgent,
    Shell,
    SaveLocal,
}

/// Where the input of a dictation shortcut comes from.
#[derive(Clone, Copy, Debug, PartialEq, Eq, Structural)]
pub enum DictationInputSource {
    Audio,
    Clipboard,
}

impl Default for DictationInputSource {
    fn default() -> (r: Self)
        ensures
            r == DictationInputSource::Audio,
    {
        DictationInputSource::Audio
    }
}

/// How a press of a shortcut starts and stops dictation.
#[derive(Clone, Copy, Debug, PartialEq, Eq, Structural)]
pub enum DictationTriggerMode {
    Toggle,
    PushToTalk,
}

impl Default for DictationTriggerMode {
    fn default() -> (r: Self)
        ensures
            r == DictationTriggerMode::Toggle,
    {
        DictationTriggerMode::Toggle
    }
}

/// One dictation shortcut.
#[derive(Debug)]
pub struct DictationShortcut {
    pub id: String,
    pub name: String,
    /// Such as "cmd+shift+d".
    pub hotkey: String,
    pub input_source: DictationInputSource,
    /// The microphone; the system default if absent.
    pub device_name: Option<String>,
    pub language: Option<String>,
    /// The pipeline that transforms the transcript.
    pub pipeline: Option<String>,
    /// Paste into the focused application, not only copy.
    pub auto_paste: bool,
    pub capture_system_audio: bool,
    pub trigger_mode: DictationTriggerMode,
}

/// Dictation by hotkey.
#[derive(Debug)]
pub struct DictationConfig {
    /// When off, no shortcut is registered.
    pub enabled: bool,
    pub shortcuts: Vec<DictationShortcut>,
    /// Keep audio dictations as recordings.
    pub save_dictations: bool,
    pub show_hud: bool,
}

impl DictationConfig {
    /// Every setting has its default.
    pub open spec fn is_default(self) -> bool {
        &&& !self.enabled
        &&& self.shortcuts@.len() == 0
        &&& !self.save_dictations
        &&& self.show_hud
    }
}

impl Default for DictationConfig {
    fn default() -> (r: Self)
        ensures
            r.is_default(),
    {
        DictationConfig { enabled: false, shortcuts: Vec::new(), save_dictations: false, show_hud: true }
    }
}

/// A language model on this machine.
#[derive(Debug)]
pub struct LocalLlmConfig {
    pub enabled: bool,
    pub model_id: Option<String>,
    /// Layers to offload to the graphics processor.
    pub gpu_layers: u32,
    /// Context window in tokens.
    pub context_size: u32,
}

impl LocalLlmConfig {
    /// Every setting has its default.
    pub open spec fn is_default(self) -> bool {
        &&& !self.enabled
        &&& self.model_id is None
        &&& self.gpu_layers == 99
        &&& self.context_size == 8192
    }
}

impl Default for LocalLlmConfig {
    fn default() -> (r: Self)
        ensures
            r.is_default(),
    {
        LocalLlmConfig { enabled: false, model_id: None, gpu_layers: 99, context_size: 8192 }
    }
}

/// All settings.
#[derive(Debug)]
pub struct AppSettings {
    pub storage_path: String,
    /// Recordings shorter than this are thrown away.
    pub auto_discard_seconds: u32,
    /// "auto", "light" or "dark".
    pub theme: String,
    pub onboarding_completed: bool,
    pub transcription: TranscriptionConfig,
    pub show_recording_notification: bool,
    pub save_mix_only: bool,
    /// The pipeline that new recordings get.
    pub default_pipeline: Option<String>,
    pub last_used_pipeline: Option<String>,
    /// Record meetings when a call is detected.
    pub auto_record_meetings: bool,
    pub walkthrough_completed: bool,
    pub local_llm: LocalLlmConfig,
    pub cli_agent: CliAgentConfig,
    pub dictation: DictationConfig,
    /// Delete entries older than this many days; 0 for never.
    pub entry_retention_days: u32,
}

fn default_entry_retention_days() -> (r: u32)
    ensures
        r == 0,
{
    0
}

impl AppSettings {
    /// The settings of a fresh installation that stores recordings in `storage_path` and
    /// processes text with the agent `cli`.
    pub fn fresh(storage_path: String, cli: String) -> (r: Self)
        ensures
            r.storage_path == storage_path,
            r.auto_discard_seconds == 3,
            r.theme@ == "auto"@,
            !r.onboarding_completed,
            r.transcription.is_default(),
            r.show_recording_notification,
            r.save_mix_only,
            r.default_pipeline is None,
            r.last_used_pipeline is None,
            r.auto_record_meetings,
            !r.walkthrough_completed,
            r.local_llm.is_default(),
            r.cli_agent.is_default(cli@),
            r.dictation.is_default(),
            r.entry_retention_days == 0,
    {
        AppSettings {
            storage_path,
            auto_discard_seconds: 3,
            theme: "auto".to_owned(),
            onboarding_completed: false,
            transcription: TranscriptionConfig::default(),
            show_recording_notification: true,
            save_mix_only: true,
            default_pipeline: None,
            last_used_pipeline: None,
            auto_record_meetings: true,
            walkthrough_completed: false,
            local_llm: LocalLlmConfig::default(),
            cli_agent: CliAgentConfig::fresh(cli),
            dictation: DictationConfig::default(),
            entry_retention_days: default_entry_retention_days(),
        }
    }
}

/// The directory of the settings: `.nbp` under the home directory, under the
/// current directory where there is no home.
pub open spec fn config_dir_of(home: Option<&str>) -> Seq<char> {
    match home {
        Some(h) => under(h@, ".nbp"@),
        None => under("."@, ".nbp"@),
    }
}

/// The directory of the settings.
pub fn get_config_dir(home: Option<&str>) -> (r: String)
    ensures
        r@ == config_dir_of(home),
{
    match home {
        Some(h) => path_join(h, ".nbp"),
        None => path_join(".", ".nbp"),
    }
}

/// The settings file.
pub fn get_settings_path(home: Option<&str>) -> (r: String)
    ensures
        r@ == under(config_dir_of(home), "settings.json"@),
{
    path_join(get_config_dir(home).as_str(), "settings.json")
}

/// The directory of the transcription models.
pub fn get_models_dir(home: Option<&str>) -> (r: String)
    ensures
        r@ == under(config_dir_of(home), "models"@),
{
    path_join(get_config_dir(home).as_str(), "models")
}

/// The directory of the language models.
pub fn get_llm_models_dir(home: Option<&str>) -> (r: String)
    ensures
        r@ == under(under(config_dir_of(home), "models"@), "llm"@),
{
    path_join(get_models_dir(home).as_str(), "llm")
}

/// The theme that a name stands for: `auto`, `light` or `dark`. Names of older
/// themes map to the closest of these.
pub open spec fn theme_of(theme: Seq<char>) -> Seq<char> {
    if theme == "light"@ || theme == "light-pastel"@ {
        "light"@
    } else if theme == "dark"@ || theme == "neon-purple"@ || theme == "deep-obsidian"@ || theme
        == "deep-blue"@ {
        "dark"@
    } else {
        "auto"@
    }
}

/// The theme that a name stands for.
pub fn normalize_theme(theme: &str) -> (r: String)
    ensures
        r@ == theme_of(theme@),
{
    if same(theme, "light") || same(theme, "light-pastel") {
        "light".to_owned()
    } else if same(theme, "dark") || same(theme, "neon-purple") || same(theme, "deep-obsidian")
        || same(theme, "deep-blue") {
        "dark".to_owned()
    } else {
        "auto".to_owned()
    }
}

/// Brings the theme of loaded settings up to date. Says whether it changed, in
/// which case the settings are written back.
pub fn migrate_theme(settings: &mut AppSettings) -> (changed: bool)
    ensures
        final(settings).theme@ == theme_of(old(settings).theme@),
        changed == (old(settings).theme@ != theme_of(old(settings).theme@)),
        *final(settings) == (AppSettings { theme: final(settings).theme, ..*old(settings) }),
{
    let theme = normalize_theme(settings.theme.as_str());
    if same(settings.theme.as_str(), theme.as_str()) {
        false
    } else {
        settings.theme = theme;
        true
    }
}

/// A theme that is up to date stays as it is, so one migration is enough.
pub proof fn law_theme_settles(theme: Seq<char>)
    ensures
        theme_of(theme_of(theme)) == theme_of(theme),
        theme_of(theme) == "auto"@ || theme_of(theme) == "light"@ || theme_of(theme) == "dark"@,
{
    reveal_strlit("auto");
    reveal_strlit("light");
    reveal_strlit("dark");
    reveal_strlit("light-pastel");
    reveal_strlit("neon-purple");
    reveal_strlit("deep-obsidian");
    reveal_strlit("deep-blue");
    assert("auto"@[0] == 'a');
    assert("light"@[0] == 'l');
    assert("dark"@[0] == 'd');
    assert("light-pastel"@[0] == 'l');
    assert("neon-purple"@[0] == 'n');
    assert("deep-obsidian"@[0] == 'd');
    assert("light"@.len() == 5);
    assert("dark"@.len() == 4);
}

/// A theme of today stands for itself. Those of old that were light are light, those that
/// were dark are dark, and a name that nobody knows follows the system.
pub proof fn law_themes(theme: Seq<char>)
    ensures
        theme == "light"@ || theme == "dark"@ || theme == "auto"@ ==> theme_of(theme) == theme,
        theme_of(theme) == "light"@ <==> theme == "light"@ || theme == "light-pastel"@,
        theme_of(theme) == "dark"@ <==> theme == "dark"@ || theme == "neon-purple"@ || theme
            == "deep-obsidian"@ || theme == "deep-blue"@,
        theme != "light"@ && theme != "light-pastel"@ && theme != "dark"@ && theme
            != "neon-purple"@ && theme != "deep-obsidian"@ && theme != "deep-blue"@ ==> theme_of(
            theme,
        ) == "auto"@,
{
    reveal_strlit("auto");
    reveal_strlit("light");
    reveal_strlit("dark");
    reveal_strlit("light-pastel");
    reveal_strlit("neon-purple");
    reveal_strlit("deep-obsidian");
    reveal_strlit("deep-blue");
    assert("auto"@[0] == 'a' && "light"@[0] == 'l' && "dark"@[0] == 'd');
    assert("light-pastel"@[0] == 'l' && "neon-purple"@[0] == 'n');
    assert("deep-obsidian"@[0] == 'd' && "deep-blue"@[0] == 'd');
    assert("light"@.len() == 5 && "dark"@.len() == 4 && "auto"@.len() == 4);
    assert("light-pastel"@.len() == 12);
}

/// The settings are under the home directory, else under the current one.
pub proof fn law_config_dir(home: &str)
    ensures
        config_dir_of(Some(home)) == under(home@, ".nbp"@),
        config_dir_of(None) == under("."@, ".nbp"@),
{
}

} // verus!
