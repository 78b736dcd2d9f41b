//! Global shortcuts for dictation.

use crate::config::{DictationConfig, DictationInputSource, DictationShortcut, DictationTriggerMode};
use crate::pipelines::name_view;
use crate::text::{begins, lowercase, lowered, starts, trim, trimmed};
use vstd::prelude::*;

verus! {

/// How binding a shortcut went.
#[derive(Debug)]
pub struct ShortcutRegistration {
    pub id: String,
    pub hotkey: String,
    /// "registered", "disabled" or "error".
    pub status: String,
    pub error: Option<String>,
}

/// How binding a shortcut went, in mathematical terms.
pub struct RegistrationView {
    pub id: Seq<char>,
    pub hotkey: Seq<char>,
    pub status: Seq<char>,
    pub error: Option<Seq<char>>,
}

impl View for ShortcutRegistration {
    type V = RegistrationView;

    open spec fn view(&self) -> RegistrationView {
        RegistrationView {
            id: self.id@,
            hotkey: self.hotkey@,
            status: self.status@,
            error: name_view(self.error),
        }
    }
}

/// How binding several shortcuts went.
pub open spec fn registrations_view(all: Seq<ShortcutRegistration>) -> Seq<RegistrationView> {
    all.map_values(|r: ShortcutRegistration| r@)
}

/// How a shortcut is bound.
#[derive(Clone, Copy, Debug, PartialEq, Eq, Structural)]
pub enum Binding {
    /// Not at all: dictation is off.
    Disabled,
    /// Not at all: it has no keys.
    Empty,
    /// By watching the Fn key.
    Fn,
    /// As a shortcut of the system.
    Global,
}

/// How a shortcut is bound. The system cannot bind the Fn key.
pub open spec fn binding_of(enabled: bool, shortcut: DictationShortcut) -> Binding {
    if !enabled {
        Binding::Disabled
    } else if trimmed(shortcut.hotkey@).len() == 0 {
        Binding::Empty
    } else if starts(lowered(trimmed(shortcut.hotkey@)), "fn"@) {
        Binding::Fn
    } else {
        Binding::Global
    }
}

/// How a shortcut is bound.
pub fn binding(enabled: bool, shortcut: &DictationShortcut) -> (r: Binding)
    ensures
        r == binding_of(enabled, *shortcut),
{
    if !enabled {
        return Binding::Disabled;
    }
    let keys = trim(shortcut.hotkey.as_str());
    if keys.as_str().is_empty() {
        return Binding::Empty;
    }
    if begins(lowercase(keys.as_str()).as_str(), "fn") {
        Binding::Fn
    } else {
        Binding::Global
    }
}

/// Those of the first `n` shortcuts that watch the Fn key, by their places.
pub open spec fn fn_places(config: DictationConfig, n: int) -> Seq<int>
    decreases n,
{
    if n <= 0 {
        Seq::empty()
    } else if binding_of(config.enabled, config.shortcuts@[n - 1]) == Binding::Fn {
        fn_places(config, n - 1).push(n - 1)
    } else {
        fn_places(config, n - 1)
    }
}

/// The shortcuts that watch the Fn key, by their places.
pub fn fn_shortcuts(config: &DictationConfig) -> (r: Vec<usize>)
    ensures
        r@.map_values(|i: usize| i as int) == fn_places(
            *config,
            config.shortcuts@.len() as int,
        ),
{
    let mut out: Vec<usize> = Vec::new();
    let mut i: usize = 0;
    assert(out@.map_values(|i: usize| i as int) =~= Seq::empty());
    while i < config.shortcuts.len()
        invariant
            i <= config.shortcuts@.len(),
            out@.map_values(|i: usize| i as int) == fn_places(*config, i as int),
        decreases config.shortcuts@.len() - i,
    {
        if binding(config.enabled, &config.shortcuts[i]) == Binding::Fn {
            let ghost before = out@;
            out.push(i);
            assert(out@.map_values(|i: usize| i as int) =~= before.map_values(
                |i: usize| i as int,
            ).push(i as int));
        }
        i += 1;
    }
    out
}

/// What is told of a shortcut, where `outcome` is the error that the system gave.
/// Shortcuts with the Fn key are told of later.
pub open spec fn told(enabled: bool, shortcut: DictationShortcut, outcome: Option<Seq<char>>) -> Option<
    RegistrationView,
> {
    let plain = RegistrationView {
        id: shortcut.id@,
        hotkey: shortcut.hotkey@,
        status: "registered"@,
        error: None,
    };
    match binding_of(enabled, shortcut) {
        Binding::Disabled => Some(RegistrationView { status: "disabled"@, ..plain }),
        Binding::Empty => Some(
            RegistrationView { status: "error"@, error: Some("Empty hotkey"@), ..plain },
        ),
        Binding::Fn => None,
        Binding::Global => match outcome {
            None => Some(plain),
            Some(e) => Some(RegistrationView { status: "error"@, error: Some(e), ..plain }),
        },
    }
}

/// What is told of the first `n` shortcuts, without those with the Fn key.
pub open spec fn all_told(
    config: DictationConfig,
    outcomes: Seq<Option<String>>,
    n: int,
) -> Seq<RegistrationView>
    decreases n,
{
    if n <= 0 {
        Seq::empty()
    } else {
        match told(config.enabled, config.shortcuts@[n - 1], name_view(outcomes[n - 1])) {
            Some(r) => all_told(config, outcomes, n - 1).push(r),
            None => all_told(config, outcomes, n - 1),
        }
    }
}

fn tell(enabled: bool, shortcut: &DictationShortcut, outcome: &Option<String>) -> (r: Option<
    ShortcutRegistration,
>)
    ensures
        match r {
            Some(reg) => told(enabled, *shortcut, name_view(*outcome)) == Some(reg@),
            None => told(enabled, *shortcut, name_view(*outcome)) is None,
        },
{
    let id = shortcut.id.clone();
    let hotkey = shortcut.hotkey.clone();
    match binding(enabled, shortcut) {
        Binding::Disabled => Some(
            ShortcutRegistration { id, hotkey, status: "disabled".to_owned(), error: None },
        ),
        Binding::Empty => Some(
            ShortcutRegistration {
                id,
                hotkey,
                status: "error".to_owned(),
                error: Some("Empty hotkey".to_owned()),
            },
        ),
        Binding::Fn => None,
        Binding::Global => match outcome {
            None => Some(
                ShortcutRegistration { id, hotkey, status: "registered".to_owned(), error: None },
            ),
            Some(e) => Some(
                ShortcutRegistration {
                    id,
                    hotkey,
                    status: "error".to_owned(),
                    error: Some(e.clone()),
                },
            ),
        },
    }
}

/// What is told of the shortcuts after they were all bound anew. `outcomes` has, for
/// each, the error that the system gave; `watched` is what is told of those with the Fn
/// key. While dictation is off nothing is bound.
pub fn reload_dictation_shortcuts(
    config: &DictationConfig,
    outcomes: &Vec<Option<String>>,
    watched: Vec<ShortcutRegistration>,
) -> (r: Vec<ShortcutRegistration>)
    requires
        outcomes@.len() == config.shortcuts@.len(),
    ensures
        registrations_view(r@) == all_told(*config, outcomes@, outcomes@.len() as int) + if config.enabled {
            registrations_view(watched@)
        } else {
            Seq::empty()
        },
{
    let mut out: Vec<ShortcutRegistration> = Vec::new();
    let mut i: usize = 0;
    assert(registrations_view(out@) =~= Seq::empty());
    while i < config.shortcuts.len()
        invariant
            i <= config.shortcuts@.len(),
            outcomes@.len() == config.shortcuts@.len(),
            registrations_view(out@) == all_told(*config, outcomes@, i as int),
        decreases config.shortcuts@.len() - i,
    {
        match tell(config.enabled, &config.shortcuts[i], &outcomes[i]) {
            Some(reg) => {
                let ghost before = out@;
                let ghost v = reg@;
                out.push(reg);
                assert(registrations_view(out@) =~= registrations_view(before).push(v));
            },
            None => {},
        }
        i += 1;
    }
    let ghost mine = out@;
    if config.enabled {
        let mut more = watched;
        out.append(&mut more);
        assert(registrations_view(out@) =~= registrations_view(mine) + registrations_view(
            watched@,
        ));
    } else {
        assert(registrations_view(mine) + Seq::<RegistrationView>::empty() =~= registrations_view(
            mine,
        ));
    }
    out
}

/// Every shortcut is told of once: those with the Fn key by the watcher, all others by
/// this list.
pub proof fn law_every_shortcut_is_told(
    config: DictationConfig,
    outcomes: Seq<Option<String>>,
    n: int,
)
    requires
        0 <= n <= config.shortcuts@.len(),
    ensures
        all_told(config, outcomes, n).len() + fn_places(config, n).len() == n,
    decreases n,
{
    if n > 0 {
        law_every_shortcut_is_told(config, outcomes, n - 1);
    }
}

/// What happens to the keys of a shortcut.
#[derive(Clone, Copy, Debug, PartialEq, Eq, Structural)]
pub enum KeyEvent {
    Pressed,
    Released,
}

/// What a shortcut does.
#[derive(Clone, Copy, Debug, PartialEq, Eq, Structural)]
pub enum ShortcutAction {
    Nothing,
    /// Process what is on the clipboard.
    Clipboard,
    StartDictation,
    StopDictation,
}

/// What a shortcut does, while a dictation is `active` or not.
pub open spec fn action_of(
    source: DictationInputSource,
    mode: DictationTriggerMode,
    event: KeyEvent,
    active: bool,
) -> ShortcutAction {
    match (source, mode, event) {
        (DictationInputSource::Clipboard, _, KeyEvent::Pressed) => ShortcutAction::Clipboard,
        (DictationInputSource::Clipboard, _, KeyEvent::Released) => ShortcutAction::Nothing,
        (_, DictationTriggerMode::Toggle, KeyEvent::Pressed) => if active {
            ShortcutAction::StopDictation
        } else {
            ShortcutAction::StartDictation
        },
        (_, DictationTriggerMode::Toggle, KeyEvent::Released) => ShortcutAction::Nothing,
        (_, DictationTriggerMode::PushToTalk, KeyEvent::Pressed) => if active {
            ShortcutAction::Nothing
        } else {
            ShortcutAction::StartDictation
        },
        (_, DictationTriggerMode::PushToTalk, KeyEvent::Released) => if active {
            ShortcutAction::StopDictation
        } else {
            ShortcutAction::Nothing
        },
    }
}

/// What a shortcut does, while a dictation is `active` or not.
pub fn shortcut_action(
    source: DictationInputSource,
    mode: DictationTriggerMode,
    event: KeyEvent,
    active: bool,
) -> (r: ShortcutAction)
    ensures
        r == action_of(source, mode, event, active),
{
    if source == DictationInputSource::Clipboard {
        return if event == KeyEvent::Pressed {
            ShortcutAction::Clipboard
        } else {
            ShortcutAction::Nothing
        };
    }
    match mode {
        DictationTriggerMode::Toggle => if event != KeyEvent::Pressed {
            ShortcutAction::Nothing
        } else if active {
            ShortcutAction::StopDictation
        } else {
            ShortcutAction::StartDictation
        },
        DictationTriggerMode::PushToTalk => if event == KeyEvent::Pressed && !active {
            ShortcutAction::StartDictation
        } else if event == KeyEvent::Released && active {
            ShortcutAction::StopDictation
        } else {
            ShortcutAction::Nothing
        },
    }
}

/// Holding the keys records: pressing starts a dictation, releasing ends it. With
/// toggling, one press starts and the next one ends.
pub proof fn law_shortcut_pairs()
    ensures
        action_of(
            DictationInputSource::Audio,
            DictationTriggerMode::PushToTalk,
            KeyEvent::Pressed,
            false,
        ) is StartDictation,
        action_of(
            DictationInputSource::Audio,
            DictationTriggerMode::PushToTalk,
            KeyEvent::Released,
            true,
        ) is StopDictation,
        action_of(
            DictationInputSource::Audio,
            DictationTriggerMode::Toggle,
            KeyEvent::Pressed,
            false,
        ) is StartDictation,
        action_of(
            DictationInputSource::Audio,
            DictationTriggerMode::Toggle,
            KeyEvent::Pressed,
            true,
        ) is StopDictation,
        forall|event: KeyEvent, mode: DictationTriggerMode, active: bool|
            !(#[trigger] action_of(
                DictationInputSource::Clipboard,
                mode,
                event,
                active,
            ) is StartDictation),
{
}

/// While dictation is on, a shortcut with keys is bound: by the system, unless its keys begin
/// with Fn. A blank one is bound to nothing.
pub proof fn law_binding(shortcut: DictationShortcut)
    ensures
        binding_of(false, shortcut) == Binding::Disabled,
        crate::text::all_space(shortcut.hotkey@) ==> binding_of(true, shortcut) == Binding::Empty,
        !crate::text::all_space(shortcut.hotkey@) ==> binding_of(true, shortcut) == (if starts(
            lowered(trimmed(shortcut.hotkey@)),
            "fn"@,
        ) {
            Binding::Fn
        } else {
            Binding::Global
        }),
{
    crate::text::law_blank(shortcut.hotkey@);
}

/// What is told of a shortcut: that it is off, that it has no keys, or what the system said;
/// always with its own identifier and keys.
pub proof fn law_told(shortcut: DictationShortcut, outcome: Option<Seq<char>>)
    ensures
        told(false, shortcut, outcome) == Some(
            RegistrationView {
                id: shortcut.id@,
                hotkey: shortcut.hotkey@,
                status: "disabled"@,
                error: None,
            },
        ),
        binding_of(true, shortcut) == Binding::Empty ==> told(true, shortcut, outcome) == Some(
            RegistrationView {
                id: shortcut.id@,
                hotkey: shortcut.hotkey@,
                status: "error"@,
                error: Some("Empty hotkey"@),
            },
        ),
        binding_of(true, shortcut) == Binding::Fn ==> told(true, shortcut, outcome) is None,
        binding_of(true, shortcut) == Binding::Global ==> told(true, shortcut, outcome) == Some(
            RegistrationView {
                id: shortcut.id@,
                hotkey: shortcut.hotkey@,
                status: if outcome is Some {
                    "error"@
                } else {
                    "registered"@
                },
                error: outcome,
            },
        ),
{
}

/// The shortcuts are told of in their order; a place in the list of those with the Fn key is
/// that of such a shortcut.
pub proof fn law_told_in_order(config: DictationConfig, outcomes: Seq<Option<String>>, n: int)
    requires
        0 < n <= config.shortcuts@.len(),
        outcomes.len() == config.shortcuts@.len(),
    ensures
        all_told(config, outcomes, 0).len() == 0,
        all_told(config, outcomes, n) == match told(
            config.enabled,
            config.shortcuts@[n - 1],
            name_view(outcomes[n - 1]),
        ) {
            Some(r) => all_told(config, outcomes, n - 1).push(r),
            None => all_told(config, outcomes, n - 1),
        },
        forall|i: int|
            0 <= i < n ==> (fn_places(config, n).contains(i) <==> binding_of(
                config.enabled,
                #[trigger] config.shortcuts@[i],
            ) == Binding::Fn),
    decreases n,
{
    lemma_fn_places(config, n);
}

proof fn lemma_fn_places(config: DictationConfig, n: int)
    requires
        0 <= n <= config.shortcuts@.len(),
    ensures
        forall|i: int|
            0 <= i < n ==> (fn_places(config, n).contains(i) <==> binding_of(
                config.enabled,
                #[trigger] config.shortcuts@[i],
            ) == Binding::Fn),
        forall|k: int|
            0 <= k < fn_places(config, n).len() ==> 0 <= #[trigger] fn_places(config, n)[k] < n,
    decreases n,
{
    if n > 0 {
        lemma_fn_places(config, n - 1);
        let before = fn_places(config, n - 1);
        let all = fn_places(config, n);
        assert forall|i: int| 0 <= i < n implies (all.contains(i) <==> binding_of(
            config.enabled,
            #[trigger] config.shortcuts@[i],
        ) == Binding::Fn) by {
            if i < n - 1 {
                if before.contains(i) {
                    let k = choose|k: int| 0 <= k < before.len() && before[k] == i;
                    assert(all[k] == i);
                }
                if all.contains(i) {
                    let k = choose|k: int| 0 <= k < all.len() && all[k] == i;
                    assert(k < before.len());
                    assert(before[k] == i);
                }
            } else {
                if binding_of(config.enabled, config.shortcuts@[i]) == Binding::Fn {
                    assert(all[before.len() as int] == i);
                } else if all.contains(i) {
                    let k = choose|k: int| 0 <= k < all.len() && all[k] == i;
                    assert(before[k] < n - 1);
                }
            }
        }
    }
}

/// What each key does: of the clipboard a press alone counts; held keys record while they
/// are held; with toggling presses alone count.
pub proof fn law_shortcut_actions(source: DictationInputSource, active: bool)
    ensures
        forall|mode: DictationTriggerMode|
            (#[trigger] action_of(
                DictationInputSource::Clipboard,
                mode,
                KeyEvent::Pressed,
                active,
            )) is Clipboard,
        forall|mode: DictationTriggerMode|
            (#[trigger] action_of(
                DictationInputSource::Clipboard,
                mode,
                KeyEvent::Released,
                active,
            )) is Nothing,
        source != DictationInputSource::Clipboard ==> {
            let toggle = |e: KeyEvent| action_of(source, DictationTriggerMode::Toggle, e, active);
            let held = |e: KeyEvent| action_of(source, DictationTriggerMode::PushToTalk, e, active);
            &&& toggle(KeyEvent::Released) is Nothing
            &&& toggle(KeyEvent::Pressed) is StopDictation == active
            &&& toggle(KeyEvent::Pressed) is StartDictation == !active
            &&& held(KeyEvent::Pressed) is StartDictation == !active
            &&& held(KeyEvent::Pressed) is Nothing == active
            &&& held(KeyEvent::Released) is StopDictation == active
            &&& held(KeyEvent::Released) is Nothing == !active
        },
{
}

} // verus!
