//! The menu in the status bar.

use crate::pipelines::name_view;
use crate::text::{after_prefix, joined, listed, same, starts, strip_prefix, views};
use vstd::prelude::*;

verus! {

/// How many pipelines the menu shows.
pub const MENU_PIPELINES: usize = 5;

/// Names with those of the first `n` of `more` that are not among them yet.
pub open spec fn merged(names: Seq<Seq<char>>, more: Seq<Seq<char>>, n: int) -> Seq<Seq<char>>
    decreases n,
{
    if n <= 0 {
        names
    } else {
        let before = merged(names, more, n - 1);
        if before.contains(more[n - 1]) {
            before
        } else {
            before.push(more[n - 1])
        }
    }
}

/// What comes first in the menu: the pipeline that was used last, and the default one.
pub open spec fn favourites(
    names: Seq<Seq<char>>,
    last_used: Option<Seq<char>>,
    default: Option<Seq<char>>,
) -> Seq<Seq<char>> {
    let first = match last_used {
        Some(l) if names.contains(l) => seq![l],
        _ => Seq::empty(),
    };
    match default {
        Some(d) if names.contains(d) && !first.contains(d) => first.push(d),
        _ => first,
    }
}

/// The pipelines of the menu, in order.
pub open spec fn menu_order(
    names: Seq<Seq<char>>,
    last_used: Option<Seq<char>>,
    default: Option<Seq<char>>,
) -> Seq<Seq<char>> {
    let all = merged(favourites(names, last_used, default), names, names.len() as int);
    if all.len() > MENU_PIPELINES {
        all.take(MENU_PIPELINES as int)
    } else {
        all
    }
}

fn add_new(out: &mut Vec<String>, name: &String)
    ensures
        views(final(out)@) == if views(old(out)@).contains(name@) {
            views(old(out)@)
        } else {
            views(old(out)@).push(name@)
        },
{
    let ghost before = out@;
    if !listed(out, name.as_str()) {
        out.push(name.clone());
        assert(views(out@) =~= views(before).push(name@));
    }
}

/// The pipelines of the menu: the one that was used last and the default one first, then
/// the others, no more than fit.
pub fn tray_pipelines(
    names: &Vec<String>,
    last_used: &Option<String>,
    default: &Option<String>,
) -> (r: Vec<String>)
    ensures
        views(r@) == menu_order(views(names@), name_view(*last_used), name_view(*default)),
{
    let ghost all = views(names@);
    let mut out: Vec<String> = Vec::new();
    assert(views(out@) =~= Seq::empty());
    match last_used {
        Some(l) => {
            if listed(names, l.as_str()) {
                out.push(l.clone());
                assert(views(out@) =~= seq![l@]);
            }
        },
        None => {},
    }
    match default {
        Some(d) => {
            if listed(names, d.as_str()) {
                add_new(&mut out, d);
            }
        },
        None => {},
    }
    let ghost first = favourites(all, name_view(*last_used), name_view(*default));
    assert(views(out@) =~= first);
    let mut i: usize = 0;
    while i < names.len()
        invariant
            i <= names@.len(),
            all == views(names@),
            views(out@) == merged(first, all, i as int),
        decreases names@.len() - i,
    {
        assert(all[i as int] == names@[i as int]@);
        add_new(&mut out, &names[i]);
        i += 1;
    }
    assert(all.len() == names@.len());
    let ghost whole = out@;
    assert(views(whole).len() == whole.len());
    if out.len() > MENU_PIPELINES {
        out.truncate(MENU_PIPELINES);
        assert(views(out@) =~= views(whole).take(MENU_PIPELINES as int));
    }
    out
}

proof fn lemma_merged_from(names: Seq<Seq<char>>, more: Seq<Seq<char>>, n: int)
    requires
        0 <= n <= more.len(),
        forall|i: int| 0 <= i < names.len() ==> more.contains(#[trigger] names[i]),
        names.no_duplicates(),
    ensures
        forall|i: int|
            0 <= i < merged(names, more, n).len() ==> more.contains(
                #[trigger] merged(names, more, n)[i],
            ),
        merged(names, more, n).no_duplicates(),
    decreases n,
{
    if n > 0 {
        lemma_merged_from(names, more, n - 1);
        assert(more.contains(more[n - 1]));
    }
}

/// The menu shows pipelines that are there, each once, and no more than fit. The one that
/// was used last comes first.
pub proof fn law_menu(
    names: Seq<Seq<char>>,
    last_used: Option<Seq<char>>,
    default: Option<Seq<char>>,
)
    ensures
        menu_order(names, last_used, default).len() <= MENU_PIPELINES,
        menu_order(names, last_used, default).no_duplicates(),
        forall|i: int|
            0 <= i < menu_order(names, last_used, default).len() ==> names.contains(
                #[trigger] menu_order(names, last_used, default)[i],
            ),
        last_used is Some && names.contains(last_used->0) ==> menu_order(
            names,
            last_used,
            default,
        ).len() > 0 && menu_order(names, last_used, default)[0] == last_used->0,
{
    let first = favourites(names, last_used, default);
    lemma_merged_from(first, names, names.len() as int);
    lemma_merged_prefix(first, names, names.len() as int);
}

proof fn lemma_merged_prefix(names: Seq<Seq<char>>, more: Seq<Seq<char>>, n: int)
    ensures
        merged(names, more, n).len() >= names.len(),
        forall|i: int| 0 <= i < names.len() ==> #[trigger] merged(names, more, n)[i] == names[i],
    decreases n,
{
    if n > 0 {
        lemma_merged_prefix(names, more, n - 1);
    }
}

/// The identifier of the entry that starts a pipeline.
pub fn pipeline_entry_id(name: &str) -> (r: String)
    ensures
        r@ == "pipeline:"@ + name@,
{
    joined("pipeline:", name)
}

/// The text of the entry that starts a pipeline.
pub fn pipeline_entry_label(name: &str) -> (r: String)
    ensures
        r@ == "▶ "@ + name@,
{
    joined("▶ ", name)
}

/// What an entry of the menu does.
#[derive(Debug)]
pub enum TrayAction {
    /// Show the window and start a recording for this pipeline.
    StartPipeline(String),
    /// Show the window and start a recording.
    RecordNew,
    /// Show the window.
    Show,
    Quit,
    Nothing,
}

/// What an entry of the menu does, in mathematical terms.
pub enum TrayActionView {
    StartPipeline(Seq<char>),
    RecordNew,
    Show,
    Quit,
    Nothing,
}

impl View for TrayAction {
    type V = TrayActionView;

    open spec fn view(&self) -> TrayActionView {
        match *self {
            TrayAction::StartPipeline(name) => TrayActionView::StartPipeline(name@),
            TrayAction::RecordNew => TrayActionView::RecordNew,
            TrayAction::Show => TrayActionView::Show,
            TrayAction::Quit => TrayActionView::Quit,
            TrayAction::Nothing => TrayActionView::Nothing,
        }
    }
}

/// What the entry `id` does.
pub open spec fn chosen(id: Seq<char>) -> TrayActionView {
    match after_prefix(id, "pipeline:"@) {
        Some(name) => TrayActionView::StartPipeline(name),
        None => if id == "tray-record-new"@ {
            TrayActionView::RecordNew
        } else if id == "show"@ {
            TrayActionView::Show
        } else if id == "quit"@ {
            TrayActionView::Quit
        } else {
            TrayActionView::Nothing
        },
    }
}

/// What the entry `id` does.
pub fn tray_action(id: &str) -> (r: TrayAction)
    ensures
        r@ == chosen(id@),
{
    match strip_prefix(id, "pipeline:") {
        Some(name) => TrayAction::StartPipeline(name),
        None => if same(id, "tray-record-new") {
            TrayAction::RecordNew
        } else if same(id, "show") {
            TrayAction::Show
        } else if same(id, "quit") {
            TrayAction::Quit
        } else {
            TrayAction::Nothing
        },
    }
}

/// The entry of a pipeline starts that pipeline, whatever it is called.
pub proof fn law_entry_starts_its_pipeline(name: Seq<char>)
    ensures
        chosen("pipeline:"@ + name) == TrayActionView::StartPipeline(name),
{
    let id = "pipeline:"@ + name;
    assert(id.subrange(0, "pipeline:"@.len() as int) =~= "pipeline:"@);
    assert(starts(id, "pipeline:"@));
    assert(id.skip("pipeline:"@.len() as int) =~= name);
}

/// The icon blinks while a recording is under way.
#[derive(Debug)]
pub struct TrayPulse {
    pub running: bool,
}

impl TrayPulse {
    /// The icon is still.
    pub fn new() -> (r: Self)
        ensures
            !r.running,
    {
        TrayPulse { running: false }
    }

    /// Starts blinking. Says whether there is anything to start: while it blinks, there
    /// is not, nor without an icon to blink with.
    pub fn start(&mut self, has_icon: bool) -> (r: bool)
        ensures
            r == (!old(self).running && has_icon),
            final(self).running == (old(self).running || has_icon),
    {
        if self.running || !has_icon {
            return false;
        }
        self.running = true;
        true
    }

    /// Stops blinking. Says whether there was anything to stop.
    pub fn stop(&mut self) -> (r: bool)
        ensures
            r == old(self).running,
            !final(self).running,
    {
        let was = self.running;
        self.running = false;
        was
    }
}

/// The default pipeline comes next to the one used last, first where none was; the others
/// follow in their own order.
pub proof fn law_menu_order(
    names: Seq<Seq<char>>,
    last_used: Option<Seq<char>>,
    default: Option<Seq<char>>,
)
    ensures
        ({
            let menu = menu_order(names, last_used, default);
            &&& last_used is None && default is Some && names.contains(default->0) ==> menu.len()
                > 0 && menu[0] == default->0
            &&& last_used is Some && default is Some && last_used != default && names.contains(
                last_used->0,
            ) && names.contains(default->0) ==> menu.len() > 1 && menu[0] == last_used->0
                && menu[1] == default->0
            &&& last_used is None && default is None && names.no_duplicates() ==> menu
                == names.take(
                if names.len() > 5 {
                    5
                } else {
                    names.len() as int
                },
            )
        }),
        names.len() <= 5 ==> forall|n: Seq<char>|
            names.contains(n) ==> #[trigger] menu_order(names, last_used, default).contains(n),
{
    let first = favourites(names, last_used, default);
    let n = names.len() as int;
    lemma_merged_prefix(first, names, n);
    lemma_merged_from(first, names, n);
    if last_used is None && default is None && names.no_duplicates() {
        lemma_merged_nothing(names, n);
        assert(names.take(n) =~= names);
    }
    if names.len() <= 5 {
        let all = merged(first, names, n);
        lemma_merged_has(first, names, n);
        all.unique_seq_to_set();
        names.lemma_cardinality_of_set();
        assert(all.to_set().subset_of(names.to_set())) by {
            assert forall|x: Seq<char>| all.to_set().contains(x) implies names.to_set().contains(
                x,
            ) by {
                let k = choose|k: int| 0 <= k < all.len() && all[k] == x;
                assert(names.contains(all[k]));
            }
        }
        vstd::set_lib::lemma_len_subset(all.to_set(), names.to_set());
        assert(all.len() <= 5);
    }
}

proof fn lemma_merged_has(names: Seq<Seq<char>>, more: Seq<Seq<char>>, n: int)
    requires
        0 <= n <= more.len(),
    ensures
        forall|i: int| 0 <= i < n ==> merged(names, more, n).contains(#[trigger] more[i]),
    decreases n,
{
    if n > 0 {
        lemma_merged_has(names, more, n - 1);
        let before = merged(names, more, n - 1);
        let all = merged(names, more, n);
        assert forall|i: int| 0 <= i < n implies all.contains(#[trigger] more[i]) by {
            if before.contains(more[i]) {
                let k = choose|k: int| 0 <= k < before.len() && before[k] == more[i];
                assert(all[k] == more[i]);
            } else {
                assert(all[before.len() as int] == more[i]);
            }
        }
    }
}

proof fn lemma_merged_nothing(more: Seq<Seq<char>>, n: int)
    requires
        0 <= n <= more.len(),
        more.no_duplicates(),
    ensures
        merged(Seq::empty(), more, n) == more.take(n),
    decreases n,
{
    if n > 0 {
        lemma_merged_nothing(more, n - 1);
        let before = more.take(n - 1);
        if before.contains(more[n - 1]) {
            let k = choose|k: int| 0 <= k < before.len() && before[k] == more[n - 1];
            assert(more[k] == more[n - 1]);
        }
        assert(more.take(n) =~= before.push(more[n - 1]));
    } else {
        assert(more.take(0) =~= Seq::empty());
    }
}

/// The other entries do what they say.
pub proof fn law_other_entries()
    ensures
        chosen("tray-record-new"@) is RecordNew,
        chosen("show"@) is Show,
        chosen("quit"@) is Quit,
{
    reveal_strlit("pipeline:");
    reveal_strlit("tray-record-new");
    reveal_strlit("show");
    reveal_strlit("quit");
    let p = "pipeline:"@;
    assert(p.len() == 9 && p[0] == 'p');
    assert("tray-record-new"@.len() == 15);
    assert("show"@.len() == 4 && "show"@[0] == 's');
    assert("quit"@.len() == 4 && "quit"@[0] == 'q');
    assert("tray-record-new"@.subrange(0, 9)[0] == 't');
}

} // verus!
