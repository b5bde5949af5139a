//! The focus on any desktop, through the accessibility bus.
//!
//! Applications announce when a window becomes active or a widget gets the focus.
//! Who they are follows from the process behind them and from what they call
//! themselves; any of it may be missing.

use super::{app_view, apps_view, event_view, list_app, listed_all};
use super::{ActiveApp, ActiveAppView, FocusEvent, RunningApp, RunningAppView};
use super::walk::{descend_each, ids_of, in_order_each, law_trees_give_their_first_match};
use super::walk::{law_walk_asks_in_order, law_walk_follows_answers};
use super::walk::{law_walk_starts_at_roots, not_too_deep, opened, rooted, search, stands_for};
use super::walk::{Rooted, Tree, Walk, WalkView, MAX_DEPTH, MAX_NODES};
use super::{Shared, SharedView};
use crate::text::{contains_text, holds_text, law_part_stands_between, lower_text, lowered};
use crate::text::{same_text, text_view};
use crate::text::{trim_text, trimmed};
use vstd::prelude::*;

verus! {

/// What an object is looked for.
#[derive(Debug, Clone, Copy, PartialEq, Eq, Structural)]
pub enum Want {
    /// It has the keyboard focus.
    Focused,
    /// It is an active window.
    Active,
}

/// A [`FocusSearch`] as a mathematical value.
#[verifier::ext_equal]
pub struct SearchView {
    /// The applications that are searched.
    pub roots: Seq<u64>,
    /// What is looked for.
    pub want: Want,
    /// The search for it.
    pub walk: WalkView,
}

impl SearchView {
    /// What has the focus is looked for first.
    pub open spec fn start(roots: Seq<u64>) -> SearchView {
        SearchView { roots, want: Want::Focused, walk: WalkView::start(roots) }
    }

    /// The next object is asked. Where nothing has the focus, an active window is
    /// looked for, through all objects again.
    pub open spec fn next(self) -> SearchView {
        let here = self.walk.next();
        if here.asked is None && self.want is Focused {
            SearchView { want: Want::Active, walk: WalkView::start(self.roots).next(), ..self }
        } else {
            SearchView { walk: here, ..self }
        }
    }
}

/// Searches the applications for the one that has the focus: for an object with the
/// focus, and then for a window that is merely active.
pub struct FocusSearch {
    roots: Vec<u64>,
    want: Want,
    walk: Walk,
}

impl FocusSearch {
    /// The search as a mathematical value.
    pub closed spec fn view(&self) -> SearchView {
        SearchView { roots: self.roots@, want: self.want, walk: self.walk@ }
    }

    /// The object that is being asked does not lie too deep.
    pub open spec fn wf(self) -> bool {
        self@.walk.asked is Some ==> self@.walk.asked->Some_0.depth <= MAX_DEPTH
    }

    /// Begins a search of the applications `roots`.
    pub fn new(roots: Vec<u64>) -> (r: FocusSearch)
        ensures
            r.wf(),
            r@ == SearchView::start(roots@),
    {
        let walk = Walk::new(&roots);
        FocusSearch { roots, want: Want::Focused, walk }
    }

    /// The object to ask next, and what it is asked for; none, where the search has
    /// found nothing.
    pub fn next(&mut self) -> (r: Option<(Want, u64)>)
        ensures
            final(self).wf(),
            final(self)@ == old(self)@.next(),
            r == match final(self)@.walk.asked {
                Some(w) => Some((final(self)@.want, w.id)),
                None => None,
            },
    {
        if let Some(id) = self.walk.next() {
            return Some((self.want, id));
        }
        match self.want {
            Want::Active => None,
            Want::Focused => {
                self.want = Want::Active;
                self.walk = Walk::new(&self.roots);
                match self.walk.next() {
                    Some(id) => Some((Want::Active, id)),
                    None => None,
                }
            },
        }
    }

    /// Takes in the answer of the object that was asked: whether it is what is
    /// looked for, which ends the search, and its children. An object that cannot
    /// be reached, or will not name its children, has none.
    pub fn answer(&mut self, matches: bool, children: &Vec<u64>) -> (found: Option<u64>)
        requires
            old(self).wf(),
            old(self)@.walk.asked is Some,
        ensures
            final(self).wf(),
            matches ==> found == Some(old(self)@.walk.asked->Some_0.id) && final(self)@ == old(
                self,
            )@,
            !matches ==> found is None && final(self)@ == (SearchView {
                walk: old(self)@.walk.answered(children@),
                ..old(self)@
            }),
    {
        self.walk.answer(matches, children)
    }
}

/// A whole search: each object answers as the trees `rs` say, and, once an active
/// window is looked for, as the trees `active` say.
pub open spec fn search_through(v: SearchView, rs: Seq<Rooted>, active: Seq<Tree>) -> Option<
    (Want, u64),
>
    decreases
            if v.want is Focused {
                1int
            } else {
                0int
            },
            v.walk.budget,
{
    let n = v.walk.next();
    let left = not_too_deep(rs);
    if n.asked is None || n.budget >= v.walk.budget {
        if v.want is Focused {
            search_through(
                SearchView { want: Want::Active, walk: WalkView::start(v.roots), ..v },
                rooted(active, 0),
                active,
            )
        } else {
            None
        }
    } else if left[0].tree.matches {
        Some((v.want, n.asked->Some_0.id))
    } else {
        search_through(
            SearchView { walk: n.answered(ids_of(left[0].tree.children)), ..v },
            opened(left),
            active,
        )
    }
}

/// What is found where `focused` says which objects have the focus, and `active`
/// which are active windows.
pub open spec fn best_of(focused: Seq<Tree>, active: Seq<Tree>) -> Option<(Want, u64)> {
    match descend_each(focused, 0, MAX_NODES as nat).0 {
        Some(id) => Some((Want::Focused, id)),
        None => match descend_each(active, 0, MAX_NODES as nat).0 {
            Some(id) => Some((Want::Active, id)),
            None => None,
        },
    }
}

proof fn lemma_search_through(v: SearchView, rs: Seq<Rooted>, active: Seq<Tree>)
    requires
        stands_for(v.walk.waiting, rs),
        v.roots == ids_of(active),
    ensures
        search_through(v, rs, active) == match search(rs, v.walk.budget).0 {
            Some(id) => Some((v.want, id)),
            None => if v.want is Focused {
                match descend_each(active, 0, MAX_NODES as nat).0 {
                    Some(id) => Some((Want::Active, id)),
                    None => None,
                }
            } else {
                None
            },
        },
    decreases
            if v.want is Focused {
                1int
            } else {
                0int
            },
            v.walk.budget,
{
    let n = v.walk.next();
    let left = not_too_deep(rs);
    law_walk_asks_in_order(v.walk, rs);
    if n.asked is Some {
        law_walk_follows_answers(n, left);
        if !left[0].tree.matches {
            lemma_search_through(
                SearchView { walk: n.answered(ids_of(left[0].tree.children)), ..v },
                opened(left),
                active,
            );
        }
    } else if v.want is Focused {
        law_walk_starts_at_roots(active);
        lemma_search_through(
            SearchView { want: Want::Active, walk: WalkView::start(v.roots), ..v },
            rooted(active, 0),
            active,
        );
    }
}

/// A whole search prefers what has the focus to what is merely active, wherever
/// they stand; each is looked for depth first, in order, down to the same depth and
/// among as many objects.
pub proof fn law_focus_counts_before_active(focused: Seq<Tree>, active: Seq<Tree>)
    requires
        ids_of(focused) == ids_of(active),
    ensures
        search_through(
            SearchView::start(ids_of(active)),
            rooted(focused, 0),
            active,
        ) == best_of(focused, active),
{
    law_walk_starts_at_roots(focused);
    lemma_search_through(SearchView::start(ids_of(active)), rooted(focused, 0), active);
}

// ---------------------------------------------------------------------------
// Shells
// ---------------------------------------------------------------------------

/// `name` is, in any case of its letters, a desktop shell or compositor.
pub open spec fn is_shell(name: Seq<char>) -> bool {
    let n = lowered(name);
    ||| n == "gnome-shell"@
    ||| n == "plasmashell"@
    ||| n == "kwin"@
    ||| n == "kwin_wayland"@
    ||| n == "kwin_x11"@
    ||| n == "mutter"@
    ||| n == "mutter-x11-frames"@
    ||| n == "ksmserver"@
    ||| holds_text(n, "gnome-shell"@)
}

/// Decides whether an application is a desktop shell or compositor. These have a
/// stage that always counts as active, so a search passes them over.
pub fn is_shell_app(name: &str) -> (r: bool)
    ensures
        r == is_shell(name@),
{
    let n = lower_text(name);
    same_text(&n, "gnome-shell") || same_text(&n, "plasmashell") || same_text(&n, "kwin")
        || same_text(&n, "kwin_wayland") || same_text(&n, "kwin_x11") || same_text(&n, "mutter")
        || same_text(&n, "mutter-x11-frames") || same_text(&n, "ksmserver") || contains_text(
        &n,
        "gnome-shell",
    )
}

/// Whether an application is searched: one that tells no name is.
pub fn is_searched(name: &Option<String>) -> (r: bool)
    ensures
        r == match text_view(*name) {
            Some(n) => !is_shell(n),
            None => true,
        },
{
    match name {
        Some(n) => !is_shell_app(n),
        None => true,
    }
}

// ---------------------------------------------------------------------------
// Events
// ---------------------------------------------------------------------------

/// What an event on the bus says of its object.
#[derive(Debug, Clone, Copy, PartialEq, Eq, Structural)]
pub enum Announced {
    /// A window became active.
    WindowActivate,
    /// The state of an object changed: whether it is the focus that changed, and
    /// whether it was gained.
    StateChanged { focused: bool, gained: bool },
    /// Anything else.
    Other,
}

/// Whether an event is a change of the focus: a window became active, or a widget
/// gained the focus.
pub fn interesting_source(ev: Announced) -> (r: bool)
    ensures
        r == (ev == Announced::WindowActivate || ev == (Announced::StateChanged {
            focused: true,
            gained: true,
        })),
{
    match ev {
        Announced::WindowActivate => true,
        Announced::StateChanged { focused, gained } => focused && gained,
        Announced::Other => false,
    }
}

/// What the wait for the next event came to.
#[derive(Debug, Clone, Copy, PartialEq, Eq, Structural)]
pub enum Arrived {
    /// An event.
    Event,
    /// An event that could not be read.
    Bad,
    /// The end of the events.
    Ended,
    /// Nothing before the time was up.
    TimeUp,
}

/// What the watcher does next.
#[derive(Debug, Clone, Copy, PartialEq, Eq, Structural)]
pub enum WatchAction {
    /// Stop watching.
    End,
    /// Wait for the next event.
    Again,
    /// See whether the event is a change of the focus, and whose.
    Resolve,
}

/// What the watcher does after a wait. It ends with the events, and as soon as a wait
/// is over where it was told to stop; an event that could not be read is passed over.
pub fn watch_action(stopped: bool, arrived: Arrived) -> (r: WatchAction)
    ensures
        r == match arrived {
            Arrived::Ended => WatchAction::End,
            Arrived::TimeUp => if stopped {
                WatchAction::End
            } else {
                WatchAction::Again
            },
            _ => if stopped {
                WatchAction::End
            } else if arrived == Arrived::Bad {
                WatchAction::Again
            } else {
                WatchAction::Resolve
            },
        },
{
    if stopped {
        return WatchAction::End;
    }
    match arrived {
        Arrived::Ended => WatchAction::End,
        Arrived::TimeUp | Arrived::Bad => WatchAction::Again,
        Arrived::Event => WatchAction::Resolve,
    }
}

// ---------------------------------------------------------------------------
// Applications
// ---------------------------------------------------------------------------

/// A text, or an empty one where it is missing.
pub open spec fn or_empty(t: Option<Seq<char>>) -> Seq<char> {
    match t {
        Some(s) => s,
        None => Seq::empty(),
    }
}

fn text_or_empty(t: &Option<String>) -> (r: String)
    ensures
        r@ == or_empty(text_view(*t)),
{
    match t {
        Some(s) => s.clone(),
        None => String::new(),
    }
}

/// Who a process is.
#[derive(Debug, PartialEq, Eq)]
pub struct Identity {
    pub app_name: String,
    pub bundle_id: String,
}

/// An [`Identity`] as a mathematical value.
#[verifier::ext_equal]
pub struct IdentityView {
    pub app_name: Seq<char>,
    pub bundle_id: Seq<char>,
}

impl Identity {
    /// The identity as a mathematical value.
    pub open spec fn view(&self) -> IdentityView {
        IdentityView { app_name: self.app_name@, bundle_id: self.bundle_id@ }
    }
}

/// Who the process `pid` is, by its name and the file that it runs. Of a process
/// that is not known, nothing is.
pub open spec fn identity_of(
    pid: Option<u32>,
    comm: Option<Seq<char>>,
    exe: Option<Seq<char>>,
) -> IdentityView {
    match pid {
        Some(p) if p != 0 => IdentityView {
            app_name: if trimmed(or_empty(comm)).len() > 0 {
                trimmed(or_empty(comm))
            } else {
                or_empty(exe)
            },
            bundle_id: or_empty(exe),
        },
        _ => IdentityView { app_name: Seq::empty(), bundle_id: Seq::empty() },
    }
}

/// Who the process behind a name on the bus is: `comm` is its name and `exe` the
/// name of the file that it runs, where the system says.
pub fn identity_from_sender(pid: Option<u32>, comm: &Option<String>, exe: &Option<String>) -> (r:
    Identity)
    ensures
        r@ == identity_of(pid, text_view(*comm), text_view(*exe)),
{
    let known = match pid {
        Some(p) => p != 0,
        None => false,
    };
    if !known {
        return Identity { app_name: String::new(), bundle_id: String::new() };
    }
    let bundle_id = text_or_empty(exe);
    let name = trim_text(&text_or_empty(comm));
    let app_name = if name.as_str().is_empty() {
        bundle_id.clone()
    } else {
        name
    };
    Identity { app_name, bundle_id }
}

/// The application behind an object: who its process is, what it calls itself, and
/// the title of its window.
pub open spec fn resolved(
    who: IdentityView,
    own_name: Option<Seq<char>>,
    title: Seq<char>,
) -> ActiveAppView {
    let app_name = if who.app_name.len() > 0 {
        who.app_name
    } else {
        trimmed(or_empty(own_name))
    };
    ActiveAppView {
        app_name,
        bundle_id: if who.bundle_id.len() > 0 {
            who.bundle_id
        } else {
            lowered(app_name)
        },
        window_title: title,
        url: Seq::empty(),
    }
}

/// Whether an application has to be asked what it calls itself.
pub fn needs_own_name(who: &Identity) -> (r: bool)
    ensures
        r == (who@.app_name.len() == 0),
{
    who.app_name.as_str().is_empty()
}

/// Puts together the application behind an object. Without an id of its process its
/// name in lower case stands for one.
pub fn resolve_active_app(who: &Identity, own_name: &Option<String>, title: &str) -> (r: ActiveApp)
    ensures
        r@ == resolved(who@, text_view(*own_name), title@),
{
    let app_name = if who.app_name.as_str().is_empty() {
        trim_text(&text_or_empty(own_name))
    } else {
        who.app_name.clone()
    };
    let bundle_id = if who.bundle_id.as_str().is_empty() {
        lower_text(&app_name)
    } else {
        who.bundle_id.clone()
    };
    ActiveApp { app_name, bundle_id, window_title: title.to_owned(), url: String::new() }
}

/// What an application calls itself does not count where its process has a name.
pub proof fn law_own_name_only_where_needed(
    who: IdentityView,
    a: Option<Seq<char>>,
    b: Option<Seq<char>>,
    title: Seq<char>,
)
    requires
        who.app_name.len() > 0,
    ensures
        resolved(who, a, title) == resolved(who, b, title),
{
}

// ---------------------------------------------------------------------------
// Titles
// ---------------------------------------------------------------------------

/// What an object on the bus is.
#[derive(Debug, Clone, Copy, PartialEq, Eq, Structural)]
pub enum ObjectRole {
    Frame,
    Window,
    Dialog,
    /// Anything else: a button, a menu, a panel.
    Other,
}

/// What an object tells that may be a window: its role, its name, and whether it is
/// active. What it does not tell is missing.
#[derive(Debug, PartialEq, Eq)]
pub struct Toplevel {
    pub role: Option<ObjectRole>,
    pub name: Option<String>,
    pub active: Option<bool>,
}

/// A [`Toplevel`] as a mathematical value.
#[verifier::ext_equal]
pub struct ToplevelView {
    pub role: Option<ObjectRole>,
    pub name: Option<Seq<char>>,
    pub active: Option<bool>,
}

impl ToplevelView {
    /// The name without white space round it.
    pub open spec fn title(self) -> Seq<char> {
        trimmed(or_empty(self.name))
    }

    /// It is a window: a frame, a window or a dialog by its role.
    pub open spec fn is_toplevel(self) -> bool {
        self.role == Some(ObjectRole::Frame) || self.role == Some(ObjectRole::Window) || self.role
            == Some(ObjectRole::Dialog)
    }

    /// It is a window with a title.
    pub open spec fn is_named(self) -> bool {
        self.is_toplevel() && self.title().len() > 0
    }

    /// It is the active window, and has a title.
    pub open spec fn is_active(self) -> bool {
        self.is_named() && self.active == Some(true)
    }
}

impl Toplevel {
    /// The window as a mathematical value.
    pub open spec fn view(&self) -> ToplevelView {
        ToplevelView {
            role: self.role,
            name: text_view(self.name),
            active: self.active,
        }
    }

    /// Whether it is a window.
    pub fn is_toplevel(&self) -> (r: bool)
        ensures
            r == self@.is_toplevel(),
    {
        match self.role {
            Some(ObjectRole::Frame) | Some(ObjectRole::Window) | Some(ObjectRole::Dialog) => true,
            Some(ObjectRole::Other) | None => false,
        }
    }

    /// Whether it is the active window, and has a title: children of an application
    /// behind it need not be asked.
    pub fn is_active(&self) -> (r: bool)
        ensures
            r == self@.is_active(),
    {
        match self.active {
            Some(active) => active && !own_title(self).as_str().is_empty(),
            None => false,
        }
    }
}

/// Windows as mathematical values.
pub open spec fn toplevels_view(ts: Seq<Toplevel>) -> Seq<ToplevelView> {
    ts.map_values(|t: Toplevel| t@)
}

/// The title among `ts`: that of the first active window with a title, else of the
/// first window with a title, else `fallback`, which stands for windows before.
pub open spec fn title_among(fallback: Seq<char>, ts: Seq<ToplevelView>) -> Seq<char>
    decreases ts.len(),
{
    if ts.len() == 0 {
        fallback
    } else if ts[0].is_active() {
        ts[0].title()
    } else if ts[0].is_named() && fallback.len() == 0 {
        title_among(ts[0].title(), ts.drop_first())
    } else {
        title_among(fallback, ts.drop_first())
    }
}

/// The title of an application's window: that of the object itself where it is a
/// window with a title, else of the application's windows.
pub open spec fn title_of(source: ToplevelView, children: Seq<ToplevelView>) -> Seq<char> {
    if source.is_named() {
        source.title()
    } else {
        title_among(Seq::empty(), children)
    }
}

/// The title of an object that is a window itself, or an empty text.
pub fn own_title(source: &Toplevel) -> (r: String)
    ensures
        r@ == if source@.is_named() {
            source@.title()
        } else {
            Seq::empty()
        },
{
    if source.is_toplevel() {
        trim_text(&text_or_empty(&source.name))
    } else {
        String::new()
    }
}

/// The title of the window that belongs to the object `source` of an application
/// with the children `children`.
pub fn window_title_for(source: &Toplevel, children: &Vec<Toplevel>) -> (r: String)
    ensures
        r@ == title_of(source@, toplevels_view(children@)),
{
    let own = own_title(source);
    if !own.as_str().is_empty() {
        return own;
    }
    let ghost all = toplevels_view(children@);
    let mut fallback = String::new();
    let mut i: usize = 0;
    assert(all.skip(0) =~= all);
    while i < children.len()
        invariant
            i <= children.len(),
            all == toplevels_view(children@),
            title_among(Seq::empty(), all) == title_among(fallback@, all.skip(i as int)),
            title_of(source@, all) == title_among(Seq::empty(), all),
        decreases children.len() - i,
    {
        let child = &children[i];
        assert(all.skip(i as int)[0] == child@);
        assert(all.skip(i as int).drop_first() =~= all.skip(i + 1));
        let name = own_title(child);
        if !name.as_str().is_empty() {
            if child.is_active() {
                return name;
            }
            if fallback.as_str().is_empty() {
                fallback = name;
            }
        }
        i += 1;
    }
    fallback
}

/// Windows behind the first active window with a title do not matter.
pub proof fn law_title_stops_at_active(
    fallback: Seq<char>,
    a: Seq<ToplevelView>,
    b: Seq<ToplevelView>,
)
    requires
        exists|i: int| 0 <= i < a.len() && (#[trigger] a[i]).is_active(),
    ensures
        title_among(fallback, a + b) == title_among(fallback, a),
    decreases a.len(),
{
    assert((a + b)[0] == a[0]);
    assert((a + b).drop_first() =~= a.drop_first() + b);
    if !a[0].is_active() {
        let i = choose|i: int| 0 <= i < a.len() && (#[trigger] a[i]).is_active();
        assert(a.drop_first()[i - 1].is_active());
        let next = if a[0].is_named() && fallback.len() == 0 {
            a[0].title()
        } else {
            fallback
        };
        law_title_stops_at_active(next, a.drop_first(), b);
    }
}

/// The title is that of the first active window with a title, where there is one.
pub proof fn law_active_window_gives_title(fallback: Seq<char>, ts: Seq<ToplevelView>, i: int)
    requires
        0 <= i < ts.len(),
        ts[i].is_active(),
        forall|j: int| 0 <= j < i ==> !(#[trigger] ts[j]).is_active(),
    ensures
        title_among(fallback, ts) == ts[i].title(),
    decreases i,
{
    if i > 0 {
        assert(!ts[0].is_active());
        let rest = ts.drop_first();
        assert forall|j: int| 0 <= j < i - 1 implies !(#[trigger] rest[j]).is_active() by {
            assert(!ts[j + 1].is_active());
        }
        let next = if ts[0].is_named() && fallback.len() == 0 {
            ts[0].title()
        } else {
            fallback
        };
        law_active_window_gives_title(next, rest, i - 1);
    }
}

/// Without an active window with a title, the title is that of the first window
/// that has one.
pub proof fn law_first_named_window_gives_title(ts: Seq<ToplevelView>, i: int)
    requires
        0 <= i < ts.len(),
        ts[i].is_named(),
        forall|j: int| 0 <= j < i ==> !(#[trigger] ts[j]).is_named(),
        forall|j: int| 0 <= j < ts.len() ==> !(#[trigger] ts[j]).is_active(),
    ensures
        title_among(Seq::empty(), ts) == ts[i].title(),
    decreases i,
{
    let rest = ts.drop_first();
    assert(!ts[0].is_active());
    assert forall|j: int| 0 <= j < rest.len() implies !(#[trigger] rest[j]).is_active() by {
        assert(!ts[j + 1].is_active());
    }
    if i > 0 {
        assert(!ts[0].is_named());
        assert forall|j: int| 0 <= j < i - 1 implies !(#[trigger] rest[j]).is_named() by {
            assert(!ts[j + 1].is_named());
        }
        law_first_named_window_gives_title(rest, i - 1);
    } else {
        lemma_fallback_stays(ts[0].title(), rest);
    }
}

proof fn lemma_fallback_stays(fallback: Seq<char>, ts: Seq<ToplevelView>)
    requires
        fallback.len() > 0,
        forall|j: int| 0 <= j < ts.len() ==> !(#[trigger] ts[j]).is_active(),
    ensures
        title_among(fallback, ts) == fallback,
    decreases ts.len(),
{
    if ts.len() > 0 {
        assert(!ts[0].is_active());
        let rest = ts.drop_first();
        assert forall|j: int| 0 <= j < rest.len() implies !(#[trigger] rest[j]).is_active() by {
            assert(!ts[j + 1].is_active());
        }
        lemma_fallback_stays(fallback, rest);
    }
}

// ---------------------------------------------------------------------------
// Running applications
// ---------------------------------------------------------------------------

/// An application on the bus: what it calls itself and who its process is.
#[derive(Debug, PartialEq, Eq)]
pub struct Found {
    pub own_name: Option<String>,
    pub who: Identity,
}

/// The running application that was found. Its id is that of its process, else its
/// own name or that of its process in lower case; it is called by its own name,
/// else that of its process, else its id.
pub open spec fn running_of(own_name: Option<Seq<char>>, who: IdentityView) -> RunningAppView {
    let name = trimmed(or_empty(own_name));
    let bundle_id = if who.bundle_id.len() > 0 {
        who.bundle_id
    } else if name.len() > 0 {
        lowered(name)
    } else {
        lowered(who.app_name)
    };
    RunningAppView {
        bundle_id,
        name: if name.len() > 0 {
            name
        } else if who.app_name.len() > 0 {
            who.app_name
        } else {
            bundle_id
        },
    }
}

impl Found {
    /// The running application that was found.
    pub open spec fn view(&self) -> RunningAppView {
        running_of(text_view(self.own_name), self.who@)
    }

    fn to_running(&self) -> (r: RunningApp)
        ensures
            r@ == self@,
    {
        let name = trim_text(&text_or_empty(&self.own_name));
        let bundle_id = if !self.who.bundle_id.as_str().is_empty() {
            self.who.bundle_id.clone()
        } else if !name.as_str().is_empty() {
            lower_text(&name)
        } else {
            lower_text(&self.who.app_name)
        };
        let display = if !name.as_str().is_empty() {
            name
        } else if !self.who.app_name.as_str().is_empty() {
            self.who.app_name.clone()
        } else {
            bundle_id.clone()
        };
        RunningApp { bundle_id, name: display }
    }
}

/// Applications that were found.
pub open spec fn found_view(apps: Seq<Found>) -> Seq<RunningAppView> {
    apps.map_values(|f: Found| f@)
}

/// The running applications on the bus: one for each id, the first. One of which
/// nothing is known is left out.
pub fn enumerate_apps(apps: &Vec<Found>) -> (r: Vec<RunningApp>)
    ensures
        apps_view(r@) == listed_all(found_view(apps@)),
{
    let mut r: Vec<RunningApp> = Vec::new();
    let mut i: usize = 0;
    let ghost all = found_view(apps@);
    assert(apps_view(r@) =~= all.take(0));
    while i < apps.len()
        invariant
            i <= apps.len(),
            all == found_view(apps@),
            apps_view(r@) == listed_all(all.take(i as int)),
        decreases apps.len() - i,
    {
        assert(all.take(i + 1).drop_last() =~= all.take(i as int));
        list_app(&mut r, apps[i].to_running());
        i += 1;
    }
    assert(all.take(i as int) =~= all);
    r
}

/// An application has an id if and only if something is known of it, and then it
/// has a name too.
pub proof fn law_known_app_has_id(own_name: Option<Seq<char>>, who: IdentityView)
    ensures
        running_of(own_name, who).bundle_id.len() > 0 <==> trimmed(or_empty(own_name)).len() > 0
            || who.app_name.len() > 0 || who.bundle_id.len() > 0,
        running_of(own_name, who).bundle_id.len() > 0 <==> running_of(own_name, who).name.len() > 0,
{
}

// ---------------------------------------------------------------------------
// Tracking
// ---------------------------------------------------------------------------

/// A tracker of the focus on the accessibility bus.
pub struct AtspiTracker {
    shared: Shared,
}

impl AtspiTracker {
    /// What the tracker knows.
    pub closed spec fn view(&self) -> SharedView {
        self.shared@
    }

    /// Begins to track with the application that has the focus. `seed` is missing
    /// where the search for it took too long, and an error where the bus could not
    /// be reached.
    pub fn start(seed: Option<Result<Option<ActiveApp>, String>>, pid: u32) -> (r: Result<
        AtspiTracker,
        String,
    >)
        ensures
            match seed {
                Some(Ok(app)) => r matches Ok(t) && t@ == SharedView::start(app_view(app), pid),
                Some(Err(e)) => r matches Err(m) && m@ == e@,
                None => r matches Err(m) && m@ == "AT-SPI seed timed out"@,
            },
    {
        match seed {
            Some(Ok(app)) => Ok(AtspiTracker { shared: Shared::new(app, pid) }),
            Some(Err(e)) => Err(e),
            None => Err("AT-SPI seed timed out".to_owned()),
        }
    }

    /// Takes in the application behind a change of the focus. One of which nothing
    /// is known changes nothing. The event that comes back, if any, is to be sent.
    pub fn on_event(&mut self, app: ActiveApp) -> (r: Option<FocusEvent>)
        ensures
            r matches Some(e) ==> e.app.app_name@ == app.app_name@ && e.app.bundle_id@
                == app.bundle_id@ && e.app.window_title@ == app.window_title@ && e.app.url@
                == app.url@,
            app@.is_blank() ==> final(self)@ == old(self)@ && r is None,
            !app@.is_blank() ==> final(self)@ == old(self)@.on_focus(app@).0 && event_view(r)
                == old(self)@.on_focus(app@).1,
    {
        if app.is_blank() {
            None
        } else {
            self.shared.on_focus(app)
        }
    }

    /// The application that had the focus last.
    pub fn current(&self) -> (r: Option<ActiveApp>)
        ensures
            app_view(r) == self@.cache,
    {
        self.shared.current()
    }

    /// The running applications. `found` is what the bus listed; where that took too
    /// long there are none.
    pub fn get_running_apps(&self, found: &Option<Vec<Found>>) -> (r: Vec<RunningApp>)
        ensures
            apps_view(r@) == match found {
                Some(apps) => listed_all(found_view(apps@)),
                None => Seq::empty(),
            },
    {
        match found {
            Some(apps) => enumerate_apps(apps),
            None => {
                let none: Vec<RunningApp> = Vec::new();
                assert(apps_view(none@) =~= Seq::<RunningAppView>::empty());
                none
            },
        }
    }

    /// Turns focus events on or off. The event that comes back, if any, is to be
    /// sent.
    pub fn set_focus_detection(&mut self, active: bool) -> (r: Option<FocusEvent>)
        ensures
            final(self)@ == old(self)@.set_focus_detection(active).0,
            event_view(r) == old(self)@.set_focus_detection(active).1,
    {
        self.shared.set_focus_detection(active)
    }
}

// ---------------------------------------------------------------------------
// Laws
// ---------------------------------------------------------------------------

/// A search looks for what has the focus first, and only where that is nowhere for an
/// active window, from the same roots again; then it is over.
pub proof fn law_search_turns_to_active_windows(v: SearchView, roots: Seq<u64>)
    ensures
        SearchView::start(roots) == (SearchView {
            roots,
            want: Want::Focused,
            walk: WalkView::start(roots),
        }),
        v.walk.next().asked is Some ==> v.next() == (SearchView { walk: v.walk.next(), ..v }),
        v.walk.next().asked is None && v.want == Want::Focused ==> v.next() == (SearchView {
            roots: v.roots,
            want: Want::Active,
            walk: WalkView::start(v.roots).next(),
        }),
        v.walk.next().asked is None && v.want == Want::Active ==> v.next().walk.asked is None,
{
}

/// A whole search finds an object with the focus where there is one among the first 400
/// objects down to depth 12, the first of them; without one, the first active window.
pub proof fn law_search_finds_focus_then_active(focused: Seq<Tree>, active: Seq<Tree>)
    requires
        ids_of(focused) == ids_of(active),
    ensures
        match search_through(SearchView::start(ids_of(active)), rooted(focused, 0), active) {
            Some((Want::Focused, id)) => exists|i: int|
                0 <= i < in_order_each(focused, 0).len() && i < 400 && (#[trigger] in_order_each(
                    focused,
                    0,
                )[i]).matches && in_order_each(focused, 0)[i].id == id,
            Some((Want::Active, id)) => (forall|i: int|
                0 <= i < in_order_each(focused, 0).len() && i < 400 ==> !(#[trigger] in_order_each(
                    focused,
                    0,
                )[i]).matches) && exists|i: int|
                0 <= i < in_order_each(active, 0).len() && i < 400 && (#[trigger] in_order_each(
                    active,
                    0,
                )[i]).matches && in_order_each(active, 0)[i].id == id,
            None => (forall|i: int|
                0 <= i < in_order_each(focused, 0).len() && i < 400 ==> !(#[trigger] in_order_each(
                    focused,
                    0,
                )[i]).matches) && (forall|i: int|
                0 <= i < in_order_each(active, 0).len() && i < 400 ==> !(#[trigger] in_order_each(
                    active,
                    0,
                )[i]).matches),
        },
{
    law_focus_counts_before_active(focused, active);
    law_trees_give_their_first_match(focused, MAX_NODES as nat);
    law_trees_give_their_first_match(active, MAX_NODES as nat);
}

/// The shells and compositors that a search passes over, in any case of their letters.
pub proof fn law_shells_by_name(name: Seq<char>)
    ensures
        is_shell(name) <==> set![
            "gnome-shell"@,
            "plasmashell"@,
            "kwin"@,
            "kwin_wayland"@,
            "kwin_x11"@,
            "mutter"@,
            "mutter-x11-frames"@,
            "ksmserver"@,
        ].contains(lowered(name)) || exists|a: Seq<char>, b: Seq<char>|
            lowered(name) == #[trigger] (a + "gnome-shell"@ + b),
{
    law_part_stands_between(lowered(name), "gnome-shell"@, 0);
}

/// A process is called by its own name, without white space round it, and else by the file
/// that it runs, which is its id too; of a process that is not known nothing is.
pub proof fn law_process_is_called_by_its_name(
    pid: u32,
    comm: Seq<char>,
    exe: Seq<char>,
)
    ensures
        pid != 0 ==> identity_of(Some(pid), Some(comm), Some(exe)).bundle_id == exe,
        pid != 0 && trimmed(comm).len() > 0 ==> identity_of(
            Some(pid),
            Some(comm),
            Some(exe),
        ).app_name == trimmed(comm) && identity_of(Some(pid), Some(comm), None).app_name == trimmed(
            comm,
        ),
        pid != 0 && trimmed(comm).len() == 0 ==> identity_of(
            Some(pid),
            Some(comm),
            Some(exe),
        ).app_name == exe,
        pid != 0 ==> identity_of(Some(pid), None, Some(exe)).app_name == exe && identity_of(
            Some(pid),
            None,
            Some(exe),
        ).bundle_id == exe,
        pid != 0 ==> identity_of(Some(pid), Some(comm), None).bundle_id.len() == 0,
        identity_of(Some(0), Some(comm), Some(exe)).app_name.len() == 0,
        identity_of(Some(0), Some(comm), Some(exe)).bundle_id.len() == 0,
        identity_of(None, Some(comm), Some(exe)).app_name.len() == 0,
        identity_of(None, Some(comm), Some(exe)).bundle_id.len() == 0,
{
}

/// Whatever the system says of a known process, its id is the file that it runs, or empty,
/// and its name the one that is more than white space, or its id.
pub proof fn law_known_process_has_what_is_said(
    pid: u32,
    comm: Option<Seq<char>>,
    exe: Option<Seq<char>>,
)
    requires
        pid != 0,
    ensures
        match exe {
            Some(x) => identity_of(Some(pid), comm, exe).bundle_id == x,
            None => identity_of(Some(pid), comm, exe).bundle_id.len() == 0,
        },
        match comm {
            Some(c) => identity_of(Some(pid), comm, exe).app_name == if trimmed(c).len() > 0 {
                trimmed(c)
            } else {
                identity_of(Some(pid), comm, exe).bundle_id
            },
            None => identity_of(Some(pid), comm, exe).app_name == identity_of(
                Some(pid),
                comm,
                exe,
            ).bundle_id,
        },
        identity_of(None, comm, exe).app_name.len() == 0,
        identity_of(None, comm, exe).bundle_id.len() == 0,
        identity_of(Some(0), comm, exe).app_name.len() == 0,
        identity_of(Some(0), comm, exe).bundle_id.len() == 0,
{
    assert(trimmed(Seq::<char>::empty()).len() == 0);
}

/// An application has the name and the id of its process where those are known, and else
/// what it calls itself, without white space round it, and that in lower case; the title
/// is that of its window.
pub proof fn law_application_is_put_together(
    who: IdentityView,
    own_name: Seq<char>,
    title: Seq<char>,
)
    ensures
        resolved(who, Some(own_name), title).window_title == title,
        resolved(who, Some(own_name), title).url.len() == 0,
        resolved(who, None, title).window_title == title,
        who.app_name.len() > 0 ==> resolved(who, Some(own_name), title).app_name == who.app_name
            && resolved(who, None, title).app_name == who.app_name,
        who.app_name.len() == 0 ==> resolved(who, Some(own_name), title).app_name == trimmed(own_name)
            && resolved(who, None, title).app_name.len() == 0,
        who.bundle_id.len() > 0 ==> resolved(who, Some(own_name), title).bundle_id == who.bundle_id
            && resolved(who, None, title).bundle_id == who.bundle_id,
        who.bundle_id.len() == 0 ==> resolved(who, Some(own_name), title).bundle_id == lowered(
            resolved(who, Some(own_name), title).app_name,
        ) && resolved(who, None, title).bundle_id == lowered(resolved(who, None, title).app_name),
{
    assert(trimmed(Seq::<char>::empty()).len() == 0);
}

/// A running application has the id of its process, and else its own name, or that of its
/// process, in lower case; it is called by its own name, and else by that of its process,
/// and else by its id.
pub proof fn law_running_application_is_put_together(own_name: Seq<char>, who: IdentityView)
    ensures
        who.bundle_id.len() > 0 ==> running_of(Some(own_name), who).bundle_id == who.bundle_id
            && running_of(None, who).bundle_id == who.bundle_id,
        who.bundle_id.len() == 0 && trimmed(own_name).len() > 0 ==> running_of(
            Some(own_name),
            who,
        ).bundle_id == lowered(trimmed(own_name)),
        who.bundle_id.len() == 0 && trimmed(own_name).len() == 0 ==> running_of(
            Some(own_name),
            who,
        ).bundle_id == lowered(who.app_name),
        who.bundle_id.len() == 0 ==> running_of(None, who).bundle_id == lowered(who.app_name),
        trimmed(own_name).len() > 0 ==> running_of(Some(own_name), who).name == trimmed(own_name),
        trimmed(own_name).len() == 0 ==> running_of(Some(own_name), who).name == running_of(
            None,
            who,
        ).name,
        who.app_name.len() > 0 ==> running_of(None, who).name == who.app_name,
        who.app_name.len() == 0 ==> running_of(None, who).name == running_of(None, who).bundle_id,
{
    assert(trimmed(Seq::<char>::empty()).len() == 0);
}

/// An object is a window with a title where it is a frame, a window or a dialog and has a
/// name that is more than white space, which is its title; it is the active window where
/// it says so too.
pub proof fn law_windows_have_role_and_name(t: ToplevelView, name: Seq<char>)
    ensures
        t.name == Some(name) ==> t.title() == trimmed(name) && (t.is_named() <==> (t.role == Some(
            ObjectRole::Frame,
        ) || t.role == Some(ObjectRole::Window) || t.role == Some(ObjectRole::Dialog)) && trimmed(
            name,
        ).len() > 0),
        t.name is None ==> !t.is_named(),
        t.is_active() <==> t.is_named() && t.active == Some(true),
{
    assert(trimmed(Seq::<char>::empty()).len() == 0);
}

/// The title is that of the object itself where it is a window with one, and is empty
/// where neither it nor any child is.
pub proof fn law_title_of_the_object_counts_first(
    source: ToplevelView,
    children: Seq<ToplevelView>,
)
    ensures
        source.is_named() ==> title_of(source, children) == source.title(),
        !source.is_named() ==> title_of(source, children) == title_among(Seq::empty(), children),
        (forall|i: int| 0 <= i < children.len() ==> !(#[trigger] children[i]).is_named())
            ==> title_among(Seq::empty(), children).len() == 0,
{
    if forall|i: int| 0 <= i < children.len() ==> !(#[trigger] children[i]).is_named() {
        lemma_no_title(children);
    }
}

proof fn lemma_no_title(ts: Seq<ToplevelView>)
    requires
        forall|i: int| 0 <= i < ts.len() ==> !(#[trigger] ts[i]).is_named(),
    ensures
        title_among(Seq::empty(), ts).len() == 0,
    decreases ts.len(),
{
    if ts.len() > 0 {
        let rest = ts.drop_first();
        assert(!ts[0].is_named());
        assert forall|i: int| 0 <= i < rest.len() implies !(#[trigger] rest[i]).is_named() by {
            assert(!ts[i + 1].is_named());
        }
        lemma_no_title(rest);
    }
}

/// Windows, identities and applications on the bus are known by what they tell.
pub proof fn law_bus_views_tell_all(t: Toplevel, who: Identity, f: Found, ts: Seq<Toplevel>, i: int)
    ensures
        t@.role == t.role,
        t@.active == t.active,
        match t.name {
            Some(n) => t@.name == Some(n@),
            None => t@.name is None,
        },
        who@.app_name == who.app_name@,
        who@.bundle_id == who.bundle_id@,
        match f.own_name {
            Some(n) => f@ == running_of(Some(n@), f.who@),
            None => f@ == running_of(None, f.who@),
        },
        toplevels_view(ts).len() == ts.len(),
        0 <= i < ts.len() ==> toplevels_view(ts)[i] == ts[i]@,
{
}

/// The applications on the bus are taken one by one, in order.
pub proof fn law_found_apps_are_taken_in_order(apps: Seq<Found>, i: int)
    ensures
        found_view(apps).len() == apps.len(),
        0 <= i < apps.len() ==> found_view(apps)[i] == apps[i]@,
{
}

} // verus!
