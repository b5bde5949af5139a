//! What the helper does on the desktop: what it knows of applications, what every
//! backend offers, and how focus changes become events.

pub mod atspi_app;
pub mod atspi_sel;
pub mod gnome;
pub mod kwin;
pub mod stub;
pub mod uinput;
pub mod walk;
pub mod wl_clipboard;

use crate::json::Json;
use crate::proto::{request, request_view};
use crate::text::{decimal, decimal_text, outcome_view, same_text, text_view, texts};
use crate::text::{law_decimal_is_injective, lemma_decimal_has_digits};
use vstd::prelude::*;

verus! {

// ---------------------------------------------------------------------------
// Applications
// ---------------------------------------------------------------------------

/// The application that has the focus.
#[derive(Debug, PartialEq, Eq)]
pub struct ActiveApp {
    pub app_name: String,
    pub bundle_id: String,
    pub window_title: String,
    pub url: String,
}

/// An [`ActiveApp`] as a mathematical value.
#[verifier::ext_equal]
pub struct ActiveAppView {
    pub app_name: Seq<char>,
    pub bundle_id: Seq<char>,
    pub window_title: Seq<char>,
    pub url: Seq<char>,
}

impl ActiveAppView {
    /// Nothing is known of the application: neither its name, its id nor its title.
    pub open spec fn is_blank(self) -> bool {
        self.app_name.len() == 0 && self.bundle_id.len() == 0 && self.window_title.len() == 0
    }

    /// What tells one focus event from the next: the id and the title.
    pub open spec fn focus_key(self) -> Seq<char> {
        self.bundle_id + seq!['\u{1f}'] + self.window_title
    }
}

impl ActiveApp {
    /// The application as a mathematical value.
    pub open spec fn view(&self) -> ActiveAppView {
        ActiveAppView {
            app_name: self.app_name@,
            bundle_id: self.bundle_id@,
            window_title: self.window_title@,
            url: self.url@,
        }
    }

    /// Decides [`ActiveAppView::is_blank`].
    pub fn is_blank(&self) -> (r: bool)
        ensures
            r == self@.is_blank(),
    {
        self.app_name.as_str().is_empty() && self.bundle_id.as_str().is_empty()
            && self.window_title.as_str().is_empty()
    }

    fn focus_key(&self) -> (r: String)
        ensures
            r@ == self@.focus_key(),
    {
        let mut key = self.bundle_id.clone();
        key.push('\u{1f}');
        key.append(&self.window_title);
        assert(key@ =~= self@.focus_key());
        key
    }
}

impl Clone for ActiveApp {
    fn clone(&self) -> (r: ActiveApp)
        ensures
            r@ == self@,
    {
        ActiveApp {
            app_name: self.app_name.clone(),
            bundle_id: self.bundle_id.clone(),
            window_title: self.window_title.clone(),
            url: self.url.clone(),
        }
    }
}

impl Default for ActiveApp {
    /// An application of which nothing is known.
    fn default() -> (r: ActiveApp)
        ensures
            r@ == (ActiveAppView {
                app_name: Seq::empty(),
                bundle_id: Seq::empty(),
                window_title: Seq::empty(),
                url: Seq::empty(),
            }),
    {
        ActiveApp {
            app_name: String::new(),
            bundle_id: String::new(),
            window_title: String::new(),
            url: String::new(),
        }
    }
}

/// An application that may be missing.
pub open spec fn app_view(app: Option<ActiveApp>) -> Option<ActiveAppView> {
    match app {
        Some(a) => Some(a@),
        None => None,
    }
}

/// A running application.
#[derive(Debug, PartialEq, Eq)]
pub struct RunningApp {
    pub bundle_id: String,
    pub name: String,
}

/// A [`RunningApp`] as a mathematical value.
#[verifier::ext_equal]
pub struct RunningAppView {
    pub bundle_id: Seq<char>,
    pub name: Seq<char>,
}

impl RunningApp {
    /// The application as a mathematical value.
    pub open spec fn view(&self) -> RunningAppView {
        RunningAppView { bundle_id: self.bundle_id@, name: self.name@ }
    }
}

impl Clone for RunningApp {
    fn clone(&self) -> (r: RunningApp)
        ensures
            r@ == self@,
    {
        RunningApp { bundle_id: self.bundle_id.clone(), name: self.name.clone() }
    }
}

/// Running applications as mathematical values.
pub open spec fn apps_view(apps: Seq<RunningApp>) -> Seq<RunningAppView> {
    apps.map_values(|a: RunningApp| a@)
}

/// Some application of `apps` has the id `id`.
pub open spec fn has_bundle(apps: Seq<RunningAppView>, id: Seq<char>) -> bool {
    exists|i: int| 0 <= i < apps.len() && (#[trigger] apps[i]).bundle_id == id
}

/// `app` behind `apps`, unless its id is empty or among theirs.
pub open spec fn listed(apps: Seq<RunningAppView>, app: RunningAppView) -> Seq<RunningAppView> {
    if app.bundle_id.len() == 0 || has_bundle(apps, app.bundle_id) {
        apps
    } else {
        apps.push(app)
    }
}

/// The list of `found`: one entry for each id, the first, and none without an id.
pub open spec fn listed_all(found: Seq<RunningAppView>) -> Seq<RunningAppView>
    decreases found.len(),
{
    if found.len() == 0 {
        found
    } else {
        listed(listed_all(found.drop_last()), found.last())
    }
}

/// Adds an application to a list, unless its id is empty or in the list.
pub fn list_app(apps: &mut Vec<RunningApp>, app: RunningApp)
    ensures
        apps_view(final(apps)@) == listed(apps_view(old(apps)@), app@),
{
    if app.bundle_id.as_str().is_empty() {
        return;
    }
    let mut i: usize = 0;
    while i < apps.len()
        invariant
            i <= apps.len(),
            apps@ == old(apps)@,
            forall|j: int| 0 <= j < i ==> (#[trigger] apps_view(apps@)[j]).bundle_id != app@.bundle_id,
        decreases apps.len() - i,
    {
        if same_text(&apps[i].bundle_id, &app.bundle_id) {
            assert(apps_view(apps@)[i as int].bundle_id == app@.bundle_id);
            return;
        }
        i += 1;
    }
    apps.push(app);
    assert(apps_view(apps@) =~= apps_view(old(apps)@).push(app@));
}

/// A list of applications has no id twice and no empty id, and it has every other
/// id that was found.
pub proof fn law_list_has_each_app_once(found: Seq<RunningAppView>)
    ensures
        forall|i: int, j: int|
            0 <= i < j < listed_all(found).len() ==> (#[trigger] listed_all(found)[i]).bundle_id
                != (#[trigger] listed_all(found)[j]).bundle_id,
        forall|i: int|
            0 <= i < listed_all(found).len() ==> (#[trigger] listed_all(found)[i]).bundle_id.len()
                > 0 && found.contains(listed_all(found)[i]),
        forall|i: int|
            0 <= i < found.len() && (#[trigger] found[i]).bundle_id.len() > 0 ==> has_bundle(
                listed_all(found),
                found[i].bundle_id,
            ),
    decreases found.len(),
{
    if found.len() > 0 {
        let before = found.drop_last();
        let old_list = listed_all(before);
        let list = listed_all(found);
        law_list_has_each_app_once(before);
        assert forall|i: int| 0 <= i < list.len() implies (#[trigger] list[i]).bundle_id.len() > 0
            && found.contains(list[i]) by {
            if i < old_list.len() {
                assert(list[i] == old_list[i]);
                let k = choose|k: int| 0 <= k < before.len() && before[k] == old_list[i];
                assert(found[k] == list[i]);
            } else {
                assert(found[found.len() - 1] == list[i]);
            }
        }
        assert forall|i: int| 0 <= i < found.len() && (#[trigger] found[i]).bundle_id.len()
            > 0 implies has_bundle(list, found[i].bundle_id) by {
            let id = found[i].bundle_id;
            if i < before.len() {
                assert(before[i].bundle_id == id);
            }
            if has_bundle(old_list, id) {
                let k = choose|k: int| 0 <= k < old_list.len() && (#[trigger] old_list[k]).bundle_id == id;
                assert(list[k].bundle_id == id);
            } else {
                assert(list[list.len() - 1].bundle_id == id);
            }
        }
    }
}

/// Text that is selected, with what lies round it.
#[derive(Debug, PartialEq, Eq)]
pub struct Selection {
    pub selected_text: String,
    pub contents: String,
    pub before_text: String,
    pub after_text: String,
}

/// A [`Selection`] as a mathematical value.
#[verifier::ext_equal]
pub struct SelectionView {
    pub selected_text: Seq<char>,
    pub contents: Seq<char>,
    pub before_text: Seq<char>,
    pub after_text: Seq<char>,
}

impl Selection {
    /// The selection as a mathematical value.
    pub open spec fn view(&self) -> SelectionView {
        SelectionView {
            selected_text: self.selected_text@,
            contents: self.contents@,
            before_text: self.before_text@,
            after_text: self.after_text@,
        }
    }
}

impl Default for Selection {
    /// Nothing is selected.
    fn default() -> (r: Selection)
        ensures
            r@ == (SelectionView {
                selected_text: Seq::empty(),
                contents: Seq::empty(),
                before_text: Seq::empty(),
                after_text: Seq::empty(),
            }),
    {
        Selection {
            selected_text: String::new(),
            contents: String::new(),
            before_text: String::new(),
            after_text: String::new(),
        }
    }
}

// ---------------------------------------------------------------------------
// Backends
// ---------------------------------------------------------------------------

/// What a backend is asked.
#[verifier::ext_equal]
pub enum Asked {
    /// To paste a text, with a rich form of it where there is one.
    Paste { text: Seq<char>, html: Option<Seq<char>> },
    /// To press a key with modifiers.
    Press { keycode: u32, flags: Seq<Seq<char>> },
    /// The application that has the focus.
    ActiveApp,
    /// The running applications.
    RunningApps,
    /// The text that is selected.
    SelectedText,
    /// Whether accessibility services answer.
    Status,
    /// To turn focus events on or off.
    FocusDetection(bool),
}

/// What a backend says.
#[verifier::ext_equal]
pub enum Said {
    Done(Result<(), Seq<char>>),
    App(Result<ActiveAppView, Seq<char>>),
    Apps(Result<Seq<RunningAppView>, Seq<char>>),
    Text(Result<SelectionView, Seq<char>>),
    Status(bool),
    Nothing,
}

/// A borrowed text that may be missing.
pub open spec fn str_view(t: Option<&str>) -> Option<Seq<char>> {
    match t {
        Some(s) => Some(s@),
        None => None,
    }
}

/// An application, or an error whose message is a text.
pub open spec fn found_app_view(r: Result<ActiveApp, String>) -> Result<ActiveAppView, Seq<char>> {
    match r {
        Ok(a) => Ok(a@),
        Err(e) => Err(e@),
    }
}

/// Applications, or an error whose message is a text.
pub open spec fn found_apps_view(r: Result<Vec<RunningApp>, String>) -> Result<
    Seq<RunningAppView>,
    Seq<char>,
> {
    match r {
        Ok(apps) => Ok(apps_view(apps@)),
        Err(e) => Err(e@),
    }
}

/// A selection, or an error whose message is a text.
pub open spec fn found_selection_view(r: Result<Selection, String>) -> Result<
    SelectionView,
    Seq<char>,
> {
    match r {
        Ok(s) => Ok(s@),
        Err(e) => Err(e@),
    }
}

/// What every backend offers. A backend works on a desktop that may refuse: what it
/// may say, and what becomes of it, each backend states for itself.
pub trait Backend {
    /// The backend, asked `asked`, may say `said` and become `after`. Of a backend
    /// that states nothing, anything may be expected.
    open spec fn may(&self, asked: Asked, said: Said, after: &Self) -> bool {
        true
    }

    /// Pastes a text, with a rich form of it where there is one.
    fn paste_text(&mut self, text: &str, html: Option<&str>) -> (r: Result<(), String>)
        ensures
            old(self).may(
                Asked::Paste { text: text@, html: str_view(html) },
                Said::Done(outcome_view(r)),
                &*final(self),
            ),
    ;

    /// Presses a key, given by its Windows virtual-key code, with modifiers.
    fn simulate_key_press(&mut self, keycode_vk: u32, flags: &[String]) -> (r: Result<(), String>)
        ensures
            old(self).may(
                Asked::Press { keycode: keycode_vk, flags: texts(flags@) },
                Said::Done(outcome_view(r)),
                &*final(self),
            ),
    ;

    /// The application that has the focus.
    fn get_active_app(&mut self) -> (r: Result<ActiveApp, String>)
        ensures
            old(self).may(Asked::ActiveApp, Said::App(found_app_view(r)), &*final(self)),
    ;

    /// The running applications.
    fn get_running_apps(&mut self) -> (r: Result<Vec<RunningApp>, String>)
        ensures
            old(self).may(Asked::RunningApps, Said::Apps(found_apps_view(r)), &*final(self)),
    ;

    /// The text that is selected.
    fn get_selected_text(&mut self) -> (r: Result<Selection, String>)
        ensures
            old(self).may(Asked::SelectedText, Said::Text(found_selection_view(r)), &*final(self)),
    ;

    /// Whether accessibility services answer.
    fn accessibility_status(&mut self) -> (r: bool)
        ensures
            old(self).may(Asked::Status, Said::Status(r), &*final(self)),
    ;

    /// Turns focus events on or off.
    fn set_focus_detection(&mut self, active: bool)
        ensures
            old(self).may(Asked::FocusDetection(active), Said::Nothing, &*final(self)),
    ;

    /// The name of the backend.
    fn name(&self) -> &'static str;
}

// ---------------------------------------------------------------------------
// Focus events
// ---------------------------------------------------------------------------

/// A focus change that is to be sent, with the uuid of its message.
#[derive(Debug)]
pub struct FocusEvent {
    pub app: ActiveApp,
    pub uuid: String,
}

/// A [`FocusEvent`] as a mathematical value.
#[verifier::ext_equal]
pub struct FocusEventView {
    pub app: ActiveAppView,
    pub uuid: Seq<char>,
}

impl FocusEvent {
    /// The event as a mathematical value.
    pub open spec fn view(&self) -> FocusEventView {
        FocusEventView { app: self.app@, uuid: self.uuid@ }
    }

    /// The message of the event with a body.
    pub fn message(&self, body: Json) -> (r: Json)
        ensures
            r@ == request_view("AppInfoUpdate"@, body@, self.uuid@),
    {
        request("AppInfoUpdate", body, &self.uuid)
    }

    /// The message of the event, with the application of the event described by
    /// `describe`.
    pub fn described_message<D: Fn(&ActiveApp) -> Json>(&self, describe: D) -> (r: Json)
        requires
            call_requires(describe, (&self.app,)),
        ensures
            exists|b: Json| #[trigger]
                call_ensures(describe, (&self.app,), b) && r@ == request_view(
                    "AppInfoUpdate"@,
                    b@,
                    self.uuid@,
                ),
    {
        let body = describe(&self.app);
        self.message(body)
    }
}

/// A focus event that may be missing.
pub open spec fn event_view(e: Option<FocusEvent>) -> Option<FocusEventView> {
    match e {
        Some(e) => Some(e@),
        None => None,
    }
}

/// What trackers of the focus know, as a mathematical value.
#[verifier::ext_equal]
pub struct SharedView {
    /// The application that had the focus last.
    pub cache: Option<ActiveAppView>,
    /// Whether focus changes are sent.
    pub focus_active: bool,
    /// What told the last event that was sent from others.
    pub last_emitted: Option<Seq<char>>,
    /// The number of the next event.
    pub counter: u64,
    /// The process that sends them.
    pub pid: u32,
}

/// The uuid of the event `n` of the process `pid`.
pub open spec fn event_uuid(pid: u32, n: u64) -> Seq<char> {
    "evt-"@ + decimal(pid as nat) + "-"@ + decimal(n as nat)
}

/// The number behind `n`; behind the largest comes 0.
pub open spec fn next_number(n: u64) -> u64 {
    if n == u64::MAX {
        0
    } else {
        (n + 1) as u64
    }
}

impl SharedView {
    /// Nothing is sent yet, and `seed` has the focus.
    pub open spec fn start(seed: Option<ActiveAppView>, pid: u32) -> SharedView {
        SharedView { cache: seed, focus_active: false, last_emitted: None, counter: 0, pid }
    }

    /// The event for `app` is sent, unless it repeats the last one.
    pub open spec fn emit(self, app: ActiveAppView) -> (SharedView, Option<FocusEventView>) {
        if self.last_emitted == Some(app.focus_key()) {
            (self, None)
        } else {
            (
                SharedView {
                    last_emitted: Some(app.focus_key()),
                    counter: next_number(self.counter),
                    ..self
                },
                Some(FocusEventView { app, uuid: event_uuid(self.pid, self.counter) }),
            )
        }
    }

    /// `app` got the focus.
    pub open spec fn on_focus(self, app: ActiveAppView) -> (SharedView, Option<FocusEventView>) {
        let seen = SharedView { cache: Some(app), ..self };
        if self.focus_active {
            seen.emit(app)
        } else {
            (seen, None)
        }
    }

    /// Focus events were turned on or off. Turning them on sends what has the
    /// focus; turning them off forgets what was sent.
    pub open spec fn set_focus_detection(self, active: bool) -> (
        SharedView,
        Option<FocusEventView>,
    ) {
        let set = SharedView { focus_active: active, ..self };
        if active {
            match self.cache {
                Some(app) => set.emit(app),
                None => (set, None),
            }
        } else {
            (SharedView { last_emitted: None, ..set }, None)
        }
    }
}

/// What trackers of the focus know, and what they have sent.
pub struct Shared {
    cache: Option<ActiveApp>,
    focus_active: bool,
    last_emitted: Option<String>,
    counter: u64,
    pid: u32,
}

impl Shared {
    /// The state as a mathematical value.
    pub closed spec fn view(&self) -> SharedView {
        SharedView {
            cache: app_view(self.cache),
            focus_active: self.focus_active,
            last_emitted: text_view(self.last_emitted),
            counter: self.counter,
            pid: self.pid,
        }
    }

    /// Begins with the application that has the focus, where it is known.
    pub fn new(seed: Option<ActiveApp>, pid: u32) -> (r: Shared)
        ensures
            r@ == SharedView::start(app_view(seed), pid),
    {
        Shared { cache: seed, focus_active: false, last_emitted: None, counter: 0, pid }
    }

    /// The application that had the focus last.
    pub fn current(&self) -> (r: Option<ActiveApp>)
        ensures
            app_view(r) == self@.cache,
    {
        match &self.cache {
            Some(a) => Some(a.clone()),
            None => None,
        }
    }

    /// Notes what has the focus, without an event.
    pub fn remember(&mut self, app: ActiveApp)
        ensures
            final(self)@ == (SharedView { cache: Some(app@), ..old(self)@ }),
    {
        self.cache = Some(app);
    }

    fn emit(&mut self, app: ActiveApp) -> (r: Option<FocusEvent>)
        ensures
            final(self)@ == old(self)@.emit(app@).0,
            event_view(r) == old(self)@.emit(app@).1,
    {
        let key = app.focus_key();
        if let Some(last) = &self.last_emitted {
            if same_text(last, &key) {
                return None;
            }
        }
        self.last_emitted = Some(key);
        let mut uuid = "evt-".to_owned();
        uuid.append(&decimal_text(self.pid as u64));
        uuid.append("-");
        uuid.append(&decimal_text(self.counter));
        self.counter = if self.counter == u64::MAX {
            0
        } else {
            self.counter + 1
        };
        Some(FocusEvent { app, uuid })
    }

    /// Notes that an application got the focus. The event that comes back, if any,
    /// is to be sent, and tells of that application.
    pub fn on_focus(&mut self, app: ActiveApp) -> (r: Option<FocusEvent>)
        ensures
            r matches Some(e) ==> e.app.app_name@ == app.app_name@ && e.app.bundle_id@
                == app.bundle_id@ && e.app.window_title@ == app.window_title@ && e.app.url@
                == app.url@,
            final(self)@ == old(self)@.on_focus(app@).0,
            event_view(r) == old(self)@.on_focus(app@).1,
    {
        self.cache = Some(app.clone());
        if self.focus_active {
            self.emit(app)
        } else {
            None
        }
    }

    /// Turns focus events on or off. The event that comes back, if any, is to be
    /// sent.
    pub fn set_focus_detection(&mut self, active: bool) -> (r: Option<FocusEvent>)
        ensures
            final(self)@ == old(self)@.set_focus_detection(active).0,
            event_view(r) == old(self)@.set_focus_detection(active).1,
    {
        self.focus_active = active;
        if active {
            match self.current() {
                Some(app) => self.emit(app),
                None => None,
            }
        } else {
            self.last_emitted = None;
            None
        }
    }
}

/// No event is sent while focus events are off.
pub proof fn law_no_event_while_off(s: SharedView, app: ActiveAppView)
    requires
        !s.focus_active,
    ensures
        s.on_focus(app).1 is None,
        s.set_focus_detection(false).1 is None,
{
}

/// The id and the title of an application make up what tells its focus event from
/// others: where no id holds the separator, two of them are equal only if both are.
pub proof fn law_focus_key_tells_apart(a: ActiveAppView, b: ActiveAppView)
    requires
        !a.bundle_id.contains('\u{1f}'),
        !b.bundle_id.contains('\u{1f}'),
    ensures
        a.focus_key() == b.focus_key() <==> a.bundle_id == b.bundle_id && a.window_title
            == b.window_title,
{
    let x = a.focus_key();
    let y = b.focus_key();
    if x == y {
        let m = a.bundle_id.len() as int;
        let n = b.bundle_id.len() as int;
        assert(x[m] == '\u{1f}');
        assert(y[n] == '\u{1f}');
        if m < n {
            assert(y[m] == b.bundle_id[m]);
        }
        if n < m {
            assert(x[n] == a.bundle_id[n]);
        }
        assert(x.take(m) =~= a.bundle_id);
        assert(y.take(n) =~= b.bundle_id);
        assert(x.skip(m + 1) =~= a.window_title);
        assert(y.skip(n + 1) =~= b.window_title);
    }
}

/// While focus events are on, a focus change is sent if and only if what tells it
/// from others differs from that of the last event.
pub proof fn law_event_exactly_on_change(s: SharedView, a: ActiveAppView, b: ActiveAppView)
    requires
        s.focus_active,
    ensures
        s.on_focus(a).0.on_focus(b).1 is Some <==> a.focus_key() != b.focus_key(),
        s.on_focus(a).0.cache == Some(a),
        s.on_focus(a).0.focus_active,
{
}

/// A fresh subscriber is sent what has the focus: after focus events were off,
/// turning them on sends an event for the application that had the focus last.
pub proof fn law_turning_on_sends_the_focus(s: SharedView, app: ActiveAppView)
    requires
        s.cache == Some(app),
    ensures
        s.set_focus_detection(false).0.set_focus_detection(true).1 == Some(
            FocusEventView { app, uuid: event_uuid(s.pid, s.counter) },
        ),
{
}

/// Events with different numbers, or of different processes, have different uuids.
pub proof fn law_event_uuids_differ(p: u32, m: u64, q: u32, n: u64)
    requires
        event_uuid(p, m) == event_uuid(q, n),
    ensures
        p == q,
        m == n,
{
    reveal_strlit("evt-");
    reveal_strlit("-");
    let x = event_uuid(p, m);
    let y = event_uuid(q, n);
    let a = decimal(p as nat);
    let b = decimal(q as nat);
    let k = a.len() as int;
    let l = b.len() as int;
    lemma_decimal_has_digits(p as nat);
    lemma_decimal_has_digits(q as nat);
    assert(x[4 + k] == '-');
    assert(y[4 + l] == '-');
    if k < l {
        assert(y[4 + k] == b[k]);
    }
    if l < k {
        assert(x[4 + l] == a[l]);
    }
    assert(x.subrange(4, 4 + k) =~= a);
    assert(y.subrange(4, 4 + l) =~= b);
    assert(x.skip(5 + k) =~= decimal(m as nat));
    assert(y.skip(5 + l) =~= decimal(n as nat));
    law_decimal_is_injective(p as nat, q as nat);
    law_decimal_is_injective(m as nat, n as nat);
}

/// Each event takes the next number, and nothing else does.
pub proof fn law_events_are_numbered(s: SharedView, app: ActiveAppView, active: bool)
    ensures
        match s.on_focus(app) {
            (t, Some(e)) => e.uuid == event_uuid(s.pid, s.counter) && t.counter == next_number(
                s.counter,
            ) && t.pid == s.pid,
            (t, None) => t.counter == s.counter && t.pid == s.pid,
        },
        match s.set_focus_detection(active) {
            (t, Some(e)) => e.uuid == event_uuid(s.pid, s.counter) && t.counter == next_number(
                s.counter,
            ) && t.pid == s.pid,
            (t, None) => t.counter == s.counter && t.pid == s.pid,
        },
{
}

/// An application is known by its name, its id, the title of its window and its
/// address; a running one by its id and its name; a selection by its four texts; an
/// event by its application and its uuid.
pub proof fn law_backend_views_tell_all(
    a: ActiveApp,
    r: RunningApp,
    s: Selection,
    e: FocusEvent,
)
    ensures
        a@.app_name == a.app_name@,
        a@.bundle_id == a.bundle_id@,
        a@.window_title == a.window_title@,
        a@.url == a.url@,
        r@.bundle_id == r.bundle_id@,
        r@.name == r.name@,
        s@.selected_text == s.selected_text@,
        s@.contents == s.contents@,
        s@.before_text == s.before_text@,
        s@.after_text == s.after_text@,
        e@.app.app_name == e.app.app_name@,
        e@.app.bundle_id == e.app.bundle_id@,
        e@.app.window_title == e.app.window_title@,
        e@.app.url == e.app.url@,
        e@.uuid == e.uuid@,
{
}

/// What may be missing, or may have failed, is known as far as it is there, and lists
/// are known one by one.
pub proof fn law_found_views_tell_all(
    app: Option<ActiveApp>,
    found: Result<ActiveApp, String>,
    apps: Result<Vec<RunningApp>, String>,
    selection: Result<Selection, String>,
    event: Option<FocusEvent>,
    html: Option<&str>,
)
    ensures
        match app {
            Some(a) => app_view(app) == Some(a@),
            None => app_view(app) is None,
        },
        match found {
            Ok(a) => found_app_view(found) == Ok::<ActiveAppView, Seq<char>>(a@),
            Err(e) => found_app_view(found) == Err::<ActiveAppView, Seq<char>>(e@),
        },
        match apps {
            Ok(list) => found_apps_view(apps) matches Ok(v) && v.len() == list@.len() && forall|i: int|
                0 <= i < v.len() ==> #[trigger] v[i] == list@[i]@,
            Err(e) => found_apps_view(apps) == Err::<Seq<RunningAppView>, Seq<char>>(e@),
        },
        match selection {
            Ok(s) => found_selection_view(selection) == Ok::<SelectionView, Seq<char>>(s@),
            Err(e) => found_selection_view(selection) == Err::<SelectionView, Seq<char>>(e@),
        },
        match event {
            Some(e) => event_view(event) == Some(e@),
            None => event_view(event) is None,
        },
        match html {
            Some(h) => str_view(html) == Some(h@),
            None => str_view(html) is None,
        },
{
}

/// Nothing is known of an application exactly where its name, its id and its title are
/// empty.
pub proof fn law_blank_has_neither_name_id_nor_title(a: ActiveAppView)
    ensures
        a.is_blank() <==> a.app_name == Seq::<char>::empty() && a.bundle_id == Seq::<char>::empty()
            && a.window_title == Seq::<char>::empty(),
{
    if a.is_blank() {
        assert(a.app_name =~= Seq::empty());
        assert(a.bundle_id =~= Seq::empty());
        assert(a.window_title =~= Seq::empty());
    }
}

/// An event tells of the application that got the focus, whichever had it before; one
/// that is sent when events are turned on tells of the application that has it.
pub proof fn law_event_tells_of_its_application(s: SharedView, app: ActiveAppView, active: bool)
    ensures
        s.on_focus(app).1 matches Some(e) ==> e.app.app_name == app.app_name && e.app.bundle_id
            == app.bundle_id && e.app.window_title == app.window_title && e.app.url == app.url,
        s.set_focus_detection(active).1 matches Some(e) ==> s.cache == Some(e.app),
{
}

/// While events are on, a change of the focus is sent unless the last event had the same
/// id and title, joined by the separator; so the first one always is. Whether or not
/// anything is sent, the application is the one that has the focus from then on, and
/// events stay on or off.
pub proof fn law_focus_change_is_sent(s: SharedView, app: ActiveAppView)
    ensures
        s.on_focus(app).1 is Some <==> s.focus_active && s.last_emitted != Some(
            app.bundle_id + seq!['\u{1f}'] + app.window_title,
        ),
        s.on_focus(app).0.cache == Some(app),
        s.on_focus(app).0.focus_active == s.focus_active,
        s.on_focus(app).0.pid == s.pid,
        s.on_focus(app).0.last_emitted == if s.focus_active {
            Some(app.bundle_id + seq!['\u{1f}'] + app.window_title)
        } else {
            s.last_emitted
        },
{
}

/// Turning events on or off does just that: it does not change what has the focus, and
/// only turning them off forgets what was sent. Turned on, they begin with what has the
/// focus, where that is known and was not the last to be sent.
pub proof fn law_detection_is_set(s: SharedView, active: bool)
    ensures
        s.set_focus_detection(active).0.focus_active == active,
        s.set_focus_detection(active).0.cache == s.cache,
        s.set_focus_detection(active).0.pid == s.pid,
        s.set_focus_detection(false).0.last_emitted is None,
        s.set_focus_detection(true).1 is Some <==> (s.cache matches Some(app) && s.last_emitted
            != Some(app.bundle_id + seq!['\u{1f}'] + app.window_title)),
        s.set_focus_detection(true).0.last_emitted == match s.cache {
            Some(app) => Some(app.bundle_id + seq!['\u{1f}'] + app.window_title),
            None => s.last_emitted,
        },
{
}

/// A tracker starts with what has the focus, with events off and nothing sent.
pub proof fn law_tracker_starts_off(seed: Option<ActiveAppView>, pid: u32)
    ensures
        SharedView::start(seed, pid).cache == seed,
        !SharedView::start(seed, pid).focus_active,
        SharedView::start(seed, pid).last_emitted is None,
        SharedView::start(seed, pid).counter == 0,
        SharedView::start(seed, pid).pid == pid,
{
}

/// The uuid of an event names its process and its number, and numbers go up by one, round
/// the range of 64 bits.
pub proof fn law_event_uuid_names_process_and_number(pid: u32, n: u64)
    ensures
        event_uuid(pid, n) == "evt-"@ + decimal(pid as nat) + "-"@ + decimal(n as nat),
        next_number(n) as int == (n + 1) % 0x1_0000_0000_0000_0000,
{
}

/// A list of applications keeps, in the order in which they were found, exactly those
/// that have an id and are the first with it.
pub proof fn law_list_keeps_the_first_of_each(found: Seq<RunningAppView>) -> (places: Seq<int>)
    ensures
        places.len() == listed_all(found).len(),
        forall|i: int|
            0 <= i < places.len() ==> 0 <= #[trigger] places[i] < found.len() && listed_all(
                found,
            )[i] == found[places[i]],
        forall|i: int, j: int|
            0 <= i < j < places.len() ==> #[trigger] places[i] < #[trigger] places[j],
        forall|k: int|
            0 <= k < found.len() ==> (places.contains(k) <==> (#[trigger] found[k]).bundle_id.len() > 0
                && forall|j: int| 0 <= j < k ==> (#[trigger] found[j]).bundle_id != found[k].bundle_id),
    decreases found.len(),
{
    if found.len() == 0 {
        Seq::empty()
    } else {
        let before = found.drop_last();
        let last = found.last();
        let n = before.len() as int;
        let old_places = law_list_keeps_the_first_of_each(before);
        let old_list = listed_all(before);
        law_list_has_each_app_once(before);
        let added = !(last.bundle_id.len() == 0 || has_bundle(old_list, last.bundle_id));
        let places = if added {
            old_places.push(n)
        } else {
            old_places
        };
        assert forall|i: int| 0 <= i < places.len() implies 0 <= #[trigger] places[i] < found.len()
            && listed_all(found)[i] == found[places[i]] by {
            if i < old_places.len() {
                assert(old_list[i] == before[old_places[i]]);
            }
        }
        assert forall|k: int| 0 <= k < found.len() implies (places.contains(k) <==> (
        #[trigger] found[k]).bundle_id.len() > 0 && forall|j: int|
            0 <= j < k ==> (#[trigger] found[j]).bundle_id != found[k].bundle_id) by {
            assert(places.contains(k) <==> old_places.contains(k) || (added && k == n)) by {
                if old_places.contains(k) {
                    let i = choose|i: int| 0 <= i < old_places.len() && old_places[i] == k;
                    assert(places[i] == k);
                }
                if added {
                    assert(places[old_places.len() as int] == n);
                }
            }
            if k < n {
                assert(before[k] == found[k]);
                assert(forall|j: int| 0 <= j < k ==> before[j] == #[trigger] found[j]);
                if forall|j: int| 0 <= j < k ==> (#[trigger] found[j]).bundle_id != found[k].bundle_id {
                    assert forall|j: int| 0 <= j < k implies (#[trigger] before[j]).bundle_id
                        != before[k].bundle_id by {
                        assert(found[j].bundle_id != found[k].bundle_id);
                    }
                } else {
                    let j = choose|j: int|
                        0 <= j < k && (#[trigger] found[j]).bundle_id == found[k].bundle_id;
                    assert(before[j].bundle_id == before[k].bundle_id);
                }
            } else {
                assert(!old_places.contains(n));
                if last.bundle_id.len() > 0 {
                    if has_bundle(old_list, last.bundle_id) {
                        let i = choose|i: int|
                            0 <= i < old_list.len() && (#[trigger] old_list[i]).bundle_id
                                == last.bundle_id;
                        assert(found[old_places[i]].bundle_id == last.bundle_id);
                    } else {
                        assert forall|j: int| 0 <= j < n implies (#[trigger] found[j]).bundle_id
                            != found[n].bundle_id by {
                            assert(before[j] == found[j]);
                            if found[j].bundle_id == last.bundle_id {
                                assert(has_bundle(old_list, before[j].bundle_id));
                            }
                        }
                    }
                }
            }
        }
        places
    }
}

/// One application is added to a list by the same rule as all: behind the others, unless
/// its id is empty or one of theirs.
pub proof fn law_application_is_listed_once(apps: Seq<RunningAppView>, app: RunningAppView)
    ensures
        listed_all(Seq::empty()).len() == 0,
        listed_all(apps.push(app)) == listed(listed_all(apps), app),
        app.bundle_id.len() == 0 ==> listed(apps, app) == apps,
        (exists|i: int| 0 <= i < apps.len() && (#[trigger] apps[i]).bundle_id == app.bundle_id)
            ==> listed(apps, app) == apps,
        app.bundle_id.len() > 0 && (forall|i: int|
            0 <= i < apps.len() ==> (#[trigger] apps[i]).bundle_id != app.bundle_id) ==> listed(
            apps,
            app,
        ) == apps.push(app),
{
    assert(apps.push(app).drop_last() =~= apps);
}

/// Running applications are known one by one.
pub proof fn law_running_app_views_tell_all(apps: Seq<RunningApp>, i: int)
    ensures
        apps_view(apps).len() == apps.len(),
        0 <= i < apps.len() ==> apps_view(apps)[i] == apps[i]@,
{
}

} // verus!
