//! The focus on GNOME, through an extension of the shell.
//!
//! The extension answers with the focused window as a JSON object
//! `{appId, title, pid, wmClass}` and with the list of windows as an array of such
//! objects. It runs inside the shell, which loads extensions only when a session
//! starts.

use super::{app_view, apps_view, event_view, list_app, listed_all};
use super::{ActiveApp, ActiveAppView, FocusEvent, RunningApp, RunningAppView};
use super::{Shared, SharedView};
use crate::json::{json_parsed, lemma_items_view, read_items, Json, JsonView};
use crate::text::{cat, chars_of, ends_with_text, outcome_view, same_text, stands_at, text_of};
use crate::text::{text_view, texts, trim_text, trimmed};
use vstd::prelude::*;
use vstd::utf8::encode_utf8;

verus! {

/// The name of the extension, and of its directory.
pub const EXT_UUID: &'static str = "wispr-flow-window-bridge@wispr.flow";

// ---------------------------------------------------------------------------
// Installing
// ---------------------------------------------------------------------------

/// The path `part` below `base`.
pub open spec fn below(base: Seq<u8>, part: Seq<u8>) -> Seq<u8> {
    if base.len() == 0 || base.last() == 0x2f {
        base + part
    } else {
        base.push(0x2f) + part
    }
}

fn path_below(base: Vec<u8>, part: &str) -> (r: Vec<u8>)
    ensures
        r@ == below(base@, encode_utf8(part@)),
{
    let mut r = base;
    if r.len() > 0 && r[r.len() - 1] != 0x2f {
        r.push(0x2f);
    }
    let bytes = part.as_bytes();
    let ghost head = r@;
    let mut i: usize = 0;
    while i < bytes.len()
        invariant
            i <= bytes.len(),
            r@ == head + bytes@.take(i as int),
        decreases bytes.len() - i,
    {
        r.push(bytes[i]);
        i += 1;
        assert(r@ =~= head + bytes@.take(i as int));
    }
    assert(bytes@.take(i as int) =~= bytes@);
    r
}

/// The directory for data, by what `XDG_DATA_HOME` and `HOME` hold.
pub open spec fn data_dir(xdg: Option<Seq<u8>>, home: Option<Seq<u8>>) -> Option<Seq<u8>> {
    match xdg {
        Some(x) if x.len() > 0 => Some(x),
        _ => match home {
            Some(h) => Some(below(h, encode_utf8(".local/share"@))),
            None => None,
        },
    }
}

/// The bytes of a path that may be missing.
pub open spec fn bytes_view(b: Option<Vec<u8>>) -> Option<Seq<u8>> {
    match b {
        Some(v) => Some(v@),
        None => None,
    }
}

/// The directory of the extension, as bytes of a path, by what `XDG_DATA_HOME` and
/// `HOME` hold. An empty `XDG_DATA_HOME` counts as missing.
pub fn extension_dir(xdg: Option<Vec<u8>>, home: Option<Vec<u8>>) -> (r: Option<Vec<u8>>)
    ensures
        bytes_view(r) == match data_dir(bytes_view(xdg), bytes_view(home)) {
            Some(base) => Some(
                below(
                    below(base, encode_utf8("gnome-shell/extensions"@)),
                    encode_utf8(EXT_UUID@),
                ),
            ),
            None => None,
        },
{
    let given = match xdg {
        Some(x) => if x.len() > 0 {
            Some(x)
        } else {
            None
        },
        None => None,
    };
    let base = match given {
        Some(x) => x,
        None => match home {
            Some(h) => path_below(h, ".local/share"),
            None => {
                return None;
            },
        },
    };
    Some(path_below(path_below(base, "gnome-shell/extensions"), EXT_UUID))
}

/// Whether the files of the extension, as they are installed, are those that come
/// with the helper.
pub fn is_up_to_date(
    installed_metadata: Option<String>,
    installed_script: Option<String>,
    metadata: &str,
    script: &str,
) -> (r: bool)
    ensures
        r == (text_view(installed_metadata) == Some(metadata@) && text_view(installed_script)
            == Some(script@)),
{
    match (installed_metadata, installed_script) {
        (Some(m), Some(s)) => same_text(&m, metadata) && same_text(&s, script),
        _ => false,
    }
}

/// What is to be done next to install the extension.
#[derive(Debug, Clone, Copy, PartialEq, Eq, Structural)]
pub enum InstallStep {
    /// Create its directory.
    CreateDir,
    /// Write its metadata.
    WriteMetadata,
    /// Write its script.
    WriteScript,
    /// Nothing; whether anything was written.
    Done(bool),
}

/// Begins to install the extension: where its directory is known, and its files are
/// not up to date.
pub fn ensure_installed(dir_known: bool, up_to_date: bool) -> (r: Result<InstallStep, String>)
    ensures
        match r {
            Ok(step) => dir_known && step == if up_to_date {
                InstallStep::Done(false)
            } else {
                InstallStep::CreateDir
            },
            Err(e) => !dir_known && e@ == "cannot resolve extensions dir (no HOME)"@,
        },
{
    if !dir_known {
        Err("cannot resolve extensions dir (no HOME)".to_owned())
    } else if up_to_date {
        Ok(InstallStep::Done(false))
    } else {
        Ok(InstallStep::CreateDir)
    }
}

impl InstallStep {
    /// What follows the outcome of the step, in the directory `dir`.
    pub open spec fn after(self, dir: Seq<char>, outcome: Result<(), Seq<char>>) -> Result<
        InstallStep,
        Seq<char>,
    > {
        match (self, outcome) {
            (InstallStep::Done(_), _) => Ok(self),
            (InstallStep::CreateDir, Ok(_)) => Ok(InstallStep::WriteMetadata),
            (InstallStep::CreateDir, Err(e)) => Err("create "@ + dir + ": "@ + e),
            (InstallStep::WriteMetadata, Ok(_)) => Ok(InstallStep::WriteScript),
            (InstallStep::WriteMetadata, Err(e)) => Err("write metadata.json: "@ + e),
            (InstallStep::WriteScript, Ok(_)) => Ok(InstallStep::Done(true)),
            (InstallStep::WriteScript, Err(e)) => Err("write extension.js: "@ + e),
        }
    }

    /// Takes the outcome of the step, in the directory `dir`.
    pub fn took(self, dir: &str, outcome: Result<(), String>) -> (r: Result<InstallStep, String>)
        ensures
            match r {
                Ok(step) => self.after(dir@, outcome_view(outcome)) matches Ok(s) && s == step,
                Err(e) => self.after(dir@, outcome_view(outcome)) matches Err(m) && m == e@,
            },
    {
        match outcome {
            Ok(_) => Ok(
                match self {
                    InstallStep::CreateDir => InstallStep::WriteMetadata,
                    InstallStep::WriteMetadata => InstallStep::WriteScript,
                    InstallStep::WriteScript => InstallStep::Done(true),
                    InstallStep::Done(written) => InstallStep::Done(written),
                },
            ),
            Err(e) => match self {
                InstallStep::CreateDir => {
                    let mut m = cat("create ", dir);
                    m.append(": ");
                    m.append(&e);
                    Err(m)
                },
                InstallStep::WriteMetadata => Err(cat("write metadata.json: ", &e)),
                InstallStep::WriteScript => Err(cat("write extension.js: ", &e)),
                InstallStep::Done(written) => Ok(InstallStep::Done(written)),
            },
        }
    }
}

/// A program to run, with its arguments.
#[derive(Debug, PartialEq, Eq)]
pub struct Command {
    pub program: String,
    pub args: Vec<String>,
}

/// A [`Command`] as a mathematical value.
#[verifier::ext_equal]
pub struct CommandView {
    pub program: Seq<char>,
    pub args: Seq<Seq<char>>,
}

impl Command {
    /// The command as a mathematical value.
    pub open spec fn view(&self) -> CommandView {
        CommandView { program: self.program@, args: texts(self.args@) }
    }
}

/// The programs that enable the extension: the first lets the shell load it
/// whatever versions it names, the second enables it.
pub fn ensure_enabled() -> (r: Vec<Command>)
    ensures
        r@.len() == 2,
        r@[0]@ == (CommandView {
            program: "gsettings"@,
            args: seq![
                "set"@,
                "org.gnome.shell"@,
                "disable-extension-version-validation"@,
                "true"@,
            ],
        }),
        r@[1]@ == (CommandView {
            program: "gnome-extensions"@,
            args: seq!["enable"@, EXT_UUID@],
        }),
{
    let mut validation: Vec<String> = Vec::new();
    validation.push("set".to_owned());
    validation.push("org.gnome.shell".to_owned());
    validation.push("disable-extension-version-validation".to_owned());
    validation.push("true".to_owned());
    let mut enable: Vec<String> = Vec::new();
    enable.push("enable".to_owned());
    enable.push(EXT_UUID.to_owned());
    let mut r: Vec<Command> = Vec::new();
    r.push(Command { program: "gsettings".to_owned(), args: validation });
    r.push(Command { program: "gnome-extensions".to_owned(), args: enable });
    r
}

// ---------------------------------------------------------------------------
// Windows
// ---------------------------------------------------------------------------

/// A window as the extension describes it.
#[derive(Debug, PartialEq, Eq)]
pub struct Window {
    pub app_id: String,
    pub title: String,
    pub wm_class: String,
    /// The process of the window, or 0 where it is unknown.
    pub pid: u64,
}

/// A [`Window`] as a mathematical value.
#[verifier::ext_equal]
pub struct WindowView {
    pub app_id: Seq<char>,
    pub title: Seq<char>,
    pub wm_class: Seq<char>,
    pub pid: u64,
}

/// The window that a JSON document describes. What is missing, or has another type,
/// is empty.
pub open spec fn window_of(v: JsonView) -> WindowView {
    WindowView {
        app_id: v.text_at("appId"@),
        title: v.text_at("title"@),
        wm_class: v.text_at("wmClass"@),
        pid: v.unsigned_at("pid"@),
    }
}

/// The part of `s` behind its last dot.
pub open spec fn after_last_dot(s: Seq<char>) -> Seq<char>
    decreases s.len(),
{
    if s.len() == 0 || s.last() == '.' {
        Seq::empty()
    } else {
        after_last_dot(s.drop_last()).push(s.last())
    }
}

/// `s` without the ending `.desktop`.
pub open spec fn without_desktop(s: Seq<char>) -> Seq<char> {
    let cut = s.len() - ".desktop"@.len();
    if stands_at(s, ".desktop"@, cut) {
        s.take(cut)
    } else {
        s
    }
}

/// The last part of an application's id.
pub open spec fn short_name_of(app_id: Seq<char>) -> Seq<char> {
    after_last_dot(without_desktop(app_id))
}

/// The name of the process that owns a window, where it is known and not blank:
/// `comm` is what the system says of the process.
pub open spec fn process_name(pid: u64, comm: Option<Seq<char>>) -> Seq<char> {
    match comm {
        Some(c) if pid != 0 => trimmed(c),
        _ => Seq::empty(),
    }
}

impl WindowView {
    /// There is no window: its id, its title and its class are empty.
    pub open spec fn is_none(self) -> bool {
        self.app_id.len() == 0 && self.title.len() == 0 && self.wm_class.len() == 0
    }

    /// The application of the window. Its id is that of the window or, without one,
    /// the window's class. Its name is that of the process, else the last part of
    /// the id, else the class.
    pub open spec fn app(self, comm: Option<Seq<char>>) -> ActiveAppView {
        ActiveAppView {
            app_name: if process_name(self.pid, comm).len() > 0 {
                process_name(self.pid, comm)
            } else if self.app_id.len() > 0 {
                short_name_of(self.app_id)
            } else {
                self.wm_class
            },
            bundle_id: if self.app_id.len() == 0 {
                self.wm_class
            } else {
                self.app_id
            },
            window_title: self.title,
            url: Seq::empty(),
        }
    }

    /// The running application of the window.
    pub open spec fn running(self, comm: Option<Seq<char>>) -> RunningAppView {
        RunningAppView { bundle_id: self.app(comm).bundle_id, name: self.app(comm).app_name }
    }
}

impl Window {
    /// The window as a mathematical value.
    pub open spec fn view(&self) -> WindowView {
        WindowView {
            app_id: self.app_id@,
            title: self.title@,
            wm_class: self.wm_class@,
            pid: self.pid,
        }
    }

    /// Reads the description of a window.
    pub fn from_json(v: &Json) -> (r: Window)
        ensures
            r@ == window_of(v@),
    {
        Window {
            app_id: v.text_at("appId"),
            title: v.text_at("title"),
            wm_class: v.text_at("wmClass"),
            pid: v.unsigned_at("pid"),
        }
    }
}

/// The last part of an application's id: `org.gnome.Nautilus.desktop` gives
/// `Nautilus`.
pub fn short_name(app_id: &str) -> (r: String)
    ensures
        r@ == short_name_of(app_id@),
{
    proof {
        reveal_strlit(".desktop");
    }
    let x = chars_of(app_id);
    let to: usize = if ends_with_text(app_id, ".desktop") {
        x.len() - 8
    } else {
        x.len()
    };
    let ghost base = without_desktop(app_id@);
    assert(base =~= x@.take(to as int));
    let mut from: usize = to;
    assert(x@.subrange(to as int, to as int) =~= Seq::empty());
    assert(after_last_dot(base) + Seq::<char>::empty() =~= after_last_dot(base));
    while from > 0 && x[from - 1] != '.'
        invariant
            from <= to <= x.len(),
            after_last_dot(base) == after_last_dot(x@.take(from as int)) + x@.subrange(
                from as int,
                to as int,
            ),
        decreases from,
    {
        let ghost head = x@.take(from as int);
        assert(head.drop_last() =~= x@.take(from - 1));
        assert(after_last_dot(head) == after_last_dot(x@.take(from - 1)).push(x@[from - 1]));
        assert(after_last_dot(head) + x@.subrange(from as int, to as int) =~= after_last_dot(
            x@.take(from - 1),
        ) + x@.subrange(from - 1, to as int));
        from -= 1;
    }
    assert(after_last_dot(x@.take(from as int)) =~= Seq::empty());
    assert(Seq::<char>::empty() + x@.subrange(from as int, to as int) =~= x@.subrange(
        from as int,
        to as int,
    ));
    text_of(&x, from, to)
}

/// The name of the process that owns a window, or an empty text.
pub fn name_of_process(pid: u64, comm: &Option<String>) -> (r: String)
    ensures
        r@ == process_name(pid, text_view(*comm)),
{
    match comm {
        Some(c) => if pid != 0 {
            trim_text(c)
        } else {
            String::new()
        },
        None => String::new(),
    }
}

/// The application of a window. `comm` is what the system says of the window's
/// process, where it says anything.
pub fn window_to_app(w: &Window, comm: &Option<String>) -> (r: ActiveApp)
    ensures
        r@ == w@.app(text_view(*comm)),
{
    let process = name_of_process(w.pid, comm);
    let app_name = if !process.as_str().is_empty() {
        process
    } else if !w.app_id.as_str().is_empty() {
        short_name(&w.app_id)
    } else {
        w.wm_class.clone()
    };
    let bundle_id = if w.app_id.as_str().is_empty() {
        w.wm_class.clone()
    } else {
        w.app_id.clone()
    };
    ActiveApp { app_name, bundle_id, window_title: w.title.clone(), url: String::new() }
}

/// A window that may be missing.
pub open spec fn maybe_window(w: Option<Window>) -> Option<WindowView> {
    match w {
        Some(w) => Some(w@),
        None => None,
    }
}

/// The focused window that a text describes: none, where it is no JSON or the
/// window's id, title and class are empty.
pub open spec fn focused_of(v: Result<JsonView, Seq<char>>) -> Option<WindowView> {
    match v {
        Ok(v) => if window_of(v).is_none() {
            None
        } else {
            Some(window_of(v))
        },
        Err(_) => None,
    }
}

/// The focused window that a JSON document describes, unless it describes none.
pub fn focused_window(v: &Json) -> (r: Option<Window>)
    ensures
        maybe_window(r) == focused_of(Ok(v@)),
{
    let w = Window::from_json(v);
    if w.app_id.as_str().is_empty() && w.title.as_str().is_empty()
        && w.wm_class.as_str().is_empty() {
        None
    } else {
        Some(w)
    }
}

/// Reads the focused window out of what the extension answers or signals.
pub fn parse_focused(json: &str) -> (r: Option<Window>)
    ensures
        maybe_window(r) == focused_of(json_parsed(json@)),
{
    match Json::parse(json) {
        Ok(v) => focused_window(&v),
        Err(_) => None,
    }
}

/// The windows of a list.
pub open spec fn windows_view(ws: Seq<Window>) -> Seq<WindowView> {
    ws.map_values(|w: Window| w@)
}

/// The windows that a text lists: none, where it is no JSON or no array.
pub open spec fn windows_of(v: Result<JsonView, Seq<char>>) -> Seq<WindowView> {
    match v {
        Ok(JsonView::Array(items)) => items.map_values(|v: JsonView| window_of(v)),
        _ => Seq::empty(),
    }
}

/// The windows that a JSON document lists.
pub fn listed_windows(v: &Json) -> (r: Vec<Window>)
    ensures
        windows_view(r@) == windows_of(Ok(v@)),
{
    match v.as_array() {
        Some(items) => {
            proof {
                lemma_items_view(items@);
            }
            let r = read_items(items, Window::from_json);
            assert(windows_view(r@) =~= windows_of(Ok(v@)));
            r
        },
        None => {
            let r: Vec<Window> = Vec::new();
            assert(windows_view(r@) =~= Seq::<WindowView>::empty());
            r
        },
    }
}

/// Reads the list of windows that the extension answers with.
pub fn parse_window_list(json: &str) -> (r: Vec<Window>)
    ensures
        windows_view(r@) == windows_of(json_parsed(json@)),
{
    match Json::parse(json) {
        Ok(v) => listed_windows(&v),
        Err(_) => {
            let r: Vec<Window> = Vec::new();
            assert(windows_view(r@) =~= Seq::<WindowView>::empty());
            r
        },
    }
}

/// A window with what the system says of its process.
pub open spec fn running_view(ws: Seq<(Window, Option<String>)>) -> Seq<RunningAppView> {
    ws.map_values(|x: (Window, Option<String>)| x.0@.running(text_view(x.1)))
}

/// The running applications of a list of windows, each with what the system says of
/// its process: one for each id, the first.
pub fn window_list(ws: &Vec<(Window, Option<String>)>) -> (r: Vec<RunningApp>)
    ensures
        apps_view(r@) == listed_all(running_view(ws@)),
{
    let mut r: Vec<RunningApp> = Vec::new();
    let mut i: usize = 0;
    let ghost all = running_view(ws@);
    assert(apps_view(r@) =~= all.take(0));
    while i < ws.len()
        invariant
            i <= ws.len(),
            all == running_view(ws@),
            apps_view(r@) == listed_all(all.take(i as int)),
        decreases ws.len() - i,
    {
        let app = window_to_app(&ws[i].0, &ws[i].1);
        assert(all.take(i + 1).drop_last() =~= all.take(i as int));
        list_app(&mut r, RunningApp { bundle_id: app.bundle_id, name: app.app_name });
        i += 1;
    }
    assert(all.take(i as int) =~= all);
    r
}

// ---------------------------------------------------------------------------
// Tracking
// ---------------------------------------------------------------------------

/// What to do with a signal of the extension.
#[derive(Debug, PartialEq, Eq)]
pub enum SignalAction {
    /// Stop watching.
    Stop,
    /// Use the description of the window that the signal carries.
    Use(String),
    /// Ask the extension for the focused window.
    Poll,
}

/// Decides what to do with a signal: `stopped` says whether the tracker is gone,
/// `body` is what the signal carries, where it could be read.
pub fn signal_action(stopped: bool, body: Option<String>) -> (r: SignalAction)
    ensures
        stopped ==> r is Stop,
        !stopped && body is None ==> r is Poll,
        !stopped && body is Some ==> (r matches SignalAction::Use(json) && Some(json) == body),
{
    if stopped {
        return SignalAction::Stop;
    }
    match body {
        Some(json) => SignalAction::Use(json),
        None => SignalAction::Poll,
    }
}

/// A tracker of the focus on GNOME.
pub struct GnomeTracker {
    shared: Shared,
}

impl GnomeTracker {
    /// What the tracker knows.
    pub closed spec fn view(&self) -> SharedView {
        self.shared@
    }

    /// Begins tracking, if the extension answered: `probe` is the focused window's
    /// application, or why there was no answer.
    pub fn start(probe: Result<Option<ActiveApp>, String>, pid: u32) -> (r: Result<
        GnomeTracker,
        String,
    >)
        ensures
            match probe {
                Ok(seed) => r matches Ok(t) && t@ == SharedView::start(app_view(seed), pid),
                Err(e) => r matches Err(m) && m@ == "bridge not loaded (relogin required): "@ + e@,
            },
    {
        match probe {
            Ok(seed) => Ok(GnomeTracker { shared: Shared::new(seed, pid) }),
            Err(e) => Err(cat("bridge not loaded (relogin required): ", &e)),
        }
    }

    /// The application that has the focus. `polled` is what the extension answered
    /// just now; without an answer it is the last known one.
    pub fn current(&mut self, polled: Option<ActiveApp>) -> (r: Option<ActiveApp>)
        ensures
            match polled {
                Some(app) => final(self)@ == (SharedView { cache: Some(app@), ..old(self)@ })
                    && app_view(r) == Some(app@),
                None => final(self)@ == old(self)@ && app_view(r) == old(self)@.cache,
            },
    {
        match polled {
            Some(app) => {
                self.shared.remember(app.clone());
                Some(app)
            },
            None => self.shared.current(),
        }
    }

    /// The running applications. `windows` is what the extension listed, each window
    /// with what the system says of its process; without an answer there are none.
    pub fn get_running_apps(&self, windows: &Option<Vec<(Window, Option<String>)>>) -> (r: Vec<
        RunningApp,
    >)
        ensures
            apps_view(r@) == match windows {
                Some(ws) => listed_all(running_view(ws@)),
                None => Seq::empty(),
            },
    {
        match windows {
            Some(ws) => window_list(ws),
            None => {
                let none: Vec<RunningApp> = Vec::new();
                assert(apps_view(none@) =~= Seq::<RunningAppView>::empty());
                none
            },
        }
    }

    /// Takes in the application of a focused window. The event that comes back, if
    /// any, is to be sent.
    pub fn on_focus(&mut self, app: ActiveApp) -> (r: Option<FocusEvent>)
        ensures
            r matches Some(e) ==> e.app.app_name@ == app.app_name@ && e.app.bundle_id@
                == app.bundle_id@ && e.app.window_title@ == app.window_title@ && e.app.url@
                == app.url@,
            final(self)@ == old(self)@.on_focus(app@).0,
            event_view(r) == old(self)@.on_focus(app@).1,
    {
        self.shared.on_focus(app)
    }

    /// Turns focus events on or off. The event that comes back, if any, is to be
    /// sent.
    pub fn set_focus_detection(&mut self, active: bool) -> (r: Option<FocusEvent>)
        ensures
            final(self)@ == old(self)@.set_focus_detection(active).0,
            event_view(r) == old(self)@.set_focus_detection(active).1,
    {
        self.shared.set_focus_detection(active)
    }
}

// ---------------------------------------------------------------------------
// Laws
// ---------------------------------------------------------------------------

/// A path below another stands behind it, with one slash between them, unless the first is
/// empty or ends with one.
pub proof fn law_path_stands_below(base: Seq<u8>, part: Seq<u8>)
    ensures
        base.len() == 0 ==> below(base, part) == part,
        base.len() > 0 && base.last() == 47 ==> below(base, part) == base + part,
        base.len() > 0 && base.last() != 47 ==> below(base, part) == base + seq![47u8] + part,
{
    assert(base.push(47) =~= base + seq![47u8]);
    if base.len() == 0 {
        assert(base + part =~= part);
    }
}

/// Data lies where `XDG_DATA_HOME` says, unless that is empty, and else in `.local/share`
/// of the home, where there is one.
pub proof fn law_data_lies_in_its_home(xdg: Seq<u8>, home: Seq<u8>)
    ensures
        xdg.len() > 0 ==> data_dir(Some(xdg), Some(home)) == Some(xdg) && data_dir(Some(xdg), None)
            == Some(xdg),
        xdg.len() == 0 ==> data_dir(Some(xdg), Some(home)) == data_dir(None, Some(home)) && data_dir(
            Some(xdg),
            None,
        ) is None,
        data_dir(None, Some(home)) == Some(below(home, encode_utf8(".local/share"@))),
        data_dir(None, None) is None,
{
}

/// An installation that works creates the directory, then writes the metadata and then the
/// script, and tells that it did; once nothing is to be done, nothing is.
pub proof fn law_installation_by_step(dir: Seq<char>, written: bool, outcome: Result<(), Seq<char>>)
    ensures
        InstallStep::CreateDir.after(dir, Ok(())) == Ok::<InstallStep, Seq<char>>(
            InstallStep::WriteMetadata,
        ),
        InstallStep::WriteMetadata.after(dir, Ok(())) == Ok::<InstallStep, Seq<char>>(
            InstallStep::WriteScript,
        ),
        InstallStep::WriteScript.after(dir, Ok(())) == Ok::<InstallStep, Seq<char>>(
            InstallStep::Done(true),
        ),
        InstallStep::Done(written).after(dir, outcome) == Ok::<InstallStep, Seq<char>>(
            InstallStep::Done(written),
        ),
{
}

/// A failure ends an installation, and is told with what failed.
pub proof fn law_installation_failures(dir: Seq<char>, e: Seq<char>)
    ensures
        InstallStep::CreateDir.after(dir, Err(e)) == Err::<InstallStep, Seq<char>>(
            "create "@ + dir + ": "@ + e,
        ),
        InstallStep::WriteMetadata.after(dir, Err(e)) == Err::<InstallStep, Seq<char>>(
            "write metadata.json: "@ + e,
        ),
        InstallStep::WriteScript.after(dir, Err(e)) == Err::<InstallStep, Seq<char>>(
            "write extension.js: "@ + e,
        ),
{
}

/// A window is read from the members that describe it, each as it is; what is missing or
/// of another type is empty, or 0.
pub proof fn law_window_is_read_as_described(m: Map<Seq<char>, JsonView>, s: Seq<char>, n: u64)
    ensures
        m.contains_key("appId"@) && m["appId"@] == JsonView::Text(s) ==> window_of(
            JsonView::Object(m),
        ).app_id == s,
        m.contains_key("title"@) && m["title"@] == JsonView::Text(s) ==> window_of(
            JsonView::Object(m),
        ).title == s,
        m.contains_key("wmClass"@) && m["wmClass"@] == JsonView::Text(s) ==> window_of(
            JsonView::Object(m),
        ).wm_class == s,
        m.contains_key("pid"@) && m["pid"@] == JsonView::Unsigned(n) ==> window_of(
            JsonView::Object(m),
        ).pid == n,
        !(m.contains_key("appId"@) && m["appId"@] is Text) ==> window_of(
            JsonView::Object(m),
        ).app_id.len() == 0,
        !(m.contains_key("title"@) && m["title"@] is Text) ==> window_of(
            JsonView::Object(m),
        ).title.len() == 0,
        !(m.contains_key("wmClass"@) && m["wmClass"@] is Text) ==> window_of(
            JsonView::Object(m),
        ).wm_class.len() == 0,
        !(m.contains_key("pid"@) && m["pid"@] is Unsigned) ==> window_of(JsonView::Object(m)).pid
            == 0,
{
}

/// A focused window is read where its id, its title or its class is known, and no other.
pub proof fn law_focused_window_is_known(v: JsonView, e: Seq<char>)
    ensures
        focused_of(Ok(v)) == Some(window_of(v)) <==> window_of(v).app_id.len() > 0 || window_of(
            v,
        ).title.len() > 0 || window_of(v).wm_class.len() > 0,
        focused_of(Ok(v)) is None <==> window_of(v).app_id.len() == 0 && window_of(v).title.len() == 0
            && window_of(v).wm_class.len() == 0,
        focused_of(Err(e)) is None,
{
}

/// A list of windows is read one by one, in order; what is no list has none.
pub proof fn law_windows_are_read_in_order(items: Seq<JsonView>, i: int, v: JsonView, e: Seq<char>)
    ensures
        windows_of(Ok(JsonView::Array(items))).len() == items.len(),
        0 <= i < items.len() ==> windows_of(Ok(JsonView::Array(items)))[i] == window_of(items[i]),
        !(v is Array) ==> windows_of(Ok(v)).len() == 0,
        windows_of(Err(e)).len() == 0,
{
}

proof fn lemma_after_last_dot(s: Seq<char>) -> (head: Seq<char>)
    ensures
        s == head + after_last_dot(s),
        head.len() > 0 ==> head.last() == '.',
        !after_last_dot(s).contains('.'),
    decreases s.len(),
{
    if s.len() == 0 || s.last() == '.' {
        assert(s =~= s + after_last_dot(s));
        s
    } else {
        let head = lemma_after_last_dot(s.drop_last());
        let before = after_last_dot(s.drop_last());
        assert(s =~= s.drop_last().push(s.last()));
        assert((head + before).push(s.last()) =~= head + before.push(s.last()));
        assert forall|i: int| 0 <= i < after_last_dot(s).len() implies after_last_dot(s)[i] != '.' by {
            if i < before.len() {
                assert(before[i] != '.');
            }
        }
        head
    }
}

/// The short name of an id is its end behind the last dot, once an ending `.desktop` is
/// taken away.
pub proof fn law_short_name_stands_behind_the_last_dot(base: Seq<char>, app_id: Seq<char>)
    requires
        app_id == base + ".desktop"@ || (app_id == base && forall|x: Seq<char>| base != #[trigger] (x
            + ".desktop"@)),
    ensures
        exists|head: Seq<char>|
            base == #[trigger] (head + short_name_of(app_id)) && (head.len() > 0 ==> head.last()
                == '.'),
        !short_name_of(app_id).contains('.'),
{
    let end = ".desktop"@;
    let cut = app_id.len() - end.len();
    if stands_at(app_id, end, cut) {
        assert(app_id =~= app_id.take(cut) + end);
    }
    if app_id == base + end {
        assert(app_id.subrange(cut, app_id.len() as int) =~= end);
        assert(app_id.take(cut) =~= base);
    }
    assert(without_desktop(app_id) == base);
    let head = lemma_after_last_dot(base);
    assert(base == head + short_name_of(app_id));
}

/// A process has the name that the system says, without white space round it, where its
/// number is known.
pub proof fn law_process_name_is_trimmed(pid: u64, c: Seq<char>)
    ensures
        pid != 0 ==> process_name(pid, Some(c)) == trimmed(c),
        process_name(0, Some(c)).len() == 0,
        process_name(pid, None).len() == 0,
{
}

/// The application of a window: its id is that of the window, or without one its class; its
/// name is that of the process, and else the short name of the id, and else the class; its
/// title is that of the window.
pub proof fn law_application_of_a_window(w: WindowView, comm: Option<Seq<char>>)
    ensures
        w.app(comm).window_title == w.title,
        w.app(comm).url.len() == 0,
        w.app_id.len() > 0 ==> w.app(comm).bundle_id == w.app_id,
        w.app_id.len() == 0 ==> w.app(comm).bundle_id == w.wm_class,
        process_name(w.pid, comm).len() > 0 ==> w.app(comm).app_name == process_name(w.pid, comm),
        process_name(w.pid, comm).len() == 0 && w.app_id.len() > 0 ==> w.app(comm).app_name
            == short_name_of(w.app_id),
        process_name(w.pid, comm).len() == 0 && w.app_id.len() == 0 ==> w.app(comm).app_name
            == w.wm_class,
        w.running(comm).bundle_id == w.app(comm).bundle_id,
        w.running(comm).name == w.app(comm).app_name,
{
}

/// Windows, commands and paths are known by what they hold, lists of them one by one.
pub proof fn law_gnome_views_tell_all(
    w: Window,
    c: Command,
    b: Option<Vec<u8>>,
    ws: Seq<Window>,
    pairs: Seq<(Window, Option<String>)>,
    i: int,
)
    ensures
        w@.app_id == w.app_id@,
        w@.title == w.title@,
        w@.wm_class == w.wm_class@,
        w@.pid == w.pid,
        c@.program == c.program@,
        c@.args == texts(c.args@),
        match b {
            Some(x) => bytes_view(b) == Some(x@),
            None => bytes_view(b) is None,
        },
        maybe_window(Some(w)) == Some(w@),
        maybe_window(None) is None,
        windows_view(ws).len() == ws.len(),
        0 <= i < ws.len() ==> windows_view(ws)[i] == ws[i]@,
        running_view(pairs).len() == pairs.len(),
        0 <= i < pairs.len() ==> running_view(pairs)[i] == pairs[i].0@.running(
            text_view(pairs[i].1),
        ),
{
}

} // verus!
