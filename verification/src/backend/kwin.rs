//! The focus on KDE, through a script in the compositor.
//!
//! The compositor runs the script, and the script calls the helper back: with the
//! window that became active, as a JSON object `{resourceClass, resourceName,
//! caption, pid}`, and with the list of windows, as an array of such objects.

use super::gnome::{name_of_process, process_name};
use super::{app_view, apps_view, event_view, list_app, listed_all};
use super::{ActiveApp, ActiveAppView, FocusEvent, RunningApp, RunningAppView};
use super::{Shared, SharedView};
use crate::json::{json_parsed, lemma_items_view, read_items, Json, JsonView};
use crate::text::{cat, decimal, decimal_text, outcome_view, text_view};
use vstd::prelude::*;

verus! {

// ---------------------------------------------------------------------------
// Windows
// ---------------------------------------------------------------------------

/// A window as the script describes it.
#[derive(Debug, PartialEq, Eq)]
pub struct Window {
    pub resource_class: String,
    pub resource_name: String,
    pub caption: String,
    /// The process of the window, or 0 where it is unknown.
    pub pid: u64,
}

/// A [`Window`] as a mathematical value.
#[verifier::ext_equal]
pub struct WindowView {
    pub resource_class: Seq<char>,
    pub resource_name: Seq<char>,
    pub caption: Seq<char>,
    pub pid: u64,
}

/// The window that a JSON document describes. What is missing, or has another type,
/// is empty.
pub open spec fn window_of(v: JsonView) -> WindowView {
    WindowView {
        resource_class: v.text_at("resourceClass"@),
        resource_name: v.text_at("resourceName"@),
        caption: v.text_at("caption"@),
        pid: v.unsigned_at("pid"@),
    }
}

/// The name of an application: that of its process, else the name of the window's
/// resource, else its class.
pub open spec fn app_name_of(
    pid: u64,
    resource_name: Seq<char>,
    class: Seq<char>,
    comm: Option<Seq<char>>,
) -> Seq<char> {
    if process_name(pid, comm).len() > 0 {
        process_name(pid, comm)
    } else if resource_name.len() > 0 {
        resource_name
    } else {
        class
    }
}

impl WindowView {
    /// The application of the window.
    pub open spec fn app(self, comm: Option<Seq<char>>) -> ActiveAppView {
        ActiveAppView {
            app_name: app_name_of(self.pid, self.resource_name, self.resource_class, comm),
            bundle_id: self.resource_class,
            window_title: self.caption,
            url: Seq::empty(),
        }
    }

    /// The running application of the window.
    pub open spec fn running(self, comm: Option<Seq<char>>) -> RunningAppView {
        RunningAppView {
            bundle_id: self.resource_class,
            name: app_name_of(self.pid, self.resource_name, self.resource_class, comm),
        }
    }
}

impl Window {
    /// The window as a mathematical value.
    pub open spec fn view(&self) -> WindowView {
        WindowView {
            resource_class: self.resource_class@,
            resource_name: self.resource_name@,
            caption: self.caption@,
            pid: self.pid,
        }
    }

    /// Reads the description of a window.
    pub fn from_json(v: &Json) -> (r: Window)
        ensures
            r@ == window_of(v@),
    {
        Window {
            resource_class: v.text_at("resourceClass"),
            resource_name: v.text_at("resourceName"),
            caption: v.text_at("caption"),
            pid: v.unsigned_at("pid"),
        }
    }

    /// The application of the window. `comm` is what the system says of the
    /// window's process, where it says anything.
    pub fn to_app(&self, comm: &Option<String>) -> (r: ActiveApp)
        ensures
            r@ == self@.app(text_view(*comm)),
    {
        ActiveApp {
            app_name: app_name(self.pid, &self.resource_name, &self.resource_class, comm),
            bundle_id: self.resource_class.clone(),
            window_title: self.caption.clone(),
            url: String::new(),
        }
    }
}

/// The name of an application. `comm` is what the system says of the process `pid`.
pub fn app_name(pid: u64, resource_name: &str, class: &str, comm: &Option<String>) -> (r: String)
    ensures
        r@ == app_name_of(pid, resource_name@, class@, text_view(*comm)),
{
    let process = name_of_process(pid, comm);
    if !process.as_str().is_empty() {
        process
    } else if !resource_name.is_empty() {
        resource_name.to_owned()
    } else {
        class.to_owned()
    }
}

/// The document that a text holds, or `null` where it holds none.
pub open spec fn or_null(v: Result<JsonView, Seq<char>>) -> JsonView {
    match v {
        Ok(v) => v,
        Err(_) => JsonView::Null,
    }
}

fn parse_or_null(payload: &str) -> (r: Json)
    ensures
        r@ == or_null(json_parsed(payload@)),
{
    match Json::parse(payload) {
        Ok(v) => v,
        Err(_) => Json::Null,
    }
}

/// Reads the window that the script reports. A text that is no JSON describes a
/// window of which nothing is known.
pub fn parse_report(payload: &str) -> (r: Window)
    ensures
        r@ == window_of(or_null(json_parsed(payload@))),
{
    Window::from_json(&parse_or_null(payload))
}

/// The windows of a list.
pub open spec fn windows_view(ws: Seq<Window>) -> Seq<WindowView> {
    ws.map_values(|w: Window| w@)
}

/// The windows that a document lists: none, where it is no array.
pub open spec fn windows_of(v: JsonView) -> Seq<WindowView> {
    match v {
        JsonView::Array(items) => items.map_values(|v: JsonView| window_of(v)),
        _ => Seq::empty(),
    }
}

/// The windows that a JSON document lists.
pub fn reported_windows(v: &Json) -> (r: Vec<Window>)
    ensures
        windows_view(r@) == windows_of(v@),
{
    match v.as_array() {
        Some(items) => {
            proof {
                lemma_items_view(items@);
            }
            let r = read_items(items, Window::from_json);
            assert(windows_view(r@) =~= windows_of(v@));
            r
        },
        None => {
            let r: Vec<Window> = Vec::new();
            assert(windows_view(r@) =~= Seq::<WindowView>::empty());
            r
        },
    }
}

/// Reads the list of windows that the script reports.
pub fn parse_report_list(payload: &str) -> (r: Vec<Window>)
    ensures
        windows_view(r@) == windows_of(or_null(json_parsed(payload@))),
{
    reported_windows(&parse_or_null(payload))
}

/// The applications of windows, each with what the system says of its process.
pub open spec fn running_view(ws: Seq<(Window, Option<String>)>) -> Seq<RunningAppView> {
    ws.map_values(|x: (Window, Option<String>)| x.0@.running(text_view(x.1)))
}

/// The running applications of a list of windows, each with what the system says of
/// its process: one for each class, the first.
pub fn report_list(ws: &Vec<(Window, Option<String>)>) -> (r: Vec<RunningApp>)
    ensures
        apps_view(r@) == listed_all(running_view(ws@)),
{
    let mut r: Vec<RunningApp> = Vec::new();
    let mut i: usize = 0;
    let ghost all = running_view(ws@);
    assert(apps_view(r@) =~= all.take(0));
    while i < ws.len()
        invariant
            i <= ws.len(),
            all == running_view(ws@),
            apps_view(r@) == listed_all(all.take(i as int)),
        decreases ws.len() - i,
    {
        let app = ws[i].0.to_app(&ws[i].1);
        assert(all.take(i + 1).drop_last() =~= all.take(i as int));
        list_app(&mut r, RunningApp { bundle_id: app.bundle_id, name: app.app_name });
        i += 1;
    }
    assert(all.take(i as int) =~= all);
    r
}

// ---------------------------------------------------------------------------
// The script
// ---------------------------------------------------------------------------

/// The start of the script, up to the name of the service.
pub const SCRIPT_HEAD: &'static str = "
function wisprReport(w) {
    var payload = \"{}\";
    if (w) {
        payload = JSON.stringify({
            resourceClass: w.resourceClass,
            resourceName: w.resourceName,
            caption: w.caption,
            pid: w.pid
        });
    }
    callDBus(\"";

/// Between the service and the path of the first call.
pub const SCRIPT_COMMA: &'static str = "\", \"";

/// From the path of the first call to the service of the second.
pub const SCRIPT_MIDDLE: &'static str = "\", \"org.wisprflow.kwinbridge\", \"Report\", payload);
}
function wisprWindowList() {
    if (typeof workspace.windowList === \"function\") {
        return workspace.windowList();
    }
    if (typeof workspace.clientList === \"function\") {
        return workspace.clientList();
    }
    return [];
}
function wisprReportList() {
    var wins = wisprWindowList();
    var out = [];
    for (var i = 0; i < wins.length; i++) {
        var w = wins[i];
        if (!w) { continue; }
        // Keep only normal, taskbar-visible windows with a class — drops the
        // desktop, docks/panels, OSDs, splashes, etc. (what a taskbar shows).
        if (w.normalWindow !== true) { continue; }
        if (w.skipTaskbar === true) { continue; }
        if (!w.resourceClass) { continue; }
        out.push({
            resourceClass: w.resourceClass,
            resourceName: w.resourceName,
            caption: w.caption,
            pid: w.pid
        });
    }
    callDBus(\"";

/// The end of the script, behind the path of the second call.
pub const SCRIPT_TAIL: &'static str = "\", \"org.wisprflow.kwinbridge\", \"ReportList\", JSON.stringify(out));
}
workspace.windowActivated.connect(function(w) {
    wisprReport(w);
    wisprReportList();
});
if (typeof workspace.windowAdded !== \"undefined\") {
    workspace.windowAdded.connect(wisprReportList);
} else if (typeof workspace.clientAdded !== \"undefined\") {
    workspace.clientAdded.connect(wisprReportList);
}
if (typeof workspace.windowRemoved !== \"undefined\") {
    workspace.windowRemoved.connect(wisprReportList);
} else if (typeof workspace.clientRemoved !== \"undefined\") {
    workspace.clientRemoved.connect(wisprReportList);
}
wisprReport(workspace.activeWindow || workspace.activeClient);
wisprReportList();
";

/// The script that reports to the object `path` of the service `service`.
pub open spec fn script_of(service: Seq<char>, path: Seq<char>) -> Seq<char> {
    SCRIPT_HEAD@ + service + SCRIPT_COMMA@ + path + SCRIPT_MIDDLE@ + service + SCRIPT_COMMA@ + path
        + SCRIPT_TAIL@
}

/// Writes the script that reports to the object `path` of the service `service`.
pub fn kwin_script(service: &str, path: &str) -> (r: String)
    ensures
        r@ == script_of(service@, path@),
{
    let mut r = SCRIPT_HEAD.to_owned();
    r.append(service);
    r.append(SCRIPT_COMMA);
    r.append(path);
    r.append(SCRIPT_MIDDLE);
    r.append(service);
    r.append(SCRIPT_COMMA);
    r.append(path);
    r.append(SCRIPT_TAIL);
    r
}

// ---------------------------------------------------------------------------
// The bridge
// ---------------------------------------------------------------------------

/// The object that the script calls.
pub const BRIDGE_PATH: &'static str = "/active";

/// The service of the helper `pid`.
pub fn service_name(pid: u32) -> (r: String)
    ensures
        r@ == "org.wisprflow.kwinbridge_"@ + decimal(pid as nat),
{
    cat("org.wisprflow.kwinbridge_", &decimal_text(pid as u64))
}

/// The name under which the compositor knows the script.
pub fn plugin_name(pid: u32) -> (r: String)
    ensures
        r@ == "wispr-flow-active-"@ + decimal(pid as nat),
{
    cat("wispr-flow-active-", &decimal_text(pid as u64))
}

/// The name of the file that holds the script.
pub fn script_file(pid: u32) -> (r: String)
    ensures
        r@ == "wispr-flow-active-"@ + decimal(pid as nat) + ".js"@,
{
    let plugin = plugin_name(pid);
    cat(&plugin, ".js")
}

/// What the bridge has to do next.
#[derive(Debug, Clone, Copy, PartialEq, Eq, Structural)]
pub enum BridgeStep {
    /// Prepare the service on the session bus.
    Session,
    /// Connect it.
    Build,
    /// Write the script to its file.
    Write,
    /// Reach the compositor's scripting object.
    Proxy,
    /// Have the script loaded.
    Load,
    /// Have it started.
    Start,
    /// Have the script unloaded, because the bridge did not come up.
    UnloadFailed,
    /// Remove the file, because the bridge did not come up.
    RemoveFailed,
    /// Report that the bridge did not come up.
    ReportFailed,
    /// Report that the bridge is up.
    ReportReady,
    /// Wait until the tracker is gone.
    Watch,
    /// Have the script unloaded.
    Unload,
    /// Remove the file.
    Remove,
    /// Nothing.
    Done,
}

/// A [`Bridge`] as a mathematical value.
#[verifier::ext_equal]
pub struct BridgeView {
    pub step: BridgeStep,
    /// Why the bridge did not come up.
    pub failure: Option<Seq<char>>,
}

/// What a failure of a step is called.
pub open spec fn failure_of(step: BridgeStep, e: Seq<char>) -> Seq<char> {
    match step {
        BridgeStep::Session => "session bus: "@ + e,
        BridgeStep::Build => "build connection: "@ + e,
        BridgeStep::Write => "write script: "@ + e,
        BridgeStep::Proxy => "scripting proxy: "@ + e,
        BridgeStep::Load => "loadScript (KWin not available?): "@ + e,
        BridgeStep::Start => "start: "@ + e,
        _ => e,
    }
}

impl BridgeView {
    /// The bridge before its first step.
    pub open spec fn start() -> BridgeView {
        BridgeView { step: BridgeStep::Session, failure: None }
    }

    /// A step of bringing the bridge up: `next` follows where it worked, `failed`
    /// where it did not.
    pub open spec fn brought(
        self,
        outcome: Result<(), Seq<char>>,
        next: BridgeStep,
        failed: BridgeStep,
    ) -> BridgeView {
        match outcome {
            Ok(_) => BridgeView { step: next, failure: self.failure },
            Err(e) => BridgeView { step: failed, failure: Some(failure_of(self.step, e)) },
        }
    }

    /// What follows the step that was due, by how it went. Taking the bridge down
    /// goes on whatever happens.
    pub open spec fn after(self, outcome: Result<(), Seq<char>>) -> BridgeView {
        match self.step {
            BridgeStep::Session => self.brought(
                outcome,
                BridgeStep::Build,
                BridgeStep::ReportFailed,
            ),
            BridgeStep::Build => self.brought(outcome, BridgeStep::Write, BridgeStep::ReportFailed),
            BridgeStep::Write => self.brought(outcome, BridgeStep::Proxy, BridgeStep::RemoveFailed),
            BridgeStep::Proxy => self.brought(outcome, BridgeStep::Load, BridgeStep::RemoveFailed),
            BridgeStep::Load => self.brought(outcome, BridgeStep::Start, BridgeStep::RemoveFailed),
            BridgeStep::Start => self.brought(
                outcome,
                BridgeStep::ReportReady,
                BridgeStep::UnloadFailed,
            ),
            BridgeStep::UnloadFailed => BridgeView { step: BridgeStep::RemoveFailed, ..self },
            BridgeStep::RemoveFailed => BridgeView { step: BridgeStep::ReportFailed, ..self },
            BridgeStep::ReportFailed => BridgeView { step: BridgeStep::Done, ..self },
            BridgeStep::ReportReady => BridgeView { step: BridgeStep::Watch, ..self },
            BridgeStep::Watch => BridgeView { step: BridgeStep::Unload, ..self },
            BridgeStep::Unload => BridgeView { step: BridgeStep::Remove, ..self },
            BridgeStep::Remove => BridgeView { step: BridgeStep::Done, ..self },
            BridgeStep::Done => self,
        }
    }

    /// The file with the script, or part of it, may be there, and was not removed yet.
    pub open spec fn has_file(self) -> bool {
        match self.step {
            BridgeStep::Session | BridgeStep::Build | BridgeStep::Write | BridgeStep::ReportFailed
            | BridgeStep::Done => false,
            _ => true,
        }
    }

    /// The script was loaded, and was not had unloaded yet.
    pub open spec fn has_script(self) -> bool {
        match self.step {
            BridgeStep::Start | BridgeStep::UnloadFailed | BridgeStep::ReportReady
            | BridgeStep::Watch | BridgeStep::Unload => true,
            _ => false,
        }
    }

    /// Whether the bridge came up has been reported.
    pub open spec fn has_reported(self) -> bool {
        match self.step {
            BridgeStep::Watch | BridgeStep::Unload | BridgeStep::Remove | BridgeStep::Done => true,
            _ => false,
        }
    }
}

/// How the bridge is brought up and taken down.
pub struct Bridge {
    step: BridgeStep,
    failure: Option<String>,
}

impl Bridge {
    /// The bridge as a mathematical value.
    pub closed spec fn view(&self) -> BridgeView {
        BridgeView { step: self.step, failure: text_view(self.failure) }
    }

    /// The bridge before its first step.
    pub fn new() -> (r: Bridge)
        ensures
            r@ == BridgeView::start(),
    {
        Bridge { step: BridgeStep::Session, failure: None }
    }

    /// The step to take.
    pub fn step(&self) -> (r: BridgeStep)
        ensures
            r == self@.step,
    {
        self.step
    }

    /// What is reported: success, or why the bridge did not come up.
    pub fn report(&self) -> (r: Result<(), String>)
        ensures
            match self@.failure {
                Some(e) => r matches Err(m) && m@ == e,
                None => r is Ok,
            },
    {
        match &self.failure {
            Some(e) => Err(e.clone()),
            None => Ok(()),
        }
    }

    fn brought(&mut self, prefix: &str, outcome: Result<(), String>, next: BridgeStep, failed: BridgeStep)
        requires
            forall|e: Seq<char>| #[trigger] failure_of(old(self)@.step, e) == prefix@ + e,
        ensures
            final(self)@ == old(self)@.brought(
                outcome_view(outcome),
                next,
                failed,
            ),
    {
        match outcome {
            Ok(_) => {
                self.step = next;
            },
            Err(e) => {
                self.failure = Some(cat(prefix, &e));
                self.step = failed;
            },
        }
    }

    /// Takes in how the step that was due went, and moves on to the next one. A
    /// wait ends when the tracker is gone.
    pub fn took(&mut self, outcome: Result<(), String>)
        ensures
            final(self)@ == old(self)@.after(outcome_view(outcome)),
    {
        match self.step {
            BridgeStep::Session => self.brought(
                "session bus: ",
                outcome,
                BridgeStep::Build,
                BridgeStep::ReportFailed,
            ),
            BridgeStep::Build => self.brought(
                "build connection: ",
                outcome,
                BridgeStep::Write,
                BridgeStep::ReportFailed,
            ),
            BridgeStep::Write => self.brought(
                "write script: ",
                outcome,
                BridgeStep::Proxy,
                BridgeStep::RemoveFailed,
            ),
            BridgeStep::Proxy => self.brought(
                "scripting proxy: ",
                outcome,
                BridgeStep::Load,
                BridgeStep::RemoveFailed,
            ),
            BridgeStep::Load => self.brought(
                "loadScript (KWin not available?): ",
                outcome,
                BridgeStep::Start,
                BridgeStep::RemoveFailed,
            ),
            BridgeStep::Start => self.brought(
                "start: ",
                outcome,
                BridgeStep::ReportReady,
                BridgeStep::UnloadFailed,
            ),
            BridgeStep::UnloadFailed => {
                self.step = BridgeStep::RemoveFailed;
            },
            BridgeStep::RemoveFailed => {
                self.step = BridgeStep::ReportFailed;
            },
            BridgeStep::ReportFailed => {
                self.step = BridgeStep::Done;
            },
            BridgeStep::ReportReady => {
                self.step = BridgeStep::Watch;
            },
            BridgeStep::Watch => {
                self.step = BridgeStep::Unload;
            },
            BridgeStep::Unload => {
                self.step = BridgeStep::Remove;
            },
            BridgeStep::Remove => {
                self.step = BridgeStep::Done;
            },
            BridgeStep::Done => {},
        }
    }
}

/// The file with the script may be there from the step that writes it, though that
/// fails half-way, to the step that removes it; that step was taken when the bridge is
/// done, whatever failed on the way.
pub proof fn law_script_file_is_removed(b: BridgeView, outcome: Result<(), Seq<char>>)
    ensures
        b.has_file() && !b.after(outcome).has_file() ==> b.step == BridgeStep::Remove || b.step
            == BridgeStep::RemoveFailed,
        !b.has_file() && b.after(outcome).has_file() ==> b.step == BridgeStep::Write,
        b.step == BridgeStep::Done ==> !b.has_file(),
        !BridgeView::start().has_file(),
{
}

/// A script that was loaded stays until it is had unloaded, and a bridge that did not
/// come up leaves nothing behind: before that is reported, and before the bridge is
/// done, a loaded script is had unloaded and a file that may be there is removed,
/// whatever failed on the way.
pub proof fn law_failed_bridge_leaves_nothing(b: BridgeView, outcome: Result<(), Seq<char>>)
    ensures
        b.has_script() && !b.after(outcome).has_script() ==> b.step == BridgeStep::Unload || b.step
            == BridgeStep::UnloadFailed,
        !b.has_script() && b.after(outcome).has_script() ==> b.step == BridgeStep::Load && outcome
            is Ok,
        b.step == BridgeStep::ReportFailed || b.step == BridgeStep::Done ==> !b.has_script()
            && !b.has_file(),
        !BridgeView::start().has_script(),
{
}

/// Whether the bridge came up is reported once: a failure with its cause, or
/// success with none.
pub proof fn law_bridge_reports_once(b: BridgeView, outcome: Result<(), Seq<char>>)
    ensures
        b.has_reported() ==> b.after(outcome).has_reported() && b.step != BridgeStep::ReportFailed
            && b.step != BridgeStep::ReportReady,
        !b.has_reported() && b.after(outcome).has_reported() ==> b.step
            == BridgeStep::ReportFailed || b.step == BridgeStep::ReportReady,
        !BridgeView::start().has_reported(),
{
}

/// The state of a bridge after the outcomes `outcomes` of its steps.
pub open spec fn after_all(outcomes: Seq<Result<(), Seq<char>>>) -> BridgeView
    decreases outcomes.len(),
{
    if outcomes.len() == 0 {
        BridgeView::start()
    } else {
        after_all(outcomes.drop_last()).after(outcomes.last())
    }
}

/// A bridge that reports success has no failure, and one that reports a failure has
/// its cause.
pub proof fn law_bridge_reports_truly(outcomes: Seq<Result<(), Seq<char>>>)
    ensures
        match after_all(outcomes).step {
            BridgeStep::UnloadFailed | BridgeStep::RemoveFailed | BridgeStep::ReportFailed => after_all(
                outcomes,
            ).failure is Some,
            BridgeStep::Done => true,
            _ => after_all(outcomes).failure is None,
        },
    decreases outcomes.len(),
{
    if outcomes.len() > 0 {
        law_bridge_reports_truly(outcomes.drop_last());
    }
}

/// A bridge comes up exactly where each of the six steps of bringing it up works.
pub proof fn law_bridge_needs_every_step(outcomes: Seq<Result<(), Seq<char>>>)
    requires
        outcomes.len() == 6,
    ensures
        after_all(outcomes).step == BridgeStep::ReportReady <==> forall|i: int|
            0 <= i < 6 ==> (#[trigger] outcomes[i]) is Ok,
{
    reveal_with_fuel(after_all, 7);
    assert(outcomes.drop_last().drop_last().drop_last().drop_last().drop_last().drop_last().len()
        == 0);
    assert(outcomes[0] is Ok && outcomes[1] is Ok && outcomes[2] is Ok && outcomes[3] is Ok
        && outcomes[4] is Ok && outcomes[5] is Ok ==> forall|i: int|
        0 <= i < 6 ==> (#[trigger] outcomes[i]) is Ok);
}

/// Whatever happens, a bridge is done after a bounded number of steps.
pub proof fn law_bridge_ends(outcomes: Seq<Result<(), Seq<char>>>)
    requires
        outcomes.len() >= 10,
    ensures
        after_all(outcomes).step == BridgeStep::Done,
    decreases outcomes.len(),
{
    lemma_bridge_rank(outcomes);
}

spec fn rank(step: BridgeStep) -> int {
    match step {
        BridgeStep::Session => 10,
        BridgeStep::Build => 9,
        BridgeStep::Write => 8,
        BridgeStep::Proxy => 7,
        BridgeStep::Load => 6,
        BridgeStep::Start => 5,
        BridgeStep::ReportReady => 4,
        BridgeStep::Watch => 3,
        BridgeStep::Unload => 2,
        BridgeStep::Remove => 1,
        BridgeStep::UnloadFailed => 3,
        BridgeStep::RemoveFailed => 2,
        BridgeStep::ReportFailed => 1,
        BridgeStep::Done => 0,
    }
}

proof fn lemma_bridge_rank(outcomes: Seq<Result<(), Seq<char>>>)
    ensures
        after_all(outcomes).step == BridgeStep::Done || rank(after_all(outcomes).step) + outcomes.len()
            <= 10,
    decreases outcomes.len(),
{
    if outcomes.len() > 0 {
        lemma_bridge_rank(outcomes.drop_last());
    }
}

// ---------------------------------------------------------------------------
// Tracking
// ---------------------------------------------------------------------------

/// What a tracker of the focus on KDE knows, as a mathematical value.
#[verifier::ext_equal]
pub struct KwinView {
    pub shared: SharedView,
    /// The running applications that were listed last.
    pub apps: Seq<RunningAppView>,
}

/// A tracker of the focus on KDE.
pub struct KwinTracker {
    shared: Shared,
    apps: Vec<RunningApp>,
}

impl KwinTracker {
    /// What the tracker knows.
    pub closed spec fn view(&self) -> KwinView {
        KwinView { shared: self.shared@, apps: apps_view(self.apps@) }
    }

    /// Begins to track with nothing known.
    pub fn new(pid: u32) -> (r: KwinTracker)
        ensures
            r@ == (KwinView { shared: SharedView::start(None, pid), apps: Seq::empty() }),
    {
        let apps: Vec<RunningApp> = Vec::new();
        assert(apps_view(apps@) =~= Seq::<RunningAppView>::empty());
        KwinTracker { shared: Shared::new(None, pid), apps }
    }

    /// Decides whether the bridge came up: `report` is what it reported in time, if
    /// it reported at all.
    pub fn start(report: Option<Result<(), String>>) -> (r: Result<(), String>)
        ensures
            match report {
                Some(Ok(_)) => r is Ok,
                Some(Err(e)) => r matches Err(m) && m@ == e@,
                None => r matches Err(m) && m@ == "KWin bridge startup timed out"@,
            },
    {
        match report {
            Some(r) => r,
            None => Err("KWin bridge startup timed out".to_owned()),
        }
    }

    /// Takes in the application of the window that became active. One of which
    /// nothing is known, as when the desktop gets the focus, changes nothing. The
    /// event that comes back, if any, is to be sent.
    pub fn on_activation(&mut self, app: ActiveApp) -> (r: Option<FocusEvent>)
        ensures
            r matches Some(e) ==> e.app.app_name@ == app.app_name@ && e.app.bundle_id@
                == app.bundle_id@ && e.app.window_title@ == app.window_title@ && e.app.url@
                == app.url@,
            final(self)@.apps == old(self)@.apps,
            app@.is_blank() ==> final(self)@.shared == old(self)@.shared && r is None,
            !app@.is_blank() ==> final(self)@.shared == old(self)@.shared.on_focus(app@).0
                && event_view(r) == old(self)@.shared.on_focus(app@).1,
    {
        if app.is_blank() {
            None
        } else {
            self.shared.on_focus(app)
        }
    }

    /// Takes in the list of running applications.
    pub fn on_list(&mut self, apps: Vec<RunningApp>)
        ensures
            final(self)@ == (KwinView { apps: apps_view(apps@), ..old(self)@ }),
    {
        self.apps = apps;
    }

    /// The application that was active last.
    pub fn current(&self) -> (r: Option<ActiveApp>)
        ensures
            app_view(r) == self@.shared.cache,
    {
        self.shared.current()
    }

    /// The running applications that were listed last.
    pub fn running_apps(&self) -> (r: Vec<RunningApp>)
        ensures
            apps_view(r@) == self@.apps,
    {
        let mut r: Vec<RunningApp> = Vec::new();
        let mut i: usize = 0;
        while i < self.apps.len()
            invariant
                i <= self.apps.len(),
                apps_view(r@) == apps_view(self.apps@).take(i as int),
            decreases self.apps.len() - i,
        {
            let a = self.apps[i].clone();
            let ghost before = apps_view(r@);
            r.push(a);
            assert(apps_view(r@) =~= before.push(a@));
            i += 1;
            assert(apps_view(r@) =~= apps_view(self.apps@).take(i as int));
        }
        assert(apps_view(self.apps@).take(i as int) =~= apps_view(self.apps@));
        r
    }

    /// Turns focus events on or off. The event that comes back, if any, is to be
    /// sent.
    pub fn set_focus_detection(&mut self, active: bool) -> (r: Option<FocusEvent>)
        ensures
            final(self)@.apps == old(self)@.apps,
            final(self)@.shared == old(self)@.shared.set_focus_detection(active).0,
            event_view(r) == old(self)@.shared.set_focus_detection(active).1,
    {
        self.shared.set_focus_detection(active)
    }
}

// ---------------------------------------------------------------------------
// Laws
// ---------------------------------------------------------------------------

/// A window is read from the members that describe it, each as it is; what is missing or
/// of another type is empty, or 0.
pub proof fn law_window_is_read_as_described(m: Map<Seq<char>, JsonView>, s: Seq<char>, n: u64)
    ensures
        m.contains_key("resourceClass"@) && m["resourceClass"@] == JsonView::Text(s) ==> window_of(
            JsonView::Object(m),
        ).resource_class == s,
        m.contains_key("resourceName"@) && m["resourceName"@] == JsonView::Text(s) ==> window_of(
            JsonView::Object(m),
        ).resource_name == s,
        m.contains_key("caption"@) && m["caption"@] == JsonView::Text(s) ==> window_of(
            JsonView::Object(m),
        ).caption == s,
        m.contains_key("pid"@) && m["pid"@] == JsonView::Unsigned(n) ==> window_of(
            JsonView::Object(m),
        ).pid == n,
        !(m.contains_key("resourceClass"@) && m["resourceClass"@] is Text) ==> window_of(
            JsonView::Object(m),
        ).resource_class.len() == 0,
        !(m.contains_key("resourceName"@) && m["resourceName"@] is Text) ==> window_of(
            JsonView::Object(m),
        ).resource_name.len() == 0,
        !(m.contains_key("caption"@) && m["caption"@] is Text) ==> window_of(
            JsonView::Object(m),
        ).caption.len() == 0,
        !(m.contains_key("pid"@) && m["pid"@] is Unsigned) ==> window_of(JsonView::Object(m)).pid
            == 0,
{
}

/// Of a text that holds no document nothing is known, and of a document that is no object
/// neither.
pub proof fn law_nothing_is_read_of_what_is_no_object(v: JsonView, e: Seq<char>)
    ensures
        or_null(Err(e)) == JsonView::Null,
        or_null(Ok(v)) == v,
        !(v is Object) ==> window_of(v).resource_class.len() == 0 && window_of(v).resource_name.len()
            == 0 && window_of(v).caption.len() == 0 && window_of(v).pid == 0,
{
}

/// A list of windows is read one by one, in order; what is no list has none.
pub proof fn law_windows_are_read_in_order(items: Seq<JsonView>, i: int, v: JsonView)
    ensures
        windows_of(JsonView::Array(items)).len() == items.len(),
        0 <= i < items.len() ==> windows_of(JsonView::Array(items))[i] == window_of(items[i]),
        !(v is Array) ==> windows_of(v).len() == 0,
{
}

/// The application of a window: its id is the class, its title the caption; its name is
/// that of the process, and else the name of the resource, and else the class.
pub proof fn law_application_of_a_window(w: WindowView, comm: Option<Seq<char>>)
    ensures
        w.app(comm).bundle_id == w.resource_class,
        w.app(comm).window_title == w.caption,
        w.app(comm).url.len() == 0,
        process_name(w.pid, comm).len() > 0 ==> w.app(comm).app_name == process_name(w.pid, comm),
        process_name(w.pid, comm).len() == 0 && w.resource_name.len() > 0 ==> w.app(comm).app_name
            == w.resource_name,
        process_name(w.pid, comm).len() == 0 && w.resource_name.len() == 0 ==> w.app(comm).app_name
            == w.resource_class,
        w.running(comm).bundle_id == w.resource_class,
        w.running(comm).name == w.app(comm).app_name,
        app_name_of(w.pid, w.resource_name, w.resource_class, comm) == w.app(comm).app_name,
{
}

/// The script calls back the service and the object that it was written for, in both of
/// its calls.
pub proof fn law_script_calls_its_service(service: Seq<char>, path: Seq<char>)
    ensures
        script_of(service, path) == SCRIPT_HEAD@ + service + "\", \""@ + path + SCRIPT_MIDDLE@
            + service + "\", \""@ + path + SCRIPT_TAIL@,
{
}

/// The steps of bringing a bridge up, and of taking it down again, each where the one
/// before worked.
pub proof fn law_bridge_steps_in_order(b: BridgeView)
    ensures
        BridgeView::start().step == BridgeStep::Session && BridgeView::start().failure is None,
        b.after(Ok(())).failure == b.failure,
        b.after(Ok(())).step == match b.step {
            BridgeStep::Session => BridgeStep::Build,
            BridgeStep::Build => BridgeStep::Write,
            BridgeStep::Write => BridgeStep::Proxy,
            BridgeStep::Proxy => BridgeStep::Load,
            BridgeStep::Load => BridgeStep::Start,
            BridgeStep::Start => BridgeStep::ReportReady,
            BridgeStep::ReportReady => BridgeStep::Watch,
            BridgeStep::Watch => BridgeStep::Unload,
            BridgeStep::Unload => BridgeStep::Remove,
            BridgeStep::Remove => BridgeStep::Done,
            BridgeStep::UnloadFailed => BridgeStep::RemoveFailed,
            BridgeStep::RemoveFailed => BridgeStep::ReportFailed,
            BridgeStep::ReportFailed => BridgeStep::Done,
            BridgeStep::Done => BridgeStep::Done,
        },
{
}

/// A step of bringing a bridge up that fails is told by its name, and nothing of it is left
/// to fail again: what was begun is undone.
pub proof fn law_bridge_failures(b: BridgeView, e: Seq<char>)
    ensures
        b.step == BridgeStep::Session ==> b.after(Err(e)) == (BridgeView {
            step: BridgeStep::ReportFailed,
            failure: Some("session bus: "@ + e),
        }),
        b.step == BridgeStep::Build ==> b.after(Err(e)) == (BridgeView {
            step: BridgeStep::ReportFailed,
            failure: Some("build connection: "@ + e),
        }),
        b.step == BridgeStep::Write ==> b.after(Err(e)) == (BridgeView {
            step: BridgeStep::RemoveFailed,
            failure: Some("write script: "@ + e),
        }),
        b.step == BridgeStep::Proxy ==> b.after(Err(e)) == (BridgeView {
            step: BridgeStep::RemoveFailed,
            failure: Some("scripting proxy: "@ + e),
        }),
        b.step == BridgeStep::Load ==> b.after(Err(e)) == (BridgeView {
            step: BridgeStep::RemoveFailed,
            failure: Some("loadScript (KWin not available?): "@ + e),
        }),
        b.step == BridgeStep::Start ==> b.after(Err(e)) == (BridgeView {
            step: BridgeStep::UnloadFailed,
            failure: Some("start: "@ + e),
        }),
        b.step != BridgeStep::Session && b.step != BridgeStep::Build && b.step != BridgeStep::Write
            && b.step != BridgeStep::Proxy && b.step != BridgeStep::Load && b.step
            != BridgeStep::Start ==> b.after(Err(e)) == b.after(Ok(())),
{
}

/// Windows are known by what they hold, lists of them one by one.
pub proof fn law_kwin_views_tell_all(
    w: Window,
    ws: Seq<Window>,
    pairs: Seq<(Window, Option<String>)>,
    i: int,
)
    ensures
        w@.resource_class == w.resource_class@,
        w@.resource_name == w.resource_name@,
        w@.caption == w.caption@,
        w@.pid == w.pid,
        windows_view(ws).len() == ws.len(),
        0 <= i < ws.len() ==> windows_view(ws)[i] == ws[i]@,
        running_view(pairs).len() == pairs.len(),
        0 <= i < pairs.len() ==> running_view(pairs)[i] == pairs[i].0@.running(
            text_view(pairs[i].1),
        ),
{
}

} // verus!
