//! Trackers of the focus: what they send, and what they know of applications.

use wispr_flow_helper::backend::gnome::{ensure_enabled, ensure_installed, extension_dir};
use wispr_flow_helper::backend::gnome::{is_up_to_date, parse_focused, parse_window_list, short_name};
use wispr_flow_helper::backend::gnome::{signal_action, window_to_app, GnomeTracker, InstallStep};
use wispr_flow_helper::backend::gnome::SignalAction;
use wispr_flow_helper::backend::kwin::{kwin_script, parse_report, parse_report_list, plugin_name};
use wispr_flow_helper::backend::kwin::{report_list, script_file, service_name, Bridge, BridgeStep};
use wispr_flow_helper::backend::kwin::{KwinTracker, BRIDGE_PATH};
use wispr_flow_helper::backend::{list_app, ActiveApp, RunningApp, Shared};
use wispr_flow_helper::json::Json;

fn app(id: &str, title: &str) -> ActiveApp {
    ActiveApp {
        app_name: id.to_uppercase(),
        bundle_id: id.to_string(),
        window_title: title.to_string(),
        url: String::new(),
    }
}

fn running(id: &str, name: &str) -> RunningApp {
    RunningApp { bundle_id: id.to_string(), name: name.to_string() }
}

#[test]
fn nothing_is_sent_while_off() {
    let mut s = Shared::new(None, 5);
    assert!(s.on_focus(app("a", "1")).is_none());
    assert_eq!(s.current(), Some(app("a", "1")));
    assert!(s.set_focus_detection(false).is_none());
}

#[test]
fn turning_on_sends_the_focus() {
    let mut s = Shared::new(Some(app("a", "1")), 5);
    let e = s.set_focus_detection(true).unwrap();
    assert_eq!(e.uuid, "evt-5-0");
    assert_eq!(e.app, app("a", "1"));
    let m = e.message(Json::member("k", Json::unsigned(1)));
    let inner = m.get("HelperAPIRequest").unwrap();
    assert_eq!(inner.text_at("uuid"), "evt-5-0");
    assert_eq!(inner.get("AppInfoUpdate").unwrap().unsigned_at("k"), 1);
    // What was sent is not sent again, until events were off.
    assert!(s.set_focus_detection(true).is_none());
    assert!(s.set_focus_detection(false).is_none());
    assert_eq!(s.set_focus_detection(true).unwrap().uuid, "evt-5-1");
}

#[test]
fn event_describes_its_own_application() {
    let mut s = Shared::new(Some(app("a", "1")), 5);
    let e = s.set_focus_detection(true).unwrap();
    let m = e.described_message(|shown: &ActiveApp| Json::text(&shown.bundle_id));
    let inner = m.get("HelperAPIRequest").unwrap();
    assert_eq!(inner.text_at("AppInfoUpdate"), e.app.bundle_id);
    assert_eq!(inner.text_at("uuid"), "evt-5-0");
}

#[test]
fn only_changes_are_sent() {
    let mut s = Shared::new(None, 5);
    assert!(s.set_focus_detection(true).is_none());
    assert_eq!(s.on_focus(app("a", "1")).unwrap().uuid, "evt-5-0");
    assert!(s.on_focus(app("a", "1")).is_none());
    let renamed = ActiveApp { app_name: "other".to_string(), ..app("a", "1") };
    assert!(s.on_focus(renamed.clone()).is_none());
    assert_eq!(s.current(), Some(renamed));
    assert_eq!(s.on_focus(app("a", "2")).unwrap().uuid, "evt-5-1");
    assert_eq!(s.on_focus(app("b", "2")).unwrap().uuid, "evt-5-2");
}

#[test]
fn apps_are_listed_once() {
    let mut apps = Vec::new();
    for (id, name) in [("a", "A"), ("", "none"), ("b", "B"), ("a", "again")] {
        list_app(&mut apps, running(id, name));
    }
    assert_eq!(apps, vec![running("a", "A"), running("b", "B")]);
}

// --- GNOME ---

#[test]
fn short_names_are_the_last_part() {
    assert_eq!(short_name("org.gnome.Nautilus.desktop"), "Nautilus");
    assert_eq!(short_name("firefox"), "firefox");
    assert_eq!(short_name("firefox.desktop"), "firefox");
    assert_eq!(short_name("a.b."), "");
    assert_eq!(short_name(""), "");
    assert_eq!(short_name(".desktop"), "");
    assert_eq!(short_name("x.desktop.desktop"), "desktop");
}

#[test]
fn focused_window_is_read() {
    let w = parse_focused(r#"{"appId":"org.x.App.desktop","title":"t","wmClass":"c","pid":7}"#)
        .unwrap();
    assert_eq!(w.pid, 7);
    let named = window_to_app(&w, &Some(" app-bin\n".to_string()));
    assert_eq!(named.app_name, "app-bin");
    assert_eq!(named.bundle_id, "org.x.App.desktop");
    assert_eq!(named.window_title, "t");
    assert_eq!(window_to_app(&w, &None).app_name, "App");
    assert_eq!(window_to_app(&w, &Some("  ".to_string())).app_name, "App");
    let w = parse_focused(r#"{"wmClass":"c","pid":"7"}"#).unwrap();
    assert_eq!(w.pid, 0);
    let other = window_to_app(&w, &Some("comm".to_string()));
    assert_eq!(other.app_name, "c");
    assert_eq!(other.bundle_id, "c");
}

#[test]
fn window_without_id_title_and_class_is_none() {
    assert!(parse_focused(r#"{"appId":"","title":"","wmClass":"","pid":1}"#).is_none());
    assert!(parse_focused("{}").is_none());
    assert!(parse_focused("no json").is_none());
    assert!(parse_focused(r#"{"title":"t"}"#).is_some());
}

#[test]
fn gnome_windows_are_listed_once() {
    let ws = parse_window_list(
        r#"[{"appId":"a.desktop","pid":1},{"title":"t"},{"wmClass":"k"},{"appId":"a.desktop"}]"#,
    );
    assert_eq!(ws.len(), 4);
    let with_comm = Some(ws.into_iter().map(|w| (w, Some("comm".to_string()))).collect());
    let t = GnomeTracker::start(Ok(None), 1).ok().unwrap();
    assert_eq!(
        t.get_running_apps(&with_comm),
        vec![running("a.desktop", "comm"), running("k", "k")]
    );
    assert!(t.get_running_apps(&None).is_empty());
    assert!(parse_window_list("{}").is_empty());
    assert!(parse_window_list("[").is_empty());
}

#[test]
fn gnome_tracker_polls_and_remembers() {
    let mut t = GnomeTracker::start(Ok(Some(app("a", "1"))), 3).ok().unwrap();
    assert_eq!(t.current(None), Some(app("a", "1")));
    assert_eq!(t.current(Some(app("b", "2"))), Some(app("b", "2")));
    assert_eq!(t.current(None), Some(app("b", "2")));
    assert_eq!(t.set_focus_detection(true).unwrap().app, app("b", "2"));
    assert_eq!(t.on_focus(app("c", "3")).unwrap().uuid, "evt-3-1");
    match GnomeTracker::start(Err("gone".to_string()), 3) {
        Ok(_) => panic!("started"),
        Err(e) => assert_eq!(e, "bridge not loaded (relogin required): gone"),
    }
}

#[test]
fn gnome_signals_are_used_or_polled() {
    assert_eq!(signal_action(true, Some("x".to_string())), SignalAction::Stop);
    assert_eq!(
        signal_action(false, Some("x".to_string())),
        SignalAction::Use("x".to_string())
    );
    assert_eq!(signal_action(false, None), SignalAction::Poll);
}

#[test]
fn extension_is_installed_below_the_data_directory() {
    let dir = |x: Option<&str>, h: Option<&str>| {
        extension_dir(x.map(|s| s.as_bytes().to_vec()), h.map(|s| s.as_bytes().to_vec()))
            .map(|b| String::from_utf8(b).unwrap())
    };
    let tail = "gnome-shell/extensions/wispr-flow-window-bridge@wispr.flow";
    assert_eq!(dir(Some("/d"), Some("/h")), Some(format!("/d/{tail}")));
    assert_eq!(dir(Some("/d/"), None), Some(format!("/d/{tail}")));
    assert_eq!(dir(Some(""), Some("/h")), Some(format!("/h/.local/share/{tail}")));
    assert_eq!(dir(None, Some("/h")), Some(format!("/h/.local/share/{tail}")));
    assert_eq!(dir(None, None), None);
    for (x, h) in [(Some("/d"), None), (None, Some("/h")), (Some("rel"), None)] {
        let base = match x {
            Some(x) => std::path::PathBuf::from(x),
            None => std::path::PathBuf::from(h.unwrap()).join(".local/share"),
        };
        let path = base
            .join("gnome-shell/extensions")
            .join("wispr-flow-window-bridge@wispr.flow");
        assert_eq!(dir(x, h), Some(path.to_str().unwrap().to_string()));
    }
}

#[test]
fn extension_is_written_where_it_is_stale() {
    let some = |s: &str| Some(s.to_string());
    assert!(is_up_to_date(some("m"), some("s"), "m", "s"));
    assert!(!is_up_to_date(some("m"), some("old"), "m", "s"));
    assert!(!is_up_to_date(None, some("s"), "m", "s"));
    assert_eq!(
        ensure_installed(false, false),
        Err("cannot resolve extensions dir (no HOME)".to_string())
    );
    assert_eq!(ensure_installed(true, true), Ok(InstallStep::Done(false)));
    let mut step = ensure_installed(true, false).unwrap();
    let mut steps = Vec::new();
    while !matches!(step, InstallStep::Done(_)) {
        steps.push(step);
        step = step.took("/d", Ok(())).unwrap();
    }
    assert_eq!(
        steps,
        vec![InstallStep::CreateDir, InstallStep::WriteMetadata, InstallStep::WriteScript]
    );
    assert_eq!(step, InstallStep::Done(true));
    let fails = |s: InstallStep| s.took("/d", Err("ENOSPC".to_string())).unwrap_err();
    assert_eq!(fails(InstallStep::CreateDir), "create /d: ENOSPC");
    assert_eq!(fails(InstallStep::WriteMetadata), "write metadata.json: ENOSPC");
    assert_eq!(fails(InstallStep::WriteScript), "write extension.js: ENOSPC");
}

#[test]
fn extension_is_enabled_by_two_programs() {
    let commands = ensure_enabled();
    assert_eq!(commands.len(), 2);
    assert_eq!(commands[0].program, "gsettings");
    assert_eq!(
        commands[0].args,
        vec!["set", "org.gnome.shell", "disable-extension-version-validation", "true"]
    );
    assert_eq!(commands[1].program, "gnome-extensions");
    assert_eq!(commands[1].args, vec!["enable", "wispr-flow-window-bridge@wispr.flow"]);
}

// --- KDE ---

#[test]
fn kwin_reports_are_read() {
    let w = parse_report(
        r#"{"resourceClass":"org.kde.kate","resourceName":"kate","caption":"notes","pid":9}"#,
    );
    let named = w.to_app(&Some("kate-bin\n".to_string()));
    assert_eq!(named.app_name, "kate-bin");
    assert_eq!(named.bundle_id, "org.kde.kate");
    assert_eq!(named.window_title, "notes");
    assert_eq!(w.to_app(&None).app_name, "kate");
    assert_eq!(
        parse_report(r#"{"resourceClass":"c"}"#).to_app(&Some("comm".to_string())).app_name,
        "c"
    );
    assert!(parse_report("{}").to_app(&None).is_blank());
    assert!(parse_report("no json").to_app(&None).is_blank());
}

#[test]
fn kwin_windows_are_listed_once() {
    let ws = parse_report_list(
        r#"[{"resourceClass":"a","resourceName":"n"},{"caption":"x"},{"resourceClass":"a"},
           {"resourceClass":"b","pid":4}]"#,
    );
    let with_comm = ws.into_iter().map(|w| (w, Some("comm".to_string()))).collect();
    assert_eq!(report_list(&with_comm), vec![running("a", "n"), running("b", "comm")]);
    assert!(parse_report_list("{}").is_empty());
    assert!(parse_report_list("").is_empty());
}

#[test]
fn kwin_tracker_keeps_the_last_real_window() {
    let mut t = KwinTracker::new(8);
    assert_eq!(t.current(), None);
    assert!(t.running_apps().is_empty());
    assert!(t.on_activation(app("a", "1")).is_none());
    assert!(t.on_activation(ActiveApp::default()).is_none());
    assert_eq!(t.current(), Some(app("a", "1")));
    t.on_list(vec![running("a", "A")]);
    assert_eq!(t.running_apps(), vec![running("a", "A")]);
    assert_eq!(t.set_focus_detection(true).unwrap().uuid, "evt-8-0");
    assert!(t.on_activation(ActiveApp::default()).is_none());
    assert_eq!(t.on_activation(app("b", "1")).unwrap().uuid, "evt-8-1");
    assert_eq!(
        KwinTracker::start(None),
        Err("KWin bridge startup timed out".to_string())
    );
    assert_eq!(KwinTracker::start(Some(Ok(()))), Ok(()));
    assert_eq!(KwinTracker::start(Some(Err("x".to_string()))), Err("x".to_string()));
}

#[test]
fn bridge_is_brought_up_and_down() {
    let mut b = Bridge::new();
    let mut steps = Vec::new();
    while b.step() != BridgeStep::Done {
        steps.push(b.step());
        if b.step() == BridgeStep::ReportReady {
            assert_eq!(b.report(), Ok(()));
        }
        b.took(Ok(()));
    }
    assert_eq!(
        steps,
        vec![
            BridgeStep::Session,
            BridgeStep::Build,
            BridgeStep::Write,
            BridgeStep::Proxy,
            BridgeStep::Load,
            BridgeStep::Start,
            BridgeStep::ReportReady,
            BridgeStep::Watch,
            BridgeStep::Unload,
            BridgeStep::Remove,
        ]
    );
}

#[test]
fn bridge_that_fails_leaves_nothing_and_reports() {
    for (failing, unloads, removes, told) in [
        (0, false, false, "session bus: no"),
        (1, false, false, "build connection: no"),
        (2, false, true, "write script: no"),
        (3, false, true, "scripting proxy: no"),
        (4, false, true, "loadScript (KWin not available?): no"),
        (5, true, true, "start: no"),
    ] {
        let mut b = Bridge::new();
        for _ in 0..failing {
            b.took(Ok(()));
        }
        b.took(Err("no".to_string()));
        if unloads {
            assert_eq!(b.step(), BridgeStep::UnloadFailed);
            b.took(Err("not loaded".to_string()));
        }
        if removes {
            assert_eq!(b.step(), BridgeStep::RemoveFailed);
            b.took(Err("gone".to_string()));
        }
        assert_eq!(b.step(), BridgeStep::ReportFailed);
        assert_eq!(b.report(), Err(told.to_string()));
        b.took(Ok(()));
        assert_eq!(b.step(), BridgeStep::Done);
    }
}

#[test]
fn bridge_names_hold_the_process() {
    assert_eq!(service_name(12), "org.wisprflow.kwinbridge_12");
    assert_eq!(plugin_name(12), "wispr-flow-active-12");
    assert_eq!(script_file(12), "wispr-flow-active-12.js");
    assert_eq!(BRIDGE_PATH, "/active");
}

#[test]
fn script_is_exact() {
    let service = "org.wisprflow.kwinbridge_12";
    let path = "/active";
    let expected = format!(
        r#"
function wisprReport(w) {{
    var payload = "{{}}";
    if (w) {{
        payload = JSON.stringify({{
            resourceClass: w.resourceClass,
            resourceName: w.resourceName,
            caption: w.caption,
            pid: w.pid
        }});
    }}
    callDBus("{service}", "{path}", "org.wisprflow.kwinbridge", "Report", payload);
}}
function wisprWindowList() {{
    if (typeof workspace.windowList === "function") {{
        return workspace.windowList();
    }}
    if (typeof workspace.clientList === "function") {{
        return workspace.clientList();
    }}
    return [];
}}
function wisprReportList() {{
    var wins = wisprWindowList();
    var out = [];
    for (var i = 0; i < wins.length; i++) {{
        var w = wins[i];
        if (!w) {{ continue; }}
        // Keep only normal, taskbar-visible windows with a class — drops the
        // desktop, docks/panels, OSDs, splashes, etc. (what a taskbar shows).
        if (w.normalWindow !== true) {{ continue; }}
        if (w.skipTaskbar === true) {{ continue; }}
        if (!w.resourceClass) {{ continue; }}
        out.push({{
            resourceClass: w.resourceClass,
            resourceName: w.resourceName,
            caption: w.caption,
            pid: w.pid
        }});
    }}
    callDBus("{service}", "{path}", "org.wisprflow.kwinbridge", "ReportList", JSON.stringify(out));
}}
workspace.windowActivated.connect(function(w) {{
    wisprReport(w);
    wisprReportList();
}});
if (typeof workspace.windowAdded !== "undefined") {{
    workspace.windowAdded.connect(wisprReportList);
}} else if (typeof workspace.clientAdded !== "undefined") {{
    workspace.clientAdded.connect(wisprReportList);
}}
if (typeof workspace.windowRemoved !== "undefined") {{
    workspace.windowRemoved.connect(wisprReportList);
}} else if (typeof workspace.clientRemoved !== "undefined") {{
    workspace.clientRemoved.connect(wisprReportList);
}}
wisprReport(workspace.activeWindow || workspace.activeClient);
wisprReportList();
"#
    );
    assert_eq!(kwin_script(service, path), expected);
}
