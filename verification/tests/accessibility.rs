//! The focus and the selection over the accessibility bus, and the clipboard.

use wispr_flow_helper::backend::atspi_app::{enumerate_apps, identity_from_sender};
use wispr_flow_helper::backend::atspi_app::{interesting_source, is_searched, is_shell_app};
use wispr_flow_helper::backend::atspi_app::{needs_own_name, resolve_active_app, window_title_for};
use wispr_flow_helper::backend::atspi_app::{Announced, AtspiTracker, FocusSearch, Found, Identity};
use wispr_flow_helper::backend::atspi_app::{own_title, watch_action, Arrived, ObjectRole, Toplevel};
use wispr_flow_helper::backend::atspi_app::{Want, WatchAction};
use wispr_flow_helper::backend::atspi_sel::{get_selection, Ask, Reply, SelectionRead, MAX_CONTENTS};
use wispr_flow_helper::backend::walk::{Walk, MAX_DEPTH, MAX_NODES};
use wispr_flow_helper::backend::wl_clipboard::{set_clipboard, set_outcome, ServeStep, SourceEvent};
use wispr_flow_helper::backend::{ActiveApp, RunningApp, Selection};

fn some(s: &str) -> Option<String> {
    Some(s.to_string())
}

// --- Searching ---

/// Children of objects that are numbered by tens: 1 has 10, 11, .., and so on.
fn children(id: u64) -> Vec<u64> {
    match id {
        1 => vec![10, 11],
        10 => vec![100],
        2 => vec![20],
        _ => Vec::new(),
    }
}

#[test]
fn objects_are_asked_depth_first_in_order() {
    let mut w = Walk::new(&vec![1, 2]);
    let mut asked = Vec::new();
    while let Some(id) = w.next() {
        asked.push(id);
        assert_eq!(w.answer(false, &children(id)), None);
    }
    assert_eq!(asked, vec![1, 10, 100, 11, 2, 20]);
}

#[test]
fn match_ends_a_search() {
    let mut w = Walk::new(&vec![1, 2]);
    let mut found = None;
    while let Some(id) = w.next() {
        found = w.answer(id == 11, &children(id));
        if found.is_some() {
            break;
        }
    }
    assert_eq!(found, Some(11));
}

#[test]
fn searches_are_bounded() {
    // A chain is followed down to the largest depth, and a wide tree up to the
    // largest number of objects.
    let mut chain = Walk::new(&vec![0]);
    let mut n = 0;
    while let Some(id) = chain.next() {
        n += 1;
        chain.answer(false, &vec![id + 1]);
    }
    assert_eq!(n, MAX_DEPTH + 1);
    let roots: Vec<u64> = (0..1000).collect();
    let mut wide = Walk::new(&roots);
    let mut n = 0;
    while wide.next().is_some() {
        n += 1;
        wide.answer(false, &Vec::new());
    }
    assert_eq!(n, MAX_NODES);
}

fn search(focused: u64, active: u64) -> (Option<(Want, u64)>, usize) {
    let mut s = FocusSearch::new(vec![1, 2]);
    let mut n = 0;
    while let Some((want, id)) = s.next() {
        n += 1;
        let matches = match want {
            Want::Focused => id == focused,
            Want::Active => id == active,
        };
        if let Some(found) = s.answer(matches, &children(id)) {
            return (Some((want, found)), n);
        }
    }
    (None, n)
}

#[test]
fn focus_counts_before_active() {
    assert_eq!(search(20, 1), (Some((Want::Focused, 20)), 6));
    assert_eq!(search(0, 11), (Some((Want::Active, 11)), 10));
    assert_eq!(search(0, 0), (None, 12));
}

// --- Applications ---

#[test]
fn shells_are_known_by_their_names() {
    for name in [
        "gnome-shell",
        "Plasmashell",
        "KWIN",
        "kwin_wayland",
        "kwin_x11",
        "mutter",
        "mutter-x11-frames",
        "ksmserver",
        "my-Gnome-Shell-2",
    ] {
        assert!(is_shell_app(name), "{name}");
    }
    for name in ["", "kwin2", "gnome", "calculator", "mutter-x11"] {
        assert!(!is_shell_app(name), "{name}");
    }
    assert!(is_searched(&None));
    assert!(is_searched(&some("kate")));
    assert!(!is_searched(&some("kwin")));
}

#[test]
fn only_gained_focus_and_activation_count() {
    assert!(interesting_source(Announced::WindowActivate));
    assert!(interesting_source(Announced::StateChanged { focused: true, gained: true }));
    assert!(!interesting_source(Announced::StateChanged { focused: true, gained: false }));
    assert!(!interesting_source(Announced::StateChanged { focused: false, gained: true }));
    assert!(!interesting_source(Announced::Other));
}

fn identity(app_name: &str, bundle_id: &str) -> Identity {
    Identity { app_name: app_name.to_string(), bundle_id: bundle_id.to_string() }
}

#[test]
fn processes_tell_who_they_are() {
    let of = |pid, comm: Option<&str>, exe: Option<&str>| {
        identity_from_sender(
            pid,
            &comm.map(|s| s.to_string()),
            &exe.map(|s| s.to_string()),
        )
    };
    assert_eq!(of(Some(5), Some("kate\n"), Some("kate-bin")), identity("kate", "kate-bin"));
    assert_eq!(of(Some(5), Some(" \n"), Some("kate-bin")), identity("kate-bin", "kate-bin"));
    assert_eq!(of(Some(5), Some("kate"), None), identity("kate", ""));
    assert_eq!(of(Some(5), None, None), identity("", ""));
    assert_eq!(of(Some(0), Some("kate"), Some("kate")), identity("", ""));
    assert_eq!(of(None, Some("kate"), Some("kate")), identity("", ""));
}

#[test]
fn own_name_counts_where_the_process_has_none() {
    let who = identity("", "");
    assert!(needs_own_name(&who));
    let a = resolve_active_app(&who, &some(" Kate "), "t");
    assert_eq!(
        a,
        ActiveApp {
            app_name: "Kate".to_string(),
            bundle_id: "kate".to_string(),
            window_title: "t".to_string(),
            url: String::new(),
        }
    );
    let who = identity("Proc", "");
    assert!(!needs_own_name(&who));
    let a = resolve_active_app(&who, &some("Kate"), "");
    assert_eq!((a.app_name.as_str(), a.bundle_id.as_str()), ("Proc", "proc"));
    let a = resolve_active_app(&identity("", "exe"), &None, "");
    assert_eq!((a.app_name.as_str(), a.bundle_id.as_str()), ("", "exe"));
    assert!(resolve_active_app(&identity("", ""), &some("  "), "").is_blank());
}

fn top(is_toplevel: bool, name: Option<&str>, active: Option<bool>) -> Toplevel {
    let role = if is_toplevel { ObjectRole::Frame } else { ObjectRole::Other };
    Toplevel { role: Some(role), name: name.map(|s| s.to_string()), active }
}

#[test]
fn windows_are_frames_windows_and_dialogs() {
    for (role, title) in [
        (Some(ObjectRole::Frame), "x"),
        (Some(ObjectRole::Window), "x"),
        (Some(ObjectRole::Dialog), "x"),
        (Some(ObjectRole::Other), ""),
        (None, ""),
    ] {
        let object = Toplevel { role, name: some(" x "), active: None };
        assert_eq!(own_title(&object), title);
        let nothing = Toplevel { role: None, name: None, active: None };
        assert_eq!(window_title_for(&nothing, &vec![object]), title);
    }
}

#[test]
fn active_windows_have_a_title() {
    assert!(top(true, Some(" x "), Some(true)).is_active());
    assert!(!top(true, Some("  "), Some(true)).is_active());
    assert!(!top(true, Some("x"), Some(false)).is_active());
    assert!(!top(true, Some("x"), None).is_active());
    assert!(!top(false, Some("x"), Some(true)).is_active());
    assert!(top(true, None, None).is_toplevel());
    assert!(!top(false, None, None).is_toplevel());
}

#[test]
fn watcher_ends_with_the_events_or_when_stopped() {
    for (arrived, action) in [
        (Arrived::Event, WatchAction::Resolve),
        (Arrived::Bad, WatchAction::Again),
        (Arrived::Ended, WatchAction::End),
        (Arrived::TimeUp, WatchAction::Again),
    ] {
        assert_eq!(watch_action(false, arrived), action);
        assert_eq!(watch_action(true, arrived), WatchAction::End);
    }
}

#[test]
fn titles_prefer_the_object_then_the_active_window() {
    let children = vec![
        top(false, Some("menu"), Some(true)),
        top(true, Some("  "), Some(true)),
        top(true, Some("first"), None),
        top(true, Some(" second "), Some(true)),
        top(true, Some("third"), Some(true)),
    ];
    assert_eq!(window_title_for(&top(true, Some(" own "), None), &children), "own");
    assert_eq!(window_title_for(&top(true, Some(" "), None), &children), "second");
    assert_eq!(window_title_for(&top(false, Some("button"), None), &children), "second");
    let idle = vec![top(true, None, Some(true)), top(true, Some("x"), Some(false)), top(true, Some("y"), None)];
    assert_eq!(window_title_for(&top(false, None, None), &idle), "x");
    assert_eq!(window_title_for(&top(false, None, None), &Vec::new()), "");
}

#[test]
fn found_apps_are_listed_once() {
    let found = |own: Option<&str>, name: &str, id: &str| Found {
        own_name: own.map(|s| s.to_string()),
        who: identity(name, id),
    };
    let apps = vec![
        found(Some("Kate"), "kate", "kate-bin"),
        found(None, "", ""),
        found(Some("Kate 2"), "kate", "kate-bin"),
        found(Some(" Calc "), "", ""),
        found(None, "Proc", ""),
        found(None, "", "exe"),
    ];
    let run = |id: &str, name: &str| RunningApp { bundle_id: id.to_string(), name: name.to_string() };
    let listed = vec![run("kate-bin", "Kate"), run("calc", "Calc"), run("proc", "Proc"), run("exe", "exe")];
    assert_eq!(enumerate_apps(&apps), listed);
    let t = AtspiTracker::start(Some(Ok(None)), 1).ok().unwrap();
    assert_eq!(t.get_running_apps(&Some(apps)), listed);
    assert!(t.get_running_apps(&None).is_empty());
}

#[test]
fn tracker_skips_what_is_not_known() {
    let kate = ActiveApp {
        app_name: "Kate".to_string(),
        bundle_id: "kate".to_string(),
        window_title: String::new(),
        url: String::new(),
    };
    let mut t = AtspiTracker::start(Some(Ok(Some(kate.clone()))), 4).ok().unwrap();
    assert_eq!(t.current(), Some(kate.clone()));
    assert_eq!(t.set_focus_detection(true).unwrap().uuid, "evt-4-0");
    assert!(t.on_event(ActiveApp::default()).is_none());
    assert_eq!(t.current(), Some(kate.clone()));
    let titled = ActiveApp { window_title: "x".to_string(), ..ActiveApp::default() };
    assert_eq!(t.on_event(titled.clone()).unwrap().uuid, "evt-4-1");
    assert_eq!(t.current(), Some(titled));
    assert_eq!(AtspiTracker::start(None, 4).err(), some("AT-SPI seed timed out"));
    assert_eq!(AtspiTracker::start(Some(Err("x".to_string())), 4).err(), some("x"));
}

// --- Selections ---

/// An object with selections and a text of letters.
struct Letters {
    count: Option<i32>,
    ranges: Vec<Option<(i32, i32)>>,
    text: &'static str,
    size: Option<i32>,
}

fn read(o: &Letters) -> (Option<Selection>, Vec<Ask>) {
    let mut r = SelectionRead::new();
    let mut asked = Vec::new();
    let part = |a: i32, b: i32| o.text.get(a as usize..b as usize).map(|s| s.to_string());
    loop {
        let ask = r.ask();
        let reply = match ask {
            Ask::Count => Reply::Number(o.count),
            Ask::Range { index } => Reply::Range(o.ranges[index as usize]),
            Ask::Part { start, end, .. } => Reply::Text(part(start, end)),
            Ask::Size => Reply::Number(o.size),
            Ask::Whole { count } => Reply::Text(part(0, count)),
            Ask::Done => return (r.into_result(), asked),
        };
        asked.push(ask);
        r = r.answer(reply);
    }
}

#[test]
fn selections_are_joined() {
    let (s, asked) = read(&Letters {
        count: Some(4),
        ranges: vec![Some((0, 2)), None, Some((3, 3)), Some((4, 6))],
        text: "abcdef",
        size: Some(6),
    });
    assert_eq!(
        s,
        Some(Selection {
            selected_text: "abef".to_string(),
            contents: "abcdef".to_string(),
            before_text: String::new(),
            after_text: String::new(),
        })
    );
    assert_eq!(
        asked,
        vec![
            Ask::Count,
            Ask::Range { index: 0 },
            Ask::Part { index: 0, start: 0, end: 2 },
            Ask::Range { index: 1 },
            Ask::Range { index: 2 },
            Ask::Range { index: 3 },
            Ask::Part { index: 3, start: 4, end: 6 },
            Ask::Size,
            Ask::Whole { count: 6 },
        ]
    );
}

#[test]
fn nothing_selected_is_none() {
    for count in [None, Some(0), Some(-3)] {
        let (s, asked) = read(&Letters { count, ranges: Vec::new(), text: "abc", size: Some(3) });
        assert_eq!(s, None);
        assert_eq!(asked, vec![Ask::Count]);
    }
    // A text that cannot be read is no selection either.
    let (s, _) = read(&Letters {
        count: Some(1),
        ranges: vec![Some((2, 9))],
        text: "abc",
        size: Some(3),
    });
    assert_eq!(s, None);
}

#[test]
fn contents_are_read_where_they_are_not_too_long() {
    for (size, contents) in [
        (None, ""),
        (Some(0), ""),
        (Some(-1), ""),
        (Some(MAX_CONTENTS + 1), ""),
        (Some(MAX_CONTENTS), ""),
        (Some(3), "abc"),
    ] {
        let o = Letters { count: Some(1), ranges: vec![Some((0, 1))], text: "abc", size };
        let (s, asked) = read(&o);
        let s = s.unwrap();
        assert_eq!(s.selected_text, "a");
        assert_eq!(s.contents, contents);
        let whole = matches!(asked.last(), Some(Ask::Whole { .. }));
        assert_eq!(whole, matches!(size, Some(n) if 0 < n && n <= MAX_CONTENTS));
    }
}

#[test]
fn probe_that_takes_too_long_fails() {
    assert_eq!(get_selection(None), Err("AT-SPI probe timed out".to_string()));
    assert_eq!(get_selection(Some(Ok(None))), Ok(None));
    assert_eq!(get_selection(Some(Err("x".to_string()))), Err("x".to_string()));
}

// --- Clipboard ---

fn offers() -> Vec<(String, Vec<u8>)> {
    vec![
        ("text/plain".to_string(), b"plain".to_vec()),
        ("text/html".to_string(), b"<b>".to_vec()),
        ("text/plain".to_string(), b"again".to_vec()),
    ]
}

#[test]
fn clipboard_needs_an_offer() {
    assert_eq!(set_clipboard(Vec::new()).err(), some("no clipboard offers"));
    assert_eq!(set_outcome(None), Err("clipboard set timed out".to_string()));
    assert_eq!(set_outcome(Some(Ok(()))), Ok(()));
    assert_eq!(set_outcome(Some(Err("x".to_string()))), Err("x".to_string()));
}

#[test]
fn clipboard_serves_the_first_offer_of_a_type() {
    let mut s = set_clipboard(offers()).ok().unwrap();
    assert_eq!(s.mimes(), vec!["text/plain", "text/html", "text/plain"]);
    let mut paste = |mime: &str| s.on_event(SourceEvent::Send(mime.to_string()));
    assert_eq!(paste("text/plain"), Some(b"plain".to_vec()));
    assert_eq!(paste("text/html"), Some(b"<b>".to_vec()));
    assert_eq!(paste("image/png"), None);
    assert_eq!(s.on_event(SourceEvent::Other), None);
}

#[test]
fn clipboard_is_served_until_it_is_lost() {
    let mut s = set_clipboard(offers()).ok().unwrap();
    let mut steps = Vec::new();
    let mut reports = Vec::new();
    for _ in 0..5 {
        steps.push(s.step());
        if let Some(r) = s.took(Ok(())) {
            reports.push(r);
        }
    }
    assert_eq!(
        steps,
        vec![
            ServeStep::Connect,
            ServeStep::Registry,
            ServeStep::Manager,
            ServeStep::Seat,
            ServeStep::Roundtrip,
        ]
    );
    assert_eq!(reports, vec![Ok(())]);
    assert_eq!(s.step(), ServeStep::Dispatch);
    assert!(s.took(Ok(())).is_none());
    assert_eq!(s.step(), ServeStep::Dispatch);
    s.on_event(SourceEvent::Cancelled);
    assert!(s.took(Ok(())).is_none());
    assert_eq!(s.step(), ServeStep::Done);
}

#[test]
fn clipboard_that_cannot_be_set_is_told_once() {
    for (failing, told) in [
        (0, "wl connect: no"),
        (1, "registry init: no"),
        (2, "ext_data_control_manager not available: no"),
        (3, "wl_seat bind: no"),
        (4, "roundtrip: no"),
    ] {
        let mut s = set_clipboard(offers()).ok().unwrap();
        for _ in 0..failing {
            assert!(s.took(Ok(())).is_none());
        }
        assert_eq!(s.took(Err("no".to_string())), Some(Err(told.to_string())));
        assert_eq!(s.step(), ServeStep::Done);
        assert!(s.took(Err("no".to_string())).is_none());
    }
    let mut s = set_clipboard(offers()).ok().unwrap();
    for _ in 0..5 {
        s.took(Ok(()));
    }
    assert!(s.took(Err("no".to_string())).is_none());
    assert_eq!(s.step(), ServeStep::Done);
}
