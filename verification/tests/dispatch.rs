//! What is answered to each request.

use std::collections::HashSet;
use wispr_flow_helper::backend::stub::StubBackend;
use wispr_flow_helper::backend::{ActiveApp, Backend, RunningApp, Selection};
use wispr_flow_helper::capture::{HeldKeys, NoHeldKeys};
use wispr_flow_helper::dispatch::{answer_stale_keys, handle_request, inbound, plan, Call, Handled};
use wispr_flow_helper::dispatch::Inbound;
use wispr_flow_helper::json::Json;
use wispr_flow_helper::proto::{encode, FrameDecoder, Incoming, Kind};

/// A backend that notes what it is asked, and refuses everything where it is told
/// to.
struct Desktop {
    refuse: bool,
    asked: Vec<String>,
}

impl Desktop {
    fn new(refuse: bool) -> Desktop {
        Desktop { refuse, asked: Vec::new() }
    }

    fn said<T>(&self, value: T) -> Result<T, String> {
        if self.refuse {
            Err("no desktop".to_string())
        } else {
            Ok(value)
        }
    }
}

impl Backend for Desktop {
    fn paste_text(&mut self, text: &str, html: Option<&str>) -> Result<(), String> {
        self.asked.push(format!("paste {text:?} {html:?}"));
        self.said(())
    }

    fn simulate_key_press(&mut self, keycode_vk: u32, flags: &[String]) -> Result<(), String> {
        self.asked.push(format!("press {keycode_vk} {flags:?}"));
        self.said(())
    }

    fn get_active_app(&mut self) -> Result<ActiveApp, String> {
        self.asked.push("active".to_string());
        self.said(ActiveApp {
            app_name: "Kate".to_string(),
            bundle_id: "org.kde.kate".to_string(),
            window_title: "notes".to_string(),
            url: "u".to_string(),
        })
    }

    fn get_running_apps(&mut self) -> Result<Vec<RunningApp>, String> {
        self.asked.push("running".to_string());
        self.said(vec![
            RunningApp { bundle_id: "a".to_string(), name: "A".to_string() },
            RunningApp { bundle_id: "b".to_string(), name: "B".to_string() },
        ])
    }

    fn get_selected_text(&mut self) -> Result<Selection, String> {
        self.asked.push("selected".to_string());
        self.said(Selection {
            selected_text: "s".to_string(),
            contents: "c".to_string(),
            before_text: "b".to_string(),
            after_text: "a".to_string(),
        })
    }

    fn accessibility_status(&mut self) -> bool {
        self.asked.push("status".to_string());
        !self.refuse
    }

    fn set_focus_detection(&mut self, active: bool) {
        self.asked.push(format!("focus {active}"));
    }

    fn name(&self) -> &'static str {
        "desktop"
    }
}

struct Held(Vec<u32>);

impl HeldKeys for Held {
    fn held_vks(&self) -> HashSet<u32> {
        self.0.iter().copied().collect()
    }
}

fn message(inner: &str) -> Incoming {
    let body = format!("{{\"HelperAPIRequest\":{{{inner},\"uuid\":\"u-7\"}}}}");
    Incoming::parse(&body).unwrap()
}

fn describe(app: &ActiveApp) -> Json {
    Json::member("shown", Json::text(&app.window_title))
}

fn handle(be: &mut Desktop, inner: &str) -> Handled {
    handle_request(be, &Held(vec![65, 162]), describe, &message(inner), 12)
}

/// The named response, after a look at its uuid.
fn response<'a>(h: &'a Handled, name: &str) -> &'a Json {
    let inner = h.reply.get("HelperAPIResponse").unwrap();
    assert_eq!(inner.text_at("uuid"), "u-7");
    inner.get(name).unwrap()
}

fn is_ack(h: &Handled) -> bool {
    response(h, "ACK").as_bool() == Some(true)
}

fn description(h: &Handled) -> String {
    response(h, "HelperAPIError").get("payload").unwrap().text_at("description")
}

#[test]
fn shutdown_is_acknowledged_and_stops() {
    let mut be = Desktop::new(true);
    let h = handle(&mut be, "\"HelperAppShutdown\":true");
    assert!(h.stop);
    assert!(is_ack(&h));
    assert!(be.asked.is_empty());
}

#[test]
fn ready_tells_the_time() {
    let mut be = Desktop::new(false);
    let h = handle(&mut be, "\"IsReady\":true");
    assert!(!h.stop);
    assert!(is_ack(&h));
    assert_eq!(response(&h, "HelperLaunchTiming").unsigned_at("helperMainEntryMs"), 12);
}

#[test]
fn paste_hands_on_text_and_html() {
    let mut be = Desktop::new(false);
    let h = handle(&mut be, r#""PasteText":{"payload":{"text":"hi","htmlText":"<b>hi</b>"}}"#);
    assert!(is_ack(&h));
    handle(&mut be, r#""PasteText":{"payload":{"text":"hi","htmlText":""}}"#);
    handle(&mut be, r#""PasteText":{"payload":{"text":5}}"#);
    handle(&mut be, r#""PasteText":true"#);
    assert_eq!(
        be.asked,
        vec![
            "paste \"hi\" Some(\"<b>hi</b>\")",
            "paste \"hi\" None",
            "paste \"\" None",
            "paste \"\" None",
        ]
    );
    let h = handle(&mut Desktop::new(true), r#""PasteText":{"payload":{"text":"hi"}}"#);
    assert_eq!(description(&h), "PasteText failed: no desktop");
    assert!(!h.stop);
}

#[test]
fn key_presses_hand_on_code_and_flags() {
    let mut be = Desktop::new(false);
    let h = handle(
        &mut be,
        r#""SimulateKeyPress":{"payload":{"keycode":86,"flags":["ctrl",3,"shift",null]}}"#,
    );
    assert!(is_ack(&h));
    handle(&mut be, r#""SimulateKeyPress":{"payload":{"keycode":4294967382}}"#);
    handle(&mut be, r#""SimulateKeyPress":{"payload":{"keycode":-1,"flags":"ctrl"}}"#);
    assert_eq!(
        be.asked,
        vec!["press 86 [\"ctrl\", \"shift\"]", "press 86 []", "press 0 []"]
    );
    let h = handle(&mut Desktop::new(true), r#""SimulateKeyPress":{"payload":{}}"#);
    assert_eq!(description(&h), "SimulateKeyPress failed: no desktop");
}

#[test]
fn active_app_is_described() {
    let mut be = Desktop::new(false);
    let h = handle(&mut be, "\"GetActiveAppInfo\":true");
    assert_eq!(response(&h, "ActiveAppInfo").text_at("shown"), "notes");
    let h = handle(&mut Desktop::new(true), "\"GetActiveAppInfo\":true");
    assert_eq!(description(&h), "GetActiveAppInfo failed: no desktop");
}

#[test]
fn app_info_is_short() {
    let mut be = Desktop::new(false);
    let h = handle(&mut be, "\"GetAppInfo\":true");
    let p = response(&h, "AppInfo").get("payload").unwrap();
    assert_eq!(p.text_at("appName"), "Kate");
    assert_eq!(p.text_at("bundleId"), "org.kde.kate");
    assert_eq!(p.text_at("url"), "u");
    assert!(p.get("windowTitle").is_none());
    let h = handle(&mut Desktop::new(true), "\"GetAppInfo\":true");
    assert_eq!(description(&h), "GetAppInfo failed: no desktop");
}

#[test]
fn running_apps_are_listed() {
    let mut be = Desktop::new(false);
    let h = handle(&mut be, "\"GetRunningApps\":true");
    let p = response(&h, "RunningApps").get("payload").unwrap();
    let apps: Vec<(String, String)> = p
        .get("apps")
        .unwrap()
        .as_array()
        .unwrap()
        .iter()
        .map(|a| (a.text_at("bundleId"), a.text_at("name")))
        .collect();
    assert_eq!(
        apps,
        vec![("a".to_string(), "A".to_string()), ("b".to_string(), "B".to_string())]
    );
    let h = handle(&mut Desktop::new(true), "\"GetRunningApps\":true");
    assert_eq!(description(&h), "GetRunningApps failed: no desktop");
}

#[test]
fn selected_text_is_told() {
    let mut be = Desktop::new(false);
    let h = handle(&mut be, "\"GetSelectedTextViaCopy\":true");
    let p = response(&h, "SelectedTextViaCopy").get("payload").unwrap();
    assert_eq!(p.text_at("selectedText"), "s");
    assert_eq!(p.text_at("beforeText"), "b");
    assert_eq!(p.text_at("afterText"), "a");
    assert_eq!(p.text_at("contents"), "c");
    let h = handle(&mut Desktop::new(true), "\"GetSelectedTextViaCopy\":true");
    assert_eq!(description(&h), "GetSelectedTextViaCopy failed: no desktop");
}

#[test]
fn accessibility_status_is_told() {
    for refuse in [false, true] {
        let h = handle(&mut Desktop::new(refuse), "\"GetAccessibilityStatus\":true");
        let p = response(&h, "AccessibilityStatus").get("payload").unwrap();
        assert_eq!(p.get("status").unwrap().as_bool(), Some(!refuse));
    }
}

#[test]
fn focus_events_are_on_only_where_asked() {
    let mut be = Desktop::new(false);
    for p in ["{\"active\":true}", "{\"active\":false}", "{\"active\":1}", "{}", "null"] {
        let inner = format!("\"SetFocusChangeDetectorState\":{{\"payload\":{p}}}");
        assert!(is_ack(&handle(&mut be, &inner)));
    }
    assert_eq!(
        be.asked,
        vec!["focus true", "focus false", "focus false", "focus false", "focus false"]
    );
}

fn stale(h: &Handled) -> Vec<u64> {
    let p = response(h, "StaleKeysResponse").get("payload").unwrap();
    let keys = p.get("staleKeys").unwrap().as_array().unwrap();
    keys.iter().map(|k| k.as_u64().unwrap()).collect()
}

#[test]
fn keys_that_are_not_held_are_stale() {
    let mut be = Desktop::new(false);
    let h = handle(
        &mut be,
        r#""CheckStaleKeys":{"payload":{"keycodes":[65,66,"67",-1,68.5,162,66,4294967361]}}"#,
    );
    assert_eq!(stale(&h), vec![66, 66]);
    assert!(be.asked.is_empty());
    let h = handle(&mut be, r#""CheckStaleKeys":{"payload":{}}"#);
    assert!(stale(&h).is_empty());
}

#[test]
fn every_key_is_stale_without_a_source() {
    let msg = message(r#""CheckStaleKeys":{"payload":{"keycodes":[65,66]}}"#);
    let h = handle_request(&mut StubBackend, &NoHeldKeys, describe, &msg, 0);
    assert_eq!(stale(&h), vec![65, 66]);
    let reply = answer_stale_keys(&vec![1, 2], &HashSet::from([2]), "u-7");
    assert_eq!(stale(&Handled { reply, stop: false }), vec![1]);
}

#[test]
fn other_commands_are_acknowledged() {
    let mut be = Desktop::new(true);
    for command in ["RequestAccessibilityPermission", "StartAccessibilityServices", "Anything"] {
        let h = handle(&mut be, &format!("\"{command}\":true"));
        assert!(is_ack(&h));
        assert!(!h.stop);
    }
    assert!(be.asked.is_empty());
}

#[test]
fn stub_answers_everything() {
    let run = |inner: &str| {
        handle_request(&mut StubBackend, &NoHeldKeys, describe, &message(inner), 0)
    };
    assert_eq!(
        description(&run(r#""PasteText":{"payload":{"text":"t"}}"#)),
        "PasteText failed: no backend available (stub)"
    );
    assert_eq!(
        description(&run(r#""SimulateKeyPress":{"payload":{"keycode":86}}"#)),
        "SimulateKeyPress failed: no backend available (stub)"
    );
    let h = run("\"GetRunningApps\":true");
    let p = response(&h, "RunningApps").get("payload").unwrap();
    assert!(p.get("apps").unwrap().as_array().unwrap().is_empty());
    assert!(is_ack(&run(r#""SetFocusChangeDetectorState":{"payload":{"active":true}}"#)));
    assert_eq!(StubBackend.name(), "stub");
}

#[test]
fn answers_are_read_back() {
    let mut be = Desktop::new(false);
    let mut stream = Vec::new();
    let mut answers = Vec::new();
    for (inner, name) in [
        ("\"IsReady\":true", "ACK"),
        ("\"GetRunningApps\":true", "RunningApps"),
        ("\"GetSelectedTextViaCopy\":true", "SelectedTextViaCopy"),
        (r#""CheckStaleKeys":{"payload":{"keycodes":[1]}}"#, "StaleKeysResponse"),
        ("\"HelperAppShutdown\":true", "ACK"),
    ] {
        let h = handle(&mut be, inner);
        stream.extend(encode(&h.reply).unwrap());
        answers.push((h.reply, name));
    }
    let messages = FrameDecoder::default().feed(&stream);
    assert_eq!(messages.len(), answers.len());
    for (message, (reply, name)) in messages.iter().zip(&answers) {
        assert_eq!(Json::parse(message).unwrap().pretty(), reply.pretty());
        let m = Incoming::parse(message).unwrap();
        assert_eq!(m.kind, Kind::Response);
        assert_eq!(m.command, *name);
        assert_eq!(m.uuid, "u-7");
    }
}

#[test]
fn plans_are_exact() {
    assert_eq!(plan(&message("\"IsReady\":true")), Call::Ready);
    assert_eq!(plan(&message("\"Unknown\":{}")), Call::Nothing);
    assert_eq!(
        plan(&message(r#""PasteText":{"payload":{"text":"a","htmlText":"b"}}"#)),
        Call::Paste { text: "a".to_string(), html: Some("b".to_string()) }
    );
    assert_eq!(
        plan(&message(r#""CheckStaleKeys":{"payload":{"keycodes":[1,2]}}"#)),
        Call::StaleKeys(vec![1, 2])
    );
}

#[test]
fn messages_are_told_apart() {
    assert!(matches!(
        inbound(r#"{"HelperAPIRequest":{"IsReady":true}}"#),
        Inbound::Request(_)
    ));
    assert!(matches!(
        inbound(r#"{"HelperAPIResponse":{"ACK":true}}"#),
        Inbound::Response(_)
    ));
    match inbound("[]") {
        Inbound::Refused(e) => assert_eq!(e, "envelope is not an object"),
        other => panic!("{other:?}"),
    }
}
