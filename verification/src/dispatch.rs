//! What is answered to each request.
//!
//! Every request is answered exactly once, with a response that carries its uuid.
//! Requests that are not known are acknowledged, so that whoever launched the
//! helper takes it for healthy.

use crate::backend::{apps_view, found_app_view, found_apps_view, found_selection_view};
use crate::backend::{ActiveApp, ActiveAppView, Asked, Backend, RunningApp, RunningAppView, Said};
use crate::backend::{Selection, SelectionView};
use crate::capture::HeldKeys;
use crate::json::{add_item, entries_view, items_view, json_parsed, lemma_items_view, put};
use crate::json::{Json, JsonView, MAX_LEVELS};
use crate::proto::{ack, ack_view, carries, cut, envelope, envelope_view, error, error_view};
use crate::proto::{is_message, message_of, payload, payload_view, response, response_view};
use crate::proto::{Incoming, IncomingView, Kind};
use crate::text::{cat, outcome_view, same_text, text_view, texts};
use std::collections::HashSet;
use vstd::prelude::*;

verus! {

// ---------------------------------------------------------------------------
// Messages that come in
// ---------------------------------------------------------------------------

/// A message that came in.
#[derive(Debug)]
pub enum Inbound {
    /// A request, which is answered.
    Request(Incoming),
    /// A response to an event of the helper, which needs nothing.
    Response(Incoming),
    /// No message, for this reason. It is passed over.
    Refused(String),
}

/// Reads the text of a message and tells what it is.
pub fn inbound(body: &str) -> (r: Inbound)
    ensures
        match r {
            Inbound::Request(m) => message_of(body@) matches Ok(w) && w == m@ && w.kind
                == Kind::Request,
            Inbound::Response(m) => message_of(body@) matches Ok(w) && w == m@ && w.kind
                == Kind::Response,
            Inbound::Refused(e) => message_of(body@) matches Err(w) && w == e@,
        },
{
    match Incoming::parse(body) {
        Ok(m) => if m.kind == Kind::Response {
            Inbound::Response(m)
        } else {
            Inbound::Request(m)
        },
        Err(e) => Inbound::Refused(e),
    }
}

// ---------------------------------------------------------------------------
// What is asked for
// ---------------------------------------------------------------------------

/// What a request asks for.
#[derive(Debug, PartialEq, Eq)]
pub enum Call {
    /// To shut down.
    Shutdown,
    /// Whether the helper is ready.
    Ready,
    /// To paste a text, with a rich form of it where there is one.
    Paste { text: String, html: Option<String> },
    /// To press a key with modifiers.
    Press { keycode: u32, flags: Vec<String> },
    /// The application that has the focus, described in full.
    ActiveApp,
    /// The application that has the focus, in short.
    AppInfo,
    /// The running applications.
    RunningApps,
    /// The text that is selected.
    SelectedText,
    /// Whether accessibility services answer.
    Status,
    /// To turn focus events on or off.
    FocusDetection(bool),
    /// Which of these keys are not held.
    StaleKeys(Vec<u64>),
    /// Nothing that the helper does.
    Nothing,
}

/// A [`Call`] as a mathematical value.
#[verifier::ext_equal]
pub enum CallView {
    Shutdown,
    Ready,
    Paste { text: Seq<char>, html: Option<Seq<char>> },
    Press { keycode: u32, flags: Seq<Seq<char>> },
    ActiveApp,
    AppInfo,
    RunningApps,
    SelectedText,
    Status,
    FocusDetection(bool),
    StaleKeys(Seq<u64>),
    Nothing,
}

impl Call {
    /// The call as a mathematical value.
    pub open spec fn view(&self) -> CallView {
        match *self {
            Call::Shutdown => CallView::Shutdown,
            Call::Ready => CallView::Ready,
            Call::Paste { text, html } => CallView::Paste { text: text@, html: text_view(html) },
            Call::Press { keycode, flags } => CallView::Press { keycode, flags: texts(flags@) },
            Call::ActiveApp => CallView::ActiveApp,
            Call::AppInfo => CallView::AppInfo,
            Call::RunningApps => CallView::RunningApps,
            Call::SelectedText => CallView::SelectedText,
            Call::Status => CallView::Status,
            Call::FocusDetection(active) => CallView::FocusDetection(active),
            Call::StaleKeys(keys) => CallView::StaleKeys(keys@),
            Call::Nothing => CallView::Nothing,
        }
    }
}

/// The texts among `items`, in order.
pub open spec fn texts_among(items: Seq<JsonView>) -> Seq<Seq<char>>
    decreases items.len(),
{
    if items.len() == 0 {
        Seq::empty()
    } else {
        match items.last().text() {
            Some(s) => texts_among(items.drop_last()).push(s),
            None => texts_among(items.drop_last()),
        }
    }
}

/// The numbers among `items` that are not negative and have no fraction, in order.
pub open spec fn numbers_among(items: Seq<JsonView>) -> Seq<u64>
    decreases items.len(),
{
    if items.len() == 0 {
        Seq::empty()
    } else {
        match items.last().unsigned() {
            Some(n) => numbers_among(items.drop_last()).push(n),
            None => numbers_among(items.drop_last()),
        }
    }
}

/// The items of the member `key`, where it is an array.
pub open spec fn items_at(v: JsonView, key: Seq<char>) -> Seq<JsonView> {
    match v.get(key) {
        Some(m) => match m.items() {
            Some(items) => items,
            None => Seq::empty(),
        },
        None => Seq::empty(),
    }
}

/// The low 32 bits of a number.
pub open spec fn low32(n: u64) -> u32 {
    (n % 0x1_0000_0000) as u32
}

/// The rich form of a text that is to be pasted: there is none where it is empty.
pub open spec fn html_of(p: JsonView) -> Option<Seq<char>> {
    if p.text_at("htmlText"@).len() > 0 {
        Some(p.text_at("htmlText"@))
    } else {
        None
    }
}

/// Whether focus events are to be on: they are only where the request says so.
pub open spec fn active_of(p: JsonView) -> bool {
    match p.get("active"@) {
        Some(v) => v.boolean() == Some(true),
        None => false,
    }
}

/// What comes with a request, under `payload`.
pub open spec fn payload_of(m: IncomingView) -> JsonView {
    match m.payload.get("payload"@) {
        Some(p) => p,
        None => JsonView::Null,
    }
}

/// What a request asks for.
pub open spec fn call_of(m: IncomingView) -> CallView {
    let p = payload_of(m);
    if m.command == "HelperAppShutdown"@ {
        CallView::Shutdown
    } else if m.command == "IsReady"@ {
        CallView::Ready
    } else if m.command == "PasteText"@ {
        CallView::Paste { text: p.text_at("text"@), html: html_of(p) }
    } else if m.command == "SimulateKeyPress"@ {
        CallView::Press {
            keycode: low32(p.unsigned_at("keycode"@)),
            flags: texts_among(items_at(p, "flags"@)),
        }
    } else if m.command == "GetActiveAppInfo"@ {
        CallView::ActiveApp
    } else if m.command == "GetAppInfo"@ {
        CallView::AppInfo
    } else if m.command == "GetRunningApps"@ {
        CallView::RunningApps
    } else if m.command == "GetSelectedTextViaCopy"@ {
        CallView::SelectedText
    } else if m.command == "GetAccessibilityStatus"@ {
        CallView::Status
    } else if m.command == "SetFocusChangeDetectorState"@ {
        CallView::FocusDetection(active_of(p))
    } else if m.command == "CheckStaleKeys"@ {
        CallView::StaleKeys(numbers_among(items_at(p, "keycodes"@)))
    } else {
        CallView::Nothing
    }
}

fn text_items(v: &Json, key: &str) -> (r: Vec<String>)
    ensures
        texts(r@) == texts_among(items_at(v@, key@)),
{
    let mut r: Vec<String> = Vec::new();
    assert(texts(r@) =~= Seq::<Seq<char>>::empty());
    let items = match v.get(key) {
        Some(m) => match m.as_array() {
            Some(items) => items,
            None => {
                return r;
            },
        },
        None => {
            return r;
        },
    };
    let ghost all = items_at(v@, key@);
    proof {
        lemma_items_view(items@);
    }
    let mut i: usize = 0;
    while i < items.len()
        invariant
            i <= items.len(),
            all.len() == items.len(),
            forall|j: int| 0 <= j < items.len() ==> #[trigger] all[j] == items@[j]@,
            texts(r@) == texts_among(all.take(i as int)),
        decreases items.len() - i,
    {
        assert(all.take(i + 1).drop_last() =~= all.take(i as int));
        assert(all.take(i + 1).last() == items@[i as int]@);
        if let Some(s) = items[i].as_text() {
            let ghost before = r@;
            r.push(s.clone());
            assert(texts(r@) =~= texts(before).push(s@));
        }
        i += 1;
    }
    assert(all.take(i as int) =~= all);
    r
}

fn number_items(v: &Json, key: &str) -> (r: Vec<u64>)
    ensures
        r@ == numbers_among(items_at(v@, key@)),
{
    let mut r: Vec<u64> = Vec::new();
    let items = match v.get(key) {
        Some(m) => match m.as_array() {
            Some(items) => items,
            None => {
                return r;
            },
        },
        None => {
            return r;
        },
    };
    let ghost all = items_at(v@, key@);
    proof {
        lemma_items_view(items@);
    }
    let mut i: usize = 0;
    while i < items.len()
        invariant
            i <= items.len(),
            all.len() == items.len(),
            forall|j: int| 0 <= j < items.len() ==> #[trigger] all[j] == items@[j]@,
            r@ == numbers_among(all.take(i as int)),
        decreases items.len() - i,
    {
        assert(all.take(i + 1).drop_last() =~= all.take(i as int));
        assert(all.take(i + 1).last() == items@[i as int]@);
        if let Some(n) = items[i].as_u64() {
            r.push(n);
        }
        i += 1;
    }
    assert(all.take(i as int) =~= all);
    r
}

fn low(n: u64) -> (r: u32)
    ensures
        r == low32(n),
{
    (n % 0x1_0000_0000) as u32
}

/// Tells what a request asks for.
pub fn plan(msg: &Incoming) -> (r: Call)
    ensures
        r@ == call_of(msg@),
{
    let null = Json::Null;
    let p: &Json = match msg.payload.get("payload") {
        Some(p) => p,
        None => &null,
    };
    let command = msg.command.as_str();
    if same_text(command, "HelperAppShutdown") {
        Call::Shutdown
    } else if same_text(command, "IsReady") {
        Call::Ready
    } else if same_text(command, "PasteText") {
        let html = p.text_at("htmlText");
        Call::Paste {
            text: p.text_at("text"),
            html: if html.as_str().is_empty() {
                None
            } else {
                Some(html)
            },
        }
    } else if same_text(command, "SimulateKeyPress") {
        Call::Press { keycode: low(p.unsigned_at("keycode")), flags: text_items(p, "flags") }
    } else if same_text(command, "GetActiveAppInfo") {
        Call::ActiveApp
    } else if same_text(command, "GetAppInfo") {
        Call::AppInfo
    } else if same_text(command, "GetRunningApps") {
        Call::RunningApps
    } else if same_text(command, "GetSelectedTextViaCopy") {
        Call::SelectedText
    } else if same_text(command, "GetAccessibilityStatus") {
        Call::Status
    } else if same_text(command, "SetFocusChangeDetectorState") {
        let active = match p.get("active") {
            Some(v) => match v.as_bool() {
                Some(b) => b,
                None => false,
            },
            None => false,
        };
        Call::FocusDetection(active)
    } else if same_text(command, "CheckStaleKeys") {
        Call::StaleKeys(number_items(p, "keycodes"))
    } else {
        Call::Nothing
    }
}

// ---------------------------------------------------------------------------
// Answers
// ---------------------------------------------------------------------------

/// What is answered where `command` failed.
pub open spec fn failed_view(command: Seq<char>, e: Seq<char>, uuid: Seq<char>) -> JsonView {
    error_view(command + " failed: "@ + e, uuid)
}

fn failed(command: &str, e: &str, uuid: &str) -> (r: Json)
    ensures
        r@ == failed_view(command@, e@, uuid@),
{
    let mut description = cat(command, " failed: ");
    description.append(e);
    error(&description, uuid)
}

/// What is answered to `IsReady`, `ms` milliseconds after the helper started.
pub open spec fn ready_view(ms: u64, uuid: Seq<char>) -> JsonView {
    envelope_view(
        "HelperAPIResponse"@,
        Map::empty().insert("ACK"@, JsonView::Bool(true)).insert(
            "HelperLaunchTiming"@,
            JsonView::Object(
                Map::empty().insert("helperMainEntryMs"@, JsonView::Unsigned(ms)),
            ),
        ),
        uuid,
    )
}

/// Answers `IsReady`: the helper acknowledges and tells how long it took to start.
pub fn answer_ready(ms: u64, uuid: &str) -> (r: Json)
    ensures
        r@ == ready_view(ms, uuid@),
{
    let mut inner: Vec<(String, Json)> = Vec::new();
    put(&mut inner, "ACK", Json::Bool(true));
    put(
        &mut inner,
        "HelperLaunchTiming",
        Json::member("helperMainEntryMs", Json::unsigned(ms)),
    );
    envelope("HelperAPIResponse", inner, uuid)
}

/// What is answered to a command that was done or failed.
pub open spec fn done_view(
    command: Seq<char>,
    outcome: Result<(), Seq<char>>,
    uuid: Seq<char>,
) -> JsonView {
    match outcome {
        Ok(_) => ack_view(uuid),
        Err(e) => failed_view(command, e, uuid),
    }
}

/// Answers a command that was done or failed.
pub fn answer_done(command: &str, outcome: Result<(), String>, uuid: &str) -> (r: Json)
    ensures
        r@ == done_view(command@, outcome_view(outcome), uuid@),
{
    match outcome {
        Ok(_) => ack(uuid),
        Err(e) => failed(command, &e, uuid),
    }
}

/// What is answered to `GetActiveAppInfo`; `body` describes the application.
pub open spec fn active_app_view(body: Result<JsonView, Seq<char>>, uuid: Seq<char>) -> JsonView {
    match body {
        Ok(b) => response_view("ActiveAppInfo"@, b, uuid),
        Err(e) => failed_view("GetActiveAppInfo"@, e, uuid),
    }
}

/// A document, or an error whose message is a text.
pub open spec fn body_view(r: Result<Json, String>) -> Result<JsonView, Seq<char>> {
    match r {
        Ok(v) => Ok(v@),
        Err(e) => Err(e@),
    }
}

/// Answers `GetActiveAppInfo`.
pub fn answer_active_app(body: Result<Json, String>, uuid: &str) -> (r: Json)
    ensures
        r@ == active_app_view(body_view(body), uuid@),
{
    match body {
        Ok(b) => response("ActiveAppInfo", b, uuid),
        Err(e) => failed("GetActiveAppInfo", &e, uuid),
    }
}

/// What is answered to `GetAppInfo`.
pub open spec fn app_info_view(app: Result<ActiveAppView, Seq<char>>, uuid: Seq<char>) -> JsonView {
    match app {
        Ok(a) => response_view(
            "AppInfo"@,
            payload_view(
                Map::empty().insert("appName"@, JsonView::Text(a.app_name)).insert(
                    "bundleId"@,
                    JsonView::Text(a.bundle_id),
                ).insert("url"@, JsonView::Text(a.url)),
            ),
            uuid,
        ),
        Err(e) => failed_view("GetAppInfo"@, e, uuid),
    }
}

/// Answers `GetAppInfo`.
pub fn answer_app_info(app: Result<ActiveApp, String>, uuid: &str) -> (r: Json)
    ensures
        r@ == app_info_view(found_app_view(app), uuid@),
{
    match app {
        Ok(a) => {
            let mut members: Vec<(String, Json)> = Vec::new();
            put(&mut members, "appName", Json::Text(a.app_name));
            put(&mut members, "bundleId", Json::Text(a.bundle_id));
            put(&mut members, "url", Json::Text(a.url));
            response("AppInfo", payload(members), uuid)
        },
        Err(e) => failed("GetAppInfo", &e, uuid),
    }
}

/// A running application as it is answered.
pub open spec fn running_item(a: RunningAppView) -> JsonView {
    JsonView::Object(
        Map::empty().insert("bundleId"@, JsonView::Text(a.bundle_id)).insert(
            "name"@,
            JsonView::Text(a.name),
        ),
    )
}

/// What is answered to `GetRunningApps`.
pub open spec fn running_apps_view(
    apps: Result<Seq<RunningAppView>, Seq<char>>,
    uuid: Seq<char>,
) -> JsonView {
    match apps {
        Ok(list) => response_view(
            "RunningApps"@,
            payload_view(
                Map::empty().insert(
                    "apps"@,
                    JsonView::Array(list.map_values(|a: RunningAppView| running_item(a))),
                ),
            ),
            uuid,
        ),
        Err(e) => failed_view("GetRunningApps"@, e, uuid),
    }
}

/// Answers `GetRunningApps`.
pub fn answer_running_apps(apps: Result<Vec<RunningApp>, String>, uuid: &str) -> (r: Json)
    ensures
        r@ == running_apps_view(found_apps_view(apps), uuid@),
{
    match apps {
        Ok(apps) => {
            let ghost all = apps_view(apps@).map_values(|a: RunningAppView| running_item(a));
            let mut items: Vec<Json> = Vec::new();
            let mut i: usize = 0;
            while i < apps.len()
                invariant
                    i <= apps.len(),
                    all == apps_view(apps@).map_values(|a: RunningAppView| running_item(a)),
                    items_view(items@) == all.take(i as int),
                decreases apps.len() - i,
            {
                let mut members: Vec<(String, Json)> = Vec::new();
                put(&mut members, "bundleId", Json::text(&apps[i].bundle_id));
                put(&mut members, "name", Json::text(&apps[i].name));
                add_item(&mut items, Json::Object(members));
                assert(all.take(i + 1) =~= all.take(i as int).push(all[i as int]));
                i += 1;
            }
            assert(all.take(i as int) =~= all);
            response("RunningApps", payload(one("apps", Json::Array(items))), uuid)
        },
        Err(e) => failed("GetRunningApps", &e, uuid),
    }
}

fn one(key: &str, value: Json) -> (r: Vec<(String, Json)>)
    ensures
        entries_view(r@) == Map::<Seq<char>, JsonView>::empty().insert(key@, value@),
{
    let mut members: Vec<(String, Json)> = Vec::new();
    put(&mut members, key, value);
    members
}

/// What is answered to `GetSelectedTextViaCopy`.
pub open spec fn selected_text_view(
    selection: Result<SelectionView, Seq<char>>,
    uuid: Seq<char>,
) -> JsonView {
    match selection {
        Ok(s) => response_view(
            "SelectedTextViaCopy"@,
            payload_view(
                Map::empty().insert("selectedText"@, JsonView::Text(s.selected_text)).insert(
                    "beforeText"@,
                    JsonView::Text(s.before_text),
                ).insert("afterText"@, JsonView::Text(s.after_text)).insert(
                    "contents"@,
                    JsonView::Text(s.contents),
                ),
            ),
            uuid,
        ),
        Err(e) => failed_view("GetSelectedTextViaCopy"@, e, uuid),
    }
}

/// Answers `GetSelectedTextViaCopy`.
pub fn answer_selected_text(selection: Result<Selection, String>, uuid: &str) -> (r: Json)
    ensures
        r@ == selected_text_view(found_selection_view(selection), uuid@),
{
    match selection {
        Ok(s) => {
            let mut members: Vec<(String, Json)> = Vec::new();
            put(&mut members, "selectedText", Json::Text(s.selected_text));
            put(&mut members, "beforeText", Json::Text(s.before_text));
            put(&mut members, "afterText", Json::Text(s.after_text));
            put(&mut members, "contents", Json::Text(s.contents));
            response("SelectedTextViaCopy", payload(members), uuid)
        },
        Err(e) => failed("GetSelectedTextViaCopy", &e, uuid),
    }
}

/// What is answered to `GetAccessibilityStatus`.
pub open spec fn status_view(status: bool, uuid: Seq<char>) -> JsonView {
    response_view(
        "AccessibilityStatus"@,
        payload_view(Map::empty().insert("status"@, JsonView::Bool(status))),
        uuid,
    )
}

/// Answers `GetAccessibilityStatus`.
pub fn answer_status(status: bool, uuid: &str) -> (r: Json)
    ensures
        r@ == status_view(status, uuid@),
{
    response("AccessibilityStatus", payload(one("status", Json::Bool(status))), uuid)
}

/// The keys of `queried` that are not held, in order.
pub open spec fn stale_of(queried: Seq<u64>, held: Set<u32>) -> Seq<u64>
    decreases queried.len(),
{
    if queried.len() == 0 {
        Seq::empty()
    } else if held.contains(low32(queried.last())) {
        stale_of(queried.drop_last(), held)
    } else {
        stale_of(queried.drop_last(), held).push(queried.last())
    }
}

/// What is answered to `CheckStaleKeys`.
pub open spec fn stale_keys_view(stale: Seq<u64>, uuid: Seq<char>) -> JsonView {
    response_view(
        "StaleKeysResponse"@,
        payload_view(
            Map::empty().insert(
                "staleKeys"@,
                JsonView::Array(stale.map_values(|n: u64| JsonView::Unsigned(n))),
            ),
        ),
        uuid,
    )
}

/// Answers `CheckStaleKeys`: a key that is taken for held and is not was released,
/// or its device is gone.
pub fn answer_stale_keys(queried: &Vec<u64>, held: &HashSet<u32>, uuid: &str) -> (r: Json)
    ensures
        r@ == stale_keys_view(stale_of(queried@, held@), uuid@),
{
    broadcast use vstd::std_specs::hash::group_hash_axioms;

    let mut items: Vec<Json> = Vec::new();
    let mut i: usize = 0;
    assert(items_view(items@) =~= stale_of(queried@.take(0), held@).map_values(
        |n: u64| JsonView::Unsigned(n),
    ));
    while i < queried.len()
        invariant
            i <= queried.len(),
            items_view(items@) == stale_of(
                queried@.take(i as int),
                held@,
            ).map_values(|n: u64| JsonView::Unsigned(n)),
        decreases queried.len() - i,
    {
        let ghost before = stale_of(queried@.take(i as int), held@);
        assert(queried@.take(i + 1).drop_last() =~= queried@.take(i as int));
        let code = low(queried[i]);
        if !held.contains(&code) {
            add_item(&mut items, Json::unsigned(queried[i]));
            assert(before.push(queried@[i as int]).map_values(|n: u64| JsonView::Unsigned(n))
                =~= before.map_values(|n: u64| JsonView::Unsigned(n)).push(
                JsonView::Unsigned(queried@[i as int]),
            ));
        }
        i += 1;
    }
    assert(queried@.take(i as int) =~= queried@);
    response("StaleKeysResponse", payload(one("staleKeys", Json::Array(items))), uuid)
}

// ---------------------------------------------------------------------------
// Requests
// ---------------------------------------------------------------------------

/// How long the answer to `HelperAppShutdown` may take to be written, in
/// milliseconds.
pub const SHUTDOWN_FLUSH_MS: u64 = 2000;

/// A request that was handled.
#[derive(Debug)]
pub struct Handled {
    /// The answer, which is to be sent.
    pub reply: Json,
    /// Whether the helper is to stop, once the answer is written.
    pub stop: bool,
}

/// `v` is a response that carries `uuid`.
pub open spec fn answers(v: JsonView, uuid: Seq<char>) -> bool {
    v.get("HelperAPIResponse"@) matches Some(inner) && inner.get("uuid"@) == Some(
        JsonView::Text(uuid),
    )
}

/// What is said of an application, where `describe` describes it.
pub open spec fn described<D: Fn(&ActiveApp) -> Json>(
    describe: D,
    app: Result<ActiveAppView, Seq<char>>,
    body: Result<JsonView, Seq<char>>,
) -> bool {
    match app {
        Ok(a) => exists|shown: ActiveApp, b: Json|
            shown@ == a && #[trigger] call_ensures(describe, (&shown,), b) && body == Ok::<
                JsonView,
                Seq<char>,
            >(b@),
        Err(e) => body == Err::<JsonView, Seq<char>>(e),
    }
}

/// `reply` answers `call`: the backend `before` was asked what the call asks for and
/// nothing else, became `after`, and `reply` tells what it said.
pub open spec fn may_answer<B: Backend, H: HeldKeys, D: Fn(&ActiveApp) -> Json>(
    before: B,
    after: B,
    held_keys: H,
    describe: D,
    call: CallView,
    ms: u64,
    uuid: Seq<char>,
    reply: JsonView,
) -> bool {
    match call {
        CallView::Shutdown => after == before && reply == ack_view(uuid),
        CallView::Ready => after == before && reply == ready_view(ms, uuid),
        CallView::Paste { text, html } => exists|o: Result<(), Seq<char>>| #[trigger]
            before.may(Asked::Paste { text, html }, Said::Done(o), &after) && reply == done_view(
                "PasteText"@,
                o,
                uuid,
            ),
        CallView::Press { keycode, flags } => exists|o: Result<(), Seq<char>>| #[trigger]
            before.may(Asked::Press { keycode, flags }, Said::Done(o), &after) && reply == done_view(
                "SimulateKeyPress"@,
                o,
                uuid,
            ),
        CallView::ActiveApp => exists|
            a: Result<ActiveAppView, Seq<char>>,
            b: Result<JsonView, Seq<char>>,
        | #[trigger]
            before.may(Asked::ActiveApp, Said::App(a), &after) && #[trigger] described(
                describe,
                a,
                b,
            ) && reply == active_app_view(b, uuid),
        CallView::AppInfo => exists|a: Result<ActiveAppView, Seq<char>>| #[trigger]
            before.may(Asked::ActiveApp, Said::App(a), &after) && reply == app_info_view(a, uuid),
        CallView::RunningApps => exists|a: Result<Seq<RunningAppView>, Seq<char>>| #[trigger]
            before.may(Asked::RunningApps, Said::Apps(a), &after) && reply == running_apps_view(
                a,
                uuid,
            ),
        CallView::SelectedText => exists|s: Result<SelectionView, Seq<char>>| #[trigger]
            before.may(Asked::SelectedText, Said::Text(s), &after) && reply == selected_text_view(
                s,
                uuid,
            ),
        CallView::Status => exists|s: bool| #[trigger]
            before.may(Asked::Status, Said::Status(s), &after) && reply == status_view(s, uuid),
        CallView::FocusDetection(active) => before.may(
            Asked::FocusDetection(active),
            Said::Nothing,
            &after,
        ) && reply == ack_view(uuid),
        CallView::StaleKeys(queried) => after == before && exists|held: Set<u32>| #[trigger]
            held_keys.may_tell(held) && reply == stale_keys_view(stale_of(queried, held), uuid),
        CallView::Nothing => after == before && reply == ack_view(uuid),
    }
}

/// Handles a request, `ms` milliseconds after the helper started; `describe` gives
/// the body of messages about an application. The answer is to be sent, and only
/// `HelperAppShutdown` stops the helper.
pub fn handle_request<B: Backend, H: HeldKeys, D: Fn(&ActiveApp) -> Json>(
    be: &mut B,
    held_keys: &H,
    describe: D,
    msg: &Incoming,
    ms: u64,
) -> (r: Handled)
    requires
        forall|app: &ActiveApp| call_requires(describe, (app,)),
    ensures
        may_answer(
            *old(be),
            *final(be),
            *held_keys,
            describe,
            call_of(msg@),
            ms,
            msg@.uuid,
            r.reply@,
        ),
        answers(r.reply@, msg@.uuid),
        r.stop == (msg@.command == "HelperAppShutdown"@),
{
    let uuid = msg.uuid.as_str();
    let call = plan(msg);
    let stop = match &call {
        Call::Shutdown => true,
        _ => false,
    };
    let reply = match call {
        Call::Shutdown => ack(uuid),
        Call::Ready => answer_ready(ms, uuid),
        Call::Paste { text, html } => {
            let rich = match &html {
                Some(s) => Some(s.as_str()),
                None => None,
            };
            let done = be.paste_text(&text, rich);
            let ghost said = Said::Done(outcome_view(done));
            assert(old(be).may(Asked::Paste { text: text@, html: text_view(html) }, said, &*be));
            answer_done("PasteText", done, uuid)
        },
        Call::Press { keycode, flags } => {
            let ghost asked = Asked::Press { keycode, flags: call_of(msg@)->flags };
            assert(texts(flags@) == call_of(msg@)->flags);
            let done = be.simulate_key_press(keycode, flags.as_slice());
            assert(old(be).may(asked, Said::Done(outcome_view(done)), &*be));
            answer_done("SimulateKeyPress", done, uuid)
        },
        Call::ActiveApp => {
            let found = be.get_active_app();
            let ghost said = found_app_view(found);
            assert(old(be).may(Asked::ActiveApp, Said::App(said), &*be));
            let body = match found {
                Ok(app) => Ok(describe(&app)),
                Err(e) => Err(e),
            };
            assert(described(describe, said, body_view(body)));
            answer_active_app(body, uuid)
        },
        Call::AppInfo => {
            let found = be.get_active_app();
            assert(old(be).may(Asked::ActiveApp, Said::App(found_app_view(found)), &*be));
            answer_app_info(found, uuid)
        },
        Call::RunningApps => {
            let found = be.get_running_apps();
            assert(old(be).may(Asked::RunningApps, Said::Apps(found_apps_view(found)), &*be));
            answer_running_apps(found, uuid)
        },
        Call::SelectedText => {
            let found = be.get_selected_text();
            assert(old(be).may(Asked::SelectedText, Said::Text(found_selection_view(found)), &*be));
            answer_selected_text(found, uuid)
        },
        Call::Status => {
            let status = be.accessibility_status();
            assert(old(be).may(Asked::Status, Said::Status(status), &*be));
            answer_status(status, uuid)
        },
        Call::FocusDetection(active) => {
            be.set_focus_detection(active);
            ack(uuid)
        },
        Call::StaleKeys(queried) => {
            let held = held_keys.held_vks();
            assert(held_keys.may_tell(held@));
            answer_stale_keys(&queried, &held, uuid)
        },
        Call::Nothing => ack(uuid),
    };
    proof {
        law_every_answer_carries_the_uuid(
            *old(be),
            *be,
            *held_keys,
            describe,
            call_of(msg@),
            ms,
            msg@.uuid,
            reply@,
        );
    }
    Handled { reply, stop }
}

// ---------------------------------------------------------------------------
// Laws
// ---------------------------------------------------------------------------

/// Whatever a request asks for and whatever the backend says, its answer is a
/// response that carries its uuid.
pub proof fn law_every_answer_carries_the_uuid<B: Backend, H: HeldKeys, D: Fn(&ActiveApp) -> Json>(
    before: B,
    after: B,
    held_keys: H,
    describe: D,
    call: CallView,
    ms: u64,
    uuid: Seq<char>,
    reply: JsonView,
)
    requires
        may_answer(before, after, held_keys, describe, call, ms, uuid, reply),
    ensures
        answers(reply, uuid),
{
}

/// Every answer is a document that can be read back, but for what an application is
/// described by, which is not built here.
pub proof fn law_answers_are_plain<B: Backend, H: HeldKeys, D: Fn(&ActiveApp) -> Json>(
    before: B,
    after: B,
    held_keys: H,
    describe: D,
    call: CallView,
    ms: u64,
    uuid: Seq<char>,
    reply: JsonView,
)
    requires
        may_answer(before, after, held_keys, describe, call, ms, uuid, reply),
        !(call is ActiveApp),
    ensures
        reply.is_plain(MAX_LEVELS as nat),
{
    reveal_with_fuel(JsonView::is_plain, 8);
}

/// Whoever launched the helper reads the answer that it gave: the text that comes
/// out of the frame of an answer parses as the answer.
pub proof fn law_answer_is_read_back<B: Backend, H: HeldKeys, D: Fn(&ActiveApp) -> Json>(
    before: B,
    after: B,
    held_keys: H,
    describe: D,
    call: CallView,
    ms: u64,
    uuid: Seq<char>,
    reply: JsonView,
    frame: Seq<u8>,
    message: Seq<char>,
)
    requires
        may_answer(before, after, held_keys, describe, call, ms, uuid, reply),
        call is ActiveApp ==> reply.is_plain(MAX_LEVELS as nat),
        carries(frame, reply),
        is_message(cut(frame).frames[0], message),
    ensures
        json_parsed(message) == Ok::<JsonView, Seq<char>>(reply),
{
    if !(call is ActiveApp) {
        law_answers_are_plain(before, after, held_keys, describe, call, ms, uuid, reply);
    }
}

/// A command that is not known asks for nothing, and is acknowledged.
pub proof fn law_unknown_command_is_acknowledged<
    B: Backend,
    H: HeldKeys,
    D: Fn(&ActiveApp) -> Json,
>(before: B, after: B, held_keys: H, describe: D, m: IncomingView, ms: u64, reply: JsonView)
    requires
        m.command != "HelperAppShutdown"@,
        m.command != "IsReady"@,
        m.command != "PasteText"@,
        m.command != "SimulateKeyPress"@,
        m.command != "GetActiveAppInfo"@,
        m.command != "GetAppInfo"@,
        m.command != "GetRunningApps"@,
        m.command != "GetSelectedTextViaCopy"@,
        m.command != "GetAccessibilityStatus"@,
        m.command != "SetFocusChangeDetectorState"@,
        m.command != "CheckStaleKeys"@,
        may_answer(before, after, held_keys, describe, call_of(m), ms, m.uuid, reply),
    ensures
        call_of(m) == CallView::Nothing,
        after == before,
        reply == ack_view(m.uuid),
{
}

/// A key is stale if and only if it was asked for and is not held.
pub proof fn law_stale_keys_are_those_not_held(queried: Seq<u64>, held: Set<u32>, key: u64)
    ensures
        stale_of(queried, held).contains(key) <==> queried.contains(key) && !held.contains(
            low32(key),
        ),
    decreases queried.len(),
{
    if queried.len() > 0 {
        let rest = queried.drop_last();
        let last = queried.last();
        let before = stale_of(rest, held);
        let all = stale_of(queried, held);
        law_stale_keys_are_those_not_held(rest, held, key);
        assert(queried =~= rest.push(last));
        assert(all == if held.contains(low32(last)) {
            before
        } else {
            before.push(last)
        });
        broadcast use vstd::seq_lib::group_seq_properties;

    }
}

/// Where no key can be told to be held, every key that was asked for is stale.
pub proof fn law_every_key_is_stale_where_none_is_held(queried: Seq<u64>)
    ensures
        stale_of(queried, Set::empty()) == queried,
    decreases queried.len(),
{
    if queried.len() > 0 {
        law_every_key_is_stale_where_none_is_held(queried.drop_last());
        assert(queried =~= queried.drop_last().push(queried.last()));
    } else {
        assert(stale_of(queried, Set::empty()) =~= queried);
    }
}

// ---------------------------------------------------------------------------
// What each command asks for
// ---------------------------------------------------------------------------

proof fn lemma_commands_differ()
    ensures
        "HelperAppShutdown"@.len() == 17,
        "IsReady"@.len() == 7,
        "PasteText"@.len() == 9,
        "SimulateKeyPress"@.len() == 16,
        "SimulateKeyPress"@[0] == 'S',
        "GetActiveAppInfo"@.len() == 16,
        "GetActiveAppInfo"@[0] == 'G',
        "GetAppInfo"@.len() == 10,
        "GetRunningApps"@.len() == 14,
        "GetRunningApps"@[0] == 'G',
        "GetSelectedTextViaCopy"@.len() == 22,
        "GetSelectedTextViaCopy"@[3] == 'S',
        "GetAccessibilityStatus"@.len() == 22,
        "GetAccessibilityStatus"@[3] == 'A',
        "SetFocusChangeDetectorState"@.len() == 27,
        "CheckStaleKeys"@.len() == 14,
        "CheckStaleKeys"@[0] == 'C',
{
    reveal_strlit("HelperAppShutdown");
    reveal_strlit("IsReady");
    reveal_strlit("PasteText");
    reveal_strlit("SimulateKeyPress");
    reveal_strlit("GetActiveAppInfo");
    reveal_strlit("GetAppInfo");
    reveal_strlit("GetRunningApps");
    reveal_strlit("GetSelectedTextViaCopy");
    reveal_strlit("GetAccessibilityStatus");
    reveal_strlit("SetFocusChangeDetectorState");
    reveal_strlit("CheckStaleKeys");
}

/// The request `m` came with the members `p` in its payload.
pub open spec fn comes_with(m: IncomingView, p: Map<Seq<char>, JsonView>) -> bool {
    m.payload matches JsonView::Object(o) && o.contains_key("payload"@) && o["payload"@]
        == JsonView::Object(p)
}

/// `PasteText` asks for its text to be pasted, character for character, and with its
/// rich form where that is a text that is not empty.
pub proof fn law_paste_is_asked_with_its_text(m: IncomingView, p: Map<Seq<char>, JsonView>)
    requires
        m.command == "PasteText"@,
        comes_with(m, p),
    ensures
        call_of(m) matches CallView::Paste { text, html } && (p.contains_key("text"@) && p["text"@] is Text
            ==> text == p["text"@]->Text_0) && (!(p.contains_key("text"@) && p["text"@] is Text)
            ==> text.len() == 0) && (p.contains_key("htmlText"@) && (p["htmlText"@] matches JsonView::Text(h)
            && h.len() > 0) ==> html == Some(p["htmlText"@]->Text_0)) && (!(p.contains_key(
            "htmlText"@,
        ) && (p["htmlText"@] matches JsonView::Text(h) && h.len() > 0)) ==> html is None),
{
    lemma_commands_differ();
}

/// The texts among items, one by one.
proof fn lemma_texts_among(items: Seq<JsonView>)
    ensures
        texts_among(items) == items.filter(|v: JsonView| v is Text).map_values(
            |v: JsonView| v->Text_0,
        ),
    decreases items.len(),
{
    reveal(Seq::filter);
    let kept = items.filter(|v: JsonView| v is Text);
    if items.len() == 0 {
        assert(texts_among(items) =~= kept.map_values(|v: JsonView| v->Text_0));
    } else {
        let before = items.drop_last();
        let some = before.filter(|v: JsonView| v is Text);
        lemma_texts_among(before);
        if items.last() is Text {
            assert(kept == some.push(items.last()));
        } else {
            assert(kept == some);
        }
        assert(texts_among(items) =~= kept.map_values(|v: JsonView| v->Text_0));
    }
}

proof fn lemma_numbers_among(items: Seq<JsonView>)
    ensures
        numbers_among(items) == items.filter(|v: JsonView| v is Unsigned).map_values(
            |v: JsonView| v->Unsigned_0,
        ),
    decreases items.len(),
{
    reveal(Seq::filter);
    let kept = items.filter(|v: JsonView| v is Unsigned);
    if items.len() == 0 {
        assert(numbers_among(items) =~= kept.map_values(|v: JsonView| v->Unsigned_0));
    } else {
        let before = items.drop_last();
        let some = before.filter(|v: JsonView| v is Unsigned);
        lemma_numbers_among(before);
        if items.last() is Unsigned {
            assert(kept == some.push(items.last()));
        } else {
            assert(kept == some);
        }
        assert(numbers_among(items) =~= kept.map_values(|v: JsonView| v->Unsigned_0));
    }
}

/// `SimulateKeyPress` asks for the key whose code it names, by the low 32 bits, with
/// every text among its flags, in order.
pub proof fn law_press_is_asked_with_its_key(m: IncomingView, p: Map<Seq<char>, JsonView>)
    requires
        m.command == "SimulateKeyPress"@,
        comes_with(m, p),
    ensures
        call_of(m) matches CallView::Press { keycode, flags } && (p.contains_key("keycode"@)
            && p["keycode"@] is Unsigned ==> keycode as int == p["keycode"@]->Unsigned_0 as int
            % 0x1_0000_0000) && (!(p.contains_key("keycode"@) && p["keycode"@] is Unsigned) ==> keycode
            == 0) && (p.contains_key("flags"@) && p["flags"@] is Array ==> flags
            == p["flags"@]->Array_0.filter(|v: JsonView| v is Text).map_values(
            |v: JsonView| v->Text_0,
        )) && (!(p.contains_key("flags"@) && p["flags"@] is Array) ==> flags.len() == 0),
{
    lemma_commands_differ();
    if p.contains_key("flags"@) && p["flags"@] is Array {
        lemma_texts_among(p["flags"@]->Array_0);
    }
}

/// `SetFocusChangeDetectorState` asks for focus events exactly where it says `true`.
pub proof fn law_focus_detection_is_asked_as_said(m: IncomingView, p: Map<Seq<char>, JsonView>)
    requires
        m.command == "SetFocusChangeDetectorState"@,
        comes_with(m, p),
    ensures
        call_of(m) == CallView::FocusDetection(
            p.contains_key("active"@) && p["active"@] == JsonView::Bool(true),
        ),
{
    lemma_commands_differ();
}

/// `CheckStaleKeys` asks for every number among its keys, in order.
pub proof fn law_stale_keys_are_asked_as_named(m: IncomingView, p: Map<Seq<char>, JsonView>)
    requires
        m.command == "CheckStaleKeys"@,
        comes_with(m, p),
    ensures
        p.contains_key("keycodes"@) && p["keycodes"@] is Array ==> call_of(m) == CallView::StaleKeys(
            p["keycodes"@]->Array_0.filter(|v: JsonView| v is Unsigned).map_values(
                |v: JsonView| v->Unsigned_0,
            ),
        ),
        !(p.contains_key("keycodes"@) && p["keycodes"@] is Array) ==> call_of(m)
            == CallView::StaleKeys(Seq::empty()),
{
    lemma_commands_differ();
    if p.contains_key("keycodes"@) && p["keycodes"@] is Array {
        lemma_numbers_among(p["keycodes"@]->Array_0);
    } else {
        assert(numbers_among(items_at(payload_of(m), "keycodes"@)) =~= Seq::<u64>::empty());
    }
}

/// Without members in a payload, nothing is pasted, no key is named, focus events are
/// turned off, and no key is asked after.
pub proof fn law_request_without_payload_names_nothing(m: IncomingView)
    requires
        forall|p: Map<Seq<char>, JsonView>| !comes_with(m, p),
    ensures
        m.command == "PasteText"@ ==> (call_of(m) matches CallView::Paste { text, html } && text.len()
            == 0 && html is None),
        m.command == "SimulateKeyPress"@ ==> (call_of(m) matches CallView::Press { keycode, flags }
            && keycode == 0 && flags.len() == 0),
        m.command == "SetFocusChangeDetectorState"@ ==> call_of(m) == CallView::FocusDetection(false),
        m.command == "CheckStaleKeys"@ ==> (call_of(m) matches CallView::StaleKeys(keys) && keys.len()
            == 0),
{
    lemma_commands_differ();
    if let JsonView::Object(p) = payload_of(m) {
        assert(!comes_with(m, p));
    }
}

/// The other commands ask for what their names say, whatever comes with them.
pub proof fn law_command_asks_by_its_name(m: IncomingView)
    ensures
        m.command == "HelperAppShutdown"@ ==> call_of(m) == CallView::Shutdown,
        m.command == "IsReady"@ ==> call_of(m) == CallView::Ready,
        m.command == "GetActiveAppInfo"@ ==> call_of(m) == CallView::ActiveApp,
        m.command == "GetAppInfo"@ ==> call_of(m) == CallView::AppInfo,
        m.command == "GetRunningApps"@ ==> call_of(m) == CallView::RunningApps,
        m.command == "GetSelectedTextViaCopy"@ ==> call_of(m) == CallView::SelectedText,
        m.command == "GetAccessibilityStatus"@ ==> call_of(m) == CallView::Status,
{
    lemma_commands_differ();
}

/// A call is known by what it asks for.
pub proof fn law_call_view_tells_all(c: Call)
    ensures
        match c {
            Call::Paste { text, html } => c@ == (CallView::Paste {
                text: text@,
                html: match html {
                    Some(h) => Some(h@),
                    None => None,
                },
            }),
            Call::Press { keycode, flags } => c@ matches CallView::Press { keycode: k, flags: f } && k
                == keycode && f.len() == flags@.len() && forall|i: int|
                0 <= i < f.len() ==> #[trigger] f[i] == flags@[i]@,
            Call::FocusDetection(active) => c@ == CallView::FocusDetection(active),
            Call::StaleKeys(keys) => c@ == CallView::StaleKeys(keys@),
            Call::Shutdown => c@ is Shutdown,
            Call::Ready => c@ is Ready,
            Call::ActiveApp => c@ is ActiveApp,
            Call::AppInfo => c@ is AppInfo,
            Call::RunningApps => c@ is RunningApps,
            Call::SelectedText => c@ is SelectedText,
            Call::Status => c@ is Status,
            Call::Nothing => c@ is Nothing,
        },
{
}

// ---------------------------------------------------------------------------
// Answers as they are written
// ---------------------------------------------------------------------------

/// What failed is answered with an error that names the command and tells why.
pub proof fn law_failure_as_written(command: Seq<char>, e: Seq<char>, uuid: Seq<char>)
    ensures
        ({
            let description = command + " failed: "@ + e;
            failed_view(command, e, uuid) == JsonView::Object(
            map![
                "HelperAPIResponse"@ => JsonView::Object(
                    map![
                        "HelperAPIError"@ => JsonView::Object(
                            map![
                                "payload"@ => JsonView::Object(
                                    map![
                                        "type"@ => JsonView::Text(Seq::empty()),
                                        "description"@ => JsonView::Text(description),
                                        "params"@ => JsonView::Object(Map::empty()),
                                    ],
                                ),
                            ],
                        ),
                        "uuid"@ => JsonView::Text(uuid),
                    ],
                ),
            ],
        )
        }),
        done_view(command, Err(e), uuid) == failed_view(command, e, uuid),
        active_app_view(Err(e), uuid) == failed_view("GetActiveAppInfo"@, e, uuid),
        app_info_view(Err(e), uuid) == failed_view("GetAppInfo"@, e, uuid),
        running_apps_view(Err(e), uuid) == failed_view("GetRunningApps"@, e, uuid),
        selected_text_view(Err(e), uuid) == failed_view("GetSelectedTextViaCopy"@, e, uuid),
{
}

/// What was done is acknowledged, and so is the question whether the helper is ready,
/// with the time that it took to start.
pub proof fn law_acknowledgements_as_written(command: Seq<char>, ms: u64, uuid: Seq<char>)
    ensures
        done_view(command, Ok(()), uuid) == JsonView::Object(
            map![
                "HelperAPIResponse"@ => JsonView::Object(
                    map![
                        "ACK"@ => JsonView::Bool(true),
                        "uuid"@ => JsonView::Text(uuid),
                    ],
                ),
            ],
        ),
        ready_view(ms, uuid) == JsonView::Object(
            map![
                "HelperAPIResponse"@ => JsonView::Object(
                    map![
                        "ACK"@ => JsonView::Bool(true),
                        "HelperLaunchTiming"@ => JsonView::Object(
                            map!["helperMainEntryMs"@ => JsonView::Unsigned(ms)],
                        ),
                        "uuid"@ => JsonView::Text(uuid),
                    ],
                ),
            ],
        ),
{
}

/// What an application is described by is answered as it is; in short, its name, its id
/// and its address are.
pub proof fn law_application_as_written(body: JsonView, a: ActiveAppView, uuid: Seq<char>)
    ensures
        active_app_view(Ok(body), uuid) == JsonView::Object(
            map![
                "HelperAPIResponse"@ => JsonView::Object(
                    map![
                        "ActiveAppInfo"@ => body,
                        "uuid"@ => JsonView::Text(uuid),
                    ],
                ),
            ],
        ),
        app_info_view(Ok(a), uuid) == JsonView::Object(
            map![
                "HelperAPIResponse"@ => JsonView::Object(
                    map![
                        "AppInfo"@ => JsonView::Object(
                            map![
                                "payload"@ => JsonView::Object(
                                    map![
                                        "appName"@ => JsonView::Text(a.app_name),
                                        "bundleId"@ => JsonView::Text(a.bundle_id),
                                        "url"@ => JsonView::Text(a.url),
                                    ],
                                ),
                            ],
                        ),
                        "uuid"@ => JsonView::Text(uuid),
                    ],
                ),
            ],
        ),
{
}

/// The running applications are answered one by one, in order, each with its id and its
/// name.
pub proof fn law_running_apps_as_written(list: Seq<RunningAppView>, uuid: Seq<char>)
    ensures
        running_apps_view(Ok(list), uuid) == JsonView::Object(
            map![
                "HelperAPIResponse"@ => JsonView::Object(
                    map![
                        "RunningApps"@ => JsonView::Object(
                            map![
                                "payload"@ => JsonView::Object(
                                    map![
                                        "apps"@ => JsonView::Array(
                                            list.map_values(
                                                |r: RunningAppView|
                                                    JsonView::Object(
                                                        map![
                                                            "bundleId"@ => JsonView::Text(r.bundle_id),
                                                            "name"@ => JsonView::Text(r.name),
                                                        ],
                                                    ),
                                            ),
                                        ),
                                    ],
                                ),
                            ],
                        ),
                        "uuid"@ => JsonView::Text(uuid),
                    ],
                ),
            ],
        ),
{
    assert(list.map_values(|a: RunningAppView| running_item(a)) =~= list.map_values(
        |r: RunningAppView|
            JsonView::Object(
                map![
                    "bundleId"@ => JsonView::Text(r.bundle_id),
                    "name"@ => JsonView::Text(r.name),
                ],
            ),
    ));
}

/// A selection is answered with its four texts, each under its own name.
pub proof fn law_selection_as_written(s: SelectionView, uuid: Seq<char>)
    ensures
        selected_text_view(Ok(s), uuid) == JsonView::Object(
            map![
                "HelperAPIResponse"@ => JsonView::Object(
                    map![
                        "SelectedTextViaCopy"@ => JsonView::Object(
                            map![
                                "payload"@ => JsonView::Object(
                                    map![
                                        "selectedText"@ => JsonView::Text(s.selected_text),
                                        "beforeText"@ => JsonView::Text(s.before_text),
                                        "afterText"@ => JsonView::Text(s.after_text),
                                        "contents"@ => JsonView::Text(s.contents),
                                    ],
                                ),
                            ],
                        ),
                        "uuid"@ => JsonView::Text(uuid),
                    ],
                ),
            ],
        ),
{
}

/// Whether accessibility services answer is told as it is.
pub proof fn law_status_as_written(status: bool, uuid: Seq<char>)
    ensures
        status_view(status, uuid) == JsonView::Object(
            map![
                "HelperAPIResponse"@ => JsonView::Object(
                    map![
                        "AccessibilityStatus"@ => JsonView::Object(
                            map![
                                "payload"@ => JsonView::Object(
                                    map![
                                        "status"@ => JsonView::Bool(status),
                                    ],
                                ),
                            ],
                        ),
                        "uuid"@ => JsonView::Text(uuid),
                    ],
                ),
            ],
        ),
{
}

/// Stale keys are answered in order, each as the number that was asked for.
pub proof fn law_stale_keys_as_written(stale: Seq<u64>, uuid: Seq<char>)
    ensures
        stale_keys_view(stale, uuid) == JsonView::Object(
            map![
                "HelperAPIResponse"@ => JsonView::Object(
                    map![
                        "StaleKeysResponse"@ => JsonView::Object(
                            map![
                                "payload"@ => JsonView::Object(
                                    map![
                                        "staleKeys"@ => JsonView::Array(
                                            stale.map_values(|n: u64| JsonView::Unsigned(n)),
                                        ),
                                    ],
                                ),
                            ],
                        ),
                        "uuid"@ => JsonView::Text(uuid),
                    ],
                ),
            ],
        ),
{
}

/// The stale keys are those asked for, in their order, whose low 32 bits are not held.
pub proof fn law_stale_keys_keep_their_order(queried: Seq<u64>, held: Set<u32>)
    ensures
        stale_of(queried, held) == queried.filter(
            |k: u64| !held.contains((k as int % 0x1_0000_0000) as u32),
        ),
    decreases queried.len(),
{
    reveal(Seq::filter);
    if queried.len() > 0 {
        law_stale_keys_keep_their_order(queried.drop_last(), held);
    }
}

// ---------------------------------------------------------------------------
// What the backend is asked
// ---------------------------------------------------------------------------

/// The backend is asked to paste exactly the text and the rich form of the call, and the
/// answer tells how that went.
pub proof fn law_paste_is_handed_on<B: Backend, H: HeldKeys, D: Fn(&ActiveApp) -> Json>(
    before: B,
    after: B,
    held_keys: H,
    describe: D,
    text: Seq<char>,
    html: Option<Seq<char>>,
    ms: u64,
    uuid: Seq<char>,
    reply: JsonView,
)
    requires
        may_answer(before, after, held_keys, describe, CallView::Paste { text, html }, ms, uuid, reply),
    ensures
        exists|o: Result<(), Seq<char>>| #[trigger]
            before.may(Asked::Paste { text, html }, Said::Done(o), &after) && match o {
                Ok(_) => reply == ack_view(uuid),
                Err(e) => reply == error_view("PasteText failed: "@ + e, uuid),
            },
{
    lemma_failed_texts();
}

/// The backend is asked to press exactly the key of the call, with its flags, and the
/// answer tells how that went.
pub proof fn law_press_is_handed_on<B: Backend, H: HeldKeys, D: Fn(&ActiveApp) -> Json>(
    before: B,
    after: B,
    held_keys: H,
    describe: D,
    keycode: u32,
    flags: Seq<Seq<char>>,
    ms: u64,
    uuid: Seq<char>,
    reply: JsonView,
)
    requires
        may_answer(before, after, held_keys, describe, CallView::Press { keycode, flags }, ms, uuid, reply),
    ensures
        exists|o: Result<(), Seq<char>>| #[trigger]
            before.may(Asked::Press { keycode, flags }, Said::Done(o), &after) && match o {
                Ok(_) => reply == ack_view(uuid),
                Err(e) => reply == error_view("SimulateKeyPress failed: "@ + e, uuid),
            },
{
    lemma_failed_texts();
}

/// The backend is asked for the application that has the focus, and the answer holds
/// what that very application is described by, or why it is not known.
pub proof fn law_active_app_is_described<B: Backend, H: HeldKeys, D: Fn(&ActiveApp) -> Json>(
    before: B,
    after: B,
    held_keys: H,
    describe: D,
    ms: u64,
    uuid: Seq<char>,
    reply: JsonView,
)
    requires
        may_answer(before, after, held_keys, describe, CallView::ActiveApp, ms, uuid, reply),
    ensures
        exists|a: Result<ActiveAppView, Seq<char>>| #[trigger]
            before.may(Asked::ActiveApp, Said::App(a), &after) && match a {
                Ok(v) => exists|shown: ActiveApp, b: Json|
                    shown@ == v && #[trigger] call_ensures(describe, (&shown,), b) && reply
                        == response_view("ActiveAppInfo"@, b@, uuid),
                Err(e) => reply == error_view("GetActiveAppInfo failed: "@ + e, uuid),
            },
{
    lemma_failed_texts();
    let (a, b) = choose|a: Result<ActiveAppView, Seq<char>>, b: Result<JsonView, Seq<char>>|
        #[trigger] before.may(Asked::ActiveApp, Said::App(a), &after) && #[trigger] described(
            describe,
            a,
            b,
        ) && reply == active_app_view(b, uuid);
    assert(before.may(Asked::ActiveApp, Said::App(a), &after));
}

/// The backend is asked for the application that has the focus, and the answer tells its
/// name, its id and its address, or why it is not known.
pub proof fn law_app_info_is_told<B: Backend, H: HeldKeys, D: Fn(&ActiveApp) -> Json>(
    before: B,
    after: B,
    held_keys: H,
    describe: D,
    ms: u64,
    uuid: Seq<char>,
    reply: JsonView,
)
    requires
        may_answer(before, after, held_keys, describe, CallView::AppInfo, ms, uuid, reply),
    ensures
        exists|a: Result<ActiveAppView, Seq<char>>| #[trigger]
            before.may(Asked::ActiveApp, Said::App(a), &after) && match a {
                Ok(v) => reply == response_view(
                    "AppInfo"@,
                    payload_view(
                        map![
                            "appName"@ => JsonView::Text(v.app_name),
                            "bundleId"@ => JsonView::Text(v.bundle_id),
                            "url"@ => JsonView::Text(v.url),
                        ],
                    ),
                    uuid,
                ),
                Err(e) => reply == error_view("GetAppInfo failed: "@ + e, uuid),
            },
{
    lemma_failed_texts();
}

/// The backend is asked for the running applications, and the answer tells all of them,
/// or why they are not known.
pub proof fn law_running_apps_are_told<B: Backend, H: HeldKeys, D: Fn(&ActiveApp) -> Json>(
    before: B,
    after: B,
    held_keys: H,
    describe: D,
    ms: u64,
    uuid: Seq<char>,
    reply: JsonView,
)
    requires
        may_answer(before, after, held_keys, describe, CallView::RunningApps, ms, uuid, reply),
    ensures
        exists|a: Result<Seq<RunningAppView>, Seq<char>>| #[trigger]
            before.may(Asked::RunningApps, Said::Apps(a), &after) && match a {
                Ok(list) => reply == response_view(
                    "RunningApps"@,
                    payload_view(
                        map![
                            "apps"@ => JsonView::Array(
                                list.map_values(
                                    |r: RunningAppView|
                                        JsonView::Object(
                                            map![
                                                "bundleId"@ => JsonView::Text(r.bundle_id),
                                                "name"@ => JsonView::Text(r.name),
                                            ],
                                        ),
                                ),
                            ),
                        ],
                    ),
                    uuid,
                ),
                Err(e) => reply == error_view("GetRunningApps failed: "@ + e, uuid),
            },
{
    lemma_failed_texts();
    let a = choose|a: Result<Seq<RunningAppView>, Seq<char>>| #[trigger]
        before.may(Asked::RunningApps, Said::Apps(a), &after) && reply == running_apps_view(a, uuid);
    assert(before.may(Asked::RunningApps, Said::Apps(a), &after));
    if let Ok(list) = a {
        assert(list.map_values(|r: RunningAppView| running_item(r)) =~= list.map_values(
            |r: RunningAppView|
                JsonView::Object(
                    map![
                        "bundleId"@ => JsonView::Text(r.bundle_id),
                        "name"@ => JsonView::Text(r.name),
                    ],
                ),
        ));
    }
}

/// The backend is asked for the text that is selected, and the answer tells it, or why it
/// is not known.
pub proof fn law_selection_is_told<B: Backend, H: HeldKeys, D: Fn(&ActiveApp) -> Json>(
    before: B,
    after: B,
    held_keys: H,
    describe: D,
    ms: u64,
    uuid: Seq<char>,
    reply: JsonView,
)
    requires
        may_answer(before, after, held_keys, describe, CallView::SelectedText, ms, uuid, reply),
    ensures
        exists|s: Result<SelectionView, Seq<char>>| #[trigger]
            before.may(Asked::SelectedText, Said::Text(s), &after) && match s {
                Ok(v) => reply == response_view(
                    "SelectedTextViaCopy"@,
                    payload_view(
                        map![
                            "selectedText"@ => JsonView::Text(v.selected_text),
                            "beforeText"@ => JsonView::Text(v.before_text),
                            "afterText"@ => JsonView::Text(v.after_text),
                            "contents"@ => JsonView::Text(v.contents),
                        ],
                    ),
                    uuid,
                ),
                Err(e) => reply == error_view("GetSelectedTextViaCopy failed: "@ + e, uuid),
            },
{
    lemma_failed_texts();
}

/// The backend is asked whether accessibility services answer, and the answer tells it.
pub proof fn law_status_is_told<B: Backend, H: HeldKeys, D: Fn(&ActiveApp) -> Json>(
    before: B,
    after: B,
    held_keys: H,
    describe: D,
    ms: u64,
    uuid: Seq<char>,
    reply: JsonView,
)
    requires
        may_answer(before, after, held_keys, describe, CallView::Status, ms, uuid, reply),
    ensures
        exists|s: bool| #[trigger]
            before.may(Asked::Status, Said::Status(s), &after) && reply == response_view(
                "AccessibilityStatus"@,
                payload_view(map!["status"@ => JsonView::Bool(s)]),
                uuid,
            ),
{
}

/// The backend is told to turn focus events on or off as the call says, which is
/// acknowledged.
pub proof fn law_focus_detection_is_handed_on<B: Backend, H: HeldKeys, D: Fn(&ActiveApp) -> Json>(
    before: B,
    after: B,
    held_keys: H,
    describe: D,
    active: bool,
    ms: u64,
    uuid: Seq<char>,
    reply: JsonView,
)
    requires
        may_answer(before, after, held_keys, describe, CallView::FocusDetection(active), ms, uuid, reply),
    ensures
        before.may(Asked::FocusDetection(active), Said::Nothing, &after),
        reply == ack_view(uuid),
{
}

/// The backend is not asked which keys are stale: they are those of the call that may be
/// told not to be held.
pub proof fn law_stale_keys_are_told<B: Backend, H: HeldKeys, D: Fn(&ActiveApp) -> Json>(
    before: B,
    after: B,
    held_keys: H,
    describe: D,
    queried: Seq<u64>,
    ms: u64,
    uuid: Seq<char>,
    reply: JsonView,
)
    requires
        may_answer(before, after, held_keys, describe, CallView::StaleKeys(queried), ms, uuid, reply),
    ensures
        after == before,
        exists|held: Set<u32>| #[trigger]
            held_keys.may_tell(held) && reply == response_view(
                "StaleKeysResponse"@,
                payload_view(
                    map![
                        "staleKeys"@ => JsonView::Array(
                            queried.filter(
                                |k: u64| !held.contains((k as int % 0x1_0000_0000) as u32),
                            ).map_values(|n: u64| JsonView::Unsigned(n)),
                        ),
                    ],
                ),
                uuid,
            ),
{
    let held = choose|held: Set<u32>| #[trigger]
        held_keys.may_tell(held) && reply == stale_keys_view(stale_of(queried, held), uuid);
    assert(held_keys.may_tell(held));
    law_stale_keys_keep_their_order(queried, held);
}

/// Shutting down, being ready and what is not known are answered without the backend.
pub proof fn law_backend_is_left_alone<B: Backend, H: HeldKeys, D: Fn(&ActiveApp) -> Json>(
    before: B,
    after: B,
    held_keys: H,
    describe: D,
    call: CallView,
    ms: u64,
    uuid: Seq<char>,
    reply: JsonView,
)
    requires
        may_answer(before, after, held_keys, describe, call, ms, uuid, reply),
        call is Shutdown || call is Ready || call is Nothing,
    ensures
        after == before,
        call is Shutdown || call is Nothing ==> reply == ack_view(uuid),
        call is Ready ==> reply == envelope_view(
            "HelperAPIResponse"@,
            map![
                "ACK"@ => JsonView::Bool(true),
                "HelperLaunchTiming"@ => JsonView::Object(
                    map!["helperMainEntryMs"@ => JsonView::Unsigned(ms)],
                ),
            ],
            uuid,
        ),
{
}

proof fn lemma_failed_texts()
    ensures
        forall|e: Seq<char>| "PasteText"@ + " failed: "@ + e == #[trigger] ("PasteText failed: "@ + e),
        forall|e: Seq<char>|
            "SimulateKeyPress"@ + " failed: "@ + e == #[trigger] ("SimulateKeyPress failed: "@ + e),
        forall|e: Seq<char>|
            "GetActiveAppInfo"@ + " failed: "@ + e == #[trigger] ("GetActiveAppInfo failed: "@ + e),
        forall|e: Seq<char>|
            "GetAppInfo"@ + " failed: "@ + e == #[trigger] ("GetAppInfo failed: "@ + e),
        forall|e: Seq<char>|
            "GetRunningApps"@ + " failed: "@ + e == #[trigger] ("GetRunningApps failed: "@ + e),
        forall|e: Seq<char>|
            "GetSelectedTextViaCopy"@ + " failed: "@ + e == #[trigger] (
            "GetSelectedTextViaCopy failed: "@ + e),
{
    reveal_strlit(" failed: ");
    reveal_strlit("PasteText");
    reveal_strlit("SimulateKeyPress");
    reveal_strlit("GetActiveAppInfo");
    reveal_strlit("GetAppInfo");
    reveal_strlit("GetRunningApps");
    reveal_strlit("GetSelectedTextViaCopy");
    reveal_strlit("PasteText failed: ");
    reveal_strlit("SimulateKeyPress failed: ");
    reveal_strlit("GetActiveAppInfo failed: ");
    reveal_strlit("GetAppInfo failed: ");
    reveal_strlit("GetRunningApps failed: ");
    reveal_strlit("GetSelectedTextViaCopy failed: ");
    assert("PasteText"@ + " failed: "@ =~= "PasteText failed: "@);
    assert("SimulateKeyPress"@ + " failed: "@ =~= "SimulateKeyPress failed: "@);
    assert("GetActiveAppInfo"@ + " failed: "@ =~= "GetActiveAppInfo failed: "@);
    assert("GetAppInfo"@ + " failed: "@ =~= "GetAppInfo failed: "@);
    assert("GetRunningApps"@ + " failed: "@ =~= "GetRunningApps failed: "@);
    assert("GetSelectedTextViaCopy"@ + " failed: "@ =~= "GetSelectedTextViaCopy failed: "@);
}

} // verus!
