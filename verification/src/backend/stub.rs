//! A backend that does nothing.
//!
//! It lets the helper answer on sessions where no other backend works. Pasting and
//! key presses fail; everything else is empty.

use super::{ActiveApp, ActiveAppView, Asked, Backend, RunningApp, RunningAppView, Said};
use super::{apps_view, Selection, SelectionView};
use vstd::prelude::*;

verus! {

/// A backend that does nothing.
pub struct StubBackend;

/// What is said of what cannot be done.
pub const NO_BACKEND: &'static str = "no backend available (stub)";

/// What the stub says, whatever was asked before.
pub open spec fn stub_says(asked: Asked) -> Said {
    match asked {
        Asked::Paste { .. } => Said::Done(Err(NO_BACKEND@)),
        Asked::Press { .. } => Said::Done(Err(NO_BACKEND@)),
        Asked::ActiveApp => Said::App(
            Ok(
                ActiveAppView {
                    app_name: Seq::empty(),
                    bundle_id: Seq::empty(),
                    window_title: Seq::empty(),
                    url: Seq::empty(),
                },
            ),
        ),
        Asked::RunningApps => Said::Apps(Ok(Seq::empty())),
        Asked::SelectedText => Said::Text(
            Ok(
                SelectionView {
                    selected_text: Seq::empty(),
                    contents: Seq::empty(),
                    before_text: Seq::empty(),
                    after_text: Seq::empty(),
                },
            ),
        ),
        Asked::Status => Said::Status(false),
        Asked::FocusDetection(_) => Said::Nothing,
    }
}

impl Backend for StubBackend {
    open spec fn may(&self, asked: Asked, said: Said, after: &StubBackend) -> bool {
        said == stub_says(asked) && *after == *self
    }

    fn paste_text(&mut self, _text: &str, _html: Option<&str>) -> (r: Result<(), String>) {
        Err(NO_BACKEND.to_owned())
    }

    fn simulate_key_press(&mut self, _keycode_vk: u32, _flags: &[String]) -> (r: Result<(), String>) {
        Err(NO_BACKEND.to_owned())
    }

    fn get_active_app(&mut self) -> (r: Result<ActiveApp, String>) {
        Ok(ActiveApp::default())
    }

    fn get_running_apps(&mut self) -> (r: Result<Vec<RunningApp>, String>) {
        let apps: Vec<RunningApp> = Vec::new();
        assert(apps_view(apps@) =~= Seq::<RunningAppView>::empty());
        Ok(apps)
    }

    fn get_selected_text(&mut self) -> (r: Result<Selection, String>) {
        Ok(Selection::default())
    }

    fn accessibility_status(&mut self) -> (r: bool) {
        false
    }

    fn set_focus_detection(&mut self, _active: bool) {
    }

    fn name(&self) -> (r: &'static str)
        ensures
            r@ == "stub"@,
    {
        "stub"
    }
}

/// Without a backend nothing is pasted and no key is pressed, which is told; of
/// everything else nothing is known.
pub proof fn law_stub_knows_nothing(
    text: Seq<char>,
    html: Option<Seq<char>>,
    keycode: u32,
    flags: Seq<Seq<char>>,
    active: bool,
)
    ensures
        stub_says(Asked::Paste { text, html }) == Said::Done(Err("no backend available (stub)"@)),
        stub_says(Asked::Press { keycode, flags }) == Said::Done(
            Err("no backend available (stub)"@),
        ),
        stub_says(Asked::ActiveApp) matches Said::App(Ok(a)) && a.app_name.len() == 0
            && a.bundle_id.len() == 0 && a.window_title.len() == 0 && a.url.len() == 0,
        stub_says(Asked::RunningApps) matches Said::Apps(Ok(list)) && list.len() == 0,
        stub_says(Asked::SelectedText) matches Said::Text(Ok(s)) && s.selected_text.len() == 0
            && s.contents.len() == 0 && s.before_text.len() == 0 && s.after_text.len() == 0,
        stub_says(Asked::Status) == Said::Status(false),
        stub_says(Asked::FocusDetection(active)) == Said::Nothing,
{
}

} // verus!
