//! Owning the Wayland clipboard with several forms of one text at once.
//!
//! The selection is set on a connection of its own and served until something else
//! takes the clipboard. Whoever set it is told once that it is set, or why it could
//! not be.

use crate::text::{cat, outcome_view, same_text, texts};
use vstd::prelude::*;

verus! {

/// A MIME type with the bytes that are served for it.
pub type Offer = (String, Vec<u8>);

/// Offers as mathematical values.
pub open spec fn offers_view(offers: Seq<Offer>) -> Seq<(Seq<char>, Seq<u8>)> {
    offers.map_values(|o: Offer| (o.0@, o.1@))
}

/// The bytes for a MIME type: those of the first offer of it.
pub open spec fn payload_of(offers: Seq<(Seq<char>, Seq<u8>)>, mime: Seq<char>) -> Option<Seq<u8>>
    decreases offers.len(),
{
    if offers.len() == 0 {
        None
    } else if offers[0].0 == mime {
        Some(offers[0].1)
    } else {
        payload_of(offers.drop_first(), mime)
    }
}

/// What the compositor tells the source.
#[derive(Debug, PartialEq, Eq)]
pub enum SourceEvent {
    /// A target pastes and wants this MIME type.
    Send(String),
    /// Something else took the clipboard.
    Cancelled,
    /// Anything else.
    Other,
}

/// What is to be done next to set the clipboard and serve it.
#[derive(Debug, Clone, Copy, PartialEq, Eq, Structural)]
pub enum ServeStep {
    /// Connect to the compositor.
    Connect,
    /// List what it offers.
    Registry,
    /// Bind the manager of selections.
    Manager,
    /// Bind the seat.
    Seat,
    /// Offer the MIME types, set the selection, and wait until that is through.
    Roundtrip,
    /// Wait for events and handle them.
    Dispatch,
    /// Nothing: the clipboard is released.
    Done,
}

impl ServeStep {
    /// The step leads up to a selection that is set.
    pub open spec fn is_setup(self) -> bool {
        !(self is Dispatch || self is Done)
    }

    /// What a failure of the step is told as.
    pub open spec fn failure(self, e: Seq<char>) -> Seq<char> {
        match self {
            ServeStep::Connect => "wl connect: "@ + e,
            ServeStep::Registry => "registry init: "@ + e,
            ServeStep::Manager => "ext_data_control_manager not available: "@ + e,
            ServeStep::Seat => "wl_seat bind: "@ + e,
            _ => "roundtrip: "@ + e,
        }
    }
}

/// A [`Source`] as a mathematical value.
#[verifier::ext_equal]
pub struct SourceView {
    /// What is offered.
    pub offers: Seq<(Seq<char>, Seq<u8>)>,
    /// Whether something else took the clipboard.
    pub cancelled: bool,
    /// What is to be done next.
    pub step: ServeStep,
}

/// A report that may be missing.
pub open spec fn report_view(r: Option<Result<(), String>>) -> Option<Result<(), Seq<char>>> {
    match r {
        Some(r) => Some(outcome_view(r)),
        None => None,
    }
}

impl SourceView {
    /// Events are waited for, unless something else took the clipboard.
    pub open spec fn serving(self) -> SourceView {
        SourceView {
            step: if self.cancelled {
                ServeStep::Done
            } else {
                ServeStep::Dispatch
            },
            ..self
        }
    }

    /// What follows the step, and what is reported to whoever set the clipboard.
    pub open spec fn after(self, outcome: Result<(), Seq<char>>) -> (
        SourceView,
        Option<Result<(), Seq<char>>>,
    ) {
        match (self.step, outcome) {
            (ServeStep::Done, _) => (self, None),
            (ServeStep::Dispatch, Ok(_)) => (self.serving(), None),
            (ServeStep::Dispatch, Err(_)) => (SourceView { step: ServeStep::Done, ..self }, None),
            (step, Err(e)) => (
                SourceView { step: ServeStep::Done, ..self },
                Some(Err(step.failure(e))),
            ),
            (ServeStep::Connect, Ok(_)) => (SourceView { step: ServeStep::Registry, ..self }, None),
            (ServeStep::Registry, Ok(_)) => (SourceView { step: ServeStep::Manager, ..self }, None),
            (ServeStep::Manager, Ok(_)) => (SourceView { step: ServeStep::Seat, ..self }, None),
            (ServeStep::Seat, Ok(_)) => (SourceView { step: ServeStep::Roundtrip, ..self }, None),
            (ServeStep::Roundtrip, Ok(_)) => (self.serving(), Some(Ok(()))),
        }
    }
}

/// An owner of the clipboard.
pub struct Source {
    offers: Vec<Offer>,
    cancelled: bool,
    step: ServeStep,
}

/// Begins to set the clipboard. Without offers there is nothing to set.
pub fn set_clipboard(offers: Vec<Offer>) -> (r: Result<Source, String>)
    ensures
        match r {
            Ok(s) => offers@.len() > 0 && s@ == (SourceView {
                offers: offers_view(offers@),
                cancelled: false,
                step: ServeStep::Connect,
            }),
            Err(e) => offers@.len() == 0 && e@ == "no clipboard offers"@,
        },
{
    if offers.len() == 0 {
        Err("no clipboard offers".to_owned())
    } else {
        Ok(Source { offers, cancelled: false, step: ServeStep::Connect })
    }
}

/// What setting the clipboard comes to: the report of the source, which is missing
/// where it took too long.
pub fn set_outcome(report: Option<Result<(), String>>) -> (r: Result<(), String>)
    ensures
        match report {
            Some(o) => r == o,
            None => r matches Err(e) && e@ == "clipboard set timed out"@,
        },
{
    match report {
        Some(o) => o,
        None => Err("clipboard set timed out".to_owned()),
    }
}

impl Source {
    /// The source as a mathematical value.
    pub closed spec fn view(&self) -> SourceView {
        SourceView {
            offers: offers_view(self.offers@),
            cancelled: self.cancelled,
            step: self.step,
        }
    }

    /// What is to be done next.
    pub fn step(&self) -> (r: ServeStep)
        ensures
            r == self@.step,
    {
        self.step
    }

    /// The MIME types that are offered, in order.
    pub fn mimes(&self) -> (r: Vec<String>)
        ensures
            texts(r@) == self@.offers.map_values(|o: (Seq<char>, Seq<u8>)| o.0),
    {
        let mut r: Vec<String> = Vec::new();
        let mut i: usize = 0;
        let ghost all = self@.offers.map_values(|o: (Seq<char>, Seq<u8>)| o.0);
        assert(texts(r@) =~= all.take(0));
        while i < self.offers.len()
            invariant
                i <= self.offers.len(),
                all == self@.offers.map_values(|o: (Seq<char>, Seq<u8>)| o.0),
                texts(r@) == all.take(i as int),
            decreases self.offers.len() - i,
        {
            let ghost before = r@;
            r.push(self.offers[i].0.clone());
            assert(texts(r@) =~= texts(before).push(self.offers@[i as int].0@));
            assert(all.take(i + 1) =~= all.take(i as int).push(all[i as int]));
            i += 1;
        }
        assert(all.take(i as int) =~= all);
        r
    }

    fn payload(&self, mime: &str) -> (r: Option<Vec<u8>>)
        ensures
            match r {
                Some(bytes) => payload_of(self@.offers, mime@) == Some(bytes@),
                None => payload_of(self@.offers, mime@) is None,
            },
    {
        let mut i: usize = 0;
        let ghost all = self@.offers;
        assert(all.skip(0) =~= all);
        while i < self.offers.len()
            invariant
                i <= self.offers.len(),
                all == offers_view(self.offers@),
                payload_of(all, mime@) == payload_of(all.skip(i as int), mime@),
            decreases self.offers.len() - i,
        {
            assert(all.skip(i as int)[0] == (self.offers@[i as int].0@, self.offers@[i as int].1@));
            assert(all.skip(i as int).drop_first() =~= all.skip(i + 1));
            if same_text(&self.offers[i].0, mime) {
                return Some(copy_of(&self.offers[i].1));
            }
            i += 1;
        }
        None
    }

    /// Handles an event. The bytes that come back, if any, are to be written to the
    /// target; a target that wants a type that is not offered gets none.
    pub fn on_event(&mut self, event: SourceEvent) -> (r: Option<Vec<u8>>)
        ensures
            match event {
                SourceEvent::Send(mime) => final(self)@ == old(self)@ && match r {
                    Some(bytes) => payload_of(old(self)@.offers, mime@) == Some(bytes@),
                    None => payload_of(old(self)@.offers, mime@) is None,
                },
                SourceEvent::Cancelled => r is None && final(self)@ == (SourceView {
                    cancelled: true,
                    ..old(self)@
                }),
                SourceEvent::Other => r is None && final(self)@ == old(self)@,
            },
    {
        match event {
            SourceEvent::Send(mime) => self.payload(&mime),
            SourceEvent::Cancelled => {
                self.cancelled = true;
                None
            },
            SourceEvent::Other => None,
        }
    }

    /// Takes the outcome of what was to be done. The report that comes back, if
    /// any, is for whoever set the clipboard.
    pub fn took(&mut self, outcome: Result<(), String>) -> (r: Option<Result<(), String>>)
        ensures
            final(self)@ == old(self)@.after(outcome_view(outcome)).0,
            report_view(r) == old(self)@.after(outcome_view(outcome)).1,
    {
        match outcome {
            Ok(_) => match self.step {
                ServeStep::Done => None,
                ServeStep::Connect => {
                    self.step = ServeStep::Registry;
                    None
                },
                ServeStep::Registry => {
                    self.step = ServeStep::Manager;
                    None
                },
                ServeStep::Manager => {
                    self.step = ServeStep::Seat;
                    None
                },
                ServeStep::Seat => {
                    self.step = ServeStep::Roundtrip;
                    None
                },
                ServeStep::Roundtrip => {
                    self.serve();
                    Some(Ok(()))
                },
                ServeStep::Dispatch => {
                    self.serve();
                    None
                },
            },
            Err(e) => {
                let report = match self.step {
                    ServeStep::Connect => Some(Err(cat("wl connect: ", &e))),
                    ServeStep::Registry => Some(Err(cat("registry init: ", &e))),
                    ServeStep::Manager => Some(
                        Err(cat("ext_data_control_manager not available: ", &e)),
                    ),
                    ServeStep::Seat => Some(Err(cat("wl_seat bind: ", &e))),
                    ServeStep::Roundtrip => Some(Err(cat("roundtrip: ", &e))),
                    ServeStep::Dispatch => None,
                    ServeStep::Done => None,
                };
                self.step = ServeStep::Done;
                report
            },
        }
    }

    fn serve(&mut self)
        ensures
            final(self)@ == old(self)@.serving(),
    {
        self.step = if self.cancelled {
            ServeStep::Done
        } else {
            ServeStep::Dispatch
        };
    }
}

fn copy_of(bytes: &Vec<u8>) -> (r: Vec<u8>)
    ensures
        r@ == bytes@,
{
    let mut r: Vec<u8> = Vec::new();
    let mut i: usize = 0;
    while i < bytes.len()
        invariant
            i <= bytes.len(),
            r@ == bytes@.take(i as int),
        decreases bytes.len() - i,
    {
        r.push(bytes[i]);
        i += 1;
    }
    assert(bytes@.take(i as int) =~= bytes@);
    r
}

/// Every MIME type that is offered is served, and no other.
pub proof fn law_offered_is_served(offers: Seq<(Seq<char>, Seq<u8>)>, mime: Seq<char>)
    ensures
        payload_of(offers, mime) is Some <==> exists|i: int|
            0 <= i < offers.len() && (#[trigger] offers[i]).0 == mime,
    decreases offers.len(),
{
    if offers.len() > 0 && offers[0].0 != mime {
        let rest = offers.drop_first();
        law_offered_is_served(rest, mime);
        if exists|i: int| 0 <= i < offers.len() && (#[trigger] offers[i]).0 == mime {
            let i = choose|i: int| 0 <= i < offers.len() && (#[trigger] offers[i]).0 == mime;
            assert(rest[i - 1].0 == mime);
        }
        if exists|i: int| 0 <= i < rest.len() && (#[trigger] rest[i]).0 == mime {
            let i = choose|i: int| 0 <= i < rest.len() && (#[trigger] rest[i]).0 == mime;
            assert(offers[i + 1].0 == mime);
        }
    }
}

/// The first offer of a MIME type is the one that is served.
pub proof fn law_first_offer_is_served(offers: Seq<(Seq<char>, Seq<u8>)>, i: int)
    requires
        0 <= i < offers.len(),
        forall|j: int| 0 <= j < i ==> (#[trigger] offers[j]).0 != offers[i].0,
    ensures
        payload_of(offers, offers[i].0) == Some(offers[i].1),
    decreases i,
{
    if i > 0 {
        let rest = offers.drop_first();
        assert(offers[0].0 != offers[i].0);
        assert forall|j: int| 0 <= j < i - 1 implies (#[trigger] rest[j]).0 != rest[i - 1].0 by {
            assert(offers[j + 1].0 != offers[i].0);
        }
        law_first_offer_is_served(rest, i - 1);
    }
}

/// Whoever set the clipboard is told exactly once, when the last step that leads up
/// to it is taken or one of them fails; what is offered never changes.
pub proof fn law_setting_reports_once(s: SourceView, outcome: Result<(), Seq<char>>)
    ensures
        s.after(outcome).1 is Some <==> s.step.is_setup() && !s.after(outcome).0.step.is_setup(),
        !s.step.is_setup() ==> !s.after(outcome).0.step.is_setup(),
        s.after(outcome).1 == Some(Ok::<(), Seq<char>>(())) <==> s.step is Roundtrip && outcome is Ok,
        s.after(outcome).0.offers == s.offers,
        s.after(outcome).0.cancelled == s.cancelled,
{
}

/// A source that lost the clipboard releases it at the end of its next step.
pub proof fn law_cancelled_source_ends(s: SourceView, outcome: Result<(), Seq<char>>)
    requires
        s.cancelled,
        s.step is Dispatch || s.step is Roundtrip,
    ensures
        s.after(outcome).0.step is Done,
{
}

/// The bytes that are served are those that were offered, unchanged: what is served for a
/// type is some offer of it, with no other offer of it before.
pub proof fn law_served_bytes_were_offered(
    offers: Seq<(Seq<char>, Seq<u8>)>,
    mime: Seq<char>,
    bytes: Seq<u8>,
)
    ensures
        payload_of(offers, mime) == Some(bytes) <==> exists|i: int|
            0 <= i < offers.len() && #[trigger] offers[i] == (mime, bytes) && forall|j: int|
                0 <= j < i ==> (#[trigger] offers[j]).0 != mime,
    decreases offers.len(),
{
    if offers.len() > 0 {
        let rest = offers.drop_first();
        if offers[0].0 == mime {
            if payload_of(offers, mime) == Some(bytes) {
                assert(offers[0] == (mime, bytes));
            }
        } else {
            law_served_bytes_were_offered(rest, mime, bytes);
            if payload_of(offers, mime) == Some(bytes) {
                let i = choose|i: int|
                    0 <= i < rest.len() && #[trigger] rest[i] == (mime, bytes) && forall|j: int|
                        0 <= j < i ==> (#[trigger] rest[j]).0 != mime;
                assert(offers[i + 1] == (mime, bytes));
                assert forall|j: int| 0 <= j < i + 1 implies (#[trigger] offers[j]).0 != mime by {
                    if j > 0 {
                        assert(rest[j - 1].0 != mime);
                    }
                }
            }
            if exists|i: int|
                0 <= i < offers.len() && #[trigger] offers[i] == (mime, bytes) && forall|j: int|
                    0 <= j < i ==> (#[trigger] offers[j]).0 != mime {
                let i = choose|i: int|
                    0 <= i < offers.len() && #[trigger] offers[i] == (mime, bytes) && forall|j: int|
                        0 <= j < i ==> (#[trigger] offers[j]).0 != mime;
                assert(rest[i - 1] == (mime, bytes));
                assert forall|j: int| 0 <= j < i - 1 implies (#[trigger] rest[j]).0 != mime by {
                    assert(offers[j + 1].0 != mime);
                }
            }
        }
    }
}

/// The steps of setting the clipboard, each where the one before worked, and the wait for
/// events behind them, which goes on until something else takes the clipboard.
pub proof fn law_clipboard_steps_in_order(s: SourceView)
    ensures
        s.after(Ok(())).0.step == match s.step {
            ServeStep::Connect => ServeStep::Registry,
            ServeStep::Registry => ServeStep::Manager,
            ServeStep::Manager => ServeStep::Seat,
            ServeStep::Seat => ServeStep::Roundtrip,
            ServeStep::Roundtrip => if s.cancelled {
                ServeStep::Done
            } else {
                ServeStep::Dispatch
            },
            ServeStep::Dispatch => if s.cancelled {
                ServeStep::Done
            } else {
                ServeStep::Dispatch
            },
            ServeStep::Done => ServeStep::Done,
        },
{
}

/// A failure ends the source; one before the selection is set is told with what failed.
pub proof fn law_clipboard_failures(s: SourceView, e: Seq<char>)
    ensures
        s.after(Err(e)).0.step == ServeStep::Done,
        s.step == ServeStep::Connect ==> s.after(Err(e)).1 == Some(
            Err::<(), Seq<char>>("wl connect: "@ + e),
        ),
        s.step == ServeStep::Registry ==> s.after(Err(e)).1 == Some(
            Err::<(), Seq<char>>("registry init: "@ + e),
        ),
        s.step == ServeStep::Manager ==> s.after(Err(e)).1 == Some(
            Err::<(), Seq<char>>("ext_data_control_manager not available: "@ + e),
        ),
        s.step == ServeStep::Seat ==> s.after(Err(e)).1 == Some(
            Err::<(), Seq<char>>("wl_seat bind: "@ + e),
        ),
        s.step == ServeStep::Roundtrip ==> s.after(Err(e)).1 == Some(
            Err::<(), Seq<char>>("roundtrip: "@ + e),
        ),
        s.step == ServeStep::Dispatch || s.step == ServeStep::Done ==> s.after(Err(e)).1 is None,
{
}

/// Offers are known by their types and their bytes, one by one, and reports by what they
/// say.
pub proof fn law_offer_views_tell_all(offers: Seq<Offer>, i: int, r: Option<Result<(), String>>)
    ensures
        offers_view(offers).len() == offers.len(),
        0 <= i < offers.len() ==> offers_view(offers)[i] == (offers[i].0@, offers[i].1@),
        match r {
            Some(Ok(_)) => report_view(r) == Some(Ok::<(), Seq<char>>(())),
            Some(Err(e)) => report_view(r) == Some(Err::<(), Seq<char>>(e@)),
            None => report_view(r) is None,
        },
{
}

} // verus!
