//! The writer of messages: one thread owns the file that messages are written to,
//! and takes them, and barriers between them, in order.

use crate::json::{json_pretty, Json, JsonView};
use crate::proto::{carries, encode, escaped, frame_of, law_text_is_framed_up_to_its_limit};
use vstd::prelude::*;
use vstd::utf8::encode_utf8;

verus! {

/// What the writer takes.
#[derive(Debug)]
pub enum WriterMessage {
    /// A message to be written.
    Envelope(Json),
    /// Whoever sent it waits until all before it is written.
    Barrier,
}

/// A [`WriterMessage`] as a mathematical value.
#[verifier::ext_equal]
pub enum WriterMessageView {
    Envelope(JsonView),
    Barrier,
}

impl WriterMessage {
    /// The message as a mathematical value.
    pub open spec fn view(&self) -> WriterMessageView {
        match *self {
            WriterMessage::Envelope(v) => WriterMessageView::Envelope(v@),
            WriterMessage::Barrier => WriterMessageView::Barrier,
        }
    }
}

impl WriterMessageView {
    /// The frame that is written for the message, where there is one.
    pub open spec fn frame(self) -> Option<Seq<u8>> {
        match self {
            WriterMessageView::Envelope(v) => match frame_of(json_pretty(v)) {
                Ok(f) => Some(f),
                Err(_) => None,
            },
            WriterMessageView::Barrier => None,
        }
    }
}

/// What the writer is to do.
#[derive(Debug, PartialEq, Eq)]
pub enum Task {
    /// Write the bytes and flush them.
    Write(Vec<u8>),
    /// Nothing: the message cannot be written, for this reason.
    Skip(String),
    /// Flush, and hand the outcome to whoever waits.
    Flush,
}

/// What is to be done for a message: its frame is written, where it has one.
pub fn task_for(message: &WriterMessage) -> (r: Task)
    ensures
        match *message {
            WriterMessage::Envelope(envelope) => match r {
                Task::Write(frame) => message@.frame() == Some(frame@) && carries(
                    frame@,
                    envelope@,
                ),
                Task::Skip(e) => frame_of(json_pretty(envelope@)) matches Err(m) && m == e@,
                Task::Flush => false,
            },
            WriterMessage::Barrier => r is Flush,
        },
{
    match message {
        WriterMessage::Envelope(envelope) => match encode(envelope) {
            Ok(frame) => Task::Write(frame),
            Err(e) => Task::Skip(e),
        },
        WriterMessage::Barrier => Task::Flush,
    }
}

/// Whether the writer goes on after a task: it stops where a frame could not be
/// written, and not where a flush alone failed.
pub fn goes_on(task: &Task, succeeded: bool) -> (r: bool)
    ensures
        r == !(*task is Write && !succeeded),
{
    match task {
        Task::Write(_) => succeeded,
        _ => true,
    }
}

/// What was written, and whether the writer has stopped.
#[verifier::ext_equal]
pub struct WriterView {
    pub frames: Seq<Seq<u8>>,
    pub stopped: bool,
}

impl WriterView {
    /// The writer takes a message; `succeeded` says whether what it did for it
    /// succeeded. Once it has stopped it takes none.
    pub open spec fn takes(self, message: WriterMessageView, succeeded: bool) -> WriterView {
        match message.frame() {
            Some(f) if !self.stopped => if succeeded {
                WriterView { frames: self.frames.push(f), stopped: false }
            } else {
                WriterView { stopped: true, ..self }
            },
            _ => self,
        }
    }
}

/// The writer after messages, one after the other.
pub open spec fn writer_after(messages: Seq<WriterMessageView>, succeeded: Seq<bool>) -> WriterView
    decreases messages.len(),
{
    if messages.len() == 0 {
        WriterView { frames: Seq::empty(), stopped: false }
    } else {
        writer_after(messages.drop_last(), succeeded).takes(
            messages.last(),
            succeeded[messages.len() - 1],
        )
    }
}

/// The frames of messages, in order.
pub open spec fn frames_of(messages: Seq<WriterMessageView>) -> Seq<Seq<u8>>
    decreases messages.len(),
{
    if messages.len() == 0 {
        Seq::empty()
    } else {
        match messages.last().frame() {
            Some(f) => frames_of(messages.drop_last()).push(f),
            None => frames_of(messages.drop_last()),
        }
    }
}

/// A barrier that the writer comes to stands behind all that was sent before it:
/// while the writer has not stopped, the frames of all messages so far are written,
/// in order.
pub proof fn law_barrier_follows_all_before(
    messages: Seq<WriterMessageView>,
    succeeded: Seq<bool>,
)
    requires
        !writer_after(messages, succeeded).stopped,
    ensures
        writer_after(messages, succeeded).frames == frames_of(messages),
    decreases messages.len(),
{
    if messages.len() > 0 {
        law_barrier_follows_all_before(messages.drop_last(), succeeded);
    }
}

/// Nothing is written out of order: whatever fails, what is written is the beginning
/// of the frames of all messages.
pub proof fn law_written_is_a_beginning(messages: Seq<WriterMessageView>, succeeded: Seq<bool>)
    ensures
        writer_after(messages, succeeded).frames.is_prefix_of(frames_of(messages)),
    decreases messages.len(),
{
    if messages.len() > 0 {
        let rest = messages.drop_last();
        law_written_is_a_beginning(rest, succeeded);
        if !writer_after(rest, succeeded).stopped {
            law_barrier_follows_all_before(rest, succeeded);
        }
    }
}

// ---------------------------------------------------------------------------
// Sending
// ---------------------------------------------------------------------------

/// What sending a message comes to: `taken` says whether the writer was there to
/// take it.
pub fn send(taken: bool) -> (r: Result<(), String>)
    ensures
        match r {
            Ok(_) => taken,
            Err(e) => !taken && e@ == "fd3 writer thread gone"@,
        },
{
    if taken {
        Ok(())
    } else {
        Err("fd3 writer thread gone".to_owned())
    }
}

/// What became of a barrier. `E` is what the writer fails with.
#[derive(Debug, PartialEq, Eq)]
pub enum BarrierOutcome<E> {
    /// The writer was not there to take it.
    NotTaken,
    /// The writer came to it, and flushed or failed to.
    Reached(Result<(), E>),
    /// The time is up.
    TimedOut,
    /// The writer stopped before it came to it.
    Stopped,
}

/// Why a flush failed.
#[derive(Debug, PartialEq, Eq)]
pub enum FlushError<E> {
    /// The writer is gone.
    BrokenPipe(String),
    /// The time is up.
    TimedOut(String),
    /// The writer could not flush, for this reason.
    Writer(E),
}

/// What a flush comes to: everything before it is written where the writer came to
/// the barrier and flushed. What the writer failed with is handed on as it is.
pub fn flush<E>(outcome: BarrierOutcome<E>) -> (r: Result<(), FlushError<E>>)
    ensures
        match outcome {
            BarrierOutcome::NotTaken => r matches Err(FlushError::BrokenPipe(m)) && m@
                == "fd3 writer thread gone"@,
            BarrierOutcome::Reached(Ok(_)) => r is Ok,
            BarrierOutcome::Reached(Err(e)) => r matches Err(FlushError::Writer(w)) && w == e,
            BarrierOutcome::TimedOut => r matches Err(FlushError::TimedOut(m)) && m@
                == "flush barrier timed out"@,
            BarrierOutcome::Stopped => r matches Err(FlushError::BrokenPipe(m)) && m@
                == "fd3 writer stopped before flush barrier"@,
        },
{
    match outcome {
        BarrierOutcome::NotTaken => Err(
            FlushError::BrokenPipe("fd3 writer thread gone".to_owned()),
        ),
        BarrierOutcome::Reached(Ok(_)) => Ok(()),
        BarrierOutcome::Reached(Err(e)) => Err(FlushError::Writer(e)),
        BarrierOutcome::TimedOut => Err(
            FlushError::TimedOut("flush barrier timed out".to_owned()),
        ),
        BarrierOutcome::Stopped => Err(
            FlushError::BrokenPipe("fd3 writer stopped before flush barrier".to_owned()),
        ),
    }
}

// ---------------------------------------------------------------------------
// Laws
// ---------------------------------------------------------------------------

/// Every message is written whose text has at most 30000 bytes, whatever characters it
/// holds, as the frame of that text; a barrier is not.
pub proof fn law_every_message_that_fits_is_written(v: JsonView)
    ensures
        (WriterMessageView::Envelope(v)).frame() is Some <==> encode_utf8(json_pretty(v)).len()
            <= 30_000,
        (WriterMessageView::Envelope(v)).frame() matches Some(f) ==> f == encode_utf8(
            escaped(json_pretty(v)),
        ).push(0x7c),
        WriterMessageView::Barrier.frame() is None,
{
    law_text_is_framed_up_to_its_limit(json_pretty(v));
}

/// The writer writes the frame of a message where it can, keeps all that was written
/// before, and stops only where a frame could not be written; then it writes no more.
pub proof fn law_writer_goes_on(w: WriterView, message: WriterMessageView, succeeded: bool)
    ensures
        w.stopped || message.frame() is None ==> w.takes(message, succeeded) == w,
        !w.stopped && message.frame() is Some && succeeded ==> w.takes(message, succeeded).frames
            == w.frames.push(message.frame()->Some_0) && !w.takes(message, succeeded).stopped,
        !w.stopped && message.frame() is Some && !succeeded ==> w.takes(message, succeeded).frames
            == w.frames && w.takes(message, succeeded).stopped,
{
}

/// The frames of messages are those of each, in order.
pub proof fn law_frames_follow_their_messages(
    messages: Seq<WriterMessageView>,
    message: WriterMessageView,
)
    ensures
        frames_of(Seq::empty()).len() == 0,
        message.frame() matches Some(f) ==> frames_of(messages.push(message)) == frames_of(
            messages,
        ).push(f),
        message.frame() is None ==> frames_of(messages.push(message)) == frames_of(messages),
{
    assert(messages.push(message).drop_last() =~= messages);
}

/// A message for the writer is known by what it holds.
pub proof fn law_writer_message_view_tells_all(m: WriterMessage)
    ensures
        match m {
            WriterMessage::Envelope(v) => m@ == WriterMessageView::Envelope(v@),
            WriterMessage::Barrier => m@ == WriterMessageView::Barrier,
        },
{
}

} // verus!
