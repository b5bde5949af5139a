//! Key capture: the stream of key presses and releases, and the keys that are held.
//!
//! Two sources exist: X11 with the XInput extension, which needs no access to
//! devices, and the input devices themselves. Both give virtual-key codes.

pub mod evdev;
pub mod xinput;

use crate::json::{put, Json, JsonView};
use crate::proto::{payload, payload_view, request, request_view};
use crate::text::{decimal, decimal_text, law_decimal_is_injective};
use std::collections::HashSet;
use vstd::prelude::*;

verus! {

/// What can tell the keys that are held, by their virtual-key codes. Keys come and
/// go: what it may tell, each source states for itself.
pub trait HeldKeys {
    /// The keys of `held` may be told to be held. Of a source that states nothing,
    /// anything may be expected.
    open spec fn may_tell(&self, held: Set<u32>) -> bool {
        true
    }

    /// The keys that are held now.
    fn held_vks(&self) -> (r: HashSet<u32>)
        ensures
            self.may_tell(r@),
    ;
}

/// Tells of no key that it is held: the answer where keys cannot be watched. Every
/// key is then taken for released.
pub struct NoHeldKeys;

impl HeldKeys for NoHeldKeys {
    open spec fn may_tell(&self, held: Set<u32>) -> bool {
        held == Set::<u32>::empty()
    }

    fn held_vks(&self) -> (r: HashSet<u32>) {
        HashSet::new()
    }
}

// ---------------------------------------------------------------------------
// Sources
// ---------------------------------------------------------------------------

/// Whether a session is X11 and not Wayland, where `DISPLAY` is often set too.
/// `display` and `wayland` say whether `DISPLAY` and `WAYLAND_DISPLAY` are set.
pub fn is_true_x11_session(display: bool, wayland: bool) -> (r: bool)
    ensures
        r == (display && !wayland),
{
    display && !wayland
}

/// How the choice of a source stands.
#[derive(Debug, Clone, Copy, PartialEq, Eq, Structural)]
pub enum Capture {
    /// Try to start with XInput.
    TryXinput,
    /// Try to start with the input devices.
    TryEvdev,
    /// XInput is used.
    Xinput,
    /// The input devices are used.
    Evdev,
    /// Keys cannot be watched.
    Nothing,
}

impl Capture {
    /// What follows a try.
    pub open spec fn after(self, started: bool) -> Capture {
        match self {
            Capture::TryXinput => if started {
                Capture::Xinput
            } else {
                Capture::TryEvdev
            },
            Capture::TryEvdev => if started {
                Capture::Evdev
            } else {
                Capture::Nothing
            },
            _ => self,
        }
    }

    /// Takes the outcome of a try.
    pub fn tried(self, started: bool) -> (r: Capture)
        ensures
            r == self.after(started),
    {
        match self {
            Capture::TryXinput => if started {
                Capture::Xinput
            } else {
                Capture::TryEvdev
            },
            Capture::TryEvdev => if started {
                Capture::Evdev
            } else {
                Capture::Nothing
            },
            other => other,
        }
    }
}

/// Begins to choose a source: XInput counts first, on X11 alone.
pub fn spawn(true_x11: bool) -> (r: Capture)
    ensures
        r == if true_x11 {
            Capture::TryXinput
        } else {
            Capture::TryEvdev
        },
{
    if true_x11 {
        Capture::TryXinput
    } else {
        Capture::TryEvdev
    }
}

/// XInput is used where it starts on X11, else the input devices where they can be
/// read, else nothing.
pub proof fn law_source_is_chosen(xinput: bool, evdev: bool)
    ensures
        Capture::TryXinput.after(xinput).after(evdev) == if xinput {
            Capture::Xinput
        } else if evdev {
            Capture::Evdev
        } else {
            Capture::Nothing
        },
        Capture::TryEvdev.after(evdev) == if evdev {
            Capture::Evdev
        } else {
            Capture::Nothing
        },
{
}

// ---------------------------------------------------------------------------
// Messages
// ---------------------------------------------------------------------------

/// A key that was pressed or released, by its virtual-key code.
#[derive(Debug, Clone, Copy, PartialEq, Eq, Structural)]
pub struct KeyChange {
    pub vk: u32,
    pub press: bool,
}

/// The uuid of the message `index` of the process `pid`.
pub open spec fn keypress_uuid(pid: u32, index: u64) -> Seq<char> {
    "kp-"@ + decimal(pid as nat) + "-"@ + decimal(index as nat)
}

/// The members of the message `index`.
pub open spec fn keypress_members(index: u64, key: KeyChange) -> Map<Seq<char>, JsonView> {
    Map::empty().insert(
        "eventType"@,
        JsonView::Text(
            if key.press {
                "key_event_press"@
            } else {
                "key_event_release"@
            },
        ),
    ).insert("key"@, JsonView::Unsigned(key.vk as u64)).insert(
        "index"@,
        JsonView::Unsigned(index),
    ).insert("inputType"@, JsonView::Text("keyboard"@))
}

/// The message `index` of the process `pid`.
pub open spec fn keypress_view(index: u64, pid: u32, key: KeyChange) -> JsonView {
    request_view(
        "KeypressEvent"@,
        payload_view(keypress_members(index, key)),
        keypress_uuid(pid, index),
    )
}

/// The index that comes `n` messages behind `index`; behind the largest comes 0.
pub open spec fn index_after(index: u64, n: int) -> u64 {
    ((index + n) % (u64::MAX + 1)) as u64
}

/// Builds the message for a key. `index` counts the messages of all readers, so
/// that whoever reads them can see a gap: the first has index 1.
pub fn emit_keypress(index: &mut u64, pid: u32, key: KeyChange) -> (r: Json)
    ensures
        *final(index) == index_after(*old(index), 1),
        r@ == keypress_view(*final(index), pid, key),
{
    *index = if *index == u64::MAX {
        0
    } else {
        *index + 1
    };
    let event_type = if key.press {
        "key_event_press"
    } else {
        "key_event_release"
    };
    let mut members: Vec<(String, Json)> = Vec::new();
    put(&mut members, "eventType", Json::text(event_type));
    put(&mut members, "key", Json::unsigned(key.vk as u64));
    put(&mut members, "index", Json::unsigned(*index));
    put(&mut members, "inputType", Json::text("keyboard"));
    let mut uuid = "kp-".to_owned();
    uuid.append(&decimal_text(pid as u64));
    uuid.append("-");
    uuid.append(&decimal_text(*index));
    request("KeypressEvent", payload(members), &uuid)
}

/// The messages for `keys`, the first of which has the index behind `index`.
pub open spec fn keypresses(index: u64, pid: u32, keys: Seq<KeyChange>) -> Seq<JsonView> {
    Seq::new(keys.len(), |i: int| keypress_view(index_after(index, 1 + i), pid, keys[i]))
}

/// Documents as mathematical values.
pub open spec fn jsons_view(messages: Seq<Json>) -> Seq<JsonView> {
    messages.map_values(|m: Json| m@)
}

/// Builds the messages for keys in order.
pub fn emit_keypresses(index: &mut u64, pid: u32, keys: &Vec<KeyChange>) -> (r: Vec<Json>)
    ensures
        *final(index) == index_after(*old(index), keys@.len() as int),
        jsons_view(r@) == keypresses(*old(index), pid, keys@),
{
    let mut r: Vec<Json> = Vec::new();
    let mut i: usize = 0;
    assert(jsons_view(r@) =~= keypresses(*old(index), pid, keys@.take(0)));
    while i < keys.len()
        invariant
            i <= keys.len(),
            *index == index_after(*old(index), i as int),
            jsons_view(r@) == keypresses(*old(index), pid, keys@.take(i as int)),
        decreases keys.len() - i,
    {
        let message = emit_keypress(index, pid, keys[i]);
        let ghost before = r@;
        r.push(message);
        assert(jsons_view(r@) =~= jsons_view(before).push(message@));
        assert(jsons_view(r@) =~= keypresses(*old(index), pid, keys@.take(i + 1)));
        i += 1;
    }
    assert(keys@.take(i as int) =~= keys@);
    r
}

/// The messages of one process have different uuids.
pub proof fn law_keypress_uuids_differ(pid: u32, a: u64, b: u64)
    requires
        a != b,
    ensures
        keypress_uuid(pid, a) != keypress_uuid(pid, b),
{
    let head = "kp-"@ + decimal(pid as nat) + "-"@;
    assert(keypress_uuid(pid, a) =~= head + decimal(a as nat));
    assert(keypress_uuid(pid, b) =~= head + decimal(b as nat));
    if keypress_uuid(pid, a) == keypress_uuid(pid, b) {
        assert((head + decimal(a as nat)).skip(head.len() as int) =~= decimal(a as nat));
        assert((head + decimal(b as nat)).skip(head.len() as int) =~= decimal(b as nat));
        law_decimal_is_injective(a as nat, b as nat);
    }
}

/// The indices have no gap: the messages of two readings, one after the other,
/// are those of one reading of both.
pub proof fn law_indices_have_no_gap(index: u64, pid: u32, a: Seq<KeyChange>, b: Seq<KeyChange>)
    ensures
        keypresses(index, pid, a) + keypresses(index_after(index, a.len() as int), pid, b)
            == keypresses(index, pid, a + b),
{
    assert(keypresses(index, pid, a) + keypresses(index_after(index, a.len() as int), pid, b)
        =~= keypresses(index, pid, a + b));
}

/// Two messages have one index only where a whole round of indices lies between them.
pub proof fn law_indices_differ(index: u64, m: int, n: int)
    requires
        0 <= m < n <= m + u64::MAX,
    ensures
        index_after(index, m) != index_after(index, n),
{
}

/// A source that was chosen stays chosen.
pub proof fn law_choice_is_final(c: Capture, started: bool)
    ensures
        c == Capture::Xinput || c == Capture::Evdev || c == Capture::Nothing ==> c.after(started)
            == c,
{
}

/// The message for a key as it is written: whether it was pressed or released, its code,
/// and its place in the stream, which is part of its uuid too.
pub proof fn law_keypress_as_written(index: u64, pid: u32, key: KeyChange)
    ensures
        keypress_view(index, pid, key) == JsonView::Object(
            map![
                "HelperAPIRequest"@ => JsonView::Object(
                    map![
                        "KeypressEvent"@ => JsonView::Object(
                            map![
                                "payload"@ => JsonView::Object(
                                    map![
                                        "eventType"@ => JsonView::Text(
                                            if key.press {
                                                "key_event_press"@
                                            } else {
                                                "key_event_release"@
                                            },
                                        ),
                                        "key"@ => JsonView::Unsigned(key.vk as u64),
                                        "index"@ => JsonView::Unsigned(index),
                                        "inputType"@ => JsonView::Text("keyboard"@),
                                    ],
                                ),
                            ],
                        ),
                        "uuid"@ => JsonView::Text(
                            "kp-"@ + decimal(pid as nat) + "-"@ + decimal(index as nat),
                        ),
                    ],
                ),
            ],
        ),
{
}

/// Every key gives one message, in order, and the indices go up by one from message to
/// message, round the range of 64 bits.
pub proof fn law_each_key_gives_a_message(index: u64, pid: u32, keys: Seq<KeyChange>, i: int)
    ensures
        keypresses(index, pid, keys).len() == keys.len(),
        0 <= i < keys.len() ==> keypresses(index, pid, keys)[i] == keypress_view(
            ((index + 1 + i) % 0x1_0000_0000_0000_0000) as u64,
            pid,
            keys[i],
        ),
        forall|n: int| 0 <= n ==> #[trigger] index_after(index, n) as int == (index + n)
            % 0x1_0000_0000_0000_0000,
{
}

/// Messages are known one by one.
pub proof fn law_message_views_tell_all(messages: Seq<Json>, i: int)
    ensures
        jsons_view(messages).len() == messages.len(),
        0 <= i < messages.len() ==> jsons_view(messages)[i] == messages[i]@,
{
}

} // verus!
