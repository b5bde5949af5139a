//! Key capture on X11 with the XInput extension.
//!
//! Raw key events arrive whichever window has the focus, without access to devices.
//! Their keycodes are those of the input devices plus eight.

use super::KeyChange;
use crate::keymap::{vk_of, Keymap};
use crate::text::cat;
use std::collections::HashSet;
use vstd::prelude::*;

verus! {

/// What an X keycode is more than the code of the key on its device.
pub const X_KEYCODE_OFFSET: u32 = 8;

/// All master devices: raw events come through these.
pub const XI_ALL_MASTER_DEVICES: u16 = 1;

/// The major version of XInput that is asked for.
pub const XI_MAJOR: u16 = 2;

/// The minor version of XInput that is asked for.
pub const XI_MINOR: u16 = 0;

// ---------------------------------------------------------------------------
// Starting
// ---------------------------------------------------------------------------

/// What is to be done next to start.
#[derive(Debug, Clone, Copy, PartialEq, Eq, Structural)]
pub enum StartStep {
    /// Connect to the server.
    Connect,
    /// Ask whether it has the extension.
    Extension,
    /// Ask for the version.
    Version,
    /// Wait for the reply.
    VersionReply,
    /// Select raw key events.
    Select,
    /// Send what was asked.
    Flush,
    /// Connect a second time, to ask for the keys that are held.
    QueryConnect,
    /// Start to read.
    Spawn,
    /// Nothing: it was started.
    Done,
}

impl StartStep {
    /// The step that follows.
    pub open spec fn next(self) -> StartStep {
        match self {
            StartStep::Connect => StartStep::Extension,
            StartStep::Extension => StartStep::Version,
            StartStep::Version => StartStep::VersionReply,
            StartStep::VersionReply => StartStep::Select,
            StartStep::Select => StartStep::Flush,
            StartStep::Flush => StartStep::QueryConnect,
            StartStep::QueryConnect => StartStep::Spawn,
            StartStep::Spawn => StartStep::Done,
            StartStep::Done => StartStep::Done,
        }
    }

    /// What a failure of the step is told as.
    pub open spec fn failure(self) -> Seq<char> {
        match self {
            StartStep::Connect => "x11 connect: "@,
            StartStep::Extension => "xinput query: "@,
            StartStep::Version => "xi_query_version: "@,
            StartStep::VersionReply => "xi_query_version reply: "@,
            StartStep::Select => "xi_select_events: "@,
            StartStep::Flush => "flush: "@,
            StartStep::QueryConnect => "x11 query connect: "@,
            _ => "spawn xinput reader: "@,
        }
    }

    /// What follows the outcome of the step. A server without the extension gives
    /// no error, but no answer either.
    pub open spec fn after(self, outcome: Result<bool, Seq<char>>) -> Result<StartStep, Seq<char>> {
        match outcome {
            Ok(found) => if self is Extension && !found {
                Err("XInput extension not available on this X server"@)
            } else {
                Ok(self.next())
            },
            Err(e) => Err(self.failure() + e),
        }
    }

    /// Takes the outcome of the step: whether it found what it asked for, or why it
    /// failed.
    pub fn took(self, outcome: Result<bool, String>) -> (r: Result<StartStep, String>)
        ensures
            match r {
                Ok(s) => self.after(found_view(outcome)) matches Ok(t) && s == t,
                Err(e) => self.after(found_view(outcome)) matches Err(m) && e@ == m,
            },
    {
        match outcome {
            Ok(found) => {
                if let StartStep::Extension = self {
                    if !found {
                        return Err("XInput extension not available on this X server".to_owned());
                    }
                }
                Ok(
                    match self {
                        StartStep::Connect => StartStep::Extension,
                        StartStep::Extension => StartStep::Version,
                        StartStep::Version => StartStep::VersionReply,
                        StartStep::VersionReply => StartStep::Select,
                        StartStep::Select => StartStep::Flush,
                        StartStep::Flush => StartStep::QueryConnect,
                        StartStep::QueryConnect => StartStep::Spawn,
                        StartStep::Spawn => StartStep::Done,
                        StartStep::Done => StartStep::Done,
                    },
                )
            },
            Err(e) => {
                let failure = match self {
                    StartStep::Connect => "x11 connect: ",
                    StartStep::Extension => "xinput query: ",
                    StartStep::Version => "xi_query_version: ",
                    StartStep::VersionReply => "xi_query_version reply: ",
                    StartStep::Select => "xi_select_events: ",
                    StartStep::Flush => "flush: ",
                    StartStep::QueryConnect => "x11 query connect: ",
                    StartStep::Spawn => "spawn xinput reader: ",
                    StartStep::Done => "spawn xinput reader: ",
                };
                Err(cat(failure, &e))
            },
        }
    }
}

/// An outcome whose error is a text.
pub open spec fn found_view(r: Result<bool, String>) -> Result<bool, Seq<char>> {
    match r {
        Ok(found) => Ok(found),
        Err(e) => Err(e@),
    }
}

/// The state after steps with the outcomes `outcomes`.
pub open spec fn after_steps(outcomes: Seq<Result<bool, Seq<char>>>) -> Result<StartStep, Seq<char>>
    decreases outcomes.len(),
{
    if outcomes.len() == 0 {
        Ok(StartStep::Connect)
    } else {
        match after_steps(outcomes.drop_last()) {
            Ok(step) => step.after(outcomes.last()),
            Err(e) => Err(e),
        }
    }
}

/// Starting ends well exactly where each of its eight steps does.
pub proof fn law_start_needs_every_step(outcomes: Seq<Result<bool, Seq<char>>>)
    requires
        outcomes.len() == 8,
    ensures
        after_steps(outcomes) == Ok::<StartStep, Seq<char>>(StartStep::Done) <==> (forall|i: int|
            0 <= i < 8 ==> (#[trigger] outcomes[i]) is Ok) && outcomes[1] == Ok::<bool, Seq<char>>(
            true,
        ),
{
    reveal_with_fuel(after_steps, 9);
    assert(outcomes.drop_last().drop_last().drop_last().drop_last().drop_last().drop_last().drop_last().drop_last().len()
        == 0);
    assert(outcomes[0] is Ok && outcomes[1] is Ok && outcomes[2] is Ok && outcomes[3] is Ok
        && outcomes[4] is Ok && outcomes[5] is Ok && outcomes[6] is Ok && outcomes[7] is Ok
        ==> forall|i: int| 0 <= i < 8 ==> (#[trigger] outcomes[i]) is Ok);
}

// ---------------------------------------------------------------------------
// Events
// ---------------------------------------------------------------------------

/// The flag of events of a key that repeats: `KeyEventFlags::KEY_REPEAT` of `x11rb`
/// is the bit 16.
#[verifier::external_body]
fn key_repeat() -> (r: u32)
    ensures
        r == 0x1_0000,
{
    u32::from(x11rb::protocol::xinput::KeyEventFlags::KEY_REPEAT)
}

/// The virtual-key code of the X keycode `detail`.
pub open spec fn x_vk_of(table: Seq<Option<u32>>, detail: u32) -> Option<u32> {
    if X_KEYCODE_OFFSET <= detail <= X_KEYCODE_OFFSET + u16::MAX {
        vk_of(table, (detail - X_KEYCODE_OFFSET) as u16)
    } else {
        None
    }
}

/// The virtual-key code of an X keycode. One that is out of range has none.
pub fn xkeycode_to_vk(detail: u32, keymap: &Keymap) -> (r: Option<u32>)
    ensures
        r == x_vk_of(keymap@, detail),
{
    if detail < X_KEYCODE_OFFSET || detail - X_KEYCODE_OFFSET > 0xffff {
        None
    } else {
        keymap.evdev_to_vk((detail - X_KEYCODE_OFFSET) as u16)
    }
}

/// The key that a raw event tells of. A press that repeats tells nothing.
pub open spec fn raw_key_of(
    table: Seq<Option<u32>>,
    detail: u32,
    flags: u32,
    press: bool,
) -> Option<KeyChange> {
    if press && flags & 0x1_0000 != 0 {
        None
    } else {
        match x_vk_of(table, detail) {
            Some(vk) => Some(KeyChange { vk, press }),
            None => None,
        }
    }
}

/// The key that a raw event tells of: `press` says whether it is a press or a
/// release.
pub fn raw_key(detail: u32, flags: u32, press: bool, keymap: &Keymap) -> (r: Option<KeyChange>)
    ensures
        r == raw_key_of(keymap@, detail, flags, press),
{
    if press && flags & key_repeat() != 0 {
        return None;
    }
    match xkeycode_to_vk(detail, keymap) {
        Some(vk) => Some(KeyChange { vk, press }),
        None => None,
    }
}

/// X and the input devices give a key the same virtual-key code.
pub proof fn law_sources_agree(table: Seq<Option<u32>>, code: u16)
    ensures
        x_vk_of(table, (code + X_KEYCODE_OFFSET) as u32) == vk_of(table, code),
{
}

// ---------------------------------------------------------------------------
// Keys that are held
// ---------------------------------------------------------------------------

/// The bit of the X keycode `keycode` is set.
pub open spec fn x_is_set(keys: Seq<u8>, keycode: u32) -> bool {
    keycode / 8 < keys.len() && (keys[keycode as int / 8] >> (keycode % 8)) & 1 == 1
}

/// A key with the virtual-key code `vk` is held, with an X keycode below `upto`.
pub open spec fn x_holds_vk(keys: Seq<u8>, table: Seq<Option<u32>>, vk: u32, upto: int) -> bool {
    exists|keycode: u32|
        keycode < upto && #[trigger] x_is_set(keys, keycode) && x_vk_of(table, keycode) == Some(vk)
}

/// The virtual-key codes of the keys that are held.
pub open spec fn x_held(keys: Seq<u8>, table: Seq<Option<u32>>) -> Set<u32> {
    Set::new(|vk: u32| x_holds_vk(keys, table, vk, 256))
}

/// The keys that are held, by the bits that the server keeps of its 256 keycodes.
/// Where it did not tell, none is.
pub fn held_vks(keys: &Option<[u8; 32]>, keymap: &Keymap) -> (r: HashSet<u32>)
    ensures
        r@ == match keys {
            Some(k) => x_held(k@, keymap@),
            None => Set::<u32>::empty(),
        },
{
    broadcast use vstd::std_specs::hash::group_hash_axioms;

    let mut held: HashSet<u32> = HashSet::new();
    let keys = match keys {
        Some(k) => k,
        None => {
            return held;
        },
    };
    let mut keycode: u32 = 0;
    while keycode < 256
        invariant
            keycode <= 256,
            forall|vk: u32| #[trigger]
                held@.contains(vk) <==> x_holds_vk(keys@, keymap@, vk, keycode as int),
        decreases 256 - keycode,
    {
        let ghost before = held@;
        let ghost mut added: Option<u32> = None;
        let byte: u8 = keys[(keycode / 8) as usize];
        let bit: u32 = keycode % 8;
        let pressed = (byte >> bit) & 1 == 1;
        assert(pressed == x_is_set(keys@, keycode));
        if pressed {
            if let Some(vk) = xkeycode_to_vk(keycode, keymap) {
                held.insert(vk);
                proof {
                    added = Some(vk);
                }
            }
        }
        assert forall|vk: u32| #[trigger]
            held@.contains(vk) <==> x_holds_vk(keys@, keymap@, vk, keycode + 1) by {
            assert(held@.contains(vk) <==> before.contains(vk) || added == Some(vk));
            if x_holds_vk(keys@, keymap@, vk, keycode as int) {
                let c = choose|c: u32|
                    c < keycode && #[trigger] x_is_set(keys@, c) && x_vk_of(keymap@, c) == Some(vk);
                assert(c < keycode + 1 && x_is_set(keys@, c));
            }
            if added == Some(vk) {
                assert(x_is_set(keys@, keycode) && x_vk_of(keymap@, keycode) == Some(vk));
            }
            if x_holds_vk(keys@, keymap@, vk, keycode + 1) {
                let c = choose|c: u32|
                    c < keycode + 1 && #[trigger] x_is_set(keys@, c) && x_vk_of(keymap@, c) == Some(
                        vk,
                    );
                if c < keycode {
                    assert(x_holds_vk(keys@, keymap@, vk, keycode as int));
                }
            }
        }
        keycode += 1;
    }
    assert(held@ =~= x_held(keys@, keymap@));
    held
}

// ---------------------------------------------------------------------------
// Laws
// ---------------------------------------------------------------------------

/// The steps of starting, each where those before it worked.
pub proof fn law_start_steps_in_order(step: StartStep)
    ensures
        StartStep::Connect.after(Ok(true)) == Ok::<StartStep, Seq<char>>(StartStep::Extension),
        StartStep::Extension.after(Ok(true)) == Ok::<StartStep, Seq<char>>(StartStep::Version),
        StartStep::Version.after(Ok(true)) == Ok::<StartStep, Seq<char>>(StartStep::VersionReply),
        StartStep::VersionReply.after(Ok(true)) == Ok::<StartStep, Seq<char>>(StartStep::Select),
        StartStep::Select.after(Ok(true)) == Ok::<StartStep, Seq<char>>(StartStep::Flush),
        StartStep::Flush.after(Ok(true)) == Ok::<StartStep, Seq<char>>(StartStep::QueryConnect),
        StartStep::QueryConnect.after(Ok(true)) == Ok::<StartStep, Seq<char>>(StartStep::Spawn),
        StartStep::Spawn.after(Ok(true)) == Ok::<StartStep, Seq<char>>(StartStep::Done),
        step.after(Ok(false)) == if step == StartStep::Extension {
            Err("XInput extension not available on this X server"@)
        } else {
            step.after(Ok(true))
        },
{
}

/// A failure ends the start, whichever step it was, and is told with the name of the
/// step.
pub proof fn law_start_failure_names_its_step(step: StartStep, e: Seq<char>)
    ensures
        step.after(Err(e)) is Err,
        StartStep::Connect.after(Err(e)) == Err::<StartStep, Seq<char>>("x11 connect: "@ + e),
        StartStep::Extension.after(Err(e)) == Err::<StartStep, Seq<char>>("xinput query: "@ + e),
        StartStep::Version.after(Err(e)) == Err::<StartStep, Seq<char>>("xi_query_version: "@ + e),
        StartStep::VersionReply.after(Err(e)) == Err::<StartStep, Seq<char>>(
            "xi_query_version reply: "@ + e,
        ),
        StartStep::Select.after(Err(e)) == Err::<StartStep, Seq<char>>("xi_select_events: "@ + e),
        StartStep::Flush.after(Err(e)) == Err::<StartStep, Seq<char>>("flush: "@ + e),
        StartStep::QueryConnect.after(Err(e)) == Err::<StartStep, Seq<char>>(
            "x11 query connect: "@ + e,
        ),
        StartStep::Spawn.after(Err(e)) == Err::<StartStep, Seq<char>>("spawn xinput reader: "@ + e),
{
}

/// An X keycode has the virtual-key code of the key eight below it on its device, and one
/// that is out of range has none.
pub proof fn law_x_keycode_is_eight_more(table: Seq<Option<u32>>, detail: u32, vk: u32)
    ensures
        x_vk_of(table, detail) == Some(vk) <==> 8 <= detail <= 65543 && detail - 8 < table.len()
            && table[detail - 8] == Some(vk),
{
}

/// Every press that does not repeat, and every release, of a key that has a virtual-key
/// code is told, whichever key it is; nothing else is.
pub proof fn law_raw_keys_are_told(
    table: Seq<Option<u32>>,
    detail: u32,
    flags: u32,
    press: bool,
    key: KeyChange,
)
    ensures
        raw_key_of(table, detail, flags, press) == Some(key) <==> key.press == press && !(press
            && flags & 0x1_0000 != 0) && 8 <= detail <= 65543 && detail - 8 < table.len() && table[detail
            - 8] == Some(key.vk),
{
}

/// A virtual-key code is held exactly where a keycode that has it is set among the 256.
pub proof fn law_x_held_codes_are_those_set(keys: Seq<u8>, table: Seq<Option<u32>>, vk: u32)
    ensures
        x_held(keys, table).contains(vk) <==> exists|keycode: u32|
            keycode < 256 && #[trigger] x_is_set(keys, keycode) && 8 <= keycode && keycode - 8
                < table.len() && table[keycode - 8] == Some(vk),
{
    if x_held(keys, table).contains(vk) {
        let c = choose|c: u32|
            c < 256 && #[trigger] x_is_set(keys, c) && x_vk_of(table, c) == Some(vk);
        assert(x_is_set(keys, c));
    }
    if exists|keycode: u32|
        keycode < 256 && #[trigger] x_is_set(keys, keycode) && 8 <= keycode && keycode - 8
            < table.len() && table[keycode - 8] == Some(vk) {
        let c = choose|keycode: u32|
            keycode < 256 && #[trigger] x_is_set(keys, keycode) && 8 <= keycode && keycode - 8
                < table.len() && table[keycode - 8] == Some(vk);
        assert(x_is_set(keys, c) && x_vk_of(table, c) == Some(vk));
    }
}

/// The server keeps its keycodes in order, eight to a byte, as the devices keep their
/// keys.
pub proof fn law_x_bits_stand_as_on_devices(keys: Seq<u8>, keycode: u16)
    ensures
        x_is_set(keys, keycode as u32) <==> crate::input_device::is_set(keys, keycode),
{
    if keycode / 8 < keys.len() {
        let b = keys[keycode as int / 8];
        let n = keycode % 8;
        assert((b >> n) == (b >> (n as u32)));
    }
}

} // verus!
