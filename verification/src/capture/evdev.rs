//! Key capture from the input devices themselves.

use super::{emit_keypresses, index_after, jsons_view, keypresses, KeyChange};
use crate::input_device::{bit_set, bitmap_view, bitmaps_view, decode_events, events_of, helper_id};
use crate::input_device::{ioc_read, is_helper_device, is_set, read_request};
use crate::input_device::{EventLayout, InputEvent, InputId};
use crate::input_device::{BITMAP_LEN, DEVICE_NAME, EV_KEY, KEY_MAX};
use crate::json::Json;
use crate::keymap::{vk_of, Keymap};
use crate::text::{stands_at, starts_with_text, text_view};
use std::collections::HashSet;
use vstd::prelude::*;

verus! {

/// The value of the event of a key that was pressed.
pub const KEY_PRESS: i32 = 1;

/// The value of the event of a key that was released.
pub const KEY_RELEASE: i32 = 0;

/// The code of the letter A.
pub const KEY_A: u16 = 30;

/// The code of the letter Z.
pub const KEY_Z: u16 = 44;

/// The request for the keys that a device has.
pub fn eviocgbit_key() -> (r: u64)
    ensures
        r == read_request(0x21, BITMAP_LEN as u64),
{
    ioc_read(0x20 + EV_KEY as u64, BITMAP_LEN as u64)
}

// ---------------------------------------------------------------------------
// Devices
// ---------------------------------------------------------------------------

/// Whether a file is an event device, by its name where that is a text.
pub fn is_event_node(name: &Option<String>) -> (r: bool)
    ensures
        r == match text_view(*name) {
            Some(n) => stands_at(n, "event"@, 0),
            None => false,
        },
{
    match name {
        Some(n) => starts_with_text(n, "event"),
        None => false,
    }
}

/// A device has letters, as mice and pads have not.
pub open spec fn has_letters(ret: i32, keys: Seq<u8>) -> bool {
    ret >= 0 && is_set(keys, KEY_A) && is_set(keys, KEY_Z)
}

/// Whether a device is a keyboard: `keys` holds the keys that it has, where it said
/// so, that is, where `ret` is not negative.
pub fn is_keyboard(ret: i32, keys: &[u8]) -> (r: bool)
    ensures
        r == has_letters(ret, keys@),
{
    ret >= 0 && bit_set(keys, KEY_A) && bit_set(keys, KEY_Z)
}

/// Whether a device is read: every keyboard is, but for the helper's own.
pub fn is_captured(name: &Option<Vec<u8>>, id: &Option<InputId>, ret: i32, keys: &[u8]) -> (r: bool)
    ensures
        r == (has_letters(ret, keys@) && !(name matches Some(n) && n@ == DEVICE_NAME@ && *id == Some(
            helper_id(),
        ))),
{
    !is_helper_device(name, id) && is_keyboard(ret, keys)
}

// ---------------------------------------------------------------------------
// Events
// ---------------------------------------------------------------------------

/// The key that an event tells of: a press or a release of a key that has a
/// virtual-key code. Repeats of a held key tell nothing.
pub open spec fn key_of(event: InputEvent, table: Seq<Option<u32>>) -> Option<KeyChange> {
    if event.type_ == EV_KEY && (event.value == KEY_PRESS || event.value == KEY_RELEASE) {
        match vk_of(table, event.code) {
            Some(vk) => Some(KeyChange { vk, press: event.value == KEY_PRESS }),
            None => None,
        }
    } else {
        None
    }
}

/// The keys that events tell of, in order.
pub open spec fn keys_of(events: Seq<InputEvent>, table: Seq<Option<u32>>) -> Seq<KeyChange>
    decreases events.len(),
{
    if events.len() == 0 {
        Seq::empty()
    } else {
        match key_of(events.last(), table) {
            Some(key) => keys_of(events.drop_last(), table).push(key),
            None => keys_of(events.drop_last(), table),
        }
    }
}

/// Computes [`key_of`].
pub fn event_key(event: InputEvent, keymap: &Keymap) -> (r: Option<KeyChange>)
    ensures
        r == key_of(event, keymap@),
{
    if event.type_ != EV_KEY {
        return None;
    }
    let press = if event.value == KEY_PRESS {
        true
    } else if event.value == KEY_RELEASE {
        false
    } else {
        return None;
    };
    match keymap.evdev_to_vk(event.code) {
        Some(vk) => Some(KeyChange { vk, press }),
        None => None,
    }
}

fn event_keys(events: &Vec<InputEvent>, keymap: &Keymap) -> (r: Vec<KeyChange>)
    ensures
        r@ == keys_of(events@, keymap@),
{
    let mut r: Vec<KeyChange> = Vec::new();
    let mut i: usize = 0;
    while i < events.len()
        invariant
            i <= events.len(),
            r@ == keys_of(events@.take(i as int), keymap@),
        decreases events.len() - i,
    {
        assert(events@.take(i + 1).drop_last() =~= events@.take(i as int));
        if let Some(key) = event_key(events[i], keymap) {
            r.push(key);
        }
        i += 1;
    }
    assert(events@.take(i as int) =~= events@);
    r
}

/// The keys that the whole events in `b` tell of.
pub open spec fn keys_in(b: Seq<u8>, layout: EventLayout, table: Seq<Option<u32>>) -> Seq<KeyChange> {
    keys_of(events_of(b, layout), table)
}

/// What is told where no keyboard can be read.
pub const NO_KEYBOARD: &'static str = "evdev capture: no readable keyboard under /dev/input — push-to-talk and the in-app shortcut recorder will NOT work. Run `wispr-flow --install-udev-rules`, or add the user to the `input` group (then re-login).";

/// What capture from the devices comes to where `keyboards` of them can be read: it
/// starts, unless there is none.
pub fn start(keyboards: usize) -> (r: Result<(), String>)
    ensures
        keyboards > 0 ==> r is Ok,
        keyboards == 0 ==> (r matches Err(e) && e@ == NO_KEYBOARD@),
{
    if keyboards == 0 {
        Err(NO_KEYBOARD.to_owned())
    } else {
        Ok(())
    }
}

/// Turns the first `n` bytes of what a device gave into messages, one for each
/// press and release. `index` counts the messages.
pub fn read_device(
    buf: &[u8],
    n: usize,
    layout: EventLayout,
    keymap: &Keymap,
    index: &mut u64,
    pid: u32,
) -> (r: Vec<Json>)
    requires
        layout.wf(),
        n <= buf@.len(),
    ensures
        *final(index) == index_after(
            *old(index),
            keys_in(buf@.take(n as int), layout, keymap@).len() as int,
        ),
        jsons_view(r@) == keypresses(
            *old(index),
            pid,
            keys_in(buf@.take(n as int), layout, keymap@),
        ),
{
    let events = decode_events(buf, n, layout);
    let keys = event_keys(&events, keymap);
    emit_keypresses(index, pid, &keys)
}

/// Only presses and releases of keys with a virtual-key code tell anything.
pub proof fn law_repeats_tell_nothing(event: InputEvent, table: Seq<Option<u32>>)
    requires
        event.type_ != EV_KEY || (event.value != KEY_PRESS && event.value != KEY_RELEASE) || vk_of(
            table,
            event.code,
        ) is None,
    ensures
        key_of(event, table) is None,
{
}

// ---------------------------------------------------------------------------
// Keys that are held
// ---------------------------------------------------------------------------

/// The key with the virtual-key code `vk` is held on the device with the bitmap
/// `b`.
pub open spec fn holds_vk(b: Seq<u8>, table: Seq<Option<u32>>, vk: u32, upto: int) -> bool {
    exists|code: u16|
        code < upto && #[trigger] is_set(b, code) && vk_of(table, code) == Some(vk)
}

/// The virtual-key codes of the keys that are held on any of the devices.
pub open spec fn held_on(bitmaps: Seq<Option<Seq<u8>>>, table: Seq<Option<u32>>) -> Set<u32> {
    Set::new(
        |vk: u32|
            exists|i: int|
                0 <= i < bitmaps.len() && (#[trigger] bitmaps[i] matches Some(b) && holds_vk(
                    b,
                    table,
                    vk,
                    KEY_MAX + 1,
                )),
    )
}

fn add_held(held: &mut HashSet<u32>, bitmap: &[u8], keymap: &Keymap)
    ensures
        forall|vk: u32| #[trigger]
            final(held)@.contains(vk) <==> old(held)@.contains(vk) || holds_vk(
                bitmap@,
                keymap@,
                vk,
                KEY_MAX + 1,
            ),
{
    broadcast use vstd::std_specs::hash::group_hash_axioms;

    let mut code: u16 = 0;
    while code <= KEY_MAX
        invariant
            code <= KEY_MAX + 1,
            forall|vk: u32| #[trigger]
                held@.contains(vk) <==> old(held)@.contains(vk) || holds_vk(
                    bitmap@,
                    keymap@,
                    vk,
                    code as int,
                ),
        decreases KEY_MAX + 1 - code,
    {
        let ghost before = held@;
        let ghost mut added: Option<u32> = None;
        if bit_set(bitmap, code) {
            if let Some(vk) = keymap.evdev_to_vk(code) {
                held.insert(vk);
                proof {
                    added = Some(vk);
                }
            }
        }
        assert forall|vk: u32| #[trigger]
            held@.contains(vk) <==> old(held)@.contains(vk) || holds_vk(
                bitmap@,
                keymap@,
                vk,
                code + 1,
            ) by {
            assert(held@.contains(vk) <==> before.contains(vk) || added == Some(vk));
            if holds_vk(bitmap@, keymap@, vk, code as int) {
                let c = choose|c: u16|
                    c < code && #[trigger] is_set(bitmap@, c) && vk_of(keymap@, c) == Some(vk);
                assert(c < code + 1 && is_set(bitmap@, c));
            }
            if added == Some(vk) {
                assert(is_set(bitmap@, code) && vk_of(keymap@, code) == Some(vk));
            }
            if holds_vk(bitmap@, keymap@, vk, code + 1) {
                let c = choose|c: u16|
                    c < code + 1 && #[trigger] is_set(bitmap@, c) && vk_of(keymap@, c) == Some(vk);
                if c < code {
                    assert(holds_vk(bitmap@, keymap@, vk, code as int));
                }
            }
        }
        code += 1;
    }
}

/// The keys that are held on any of the devices. A device whose keys could not be
/// read counts for nothing.
pub fn held_vks(bitmaps: &Vec<Option<Vec<u8>>>, keymap: &Keymap) -> (r: HashSet<u32>)
    ensures
        r@ == held_on(bitmaps_view(bitmaps@), keymap@),
{
    let mut held: HashSet<u32> = HashSet::new();
    let ghost all = bitmaps_view(bitmaps@);
    let mut i: usize = 0;
    while i < bitmaps.len()
        invariant
            i <= bitmaps.len(),
            all == bitmaps_view(bitmaps@),
            forall|vk: u32| #[trigger]
                held@.contains(vk) <==> held_on(all.take(i as int), keymap@).contains(vk),
        decreases bitmaps.len() - i,
    {
        let ghost before = held@;
        if let Some(bitmap) = &bitmaps[i] {
            add_held(&mut held, bitmap.as_slice(), keymap);
        }
        assert forall|vk: u32| #[trigger]
            held@.contains(vk) <==> held_on(all.take(i + 1), keymap@).contains(vk) by {
            let last = all[i as int];
            assert(last == bitmap_view(bitmaps@[i as int]));
            assert(before.contains(vk) <==> held_on(all.take(i as int), keymap@).contains(vk));
            let now = last matches Some(b) && holds_vk(b, keymap@, vk, KEY_MAX + 1);
            assert(held@.contains(vk) <==> before.contains(vk) || now);
            lemma_held_on_grows(all, keymap@, i as int, vk);
        }
        i += 1;
    }
    assert(all.take(i as int) =~= all);
    assert(held@ =~= held_on(all, keymap@));
    held
}

proof fn lemma_held_on_grows(all: Seq<Option<Seq<u8>>>, table: Seq<Option<u32>>, i: int, vk: u32)
    requires
        0 <= i < all.len(),
    ensures
        held_on(all.take(i + 1), table).contains(vk) <==> held_on(all.take(i), table).contains(vk)
            || (all[i] matches Some(b) && holds_vk(b, table, vk, KEY_MAX + 1)),
{
    let less = all.take(i);
    let more = all.take(i + 1);
    if held_on(less, table).contains(vk) {
        let k = choose|k: int|
            0 <= k < less.len() && (#[trigger] less[k] matches Some(b) && holds_vk(
                b,
                table,
                vk,
                KEY_MAX + 1,
            ));
        assert(more[k] == less[k]);
    }
    if all[i] matches Some(b) && holds_vk(b, table, vk, KEY_MAX + 1) {
        assert(more[i] == all[i]);
    }
    if held_on(more, table).contains(vk) {
        let k = choose|k: int|
            0 <= k < more.len() && (#[trigger] more[k] matches Some(b) && holds_vk(
                b,
                table,
                vk,
                KEY_MAX + 1,
            ));
        if k < i {
            assert(less[k] == more[k]);
        } else {
            assert(more[k] == all[i]);
        }
    }
}

// ---------------------------------------------------------------------------
// Laws
// ---------------------------------------------------------------------------

/// Every press and every release of a key that has a virtual-key code is told, whichever
/// key it is, with that code and as what it is.
pub proof fn law_press_and_release_are_told(event: InputEvent, table: Seq<Option<u32>>, vk: u32)
    requires
        event.type_ == 1,
        event.value == 0 || event.value == 1,
        event.code < table.len(),
        table[event.code as int] == Some(vk),
    ensures
        key_of(event, table) == Some(KeyChange { vk, press: event.value == 1 }),
{
}

/// What is told comes from a press or a release of a key with that code: nothing is made
/// up.
pub proof fn law_told_key_was_pressed_or_released(
    event: InputEvent,
    table: Seq<Option<u32>>,
    key: KeyChange,
)
    requires
        key_of(event, table) == Some(key),
    ensures
        event.type_ == 1,
        event.value == if key.press {
            1i32
        } else {
            0i32
        },
        event.code < table.len(),
        table[event.code as int] == Some(key.vk),
{
}

/// The keys that events tell of are those of each event, in order and with nothing left
/// out.
pub proof fn law_keys_are_told_in_order(events: Seq<InputEvent>, table: Seq<Option<u32>>)
    ensures
        keys_of(events, table) == events.map_values(
            |e: InputEvent| key_of(e, table),
        ).filter(|k: Option<KeyChange>| k is Some).map_values(|k: Option<KeyChange>| k->Some_0),
    decreases events.len(),
{
    reveal(Seq::filter);
    let told = events.map_values(|e: InputEvent| key_of(e, table));
    let kept = told.filter(|k: Option<KeyChange>| k is Some);
    if events.len() == 0 {
        assert(keys_of(events, table) =~= kept.map_values(|k: Option<KeyChange>| k->Some_0));
    } else {
        let before = events.drop_last();
        let some = before.map_values(|e: InputEvent| key_of(e, table)).filter(
            |k: Option<KeyChange>| k is Some,
        );
        law_keys_are_told_in_order(before, table);
        assert(told.drop_last() =~= before.map_values(|e: InputEvent| key_of(e, table)));
        if key_of(events.last(), table) is Some {
            assert(kept == some.push(key_of(events.last(), table)));
        } else {
            assert(kept == some);
        }
        assert(keys_of(events, table) =~= kept.map_values(|k: Option<KeyChange>| k->Some_0));
    }
}

/// The keys that bytes tell of are those of the events in them.
pub proof fn law_bytes_tell_of_their_events(
    b: Seq<u8>,
    layout: EventLayout,
    table: Seq<Option<u32>>,
)
    ensures
        keys_in(b, layout, table) == keys_of(events_of(b, layout), table),
{
}

/// A device is a keyboard exactly where it told its keys and has both A and Z.
pub proof fn law_keyboard_has_letters(ret: i32, keys: Seq<u8>)
    ensures
        has_letters(ret, keys) <==> ret >= 0 && is_set(keys, 30) && is_set(keys, 44),
{
}

/// A virtual-key code is held exactly where some device holds a key that has it.
pub proof fn law_held_codes_are_those_of_held_keys(
    bitmaps: Seq<Option<Seq<u8>>>,
    table: Seq<Option<u32>>,
    vk: u32,
)
    ensures
        held_on(bitmaps, table).contains(vk) <==> exists|i: int, code: u16|
            0 <= i < bitmaps.len() && code <= 0x2ff && bitmaps[i] is Some && #[trigger] is_set(
                bitmaps[i]->Some_0,
                code,
            ) && code < table.len() && table[code as int] == Some(vk),
{
    if held_on(bitmaps, table).contains(vk) {
        let i = choose|i: int|
            0 <= i < bitmaps.len() && (#[trigger] bitmaps[i] matches Some(b) && holds_vk(
                b,
                table,
                vk,
                KEY_MAX + 1,
            ));
        let b = bitmaps[i]->Some_0;
        let code = choose|code: u16|
            code < KEY_MAX + 1 && #[trigger] is_set(b, code) && vk_of(table, code) == Some(vk);
        assert(bitmaps[i] matches Some(b) && is_set(b, code));
    }
    if exists|i: int, code: u16|
        0 <= i < bitmaps.len() && code <= 0x2ff && bitmaps[i] is Some && #[trigger] is_set(
            bitmaps[i]->Some_0,
            code,
        ) && code < table.len() && table[code as int] == Some(vk) {
        let (i, code) = choose|i: int, code: u16|
            0 <= i < bitmaps.len() && code <= 0x2ff && bitmaps[i] is Some && #[trigger] is_set(
                bitmaps[i]->Some_0,
                code,
            ) && code < table.len() && table[code as int] == Some(
                vk,
            );
        let b = bitmaps[i]->Some_0;
        assert(is_set(b, code) && vk_of(table, code) == Some(vk));
        assert(holds_vk(b, table, vk, KEY_MAX + 1));
    }
}

} // verus!
