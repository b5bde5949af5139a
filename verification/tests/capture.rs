//! Key capture and the keys that are held.

use std::collections::HashSet;
use wispr_flow_helper::capture::{emit_keypress, evdev, is_true_x11_session, spawn, xinput};
use wispr_flow_helper::capture::{Capture, HeldKeys, KeyChange, NoHeldKeys};
use wispr_flow_helper::input_device::{encode_event, EventLayout, InputEvent, InputId, EV_KEY};
use wispr_flow_helper::input_device::{BITMAP_LEN, DEVICE_NAME};
use wispr_flow_helper::keymap::Keymap;

/// A is 65, Z is 90 and left control 162; control has two keys.
fn keymap() -> Keymap {
    let mut table = vec![None; 128];
    table[30] = Some(65);
    table[44] = Some(90);
    table[29] = Some(162);
    table[97] = Some(162);
    Keymap::new(table)
}

#[test]
fn emit_keypress_builds_keypress_event_frame() {
    let mut index: u64 = 0;

    let press = emit_keypress(&mut index, 4242, KeyChange { vk: 65, press: true });
    let release = emit_keypress(&mut index, 4242, KeyChange { vk: 65, press: false });

    let inner = press.get("HelperAPIRequest").unwrap();
    let kp = inner.get("KeypressEvent").unwrap().get("payload").unwrap();
    assert_eq!(kp.text_at("eventType"), "key_event_press");
    assert_eq!(kp.unsigned_at("key"), 65);
    assert_eq!(kp.unsigned_at("index"), 1);
    assert_eq!(kp.text_at("inputType"), "keyboard");
    assert_eq!(inner.text_at("uuid"), "kp-4242-1");

    let inner = release.get("HelperAPIRequest").unwrap();
    let kp = inner.get("KeypressEvent").unwrap().get("payload").unwrap();
    assert_eq!(kp.text_at("eventType"), "key_event_release");
    assert_eq!(kp.unsigned_at("index"), 2);
    assert_eq!(inner.text_at("uuid"), "kp-4242-2");
}

#[test]
fn index_behind_the_largest_is_zero() {
    let mut index: u64 = u64::MAX - 1;
    for (last, uuid) in [(u64::MAX, "kp-1-18446744073709551615"), (0, "kp-1-0"), (1, "kp-1-1")] {
        let m = emit_keypress(&mut index, 1, KeyChange { vk: 65, press: true });
        assert_eq!(index, last);
        let inner = m.get("HelperAPIRequest").unwrap();
        assert_eq!(inner.text_at("uuid"), uuid);
        let kp = inner.get("KeypressEvent").unwrap().get("payload").unwrap();
        assert_eq!(kp.get("index").unwrap().as_u64(), Some(last));
    }
}

#[test]
fn devices_are_captured_where_there_is_a_keyboard() {
    assert_eq!(evdev::start(0), Err(evdev::NO_KEYBOARD.to_string()));
    assert_eq!(evdev::start(1), Ok(()));
    assert_eq!(evdev::start(3), Ok(()));
}

#[test]
fn true_x11_requires_display_without_wayland() {
    assert!(is_true_x11_session(true, false));
    assert!(!is_true_x11_session(true, true));
    assert!(!is_true_x11_session(false, false));
    assert!(!is_true_x11_session(false, true));
}

#[test]
fn sources_are_tried_in_order() {
    assert_eq!(spawn(true), Capture::TryXinput);
    assert_eq!(spawn(true).tried(true), Capture::Xinput);
    assert_eq!(spawn(true).tried(false), Capture::TryEvdev);
    assert_eq!(spawn(true).tried(false).tried(false), Capture::Nothing);
    assert_eq!(spawn(false), Capture::TryEvdev);
    assert_eq!(spawn(false).tried(true), Capture::Evdev);
    assert_eq!(spawn(false).tried(false), Capture::Nothing);
    assert_eq!(Capture::Xinput.tried(false), Capture::Xinput);
}

#[test]
fn no_source_tells_no_key() {
    assert!(NoHeldKeys.held_vks().is_empty());
}

#[test]
fn unknown_codes_have_no_virtual_key() {
    let k = keymap();
    assert_eq!(k.evdev_to_vk(30), Some(65));
    assert_eq!(k.evdev_to_vk(31), None);
    assert_eq!(k.evdev_to_vk(500), None);
}

#[test]
fn event_nodes_are_known_by_their_names() {
    let named = |s: &str| evdev::is_event_node(&Some(s.to_string()));
    assert!(named("event0"));
    assert!(named("event"));
    assert!(!named("mouse0"));
    assert!(!named("js-event0"));
    assert!(!named(""));
    assert!(!evdev::is_event_node(&None));
}

fn holding(codes: &[u16]) -> Vec<u8> {
    let mut bitmap = vec![0u8; BITMAP_LEN];
    for code in codes {
        bitmap[*code as usize / 8] |= 1 << (code % 8);
    }
    bitmap
}

#[test]
fn keyboards_have_letters() {
    assert!(evdev::is_keyboard(0, &holding(&[30, 44])));
    assert!(evdev::is_keyboard(96, &holding(&[30, 31, 44])));
    assert!(!evdev::is_keyboard(-1, &holding(&[30, 44])));
    assert!(!evdev::is_keyboard(0, &holding(&[30])));
    assert!(!evdev::is_keyboard(0, &holding(&[44])));
    assert!(!evdev::is_keyboard(0, &[]));
}

#[test]
fn own_keyboard_is_not_captured() {
    let own = Some(InputId { bustype: 3, vendor: 0x1234, product: 0x5678, version: 1 });
    let other = Some(InputId { bustype: 0x11, vendor: 1, product: 1, version: 0xab41 });
    let keys = holding(&[30, 44]);
    let name = Some(DEVICE_NAME.to_vec());
    assert!(!evdev::is_captured(&name, &own, 0, &keys));
    assert!(evdev::is_captured(&name, &other, 0, &keys));
    assert!(evdev::is_captured(&Some(b"AT keyboard".to_vec()), &own, 0, &keys));
    assert!(evdev::is_captured(&None, &None, 0, &keys));
    assert!(!evdev::is_captured(&None, &None, 0, &holding(&[272])));
}

#[test]
fn request_for_the_keys_of_a_device() {
    assert_eq!(evdev::eviocgbit_key(), 0x8060_4521);
}

#[test]
fn repeats_and_unknown_keys_tell_nothing() {
    let k = keymap();
    let event = |type_: u16, code: u16, value: i32| {
        evdev::event_key(InputEvent { type_, code, value }, &k)
    };
    assert_eq!(event(EV_KEY, 30, 1), Some(KeyChange { vk: 65, press: true }));
    assert_eq!(event(EV_KEY, 30, 0), Some(KeyChange { vk: 65, press: false }));
    assert_eq!(event(EV_KEY, 30, 2), None);
    assert_eq!(event(EV_KEY, 31, 1), None);
    assert_eq!(event(4, 30, 1), None);
}

#[test]
fn device_bytes_become_messages_without_gap() {
    let layout = EventLayout { size: 24, little_endian: true };
    let k = keymap();
    let mut buf = Vec::new();
    for (type_, code, value) in [
        (4u16, 4u16, 30i32),
        (EV_KEY, 30, 1),
        (0, 0, 0),
        (EV_KEY, 30, 2),
        (EV_KEY, 99, 1),
        (EV_KEY, 44, 1),
        (EV_KEY, 30, 0),
    ] {
        buf.extend(encode_event(InputEvent { type_, code, value }, layout));
    }
    let mut index: u64 = 7;
    let messages = evdev::read_device(&buf, buf.len(), layout, &k, &mut index, 9);
    assert_eq!(index, 10);
    let told: Vec<(u64, u64, String)> = messages
        .iter()
        .map(|m| {
            let inner = m.get("HelperAPIRequest").unwrap();
            let p = inner.get("KeypressEvent").unwrap().get("payload").unwrap();
            (p.unsigned_at("index"), p.unsigned_at("key"), p.text_at("eventType"))
        })
        .collect();
    assert_eq!(
        told,
        vec![
            (8, 65, "key_event_press".to_string()),
            (9, 90, "key_event_press".to_string()),
            (10, 65, "key_event_release".to_string()),
        ]
    );
    // Read in two pieces, the messages are the same.
    let mut again: u64 = 7;
    let half = 3 * 24;
    let mut pieces = evdev::read_device(&buf, half, layout, &k, &mut again, 9);
    pieces.extend(evdev::read_device(&buf[half..], buf.len() - half, layout, &k, &mut again, 9));
    assert_eq!(again, 10);
    let texts = |ms: &Vec<wispr_flow_helper::json::Json>| {
        ms.iter().map(|m| m.pretty()).collect::<Vec<String>>()
    };
    assert_eq!(texts(&messages), texts(&pieces));
}

#[test]
fn held_keys_of_all_devices_count() {
    let k = keymap();
    let bitmaps = vec![Some(holding(&[30, 97])), None, Some(holding(&[29, 31]))];
    let held = evdev::held_vks(&bitmaps, &k);
    assert_eq!(held, HashSet::from([65, 162]));
    assert!(evdev::held_vks(&Vec::new(), &k).is_empty());
}

#[test]
fn x_keycodes_are_eight_more() {
    let k = keymap();
    assert_eq!(xinput::xkeycode_to_vk(38, &k), Some(65));
    assert_eq!(xinput::xkeycode_to_vk(7, &k), None);
    assert_eq!(xinput::xkeycode_to_vk(8, &k), None);
    assert_eq!(xinput::xkeycode_to_vk(0x1_0000 + 38, &k), None);
    assert_eq!(xinput::xkeycode_to_vk(u32::MAX, &k), None);
}

#[test]
fn x_repeats_tell_nothing() {
    let k = keymap();
    let repeat = u32::from(x11rb::protocol::xinput::KeyEventFlags::KEY_REPEAT);
    assert_eq!(xinput::raw_key(38, 0, true, &k), Some(KeyChange { vk: 65, press: true }));
    assert_eq!(xinput::raw_key(38, repeat, true, &k), None);
    assert_eq!(xinput::raw_key(38, repeat | 1, true, &k), None);
    assert_eq!(xinput::raw_key(38, 1, true, &k), Some(KeyChange { vk: 65, press: true }));
    assert_eq!(
        xinput::raw_key(38, repeat, false, &k),
        Some(KeyChange { vk: 65, press: false })
    );
    assert_eq!(xinput::raw_key(39, 0, true, &k), None);
}

#[test]
fn x_bits_tell_the_held_keys() {
    let k = keymap();
    let mut keys = [0u8; 32];
    for code in [30usize, 97, 31] {
        keys[(code + 8) / 8] |= 1 << ((code + 8) % 8);
    }
    assert_eq!(xinput::held_vks(&Some(keys), &k), HashSet::from([65, 162]));
    assert!(xinput::held_vks(&None, &k).is_empty());
    assert_eq!(xinput::held_vks(&Some([0xff; 32]), &k), HashSet::from([65, 90, 162]));
}

#[test]
fn xinput_starts_step_by_step() {
    let mut step = xinput::StartStep::Connect;
    let mut n = 0;
    while step != xinput::StartStep::Done {
        step = step.took(Ok(true)).unwrap();
        n += 1;
    }
    assert_eq!(n, 8);
    assert_eq!(
        xinput::StartStep::Extension.took(Ok(false)),
        Err("XInput extension not available on this X server".to_string())
    );
    let fails = |s: xinput::StartStep| s.took(Err("no".to_string())).unwrap_err();
    assert_eq!(fails(xinput::StartStep::Connect), "x11 connect: no");
    assert_eq!(fails(xinput::StartStep::Extension), "xinput query: no");
    assert_eq!(fails(xinput::StartStep::Version), "xi_query_version: no");
    assert_eq!(fails(xinput::StartStep::VersionReply), "xi_query_version reply: no");
    assert_eq!(fails(xinput::StartStep::Select), "xi_select_events: no");
    assert_eq!(fails(xinput::StartStep::Flush), "flush: no");
    assert_eq!(fails(xinput::StartStep::QueryConnect), "x11 query connect: no");
    assert_eq!(fails(xinput::StartStep::Spawn), "spawn xinput reader: no");
}
