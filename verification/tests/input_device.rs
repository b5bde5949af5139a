//! The identity of the helper's keyboard, modifiers that are held, and events as
//! bytes.

use wispr_flow_helper::input_device::{bit_set, decode_events, encode_event, eviocgid, eviocgkey};
use wispr_flow_helper::input_device::{eviocgname, is_helper_device, matches_helper_identity};
use wispr_flow_helper::input_device::{modifiers_from_bitmap, read_device_id, read_device_name};
use wispr_flow_helper::input_device::{scan_held_modifiers, wait_modifiers_released};
use wispr_flow_helper::input_device::{EventLayout, InputEvent, InputId, WaitStep};
use wispr_flow_helper::input_device::{BITMAP_LEN, BUSTYPE, DEVICE_NAME, KEY_MAX, MODIFIER_CODES};
use wispr_flow_helper::input_device::{PRODUCT, VENDOR, VERSION};

fn helper_id() -> InputId {
    InputId {
        bustype: BUSTYPE,
        vendor: VENDOR,
        product: PRODUCT,
        version: VERSION,
    }
}

#[test]
fn matches_exact_identity() {
    assert!(matches_helper_identity(&DEVICE_NAME, &helper_id()));
}

#[test]
fn rejects_wrong_name() {
    assert!(!matches_helper_identity(
        b"AT Translated Set 2 keyboard",
        &helper_id()
    ));
    assert!(!matches_helper_identity(b"", &helper_id()));
    assert!(!matches_helper_identity(
        b"Wispr Flow Linux Helper Extra",
        &helper_id()
    ));
    assert!(!matches_helper_identity(
        b"Wispr Flow Linux Helper\x00",
        &helper_id()
    ));
}

#[test]
fn rejects_wrong_vendor() {
    let mut id = helper_id();
    id.vendor = 0x0000;
    assert!(!matches_helper_identity(&DEVICE_NAME, &id));
}

#[test]
fn rejects_wrong_product() {
    let mut id = helper_id();
    id.product = 0x9999;
    assert!(!matches_helper_identity(&DEVICE_NAME, &id));
}

#[test]
fn rejects_wrong_bustype() {
    let mut id = helper_id();
    id.bustype = 0x06;
    assert!(!matches_helper_identity(&DEVICE_NAME, &id));
}

#[test]
fn rejects_wrong_version() {
    let mut id = helper_id();
    id.version = 2;
    assert!(!matches_helper_identity(&DEVICE_NAME, &id));
}

#[test]
fn input_id_is_8_bytes() {
    assert_eq!(std::mem::size_of::<InputId>(), 8);
}

#[test]
fn eviocgname_encoding() {
    let expected: u64 = (2 << 30) | (256 << 16) | (0x45 << 8) | 0x06;
    assert_eq!(eviocgname(256) as u64, expected);
}

#[test]
fn eviocgid_encoding() {
    let expected: u64 = (2 << 30) | (8 << 16) | (0x45 << 8) | 0x02;
    assert_eq!(eviocgid() as u64, expected);
}

#[test]
fn empty_bitmap_no_modifiers() {
    let bitmap = [0u8; BITMAP_LEN];
    assert!(modifiers_from_bitmap(&bitmap).is_empty());
}

#[test]
fn ctrl_held_in_bitmap() {
    let mut bitmap = [0u8; BITMAP_LEN];
    bitmap[29 / 8] |= 1 << (29 % 8);
    let held = modifiers_from_bitmap(&bitmap);
    assert_eq!(held, vec![29]);
}

#[test]
fn ctrl_and_super_held_ptt_case() {
    let mut bitmap = [0u8; BITMAP_LEN];
    bitmap[29 / 8] |= 1 << (29 % 8); // KEY_LEFTCTRL
    bitmap[125 / 8] |= 1 << (125 % 8); // KEY_LEFTMETA
    let held = modifiers_from_bitmap(&bitmap);
    assert_eq!(held, vec![29, 125]);
}

#[test]
fn non_modifier_key_not_detected() {
    let mut bitmap = [0u8; BITMAP_LEN];
    bitmap[30 / 8] |= 1 << (30 % 8); // KEY_A
    assert!(modifiers_from_bitmap(&bitmap).is_empty());
}

#[test]
fn all_modifiers_detected() {
    let mut bitmap = [0u8; BITMAP_LEN];
    for code in MODIFIER_CODES {
        bitmap[code as usize / 8] |= 1 << (code % 8);
    }
    let held = modifiers_from_bitmap(&bitmap);
    assert_eq!(held.len(), MODIFIER_CODES.len());
    for code in MODIFIER_CODES {
        assert!(held.contains(&code));
    }
}

#[test]
fn short_bitmap_safe() {
    // Bitmap too short to contain high modifier codes -- must not panic.
    let bitmap = [0xFFu8; 4]; // only 32 bits, covers codes 0-31
    let held = modifiers_from_bitmap(&bitmap);
    assert!(held.contains(&29)); // KEY_LEFTCTRL fits
    assert!(!held.contains(&42)); // KEY_LEFTSHIFT beyond byte 4
}

#[test]
fn the_name_is_a_text() {
    assert_eq!(&DEVICE_NAME, b"Wispr Flow Linux Helper");
    assert_eq!(BITMAP_LEN, KEY_MAX as usize / 8 + 1);
}

#[test]
fn device_without_name_or_identity_is_not_the_helper() {
    let name = Some(DEVICE_NAME.to_vec());
    assert!(is_helper_device(&name, &Some(helper_id())));
    assert!(!is_helper_device(&None, &Some(helper_id())));
    assert!(!is_helper_device(&name, &None));
}

#[test]
fn names_lose_the_zero_at_their_end() {
    assert_eq!(read_device_name(-1, b"abc\0"), None);
    assert_eq!(read_device_name(4, b"abc\0\0\0"), Some(b"abc".to_vec()));
    assert_eq!(read_device_name(5, b"abc\0\0\0"), Some(b"abc\0".to_vec()));
    assert_eq!(read_device_name(3, b"abc\0"), Some(b"abc".to_vec()));
    assert_eq!(read_device_name(0, b"abc"), Some(Vec::new()));
    assert_eq!(read_device_id(-1, helper_id()), None);
    assert_eq!(read_device_id(0, helper_id()), Some(helper_id()));
}

#[test]
fn requests_for_held_keys() {
    assert_eq!(eviocgkey(), 0x8060_4518);
    assert_eq!(eviocgid(), 0x8008_4502);
    assert_eq!(eviocgname(256), 0x8100_4506);
}

#[test]
fn bits_are_counted_from_the_low_end() {
    assert!(bit_set(&[0, 0b0000_0100], 10));
    assert!(!bit_set(&[0, 0b0000_0100], 9));
    assert!(!bit_set(&[0xff, 0xff], 16));
    assert!(!bit_set(&[], 0));
}

fn holding(codes: &[u16]) -> Option<Vec<u8>> {
    let mut bitmap = vec![0u8; BITMAP_LEN];
    for code in codes {
        bitmap[*code as usize / 8] |= 1 << (code % 8);
    }
    Some(bitmap)
}

#[test]
fn modifiers_of_all_devices_count_once() {
    let bitmaps = vec![holding(&[125, 30]), None, holding(&[29, 125])];
    assert_eq!(scan_held_modifiers(&bitmaps), vec![125, 29]);
    assert!(scan_held_modifiers(&Vec::new()).is_empty());
}

#[test]
fn modifiers_are_waited_for() {
    let held = vec![holding(&[29, 125])];
    assert_eq!(wait_modifiers_released(&Vec::new(), false), WaitStep::Released);
    assert_eq!(wait_modifiers_released(&Vec::new(), true), WaitStep::Released);
    assert_eq!(wait_modifiers_released(&vec![holding(&[30])], true), WaitStep::Released);
    assert_eq!(wait_modifiers_released(&held, false), WaitStep::Again);
    assert_eq!(
        wait_modifiers_released(&held, true),
        WaitStep::Failed("modifier keys still held after 1000ms: [29, 125]".to_string())
    );
    assert_eq!(
        wait_modifiers_released(&vec![holding(&[100])], true),
        WaitStep::Failed("modifier keys still held after 1000ms: [100]".to_string())
    );
}

#[test]
fn events_are_read_as_they_were_written() {
    let events = vec![
        InputEvent { type_: 1, code: 0x1234, value: 1 },
        InputEvent { type_: 0, code: 0, value: 0 },
        InputEvent { type_: 0xffff, code: 0x8001, value: -2 },
        InputEvent { type_: 3, code: 1, value: i32::MIN },
    ];
    for layout in [
        EventLayout { size: 24, little_endian: true },
        EventLayout { size: 24, little_endian: false },
        EventLayout { size: 16, little_endian: true },
        EventLayout { size: 8, little_endian: false },
    ] {
        let mut bytes = Vec::new();
        for e in &events {
            bytes.extend(encode_event(*e, layout));
        }
        assert_eq!(bytes.len(), 4 * layout.size);
        assert_eq!(decode_events(&bytes, bytes.len(), layout), events);
        // What is left behind the last whole event counts for nothing.
        assert_eq!(decode_events(&bytes, bytes.len() - 1, layout), events[..3].to_vec());
    }
}

#[test]
fn bytes_of_an_event_are_exact() {
    let e = InputEvent { type_: 1, code: 0x11e, value: -1 };
    let little = EventLayout { size: 24, little_endian: true };
    let mut expected = vec![0u8; 16];
    expected.extend([1, 0, 0x1e, 1, 0xff, 0xff, 0xff, 0xff]);
    assert_eq!(encode_event(e, little), expected);
    let native = EventLayout {
        size: std::mem::size_of::<libc::input_event>(),
        little_endian: 1u16.to_ne_bytes()[0] == 1,
    };
    assert_eq!(encode_event(e, native).len(), native.size);
}
