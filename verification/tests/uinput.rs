//! Chords, single keys, cleanup, and the creation of the device.

use std::collections::HashSet;
use wispr_flow_helper::backend::uinput::{chord_plan, ChordAction, Finish, SetupStep, UInput};
use wispr_flow_helper::input_device::{InputEvent, EV_KEY, EV_SYN, KEY_MAX, SYN_REPORT};

/// True when every pressed key has a matching release.
fn is_balanced(plan: &[ChordAction]) -> bool {
    let mut pressed: HashSet<u16> = HashSet::new();
    for action in plan {
        match action {
            ChordAction::Press(c) => {
                pressed.insert(*c);
            }
            ChordAction::Release(c) => {
                pressed.remove(c);
            }
        }
    }
    pressed.is_empty()
}

fn key(code: u16, value: i32) -> InputEvent {
    InputEvent { type_: EV_KEY, code, value }
}

fn syn() -> InputEvent {
    InputEvent { type_: EV_SYN, code: SYN_REPORT, value: 0 }
}

/// Writes everything that is due; the writes with these numbers fail.
fn run(u: &mut UInput, failing: &[usize]) -> (Vec<InputEvent>, Option<Finish>) {
    let mut written = Vec::new();
    let mut n = 0;
    while let Some(e) = u.next_write() {
        let outcome = if failing.contains(&n) {
            Err("EIO".to_string())
        } else {
            Ok(())
        };
        if outcome.is_ok() {
            written.push(e);
        }
        n += 1;
        if let Some(f) = u.wrote(outcome) {
            return (written, Some(f));
        }
    }
    (written, None)
}

#[test]
fn ctrl_v_chord_balanced_and_minimal() {
    let ctrl = 29u16; // KEY_LEFTCTRL
    let v = 47u16; // KEY_V
    let plan = chord_plan(v, &[ctrl]);

    assert_eq!(
        plan,
        vec![
            ChordAction::Press(ctrl),
            ChordAction::Press(v),
            ChordAction::Release(v),
            ChordAction::Release(ctrl),
        ]
    );
    assert!(is_balanced(&plan));
}

#[test]
fn duplicate_modifiers_deduplicated() {
    let ctrl = 29u16;
    let shift = 42u16;
    let a = 30u16;
    let plan = chord_plan(a, &[ctrl, shift, ctrl, shift, ctrl]);

    assert_eq!(
        plan,
        vec![
            ChordAction::Press(ctrl),
            ChordAction::Press(shift),
            ChordAction::Press(a),
            ChordAction::Release(a),
            ChordAction::Release(shift),
            ChordAction::Release(ctrl),
        ]
    );
    assert!(is_balanced(&plan));
}

#[test]
fn modifiers_released_in_reverse_press_order() {
    let ctrl = 29u16;
    let shift = 42u16;
    let alt = 56u16;
    let x = 45u16;
    let plan = chord_plan(x, &[ctrl, shift, alt]);

    let releases: Vec<u16> = plan
        .iter()
        .filter_map(|a| match a {
            ChordAction::Release(c) => Some(*c),
            _ => None,
        })
        .collect();
    // key released first, then mods in reverse.
    assert_eq!(releases, vec![x, alt, shift, ctrl]);
}

#[test]
fn key_in_mods_excluded_and_tapped_once() {
    let ctrl = 29u16;
    let plan = chord_plan(ctrl, &[ctrl]);

    // key == only modifier → mods list is empty after exclusion, just a tap.
    assert_eq!(
        plan,
        vec![ChordAction::Press(ctrl), ChordAction::Release(ctrl)]
    );
    assert!(is_balanced(&plan));
}

#[test]
fn key_in_mods_with_other_mods() {
    let ctrl = 29u16;
    let shift = 42u16;
    let plan = chord_plan(ctrl, &[shift, ctrl]);

    // ctrl excluded from mods, shift remains.
    assert_eq!(
        plan,
        vec![
            ChordAction::Press(shift),
            ChordAction::Press(ctrl),
            ChordAction::Release(ctrl),
            ChordAction::Release(shift),
        ]
    );
    assert!(is_balanced(&plan));
}

#[test]
fn no_modifiers_just_tap() {
    let a = 30u16;
    let plan = chord_plan(a, &[]);
    assert_eq!(plan, vec![ChordAction::Press(a), ChordAction::Release(a)]);
    assert!(is_balanced(&plan));
}

#[test]
fn unbalanced_detected() {
    assert!(!is_balanced(&[
        ChordAction::Press(29),
        ChordAction::Press(47)
    ]));
}

/// Pressed tracking preserves order, deduplicates, and cleanup reverses.
#[test]
fn pressed_vec_order_and_dedup() {
    let mut u = UInput::new();

    // Press sequence: ctrl, shift, v (with a dup ctrl).
    for &code in &[29u16, 42, 29, 47] {
        u.key(code, true);
        run(&mut u, &[]);
    }
    assert_eq!(*u.pressed(), vec![29, 42, 47]);

    // Reverse for cleanup.
    u.cleanup();
    let (written, finish) = run(&mut u, &[]);
    let cleanup_order: Vec<u16> = written
        .iter()
        .filter(|e| e.type_ == EV_KEY && e.value == 0)
        .map(|e| e.code)
        .collect();
    assert_eq!(cleanup_order, vec![47, 42, 29]);
    assert_eq!(written.last(), Some(&syn()));
    assert_eq!(finish.unwrap().result, Ok(()));
    assert!(u.pressed().is_empty());
}

/// Cleanup must not clear tracking when writes fail.
#[test]
fn cleanup_retains_on_failure() {
    let mut u = UInput::new();
    for &code in &[29u16, 42, 47] {
        u.key(code, true);
        run(&mut u, &[]);
    }
    u.cleanup();
    // The release of the second key fails.
    let (written, finish) = run(&mut u, &[1]);
    assert_eq!(written, vec![key(47, 0), key(29, 0), syn()]);
    assert_eq!(
        finish.unwrap().result,
        Err("release key 42: uinput write: EIO".to_string())
    );
    // Keys remain for next cleanup attempt.
    assert_eq!(*u.pressed(), vec![29, 42, 47]);
    u.cleanup();
    let (written, finish) = run(&mut u, &[]);
    assert_eq!(written, vec![key(47, 0), key(42, 0), key(29, 0), syn()]);
    assert_eq!(finish.unwrap().result, Ok(()));
    assert!(u.pressed().is_empty());
}

#[test]
fn every_failed_write_of_a_cleanup_is_told() {
    let mut u = UInput::new();
    for &code in &[29u16, 42] {
        u.key(code, true);
        run(&mut u, &[]);
    }
    u.cleanup();
    let (written, finish) = run(&mut u, &[0, 1, 2]);
    assert!(written.is_empty());
    assert_eq!(
        finish.unwrap().result,
        Err(
            "release key 42: uinput write: EIO; release key 29: uinput write: EIO; \
             SYN_REPORT: uinput write: EIO"
                .to_string()
        )
    );
}

#[test]
fn chord_writes_each_action_with_its_end() {
    let mut u = UInput::new();
    assert!(u.chord(Ok(()), 47, &[29]).is_none());
    let (written, finish) = run(&mut u, &[]);
    assert_eq!(
        written,
        vec![
            key(29, 1),
            syn(),
            key(47, 1),
            syn(),
            key(47, 0),
            syn(),
            key(29, 0),
            syn(),
        ]
    );
    let finish = finish.unwrap();
    assert_eq!(finish.result, Ok(()));
    assert_eq!(finish.cleanup_error, None);
    assert!(u.pressed().is_empty());
    assert_eq!(u.next_write(), None);
}

#[test]
fn chord_leaves_the_keys_of_others_pressed() {
    let mut u = UInput::new();
    for &code in &[30u16, 29, 47, 31] {
        u.key(code, true);
        run(&mut u, &[]);
    }
    assert!(u.chord(Ok(()), 47, &[29, 42]).is_none());
    let (written, finish) = run(&mut u, &[]);
    assert_eq!(written.len(), 12);
    assert_eq!(finish.unwrap().result, Ok(()));
    assert_eq!(*u.pressed(), vec![30, 31]);
}

#[test]
fn cleanup_whose_end_alone_fails_keeps_the_keys() {
    let mut u = UInput::new();
    for &code in &[29u16, 42] {
        u.key(code, true);
        run(&mut u, &[]);
    }
    u.cleanup();
    let (written, finish) = run(&mut u, &[2]);
    assert_eq!(written, vec![key(42, 0), key(29, 0)]);
    assert_eq!(finish.unwrap().result, Err("SYN_REPORT: uinput write: EIO".to_string()));
    assert_eq!(*u.pressed(), vec![29, 42]);
}

#[test]
fn chord_that_fails_releases_what_it_pressed() {
    let mut u = UInput::new();
    assert!(u.chord(Ok(()), 47, &[29, 42]).is_none());
    // ctrl, its end, shift, its end, then the key fails.
    let (written, finish) = run(&mut u, &[4]);
    assert_eq!(
        written,
        vec![key(29, 1), syn(), key(42, 1), syn(), key(42, 0), key(29, 0), syn()]
    );
    let finish = finish.unwrap();
    assert_eq!(finish.result, Err("uinput write: EIO".to_string()));
    assert_eq!(finish.cleanup_error, None);
    assert!(u.pressed().is_empty());
}

#[test]
fn key_counts_as_pressed_though_its_end_failed() {
    let mut u = UInput::new();
    u.key(29, true);
    let (written, finish) = run(&mut u, &[1]);
    assert_eq!(written, vec![key(29, 1)]);
    assert_eq!(
        finish.unwrap().result,
        Err("uinput write: EIO".to_string())
    );
    assert_eq!(*u.pressed(), vec![29]);
}

#[test]
fn chord_that_fails_to_clean_up_tells_both() {
    let mut u = UInput::new();
    assert!(u.chord(Ok(()), 47, &[29]).is_none());
    let (_, finish) = run(&mut u, &[1, 2]);
    let finish = finish.unwrap();
    assert_eq!(finish.result, Err("uinput write: EIO".to_string()));
    assert_eq!(
        finish.cleanup_error,
        Some("release key 29: uinput write: EIO".to_string())
    );
    assert_eq!(*u.pressed(), vec![29]);
}

#[test]
fn chord_is_not_begun_while_modifiers_are_held() {
    let mut u = UInput::new();
    let finish = u.chord(Err("held".to_string()), 47, &[29]).unwrap();
    assert_eq!(finish.result, Err("held".to_string()));
    assert_eq!(u.next_write(), None);
    assert!(u.pressed().is_empty());
}

#[test]
fn device_gets_every_key() {
    let mut step = SetupStep::Open;
    let mut keys = Vec::new();
    let mut order = Vec::new();
    while step != SetupStep::Done {
        let outcome = match step {
            // Keys that the device cannot have are left out.
            SetupStep::KeyBit(code) => {
                keys.push(code);
                Err("EINVAL".to_string())
            }
            other => {
                order.push(other);
                Ok(())
            }
        };
        step = step.took(outcome).unwrap();
    }
    assert_eq!(keys, (1..=KEY_MAX).collect::<Vec<u16>>());
    assert_eq!(
        order,
        vec![
            SetupStep::Open,
            SetupStep::EventBit(EV_KEY),
            SetupStep::EventBit(EV_SYN),
            SetupStep::Describe,
            SetupStep::Create,
        ]
    );
}

#[test]
fn failures_to_create_the_device_are_told() {
    let fails = |s: SetupStep| s.took(Err("EACCES".to_string())).unwrap_err();
    assert_eq!(
        fails(SetupStep::Open),
        "open /dev/uinput: EACCES (need write access — logind uaccess ACL, `uinput` group, or root)"
    );
    assert_eq!(fails(SetupStep::EventBit(1)), "ioctl 0x40045564(1): EACCES");
    assert_eq!(fails(SetupStep::Describe), "write uinput_user_dev: EACCES");
    assert_eq!(fails(SetupStep::Create), "UI_DEV_CREATE: EACCES");
    assert!(UInput::create(Err("no".to_string())).is_err());
    assert!(UInput::create(Ok(())).unwrap().pressed().is_empty());
}
