//! Key injection through a virtual keyboard.
//!
//! The device takes one event at a time and each write may fail. [`UInput`] says
//! which event comes next and takes in how its write went. It keeps the keys that
//! are pressed on the device, in press order, so that they can all be released
//! after a failure and before the device goes away.

use crate::input_device::{InputEvent, EV_KEY, EV_SYN, KEY_MAX, SYN_REPORT};
use crate::text::{cat, decimal, decimal_text, outcome_view, text_view, texts};
use vstd::prelude::*;

verus! {

// ---------------------------------------------------------------------------
// Creating the device
// ---------------------------------------------------------------------------

/// The request that creates the device.
pub const UI_DEV_CREATE: u64 = 0x5501;

/// The request that destroys the device.
pub const UI_DEV_DESTROY: u64 = 0x5502;

/// The request that gives the device a type of events.
pub const UI_SET_EVBIT: u64 = 0x40045564;

/// The request that gives the device a key.
pub const UI_SET_KEYBIT: u64 = 0x40045565;

/// How long the desktop takes to notice the device, in milliseconds. Keys that are
/// written before are lost.
pub const SETTLE_MS: u64 = 200;

/// What is to be done next to create the device.
#[derive(Debug, Clone, Copy, PartialEq, Eq, Structural)]
pub enum SetupStep {
    /// Open the file that devices are created with.
    Open,
    /// Give the device this type of events.
    EventBit(u16),
    /// Give the device this key.
    KeyBit(u16),
    /// Write its name and its identity.
    Describe,
    /// Create it.
    Create,
    /// Nothing: it is there, once the desktop has noticed it.
    Done,
}

impl SetupStep {
    /// The step that follows: the device gets key events and the ends of their
    /// groups, then every key from 1 on.
    pub open spec fn next(self) -> SetupStep {
        match self {
            SetupStep::Open => SetupStep::EventBit(EV_KEY),
            SetupStep::EventBit(t) => if t == EV_KEY {
                SetupStep::EventBit(EV_SYN)
            } else {
                SetupStep::KeyBit(1)
            },
            SetupStep::KeyBit(code) => if code < KEY_MAX {
                SetupStep::KeyBit((code + 1) as u16)
            } else {
                SetupStep::Describe
            },
            SetupStep::Describe => SetupStep::Create,
            SetupStep::Create => SetupStep::Done,
            SetupStep::Done => SetupStep::Done,
        }
    }

    /// What follows the outcome of the step. A key that the device cannot have is
    /// left out; any other failure ends the setup.
    pub open spec fn after(self, outcome: Result<(), Seq<char>>) -> Result<SetupStep, Seq<char>> {
        match (self, outcome) {
            (SetupStep::Open, Err(e)) => Err(
                "open /dev/uinput: "@ + e
                    + " (need write access — logind uaccess ACL, `uinput` group, or root)"@,
            ),
            (SetupStep::EventBit(t), Err(e)) => Err(
                "ioctl 0x40045564("@ + decimal(t as nat) + "): "@ + e,
            ),
            (SetupStep::Describe, Err(e)) => Err("write uinput_user_dev: "@ + e),
            (SetupStep::Create, Err(e)) => Err("UI_DEV_CREATE: "@ + e),
            _ => Ok(self.next()),
        }
    }

    /// Takes the outcome of the step.
    pub fn took(self, outcome: Result<(), String>) -> (r: Result<SetupStep, String>)
        ensures
            match r {
                Ok(step) => self.after(outcome_view(outcome)) matches Ok(s) && s == step,
                Err(e) => self.after(outcome_view(outcome)) matches Err(m) && m == e@,
            },
    {
        if let Err(e) = outcome {
            match self {
                SetupStep::Open => {
                    let mut m = cat("open /dev/uinput: ", &e);
                    m.append(" (need write access — logind uaccess ACL, `uinput` group, or root)");
                    return Err(m);
                },
                SetupStep::EventBit(t) => {
                    let mut m = cat("ioctl 0x40045564(", &decimal_text(t as u64));
                    m.append("): ");
                    m.append(&e);
                    return Err(m);
                },
                SetupStep::Describe => {
                    return Err(cat("write uinput_user_dev: ", &e));
                },
                SetupStep::Create => {
                    return Err(cat("UI_DEV_CREATE: ", &e));
                },
                _ => {},
            }
        }
        Ok(
            match self {
                SetupStep::Open => SetupStep::EventBit(EV_KEY),
                SetupStep::EventBit(t) => if t == EV_KEY {
                    SetupStep::EventBit(EV_SYN)
                } else {
                    SetupStep::KeyBit(1)
                },
                SetupStep::KeyBit(code) => if code < KEY_MAX {
                    SetupStep::KeyBit(code + 1)
                } else {
                    SetupStep::Describe
                },
                SetupStep::Describe => SetupStep::Create,
                SetupStep::Create => SetupStep::Done,
                SetupStep::Done => SetupStep::Done,
            },
        )
    }
}

/// The step that stands at the place `n` of a setup.
pub open spec fn setup_at(n: nat) -> SetupStep
    decreases n,
{
    if n == 0 {
        SetupStep::Open
    } else {
        setup_at((n - 1) as nat).next()
    }
}

/// A setup gives the device both types of events, then every key in order, and then
/// describes and creates it.
pub proof fn law_setup_gives_every_key(code: u16)
    requires
        1 <= code <= KEY_MAX,
    ensures
        setup_at(0) == SetupStep::Open,
        setup_at(1) == SetupStep::EventBit(EV_KEY),
        setup_at(2) == SetupStep::EventBit(EV_SYN),
        setup_at((code + 2) as nat) == SetupStep::KeyBit(code),
        setup_at((KEY_MAX + 3) as nat) == SetupStep::Describe,
        setup_at((KEY_MAX + 4) as nat) == SetupStep::Create,
        setup_at((KEY_MAX + 5) as nat) == SetupStep::Done,
{
    reveal_with_fuel(setup_at, 4);
    lemma_setup_key(code);
    lemma_setup_key(KEY_MAX);
}

proof fn lemma_setup_key(code: u16)
    requires
        1 <= code <= KEY_MAX,
    ensures
        setup_at((code + 2) as nat) == SetupStep::KeyBit(code),
    decreases code,
{
    reveal_with_fuel(setup_at, 4);
    if code > 1 {
        lemma_setup_key((code - 1) as u16);
    }
}

// ---------------------------------------------------------------------------
// Planning
// ---------------------------------------------------------------------------

/// A single action in a chord.
#[derive(Debug, Clone, Copy, PartialEq, Eq, Structural)]
pub enum ChordAction {
    Press(u16),
    Release(u16),
}

/// The modifiers of a chord: those of `mods` but `key`, each once, in the order in
/// which they first occur.
pub open spec fn unique_mods(key: u16, mods: Seq<u16>) -> Seq<u16>
    decreases mods.len(),
{
    if mods.len() == 0 {
        Seq::empty()
    } else {
        let before = unique_mods(key, mods.drop_last());
        if mods.last() == key || before.contains(mods.last()) {
            before
        } else {
            before.push(mods.last())
        }
    }
}

/// A press of each of `codes`.
pub open spec fn presses(codes: Seq<u16>) -> Seq<ChordAction> {
    codes.map_values(|c: u16| ChordAction::Press(c))
}

/// A release of each of `codes`, the last one first.
pub open spec fn releases(codes: Seq<u16>) -> Seq<ChordAction> {
    codes.reverse().map_values(|c: u16| ChordAction::Release(c))
}

/// The actions of a chord: its modifiers are pressed, the key is tapped once, and
/// the modifiers are released in reverse.
pub open spec fn plan_of(key: u16, mods: Seq<u16>) -> Seq<ChordAction> {
    presses(unique_mods(key, mods)) + seq![ChordAction::Press(key), ChordAction::Release(key)]
        + releases(unique_mods(key, mods))
}

/// Whether `code` is among `codes`.
fn has_code(codes: &Vec<u16>, code: u16) -> (r: bool)
    ensures
        r == codes@.contains(code),
{
    let mut i: usize = 0;
    while i < codes.len()
        invariant
            i <= codes.len(),
            forall|j: int| 0 <= j < i ==> codes@[j] != code,
        decreases codes.len() - i,
    {
        if codes[i] == code {
            return true;
        }
        i += 1;
    }
    false
}

/// Plans a chord.
pub fn chord_plan(key: u16, mods: &[u16]) -> (plan: Vec<ChordAction>)
    ensures
        plan@ == plan_of(key, mods@),
{
    let mut unique: Vec<u16> = Vec::new();
    let mut i: usize = 0;
    while i < mods.len()
        invariant
            i <= mods.len(),
            unique@ == unique_mods(key, mods@.take(i as int)),
        decreases mods.len() - i,
    {
        assert(mods@.take(i + 1).drop_last() =~= mods@.take(i as int));
        let m = mods[i];
        if m != key && !has_code(&unique, m) {
            unique.push(m);
        }
        i += 1;
    }
    assert(mods@.take(i as int) =~= mods@);
    let mut plan: Vec<ChordAction> = Vec::new();
    i = 0;
    while i < unique.len()
        invariant
            i <= unique.len(),
            plan@ == presses(unique@.take(i as int)),
        decreases unique.len() - i,
    {
        plan.push(ChordAction::Press(unique[i]));
        i += 1;
        assert(plan@ =~= presses(unique@.take(i as int)));
    }
    plan.push(ChordAction::Press(key));
    plan.push(ChordAction::Release(key));
    let ghost head = presses(unique@) + seq![ChordAction::Press(key), ChordAction::Release(key)];
    assert(unique@.take(i as int) =~= unique@);
    assert(plan@ =~= head);
    while i > 0
        invariant
            i <= unique.len(),
            plan@ == head + releases(unique@).take(unique.len() - i),
        decreases i,
    {
        i -= 1;
        plan.push(ChordAction::Release(unique[i]));
        assert(plan@ =~= head + releases(unique@).take(unique.len() - i));
    }
    assert(releases(unique@).take(unique@.len() as int) =~= releases(unique@));
    plan
}

/// The modifiers of a chord are those asked for but the key, and none twice.
pub proof fn law_modifiers_are_unique(key: u16, mods: Seq<u16>)
    ensures
        unique_mods(key, mods).no_duplicates(),
        !unique_mods(key, mods).contains(key),
        forall|m: u16| #[trigger]
            unique_mods(key, mods).contains(m) <==> m != key && mods.contains(m),
    decreases mods.len(),
{
    if mods.len() > 0 {
        let before = mods.drop_last();
        law_modifiers_are_unique(key, before);
        assert forall|m: u16| #[trigger] unique_mods(key, mods).contains(m) <==> m != key
            && mods.contains(m) by {
            if mods.contains(m) && m != key && m != mods.last() {
                let i = choose|i: int| 0 <= i < mods.len() && mods[i] == m;
                assert(before[i] == m);
            }
            if before.contains(m) {
                let i = choose|i: int| 0 <= i < before.len() && before[i] == m;
                assert(mods[i] == m);
            }
            assert(mods[mods.len() - 1] == mods.last());
            if mods.last() != key && !unique_mods(key, before).contains(mods.last()) {
                let u = unique_mods(key, before);
                assert(unique_mods(key, mods) == u.push(mods.last()));
                assert(u.push(mods.last())[u.len() as int] == mods.last());
                if u.contains(m) {
                    let i = choose|i: int| 0 <= i < u.len() && u[i] == m;
                    assert(u.push(mods.last())[i] == m);
                }
            }
        }
    }
}

/// `x` first occurs in `s` at the place `i`.
pub open spec fn first_at(s: Seq<u16>, x: u16, i: int) -> bool {
    0 <= i < s.len() && s[i] == x && forall|k: int| 0 <= k < i ==> s[k] != x
}

/// The modifiers of a chord stand in the order in which they first occur.
pub proof fn law_modifiers_keep_order(key: u16, mods: Seq<u16>, i: int, j: int, a: int, b: int)
    requires
        0 <= i < j < unique_mods(key, mods).len(),
        first_at(mods, unique_mods(key, mods)[i], a),
        first_at(mods, unique_mods(key, mods)[j], b),
    ensures
        a < b,
    decreases mods.len(),
{
    let u = unique_mods(key, mods);
    let before = mods.drop_last();
    let w = unique_mods(key, before);
    law_modifiers_are_unique(key, before);
    assert(w.contains(w[i]));
    let x = choose|x: int| 0 <= x < before.len() && before[x] == w[i];
    assert(mods[x] == u[i]);
    assert(a <= x);
    assert(before[a] == u[i]);
    if j < w.len() {
        assert(w.contains(w[j]));
        let y = choose|y: int| 0 <= y < before.len() && before[y] == w[j];
        assert(mods[y] == u[j]);
        assert(b <= y);
        law_modifiers_keep_order(key, before, i, j, a, b);
    } else if b < before.len() {
        assert(before[b] == u[j]);
        assert(w.contains(u[j]));
    }
}

// ---------------------------------------------------------------------------
// Writing
// ---------------------------------------------------------------------------

/// What the next write to the device is for.
#[derive(Debug, Clone, Copy, PartialEq, Eq, Structural)]
pub enum Stage {
    /// Nothing is to be written.
    Idle,
    /// The key event of an action.
    Key,
    /// The end of an action's group of events.
    Syn,
    /// The release of a key that is pressed.
    Release,
    /// The end of the group of releases.
    ReleaseSyn,
}

/// The event that presses a key (`value` 1) or releases it (`value` 0).
pub open spec fn key_event(code: u16, press: bool) -> InputEvent {
    InputEvent {
        type_: EV_KEY,
        code,
        value: if press {
            1
        } else {
            0
        },
    }
}

/// The event that ends a group of events.
pub open spec fn syn_event() -> InputEvent {
    InputEvent { type_: EV_SYN, code: SYN_REPORT, value: 0 }
}

/// The key event of an action.
pub open spec fn action_event(a: ChordAction) -> InputEvent {
    match a {
        ChordAction::Press(c) => key_event(c, true),
        ChordAction::Release(c) => key_event(c, false),
    }
}

/// `codes` without `code`.
pub open spec fn without(codes: Seq<u16>, code: u16) -> Seq<u16>
    decreases codes.len(),
{
    if codes.len() == 0 {
        codes
    } else if codes.last() == code {
        without(codes.drop_last(), code)
    } else {
        without(codes.drop_last(), code).push(codes.last())
    }
}

/// The keys that are pressed after an action: a pressed key is added behind the
/// others, unless it is there, and a released key is taken out.
pub open spec fn noted(pressed: Seq<u16>, a: ChordAction) -> Seq<u16> {
    match a {
        ChordAction::Press(c) => if pressed.contains(c) {
            pressed
        } else {
            pressed.push(c)
        },
        ChordAction::Release(c) => without(pressed, c),
    }
}

/// `parts` with `; ` between them.
pub open spec fn joined(parts: Seq<Seq<char>>) -> Seq<char>
    decreases parts.len(),
{
    if parts.len() == 0 {
        Seq::empty()
    } else if parts.len() == 1 {
        parts[0]
    } else {
        joined(parts.drop_last()) + "; "@ + parts.last()
    }
}

/// A [`UInput`] as a mathematical value.
#[verifier::ext_equal]
pub struct UInputView {
    /// The keys that are pressed on the device, in press order.
    pub pressed: Seq<u16>,
    /// What the next write is for.
    pub stage: Stage,
    /// The actions of the chord or key that is being written.
    pub plan: Seq<ChordAction>,
    /// The keys that are being released.
    pub codes: Seq<u16>,
    /// The place in `plan` or `codes` of the next write.
    pub at: nat,
    /// The writes that failed while keys were being released.
    pub errors: Seq<Seq<char>>,
    /// The failure that led to the keys being released.
    pub cause: Option<Seq<char>>,
    /// Whether a failure leads to the keys being released.
    pub rescue: bool,
}

/// How writing ended.
#[derive(Debug)]
pub struct Finish {
    /// What the caller of the chord, the key or the cleanup is told.
    pub result: Result<(), String>,
    /// What went wrong with the cleanup after a failed chord.
    pub cleanup_error: Option<String>,
}

/// A [`Finish`] as a mathematical value.
#[verifier::ext_equal]
pub struct FinishView {
    pub result: Result<(), Seq<char>>,
    pub cleanup_error: Option<Seq<char>>,
}

impl Finish {
    pub open spec fn view(&self) -> FinishView {
        FinishView {
            result: outcome_view(self.result),
            cleanup_error: text_view(self.cleanup_error),
        }
    }
}

/// A finish that may not have come.
pub open spec fn finish_view(f: Option<Finish>) -> Option<FinishView> {
    match f {
        Some(f) => Some(f@),
        None => None,
    }
}

/// Writing ended with the error `e`.
pub open spec fn failed(e: Seq<char>) -> FinishView {
    FinishView { result: Err(e), cleanup_error: None }
}

/// How a write is told to have gone.
pub open spec fn told(outcome: Result<(), Seq<char>>) -> Result<(), Seq<char>> {
    match outcome {
        Ok(_) => Ok(()),
        Err(e) => Err("uinput write: "@ + e),
    }
}

impl UInputView {
    /// No key is pressed, nothing is being written, and nothing has failed.
    pub open spec fn fresh() -> UInputView {
        UInputView {
            pressed: Seq::empty(),
            stage: Stage::Idle,
            plan: Seq::empty(),
            codes: Seq::empty(),
            at: 0,
            errors: Seq::empty(),
            cause: None,
            rescue: false,
        }
    }

    /// No key is listed twice, and the next write exists.
    pub open spec fn wf(self) -> bool {
        &&& self.pressed.no_duplicates()
        &&& (self.stage == Stage::Key || self.stage == Stage::Syn) ==> self.at < self.plan.len()
        &&& self.stage == Stage::Release ==> self.at < self.codes.len()
    }

    /// The event to write next.
    pub open spec fn next_write(self) -> Option<InputEvent> {
        match self.stage {
            Stage::Idle => None,
            Stage::Key => Some(action_event(self.plan[self.at as int])),
            Stage::Syn => Some(syn_event()),
            Stage::Release => Some(key_event(self.codes[self.at as int], false)),
            Stage::ReleaseSyn => Some(syn_event()),
        }
    }

    /// Writing of `plan` begins.
    pub open spec fn begun(self, plan: Seq<ChordAction>, rescue: bool) -> UInputView {
        UInputView { stage: Stage::Key, plan, at: 0, rescue, ..self }
    }

    /// The release of all pressed keys, in reverse press order, begins.
    pub open spec fn releasing(self, cause: Option<Seq<char>>) -> UInputView {
        UInputView {
            stage: if self.pressed.len() == 0 {
                Stage::ReleaseSyn
            } else {
                Stage::Release
            },
            codes: self.pressed.reverse(),
            at: 0,
            errors: Seq::empty(),
            cause,
            ..self
        }
    }

    /// The write of an action's events failed.
    pub open spec fn after_failure(self, e: Seq<char>) -> (UInputView, Option<FinishView>) {
        if self.rescue {
            (self.releasing(Some(e)), None)
        } else {
            (UInputView { stage: Stage::Idle, ..self }, Some(failed(e)))
        }
    }

    /// All keys were released, or tried to. Only where every write worked are the
    /// keys forgotten.
    pub open spec fn after_cleanup(self, errors: Seq<Seq<char>>) -> (UInputView, Option<FinishView>) {
        let worked = errors.len() == 0;
        (
            UInputView {
                stage: Stage::Idle,
                errors,
                pressed: if worked {
                    Seq::empty()
                } else {
                    self.pressed
                },
                ..self
            },
            Some(
                match self.cause {
                    Some(e) => FinishView {
                        result: Err(e),
                        cleanup_error: if worked {
                            None
                        } else {
                            Some(joined(errors))
                        },
                    },
                    None => FinishView {
                        result: if worked {
                            Ok(())
                        } else {
                            Err(joined(errors))
                        },
                        cleanup_error: None,
                    },
                },
            ),
        )
    }

    /// What follows the write that was due, by how it is told to have gone.
    pub open spec fn after(self, outcome: Result<(), Seq<char>>) -> (
        UInputView,
        Option<FinishView>,
    ) {
        match self.stage {
            Stage::Idle => (self, None),
            Stage::Key => match outcome {
                Ok(_) => (
                    UInputView {
                        stage: Stage::Syn,
                        pressed: noted(self.pressed, self.plan[self.at as int]),
                        ..self
                    },
                    None,
                ),
                Err(e) => self.after_failure(e),
            },
            Stage::Syn => match outcome {
                Ok(_) => if self.at + 1 == self.plan.len() {
                    (
                        UInputView { stage: Stage::Idle, at: self.at + 1, ..self },
                        Some(FinishView { result: Ok(()), cleanup_error: None }),
                    )
                } else {
                    (UInputView { stage: Stage::Key, at: self.at + 1, ..self }, None)
                },
                Err(e) => self.after_failure(e),
            },
            Stage::Release => (
                UInputView {
                    stage: if self.at + 1 == self.codes.len() {
                        Stage::ReleaseSyn
                    } else {
                        Stage::Release
                    },
                    at: self.at + 1,
                    errors: match outcome {
                        Ok(_) => self.errors,
                        Err(e) => self.errors.push(
                            "release key "@ + decimal(self.codes[self.at as int] as nat) + ": "@
                                + e,
                        ),
                    },
                    ..self
                },
                None,
            ),
            Stage::ReleaseSyn => self.after_cleanup(
                match outcome {
                    Ok(_) => self.errors,
                    Err(e) => self.errors.push("SYN_REPORT: "@ + e),
                },
            ),
        }
    }
}

/// A virtual keyboard: the keys pressed on it, and what is being written to it.
pub struct UInput {
    pressed: Vec<u16>,
    stage: Stage,
    plan: Vec<ChordAction>,
    codes: Vec<u16>,
    at: usize,
    errors: Vec<String>,
    cause: Option<String>,
    rescue: bool,
}

/// Joins `parts` with `; `.
fn join_errors(parts: &Vec<String>) -> (r: String)
    ensures
        r@ == joined(texts(parts@)),
{
    let mut r = String::new();
    let mut i: usize = 0;
    while i < parts.len()
        invariant
            i <= parts.len(),
            r@ == joined(texts(parts@.take(i as int))),
        decreases parts.len() - i,
    {
        let ghost now = texts(parts@.take(i + 1));
        assert(now.drop_last() =~= texts(parts@.take(i as int)));
        if i > 0 {
            r.append("; ");
        }
        r.append(&parts[i]);
        assert(i == 0 ==> r@ =~= now[0]);
        i += 1;
    }
    assert(parts@.take(i as int) =~= parts@);
    r
}

/// Takes `code` out of `codes`.
fn take_out(codes: &Vec<u16>, code: u16) -> (r: Vec<u16>)
    ensures
        r@ == without(codes@, code),
{
    let mut r: Vec<u16> = Vec::new();
    let mut i: usize = 0;
    while i < codes.len()
        invariant
            i <= codes.len(),
            r@ == without(codes@.take(i as int), code),
        decreases codes.len() - i,
    {
        assert(codes@.take(i + 1).drop_last() =~= codes@.take(i as int));
        if codes[i] != code {
            r.push(codes[i]);
        }
        i += 1;
    }
    assert(codes@.take(i as int) =~= codes@);
    r
}

proof fn lemma_without(codes: Seq<u16>, code: u16)
    ensures
        forall|c: u16| #[trigger]
            without(codes, code).contains(c) <==> c != code && codes.contains(c),
        codes.no_duplicates() ==> without(codes, code).no_duplicates(),
        without(codes, code).len() <= codes.len(),
    decreases codes.len(),
{
    if codes.len() > 0 {
        let before = codes.drop_last();
        lemma_without(before, code);
        let w = without(before, code);
        assert forall|c: u16| #[trigger] without(codes, code).contains(c) <==> c != code
            && codes.contains(c) by {
            assert(codes[codes.len() - 1] == codes.last());
            if before.contains(c) {
                let i = choose|i: int| 0 <= i < before.len() && before[i] == c;
                assert(codes[i] == c);
            }
            if codes.contains(c) && c != codes.last() {
                let i = choose|i: int| 0 <= i < codes.len() && codes[i] == c;
                assert(before[i] == c);
            }
            if codes.last() != code {
                let p = w.push(codes.last());
                assert(p[w.len() as int] == codes.last());
                if w.contains(c) {
                    let i = choose|i: int| 0 <= i < w.len() && w[i] == c;
                    assert(p[i] == c);
                }
            }
        }
        if codes.no_duplicates() && codes.last() != code {
            assert(before.no_duplicates());
            if w.contains(codes.last()) {
                assert(before.contains(codes.last()));
            }
        }
    }
}

impl UInput {
    /// The keyboard as a mathematical value.
    pub closed spec fn view(&self) -> UInputView {
        UInputView {
            pressed: self.pressed@,
            stage: self.stage,
            plan: self.plan@,
            codes: self.codes@,
            at: self.at as nat,
            errors: texts(self.errors@),
            cause: text_view(self.cause),
            rescue: self.rescue,
        }
    }

    /// A new keyboard: no key is pressed, nothing is being written, and nothing has
    /// failed.
    pub fn new() -> (r: UInput)
        ensures
            r@.wf(),
            r@ == UInputView::fresh(),
    {
        let errors: Vec<String> = Vec::new();
        assert(texts(errors@) =~= Seq::<Seq<char>>::empty());
        UInput {
            pressed: Vec::new(),
            stage: Stage::Idle,
            plan: Vec::new(),
            codes: Vec::new(),
            at: 0,
            errors,
            cause: None,
            rescue: false,
        }
    }

    /// A keyboard on a device, where that could be created.
    pub fn create(setup: Result<(), String>) -> (r: Result<UInput, String>)
        ensures
            match setup {
                Ok(_) => r matches Ok(u) && u@.wf() && u@ == UInputView::fresh(),
                Err(e) => r matches Err(m) && m == e,
            },
    {
        match setup {
            Ok(_) => Ok(UInput::new()),
            Err(e) => Err(e),
        }
    }

    /// The keys that are pressed on the device, in press order.
    pub fn pressed(&self) -> (r: &Vec<u16>)
        ensures
            r@ == self@.pressed,
    {
        &self.pressed
    }

    /// Begins the write of one key press or release, with the end of its group.
    pub fn key(&mut self, code: u16, press: bool)
        requires
            old(self)@.wf(),
            old(self)@.stage == Stage::Idle,
        ensures
            final(self)@.wf(),
            final(self)@ == old(self)@.begun(
                seq![
                    if press {
                        ChordAction::Press(code)
                    } else {
                        ChordAction::Release(code)
                    },
                ],
                false,
            ),
    {
        let mut plan: Vec<ChordAction> = Vec::new();
        if press {
            plan.push(ChordAction::Press(code));
        } else {
            plan.push(ChordAction::Release(code));
        }
        self.plan = plan;
        self.stage = Stage::Key;
        self.at = 0;
        self.rescue = false;
        assert(self@ =~= old(self)@.begun(self.plan@, false));
    }

    /// Begins a chord, once the physical modifiers are released. Where the wait
    /// for that failed, nothing is written and the failure is the result.
    pub fn chord(&mut self, waited: Result<(), String>, key: u16, mods: &[u16]) -> (r: Option<
        Finish,
    >)
        requires
            old(self)@.wf(),
            old(self)@.stage == Stage::Idle,
        ensures
            final(self)@.wf(),
            match waited {
                Ok(_) => r is None && final(self)@ == old(self)@.begun(
                    plan_of(key, mods@),
                    true,
                ),
                Err(e) => finish_view(r) == Some(failed(e@)) && final(self)@ == old(self)@,
            },
    {
        match waited {
            Ok(_) => {
                self.plan = chord_plan(key, mods);
                self.stage = Stage::Key;
                self.at = 0;
                self.rescue = true;
                None
            },
            Err(e) => Some(Finish { result: Err(e), cleanup_error: None }),
        }
    }

    /// Begins the release of all pressed keys, in reverse press order.
    pub fn cleanup(&mut self)
        requires
            old(self)@.wf(),
            old(self)@.stage == Stage::Idle,
        ensures
            final(self)@.wf(),
            final(self)@ == old(self)@.releasing(None),
    {
        self.release(None);
    }

    fn release(&mut self, cause: Option<String>)
        requires
            old(self)@.wf(),
        ensures
            final(self)@.wf(),
            final(self)@ == old(self)@.releasing(text_view(cause)),
    {
        let mut codes: Vec<u16> = Vec::new();
        let mut i: usize = self.pressed.len();
        while i > 0
            invariant
                i <= self.pressed.len(),
                self@ == old(self)@,
                codes@ == self.pressed@.reverse().take(self.pressed.len() - i),
            decreases i,
        {
            i -= 1;
            codes.push(self.pressed[i]);
            assert(codes@ =~= self.pressed@.reverse().take(self.pressed.len() - i));
        }
        assert(codes@ =~= self.pressed@.reverse());
        if codes.len() == 0 {
            self.stage = Stage::ReleaseSyn;
        } else {
            self.stage = Stage::Release;
        }
        self.codes = codes;
        self.at = 0;
        self.errors = Vec::new();
        self.cause = cause;
        assert(texts(self.errors@) =~= Seq::empty());
    }

    /// The event to write to the device next.
    pub fn next_write(&self) -> (r: Option<InputEvent>)
        requires
            self@.wf(),
        ensures
            r == self@.next_write(),
    {
        match self.stage {
            Stage::Idle => None,
            Stage::Key => Some(
                match self.plan[self.at] {
                    ChordAction::Press(code) => InputEvent { type_: EV_KEY, code, value: 1 },
                    ChordAction::Release(code) => InputEvent { type_: EV_KEY, code, value: 0 },
                },
            ),
            Stage::Release => Some(
                InputEvent { type_: EV_KEY, code: self.codes[self.at], value: 0 },
            ),
            Stage::Syn | Stage::ReleaseSyn => Some(
                InputEvent { type_: EV_SYN, code: SYN_REPORT, value: 0 },
            ),
        }
    }

    fn fail(&mut self, e: String) -> (r: Option<Finish>)
        requires
            old(self)@.wf(),
        ensures
            final(self)@.wf(),
            final(self)@ == old(self)@.after_failure(e@).0,
            finish_view(r) == old(self)@.after_failure(e@).1,
    {
        if self.rescue {
            self.release(Some(e));
            None
        } else {
            self.stage = Stage::Idle;
            Some(Finish { result: Err(e), cleanup_error: None })
        }
    }

    fn track(&mut self, a: ChordAction)
        requires
            old(self)@.wf(),
        ensures
            final(self)@.wf(),
            final(self)@ == (UInputView { pressed: noted(old(self)@.pressed, a), ..old(self)@ }),
    {
        match a {
            ChordAction::Press(c) => {
                if !has_code(&self.pressed, c) {
                    self.pressed.push(c);
                }
            },
            ChordAction::Release(c) => {
                proof {
                    lemma_without(self.pressed@, c);
                }
                self.pressed = take_out(&self.pressed, c);
            },
        }
    }

    /// Takes in how the write of [`UInput::next_write`] went. A finish comes when
    /// nothing is left to write.
    pub fn wrote(&mut self, outcome: Result<(), String>) -> (r: Option<Finish>)
        requires
            old(self)@.wf(),
        ensures
            final(self)@.wf(),
            final(self)@ == old(self)@.after(told(outcome_view(outcome))).0,
            finish_view(r) == old(self)@.after(told(outcome_view(outcome))).1,
    {
        let outcome = match outcome {
            Ok(_) => Ok(()),
            Err(e) => Err(cat("uinput write: ", &e)),
        };
        match self.stage {
            Stage::Idle => None,
            Stage::Key => match outcome {
                Ok(_) => {
                    let a = self.plan[self.at];
                    self.track(a);
                    self.stage = Stage::Syn;
                    None
                },
                Err(e) => self.fail(e),
            },
            Stage::Syn => match outcome {
                Ok(_) => {
                    assert(self.at < self.plan.len());
                    self.at += 1;
                    if self.at == self.plan.len() {
                        self.stage = Stage::Idle;
                        Some(Finish { result: Ok(()), cleanup_error: None })
                    } else {
                        self.stage = Stage::Key;
                        None
                    }
                },
                Err(e) => self.fail(e),
            },
            Stage::Release => {
                if let Err(e) = outcome {
                    let mut m = "release key ".to_owned();
                    m.append(&decimal_text(self.codes[self.at] as u64));
                    m.append(": ");
                    m.append(&e);
                    let ghost before = texts(self.errors@);
                    self.errors.push(m);
                    assert(texts(self.errors@) =~= before.push(m@));
                }
                assert(self.at < self.codes.len());
                self.at += 1;
                if self.at == self.codes.len() {
                    self.stage = Stage::ReleaseSyn;
                }
                None
            },
            Stage::ReleaseSyn => {
                if let Err(e) = outcome {
                    let m = cat("SYN_REPORT: ", &e);
                    let ghost before = texts(self.errors@);
                    self.errors.push(m);
                    assert(texts(self.errors@) =~= before.push(m@));
                }
                self.stage = Stage::Idle;
                let worked = self.errors.len() == 0;
                if worked {
                    self.pressed = Vec::new();
                }
                let why = if worked {
                    None
                } else {
                    Some(join_errors(&self.errors))
                };
                match &self.cause {
                    Some(e) => Some(Finish { result: Err(e.clone()), cleanup_error: why }),
                    None => Some(
                        Finish {
                            result: match why {
                                Some(e) => Err(e),
                                None => Ok(()),
                            },
                            cleanup_error: None,
                        },
                    ),
                }
            },
        }
    }
}

// ---------------------------------------------------------------------------
// Laws
// ---------------------------------------------------------------------------

/// The keys that are down on a device after an event.
pub open spec fn down_after(down: Set<u16>, e: InputEvent) -> Set<u16> {
    if e.type_ != EV_KEY {
        down
    } else if e.value == 0 {
        down.remove(e.code)
    } else {
        down.insert(e.code)
    }
}

/// The keys that are down after the write that was due, by how it went.
pub open spec fn down_then(v: UInputView, down: Set<u16>, outcome: Result<(), Seq<char>>) -> Set<
    u16,
> {
    match v.next_write() {
        Some(e) => if outcome is Ok {
            down_after(down, e)
        } else {
            down
        },
        None => down,
    }
}

/// Every key that is down on the device is tracked. While keys are being released
/// and every write has worked, only the keys still to come are down.
pub open spec fn covers(v: UInputView, down: Set<u16>) -> bool {
    &&& v.wf()
    &&& forall|c: u16| #[trigger] down.contains(c) ==> v.pressed.contains(c)
    &&& v.stage == Stage::Release && v.errors.len() == 0 ==> forall|c: u16| #[trigger]
        down.contains(c) ==> v.codes.skip(v.at as int).contains(c)
    &&& v.stage == Stage::ReleaseSyn && v.errors.len() == 0 ==> forall|c: u16| !#[trigger]
        down.contains(c)
}

proof fn lemma_releasing_covers(v: UInputView, down: Set<u16>, cause: Option<Seq<char>>)
    requires
        v.wf(),
        forall|c: u16| #[trigger] down.contains(c) ==> v.pressed.contains(c),
    ensures
        covers(v.releasing(cause), down),
{
    let w = v.releasing(cause);
    assert forall|c: u16| #[trigger] down.contains(c) && w.stage == Stage::Release implies w.codes.skip(
        0,
    ).contains(c) by {
        let i = choose|i: int| 0 <= i < v.pressed.len() && v.pressed[i] == c;
        assert(w.codes.skip(0)[v.pressed.len() - 1 - i] == c);
    }
}

/// A key that is down on the device is always tracked, whichever writes work and
/// whichever fail.
pub proof fn law_no_key_is_lost(v: UInputView, down: Set<u16>, outcome: Result<(), Seq<char>>)
    requires
        covers(v, down),
    ensures
        covers(v.after(outcome).0, down_then(v, down, outcome)),
{
    let w = v.after(outcome).0;
    let d = down_then(v, down, outcome);
    match v.stage {
        Stage::Idle => {},
        Stage::Key => {
            let a = v.plan[v.at as int];
            match outcome {
                Ok(_) => {
                    match a {
                        ChordAction::Press(k) => {
                            assert(v.pressed.push(k)[v.pressed.len() as int] == k);
                            assert forall|c: u16| #[trigger] d.contains(c) implies w.pressed.contains(
                                c,
                            ) by {
                                if c != k {
                                    let i = choose|i: int|
                                        0 <= i < v.pressed.len() && v.pressed[i] == c;
                                    assert(w.pressed[i] == c);
                                }
                            }
                        },
                        ChordAction::Release(k) => {
                            lemma_without(v.pressed, k);
                        },
                    }
                },
                Err(e) => {
                    if v.rescue {
                        lemma_releasing_covers(v, down, Some(e));
                    }
                },
            }
        },
        Stage::Syn => {
            if let Err(e) = outcome {
                if v.rescue {
                    lemma_releasing_covers(v, down, Some(e));
                }
            }
        },
        Stage::Release => {
            if w.errors.len() == 0 {
                assert(outcome is Ok);
                assert forall|c: u16| #[trigger] d.contains(c) implies v.codes.skip(
                    v.at as int + 1,
                ).contains(c) by {
                    let rest = v.codes.skip(v.at as int);
                    let i = choose|i: int| 0 <= i < rest.len() && rest[i] == c;
                    assert(i != 0);
                    assert(v.codes.skip(v.at as int + 1)[i - 1] == c);
                }
                if w.stage == Stage::ReleaseSyn {
                    assert(v.codes.skip(v.at as int + 1).len() == 0);
                }
            }
        },
        Stage::ReleaseSyn => {},
    }
}

/// When all keys were to be released and no write failed, no key is down on the
/// device any more.
pub proof fn law_cleanup_leaves_no_key_down(
    v: UInputView,
    down: Set<u16>,
    outcome: Result<(), Seq<char>>,
)
    requires
        covers(v, down),
        v.stage == Stage::ReleaseSyn,
        v.after(outcome).0.errors.len() == 0,
    ensures
        v.after(outcome).0.pressed == Seq::<u16>::empty(),
        down_then(v, down, outcome) =~= Set::<u16>::empty(),
{
}

/// Where a write failed while keys were being released, all of them stay tracked,
/// so that the release can be tried again.
pub proof fn law_failed_cleanup_keeps_keys(v: UInputView, outcome: Result<(), Seq<char>>)
    requires
        v.stage == Stage::Release || v.stage == Stage::ReleaseSyn,
        v.after(outcome).0.errors.len() > 0,
    ensures
        v.after(outcome).0.pressed == v.pressed,
{
}

/// The state after `n` writes that all worked.
pub open spec fn after_ok(v: UInputView, n: nat) -> UInputView
    decreases n,
{
    if n == 0 {
        v
    } else {
        after_ok(v, (n - 1) as nat).after(Ok(())).0
    }
}

/// The keys that are pressed after the actions of `plan`.
pub open spec fn noted_all(pressed: Seq<u16>, plan: Seq<ChordAction>) -> Seq<u16>
    decreases plan.len(),
{
    if plan.len() == 0 {
        pressed
    } else {
        noted(noted_all(pressed, plan.drop_last()), plan.last())
    }
}

/// Where every write works, each action of a plan is written as its key event and
/// the end of its group, in order and with nothing between, and the plan ends with
/// success.
pub proof fn law_plan_is_written_in_order(
    v: UInputView,
    plan: Seq<ChordAction>,
    rescue: bool,
    i: nat,
)
    requires
        i < plan.len(),
    ensures
        after_ok(v.begun(plan, rescue), 2 * i).next_write() == Some(action_event(plan[i as int])),
        after_ok(v.begun(plan, rescue), 2 * i + 1).next_write() == Some(syn_event()),
        after_ok(v.begun(plan, rescue), 2 * i + 2) == (UInputView {
            stage: if i + 1 == plan.len() {
                Stage::Idle
            } else {
                Stage::Key
            },
            at: i + 1,
            pressed: noted_all(v.pressed, plan.take(i as int + 1)),
            ..v.begun(plan, rescue)
        }),
        after_ok(v.begun(plan, rescue), 2 * i + 1).after(Ok(())).1 == if i + 1 == plan.len() {
            Some(FinishView { result: Ok(()), cleanup_error: None })
        } else {
            None
        },
    decreases i,
{
    let start = v.begun(plan, rescue);
    reveal_with_fuel(after_ok, 3);
    assert(plan.take(i as int + 1).drop_last() =~= plan.take(i as int));
    assert(plan.take(i as int + 1).last() == plan[i as int]);
    if i == 0 {
        assert(plan.take(0) =~= Seq::empty());
    } else {
        law_plan_is_written_in_order(v, plan, rescue, (i - 1) as nat);
        assert(2 * (i - 1) + 2 == 2 * i);
    }
    assert(after_ok(start, 2 * i) == (UInputView {
        stage: Stage::Key,
        at: i,
        pressed: noted_all(v.pressed, plan.take(i as int)),
        ..start
    }));
    assert(after_ok(start, 2 * i + 1) == after_ok(start, 2 * i).after(Ok(())).0);
    assert(after_ok(start, 2 * i + 2) == after_ok(start, 2 * i + 1).after(Ok(())).0);
}

proof fn lemma_noted_concat(pressed: Seq<u16>, a: Seq<ChordAction>, b: Seq<ChordAction>)
    ensures
        noted_all(pressed, a + b) == noted_all(noted_all(pressed, a), b),
    decreases b.len(),
{
    if b.len() == 0 {
        assert(a + b =~= a);
    } else {
        assert((a + b).drop_last() =~= a + b.drop_last());
        lemma_noted_concat(pressed, a, b.drop_last());
    }
}

/// Pressing `codes` adds some of them behind the keys that are pressed.
proof fn lemma_noted_presses(pressed: Seq<u16>, codes: Seq<u16>) -> (added: Seq<u16>)
    ensures
        noted_all(pressed, presses(codes)) == pressed + added,
        forall|i: int| 0 <= i < added.len() ==> codes.contains(#[trigger] added[i]),
    decreases codes.len(),
{
    if codes.len() == 0 {
        let added = Seq::<u16>::empty();
        assert(pressed + added =~= pressed);
        added
    } else {
        let before = codes.drop_last();
        let last = codes.last();
        assert(presses(codes).drop_last() =~= presses(before));
        let some = lemma_noted_presses(pressed, before);
        let added = if (pressed + some).contains(last) {
            some
        } else {
            some.push(last)
        };
        assert((pressed + some).push(last) =~= pressed + some.push(last));
        assert forall|i: int| 0 <= i < added.len() implies codes.contains(#[trigger] added[i]) by {
            if i < some.len() {
                assert(before.contains(some[i]));
                let k = choose|k: int| 0 <= k < before.len() && before[k] == some[i];
                assert(codes[k] == added[i]);
            } else {
                assert(codes[codes.len() - 1] == added[i]);
            }
        }
        added
    }
}

proof fn lemma_without_is_filter(codes: Seq<u16>, code: u16)
    ensures
        without(codes, code) == codes.filter(|c: u16| c != code),
    decreases codes.len(),
{
    reveal(Seq::filter);
    if codes.len() > 0 {
        lemma_without_is_filter(codes.drop_last(), code);
    }
}

proof fn lemma_filter_twice(s: Seq<u16>, p: spec_fn(u16) -> bool, q: spec_fn(u16) -> bool)
    ensures
        s.filter(p).filter(q) == s.filter(|c: u16| p(c) && q(c)),
    decreases s.len(),
{
    reveal(Seq::filter);
    if s.len() > 0 {
        lemma_filter_twice(s.drop_last(), p, q);
        if p(s.last()) {
            assert(s.filter(p).drop_last() =~= s.drop_last().filter(p));
        }
    }
}

proof fn lemma_filter_none(s: Seq<u16>, p: spec_fn(u16) -> bool)
    requires
        forall|i: int| 0 <= i < s.len() ==> !p(#[trigger] s[i]),
    ensures
        s.filter(p) == Seq::<u16>::empty(),
    decreases s.len(),
{
    reveal(Seq::filter);
    if s.len() > 0 {
        assert(!p(s[s.len() - 1]));
        assert forall|i: int| 0 <= i < s.drop_last().len() implies !p(
            #[trigger] s.drop_last()[i],
        ) by {
            assert(!p(s[i]));
        }
        lemma_filter_none(s.drop_last(), p);
    }
}

proof fn lemma_noted_releases(pressed: Seq<u16>, codes: Seq<u16>)
    ensures
        noted_all(pressed, releases(codes)) == pressed.filter(|c: u16| !codes.contains(c)),
    decreases codes.len(),
{
    let left = |c: u16| !codes.contains(c);
    if codes.len() == 0 {
        assert(releases(codes).len() == 0);
        lemma_filter_all(pressed, left);
    } else {
        let before = codes.drop_last();
        let last = codes.last();
        let first = seq![ChordAction::Release(last)];
        let not_last = |c: u16| c != last;
        let not_before = |c: u16| !before.contains(c);
        assert(releases(codes) =~= first + releases(before));
        lemma_noted_concat(pressed, first, releases(before));
        reveal_with_fuel(noted_all, 2);
        assert(first.drop_last() =~= Seq::empty());
        lemma_without_is_filter(pressed, last);
        lemma_noted_releases(pressed.filter(not_last), before);
        lemma_filter_twice(pressed, not_last, not_before);
        assert forall|c: u16| (not_last(c) && not_before(c)) == #[trigger] left(c) by {
            assert(codes[codes.len() - 1] == last);
            if before.contains(c) {
                let k = choose|k: int| 0 <= k < before.len() && before[k] == c;
                assert(codes[k] == c);
            }
            if codes.contains(c) && c != last {
                let k = choose|k: int| 0 <= k < codes.len() && codes[k] == c;
                assert(before[k] == c);
            }
        }
        assert((|c: u16| not_last(c) && not_before(c)) =~= left);
    }
}

proof fn lemma_filter_all(s: Seq<u16>, p: spec_fn(u16) -> bool)
    requires
        forall|i: int| 0 <= i < s.len() ==> p(#[trigger] s[i]),
    ensures
        s.filter(p) == s,
    decreases s.len(),
{
    reveal(Seq::filter);
    if s.len() > 0 {
        assert(p(s[s.len() - 1]));
        assert forall|i: int| 0 <= i < s.drop_last().len() implies p(
            #[trigger] s.drop_last()[i],
        ) by {
            assert(p(s[i]));
        }
        lemma_filter_all(s.drop_last(), p);
        assert(s.drop_last().push(s.last()) =~= s);
    }
}

proof fn lemma_noted_tap(pressed: Seq<u16>, key: u16)
    ensures
        noted_all(pressed, seq![ChordAction::Press(key), ChordAction::Release(key)])
            == pressed.filter(|c: u16| c != key),
{
    let tap = seq![ChordAction::Press(key), ChordAction::Release(key)];
    reveal_with_fuel(noted_all, 3);
    assert(tap.drop_last() =~= seq![ChordAction::Press(key)]);
    assert(tap.drop_last().drop_last() =~= Seq::empty());
    assert(pressed.push(key).drop_last() =~= pressed);
    lemma_without_is_filter(pressed, key);
}

/// A chord leaves pressed, in their order, exactly the keys that were pressed before
/// and are not its own: what the chord pressed is released, and so are its key and its
/// modifiers where they were pressed before.
pub proof fn law_chord_leaves_other_keys(pressed: Seq<u16>, key: u16, mods: Seq<u16>)
    ensures
        noted_all(pressed, plan_of(key, mods)) == pressed.filter(
            |c: u16| c != key && !mods.contains(c),
        ),
{
    let u = unique_mods(key, mods);
    let tap = seq![ChordAction::Press(key), ChordAction::Release(key)];
    let not_key = |c: u16| c != key;
    let not_mod = |c: u16| !u.contains(c);
    let both = |c: u16| not_key(c) && not_mod(c);
    law_modifiers_are_unique(key, mods);
    lemma_noted_concat(pressed, presses(u) + tap, releases(u));
    lemma_noted_concat(pressed, presses(u), tap);
    let added = lemma_noted_presses(pressed, u);
    let held = pressed + added;
    lemma_noted_tap(held, key);
    lemma_noted_releases(held.filter(not_key), u);
    lemma_filter_twice(held, not_key, not_mod);
    Seq::filter_distributes_over_add(pressed, added, both);
    lemma_filter_none(added, both);
    assert(pressed.filter(both) + Seq::<u16>::empty() =~= pressed.filter(both));
    assert(both =~= (|c: u16| c != key && !mods.contains(c)));
}

/// A chord is balanced: on a keyboard with no key pressed, it ends with no key
/// pressed.
pub proof fn law_chord_is_balanced(key: u16, mods: Seq<u16>)
    ensures
        noted_all(Seq::empty(), plan_of(key, mods)) == Seq::<u16>::empty(),
{
    law_chord_leaves_other_keys(Seq::empty(), key, mods);
    lemma_filter_none(Seq::empty(), |c: u16| c != key && !mods.contains(c));
}

/// A chord whose writes all work ends with nothing left to write, and leaves pressed
/// exactly the keys that were pressed before and are not its own.
pub proof fn law_chord_ends_with_other_keys(v: UInputView, key: u16, mods: Seq<u16>)
    ensures
        after_ok(v.begun(plan_of(key, mods), true), 2 * plan_of(key, mods).len()).stage
            == Stage::Idle,
        after_ok(v.begun(plan_of(key, mods), true), 2 * plan_of(key, mods).len()).pressed
            == v.pressed.filter(|c: u16| c != key && !mods.contains(c)),
{
    let plan = plan_of(key, mods);
    let last = (plan.len() - 1) as nat;
    law_plan_is_written_in_order(v, plan, true, last);
    assert(2 * last + 2 == 2 * plan.len());
    assert(plan.take(last as int + 1) =~= plan);
    law_chord_leaves_other_keys(v.pressed, key, mods);
}

/// On a keyboard with no key pressed, a chord whose writes all work ends with
/// nothing left to write and no key pressed.
pub proof fn law_chord_leaves_no_key_pressed(v: UInputView, key: u16, mods: Seq<u16>)
    requires
        v.pressed == Seq::<u16>::empty(),
    ensures
        after_ok(v.begun(plan_of(key, mods), true), 2 * plan_of(key, mods).len()).stage
            == Stage::Idle,
        after_ok(v.begun(plan_of(key, mods), true), 2 * plan_of(key, mods).len()).pressed == Seq::<
            u16,
        >::empty(),
{
    law_chord_ends_with_other_keys(v, key, mods);
    lemma_filter_none(v.pressed, |c: u16| c != key && !mods.contains(c));
}

// ---------------------------------------------------------------------------
// A whole cleanup
// ---------------------------------------------------------------------------

/// The state after writes that went as `outcomes` tell.
pub open spec fn after_writes(v: UInputView, outcomes: Seq<Result<(), Seq<char>>>) -> UInputView
    decreases outcomes.len(),
{
    if outcomes.len() == 0 {
        v
    } else {
        after_writes(v, outcomes.drop_last()).after(outcomes.last()).0
    }
}

/// Every write worked.
pub open spec fn all_worked(outcomes: Seq<Result<(), Seq<char>>>) -> bool {
    forall|i: int| 0 <= i < outcomes.len() ==> (#[trigger] outcomes[i]) is Ok
}

/// What is told of the releases of `codes` that failed, in order.
pub open spec fn release_errors(codes: Seq<u16>, outcomes: Seq<Result<(), Seq<char>>>) -> Seq<
    Seq<char>,
>
    decreases outcomes.len(),
{
    if outcomes.len() == 0 {
        Seq::empty()
    } else {
        let before = release_errors(codes, outcomes.drop_last());
        match outcomes.last() {
            Ok(_) => before,
            Err(e) => before.push(
                "release key "@ + decimal(codes[outcomes.len() - 1] as nat) + ": "@ + e,
            ),
        }
    }
}

/// What is told of a whole cleanup of the keys `codes`: the releases that failed, and
/// the end of the group where that failed.
pub open spec fn cleanup_errors(codes: Seq<u16>, outcomes: Seq<Result<(), Seq<char>>>) -> Seq<
    Seq<char>,
> {
    let releases = release_errors(codes, outcomes.drop_last());
    match outcomes.last() {
        Ok(_) => releases,
        Err(e) => releases.push("SYN_REPORT: "@ + e),
    }
}

proof fn lemma_release_errors(codes: Seq<u16>, outcomes: Seq<Result<(), Seq<char>>>)
    ensures
        release_errors(codes, outcomes).len() == 0 <==> all_worked(outcomes),
    decreases outcomes.len(),
{
    if outcomes.len() > 0 {
        let before = outcomes.drop_last();
        lemma_release_errors(codes, before);
        assert(outcomes[outcomes.len() - 1] == outcomes.last());
        assert(forall|i: int| 0 <= i < before.len() ==> before[i] == #[trigger] outcomes[i]);
        if !all_worked(before) {
            let i = choose|i: int| 0 <= i < before.len() && (#[trigger] before[i]) !is Ok;
            assert(outcomes[i] !is Ok);
        } else {
            assert forall|i: int|
                0 <= i < outcomes.len() && outcomes.last() is Ok implies (
            #[trigger] outcomes[i]) is Ok by {
                if i < before.len() {
                    assert(before[i] is Ok);
                }
            }
        }
    }
}

proof fn lemma_cleanup_at(
    v: UInputView,
    cause: Option<Seq<char>>,
    outcomes: Seq<Result<(), Seq<char>>>,
)
    requires
        outcomes.len() <= v.pressed.len(),
    ensures
        after_writes(v.releasing(cause), outcomes) == (UInputView {
            stage: if outcomes.len() == v.pressed.len() {
                Stage::ReleaseSyn
            } else {
                Stage::Release
            },
            at: outcomes.len(),
            errors: release_errors(v.pressed.reverse(), outcomes),
            ..v.releasing(cause)
        }),
    decreases outcomes.len(),
{
    if outcomes.len() > 0 {
        lemma_cleanup_at(v, cause, outcomes.drop_last());
    }
}

/// A whole cleanup, whichever writes work: the keys that are pressed are released in
/// reverse press order and the group is ended, each by one write, and a write that
/// fails stops none of those behind it. It works exactly where every write does; then
/// no key is pressed any more, and otherwise all of them stay tracked. What failed is
/// told in order, beside what led to the cleanup where a chord did.
pub proof fn law_cleanup_runs_to_its_end(
    v: UInputView,
    cause: Option<Seq<char>>,
    outcomes: Seq<Result<(), Seq<char>>>,
)
    requires
        outcomes.len() == v.pressed.len() + 1,
    ensures
        forall|i: int|
            0 <= i < v.pressed.len() ==> (#[trigger] after_writes(
                v.releasing(cause),
                outcomes.take(i),
            )).next_write() == Some(key_event(v.pressed[v.pressed.len() - 1 - i], false))
                && after_writes(v.releasing(cause), outcomes.take(i)).after(outcomes[i]).1 is None,
        after_writes(v.releasing(cause), outcomes.drop_last()).next_write() == Some(syn_event()),
        after_writes(v.releasing(cause), outcomes).stage == Stage::Idle,
        after_writes(v.releasing(cause), outcomes).pressed == if all_worked(outcomes) {
            Seq::empty()
        } else {
            v.pressed
        },
        ({
            let told = if all_worked(outcomes) {
                None
            } else {
                Some(joined(cleanup_errors(v.pressed.reverse(), outcomes)))
            };
            after_writes(v.releasing(cause), outcomes.drop_last()).after(outcomes.last()).1 == Some(
                match (cause, told) {
                    (Some(e), _) => FinishView { result: Err(e), cleanup_error: told },
                    (None, Some(e)) => FinishView { result: Err(e), cleanup_error: None },
                    (None, None) => FinishView { result: Ok(()), cleanup_error: None },
                },
            )
        }),
{
    let n = v.pressed.len() as int;
    let codes = v.pressed.reverse();
    let before = outcomes.drop_last();
    assert forall|i: int| 0 <= i < n implies (#[trigger] after_writes(
        v.releasing(cause),
        outcomes.take(i),
    )).next_write() == Some(key_event(v.pressed[n - 1 - i], false)) && after_writes(
        v.releasing(cause),
        outcomes.take(i),
    ).after(outcomes[i]).1 is None by {
        lemma_cleanup_at(v, cause, outcomes.take(i));
    }
    lemma_cleanup_at(v, cause, before);
    lemma_release_errors(codes, before);
    assert(outcomes[n] == outcomes.last());
    assert(forall|i: int| 0 <= i < n ==> before[i] == #[trigger] outcomes[i]);
    assert(all_worked(outcomes) <==> all_worked(before) && outcomes.last() is Ok) by {
        if all_worked(before) && outcomes.last() is Ok {
            assert forall|i: int| 0 <= i < outcomes.len() implies (#[trigger] outcomes[i]) is Ok by {
                if i < n {
                    assert(before[i] is Ok);
                }
            }
        }
        if all_worked(outcomes) {
            assert forall|i: int| 0 <= i < before.len() implies (#[trigger] before[i]) is Ok by {
                assert(outcomes[i] is Ok);
            }
        }
    }
}

// ---------------------------------------------------------------------------
// Chords and writes, one by one
// ---------------------------------------------------------------------------

proof fn lemma_plan_by_place(key: u16, mods: Seq<u16>)
    ensures
        plan_of(key, mods).len() == 2 * unique_mods(key, mods).len() + 2,
        forall|i: int|
            0 <= i < unique_mods(key, mods).len() ==> #[trigger] plan_of(key, mods)[i]
                == ChordAction::Press(unique_mods(key, mods)[i]),
        plan_of(key, mods)[unique_mods(key, mods).len() as int] == ChordAction::Press(key),
        plan_of(key, mods)[unique_mods(key, mods).len() as int + 1] == ChordAction::Release(key),
        forall|i: int|
            unique_mods(key, mods).len() + 2 <= i < plan_of(key, mods).len() ==> #[trigger] plan_of(
                key,
                mods,
            )[i] == ChordAction::Release(unique_mods(key, mods)[plan_of(key, mods).len() - 1 - i]),
{
}

/// The key of a chord is tapped in its middle, once; every other action presses a
/// modifier before, or releases one behind, that was asked for and is not the key.
pub proof fn law_chord_taps_its_key_in_the_middle(key: u16, mods: Seq<u16>) -> (tap: int)
    ensures
        0 <= tap,
        plan_of(key, mods).len() == 2 * tap + 2,
        plan_of(key, mods)[tap] == ChordAction::Press(key),
        plan_of(key, mods)[tap + 1] == ChordAction::Release(key),
        forall|i: int|
            0 <= i < tap ==> (#[trigger] plan_of(key, mods)[i] matches ChordAction::Press(m) && m
                != key && mods.contains(m)),
        forall|i: int|
            tap + 2 <= i < plan_of(key, mods).len() ==> (#[trigger] plan_of(
                key,
                mods,
            )[i] matches ChordAction::Release(m) && m != key && mods.contains(m)),
{
    let u = unique_mods(key, mods);
    let tap = u.len() as int;
    lemma_plan_by_place(key, mods);
    law_modifiers_are_unique(key, mods);
    assert forall|i: int| 0 <= i < tap implies (#[trigger] plan_of(
        key,
        mods,
    )[i] matches ChordAction::Press(m) && m != key && mods.contains(m)) by {
        assert(u.contains(u[i]));
    }
    assert forall|i: int| tap + 2 <= i < plan_of(key, mods).len() implies (#[trigger] plan_of(
        key,
        mods,
    )[i] matches ChordAction::Release(m) && m != key && mods.contains(m)) by {
        assert(u.contains(u[plan_of(key, mods).len() - 1 - i]));
    }
    tap
}

/// Every modifier that a chord was asked for is pressed exactly once, before the key is
/// tapped, and released exactly once, behind it, at the place that mirrors its press.
pub proof fn law_chord_presses_every_modifier(key: u16, mods: Seq<u16>, m: u16) -> (at: (int, int))
    requires
        m != key,
        mods.contains(m),
    ensures
        0 <= at.0 < plan_of(key, mods).len() / 2 - 1,
        plan_of(key, mods).len() / 2 < at.1 < plan_of(key, mods).len(),
        at.0 + at.1 == plan_of(key, mods).len() - 1,
        forall|i: int|
            0 <= i < plan_of(key, mods).len() ==> (#[trigger] plan_of(key, mods)[i]
                == ChordAction::Press(m) <==> i == at.0),
        forall|i: int|
            0 <= i < plan_of(key, mods).len() ==> (#[trigger] plan_of(key, mods)[i]
                == ChordAction::Release(m) <==> i == at.1),
{
    let u = unique_mods(key, mods);
    let n = plan_of(key, mods).len() as int;
    lemma_plan_by_place(key, mods);
    law_modifiers_are_unique(key, mods);
    assert(u.contains(m));
    let k = choose|k: int| 0 <= k < u.len() && u[k] == m;
    (k, n - 1 - k)
}

/// The modifiers of a chord are pressed in the order in which they were asked for, each
/// at its first mention.
pub proof fn law_chord_presses_modifiers_in_order(key: u16, mods: Seq<u16>, i: int, j: int) -> (at: (
    int,
    int,
))
    requires
        0 <= i < j < mods.len(),
        mods[i] != key,
        mods[j] != key,
        forall|k: int| 0 <= k < i ==> mods[k] != mods[i],
        forall|k: int| 0 <= k < j ==> mods[k] != mods[j],
    ensures
        0 <= at.0 < at.1 < plan_of(key, mods).len(),
        plan_of(key, mods)[at.0] == ChordAction::Press(mods[i]),
        plan_of(key, mods)[at.1] == ChordAction::Press(mods[j]),
{
    let u = unique_mods(key, mods);
    lemma_plan_by_place(key, mods);
    law_modifiers_are_unique(key, mods);
    assert(u.contains(mods[i]));
    assert(u.contains(mods[j]));
    let a = choose|k: int| 0 <= k < u.len() && u[k] == mods[i];
    let b = choose|k: int| 0 <= k < u.len() && u[k] == mods[j];
    if b < a {
        law_modifiers_keep_order(key, mods, b, a, j, i);
    }
    (a, b)
}

/// The keys that are down after actions on a device that had none down.
pub open spec fn keys_down(plan: Seq<ChordAction>) -> Set<u16>
    decreases plan.len(),
{
    if plan.len() == 0 {
        Set::empty()
    } else {
        match plan.last() {
            ChordAction::Press(c) => keys_down(plan.drop_last()).insert(c),
            ChordAction::Release(c) => keys_down(plan.drop_last()).remove(c),
        }
    }
}

proof fn lemma_down_before_tap(key: u16, mods: Seq<u16>, k: int)
    requires
        0 <= k <= unique_mods(key, mods).len(),
    ensures
        forall|c: u16| #[trigger]
            keys_down(plan_of(key, mods).take(k)).contains(c) <==> unique_mods(key, mods).take(
                k,
            ).contains(c),
    decreases k,
{
    let u = unique_mods(key, mods);
    let plan = plan_of(key, mods);
    lemma_plan_by_place(key, mods);
    if k > 0 {
        lemma_down_before_tap(key, mods, k - 1);
        assert(plan.take(k).drop_last() =~= plan.take(k - 1));
        assert(plan.take(k).last() == plan[k - 1]);
        assert(plan[k - 1] == ChordAction::Press(u[k - 1]));
        let earlier = keys_down(plan.take(k - 1));
        assert(keys_down(plan.take(k)) == earlier.insert(u[k - 1]));
        assert forall|c: u16| #[trigger]
            keys_down(plan.take(k)).contains(c) <==> u.take(k).contains(c) by {
            assert(earlier.contains(c) <==> u.take(k - 1).contains(c));
            assert(u.take(k)[k - 1] == u[k - 1]);
            let less = u.take(k - 1);
            let more = u.take(k);
            if less.contains(c) {
                let x = choose|x: int| 0 <= x < less.len() && less[x] == c;
                assert(more[x] == c);
            }
            if more.contains(c) && c != u[k - 1] {
                let x = choose|x: int| 0 <= x < more.len() && more[x] == c;
                assert(less[x] == c);
            }
        }
    }
}

/// When the key of a chord goes down, exactly the key and every modifier that was asked
/// for are down: the application gets the whole chord.
pub proof fn law_whole_chord_is_down_at_the_tap(key: u16, mods: Seq<u16>, c: u16)
    ensures
        keys_down(plan_of(key, mods).take(plan_of(key, mods).len() as int / 2)).contains(c) <==> c
            == key || mods.contains(c),
{
    let u = unique_mods(key, mods);
    let plan = plan_of(key, mods);
    let k = u.len() as int;
    lemma_plan_by_place(key, mods);
    law_modifiers_are_unique(key, mods);
    lemma_down_before_tap(key, mods, k);
    assert(plan.take(k + 1).drop_last() =~= plan.take(k));
    assert(plan.take(k + 1).last() == plan[k]);
    assert(u.take(k) =~= u);
    assert(keys_down(plan.take(k)).contains(c) <==> u.contains(c));
}

/// A key that is pressed is tracked behind the others, unless it is there, and one that
/// is released is tracked no more; the others keep their order.
pub proof fn law_pressed_keys_are_tracked(pressed: Seq<u16>, code: u16)
    ensures
        pressed.contains(code) ==> noted(pressed, ChordAction::Press(code)) == pressed,
        !pressed.contains(code) ==> noted(pressed, ChordAction::Press(code)) == pressed.push(code),
        noted(pressed, ChordAction::Release(code)) == pressed.filter(|c: u16| c != code),
{
    lemma_without_is_filter(pressed, code);
}

/// Actions are tracked one after the other.
pub proof fn law_actions_are_tracked_in_turn(
    pressed: Seq<u16>,
    plan: Seq<ChordAction>,
    a: ChordAction,
)
    ensures
        noted_all(pressed, Seq::empty()) == pressed,
        noted_all(pressed, plan.push(a)) == noted(noted_all(pressed, plan), a),
{
    assert(plan.push(a).drop_last() =~= plan);
}

/// The events of presses, releases and the ends of groups, as a device takes them.
pub proof fn law_events_as_written(code: u16)
    ensures
        action_event(ChordAction::Press(code)) == (InputEvent { type_: 1, code, value: 1 }),
        action_event(ChordAction::Release(code)) == (InputEvent { type_: 1, code, value: 0 }),
        key_event(code, true) == (InputEvent { type_: 1, code, value: 1 }),
        key_event(code, false) == (InputEvent { type_: 1, code, value: 0 }),
        syn_event() == (InputEvent { type_: 0, code: 0, value: 0 }),
{
}

/// A chord or a key begins with its first action, and a cleanup with the release of the
/// key that was pressed last; neither forgets what is pressed.
pub proof fn law_writing_begins(
    v: UInputView,
    plan: Seq<ChordAction>,
    rescue: bool,
    cause: Option<Seq<char>>,
)
    requires
        plan.len() > 0,
    ensures
        v.begun(plan, rescue).pressed == v.pressed,
        v.begun(plan, rescue).rescue == rescue,
        v.begun(plan, rescue).next_write() == Some(action_event(plan[0])),
        v.releasing(cause).pressed == v.pressed,
        v.releasing(cause).cause == cause,
        v.releasing(cause).errors.len() == 0,
        v.releasing(cause).next_write() == if v.pressed.len() > 0 {
            Some(InputEvent { type_: 1, code: v.pressed.last(), value: 0 })
        } else {
            Some(InputEvent { type_: 0, code: 0, value: 0 })
        },
        UInputView::fresh().pressed.len() == 0,
        UInputView::fresh().next_write() is None,
{
}

/// A chord of which a write fails goes over to releasing every key that is pressed, and
/// is not told yet; a single key that fails is told at once, and nothing is forgotten.
pub proof fn law_failed_write_is_followed_up(v: UInputView, e: Seq<char>)
    requires
        v.stage == Stage::Key || v.stage == Stage::Syn,
    ensures
        v.rescue ==> v.after(Err(e)) == (v.releasing(Some(e)), None::<FinishView>),
        !v.rescue ==> v.after(Err(e)).1 == Some(FinishView { result: Err(e), cleanup_error: None })
            && v.after(Err(e)).0.next_write() is None,
        v.after(Err(e)).0.pressed == v.pressed,
{
}

/// A write that works leads on: behind a key event comes the end of its group, and behind
/// that the next action, or the end with success. A key counts as soon as its event is
/// written.
pub proof fn law_write_that_works_leads_on(v: UInputView)
    requires
        v.wf(),
        v.stage == Stage::Key || v.stage == Stage::Syn,
    ensures
        v.stage == Stage::Key ==> v.after(Ok(())).1 is None && v.after(Ok(())).0.next_write() == Some(
            InputEvent { type_: 0, code: 0, value: 0 },
        ) && v.after(Ok(())).0.pressed == noted(v.pressed, v.plan[v.at as int]),
        v.stage == Stage::Syn && v.at + 1 < v.plan.len() ==> v.after(Ok(())).1 is None && v.after(
            Ok(()),
        ).0.next_write() == Some(action_event(v.plan[v.at as int + 1])) && v.after(Ok(())).0.pressed
            == v.pressed,
        v.stage == Stage::Syn && v.at + 1 == v.plan.len() ==> v.after(Ok(())).1 == Some(
            FinishView { result: Ok(()), cleanup_error: None },
        ) && v.after(Ok(())).0.next_write() is None && v.after(Ok(())).0.pressed == v.pressed,
{
}

/// What fails in a cleanup is told by its key, or as the end of the group, each behind
/// what failed before.
pub proof fn law_cleanup_failure_is_told(v: UInputView, e: Seq<char>)
    ensures
        v.stage == Stage::Release ==> v.after(Err(e)).0.errors == v.errors.push(
            "release key "@ + decimal(v.codes[v.at as int] as nat) + ": "@ + e,
        ) && v.after(Ok(())).0.errors == v.errors,
        v.stage == Stage::ReleaseSyn ==> v.after(Err(e)).0.errors == v.errors.push(
            "SYN_REPORT: "@ + e,
        ) && v.after(Ok(())).0.errors == v.errors,
{
}

/// Failures are joined by a semicolon and a blank, and a write that failed is told as
/// one.
pub proof fn law_failures_are_joined(parts: Seq<Seq<char>>, e: Seq<char>)
    ensures
        joined(Seq::empty()) == Seq::<char>::empty(),
        joined(seq![e]) == e,
        parts.len() > 0 ==> joined(parts.push(e)) == joined(parts) + "; "@ + e,
        told(Err(e)) == Err::<(), Seq<char>>("uinput write: "@ + e),
        told(Ok(())) is Ok,
        failed(e) == (FinishView { result: Err(e), cleanup_error: None }),
{
    assert(parts.push(e).drop_last() =~= parts);
}

/// A failure ends the setup, but for that of a key, which is left out; each is told.
pub proof fn law_setup_failures(step: SetupStep, e: Seq<char>, t: u16, code: u16)
    ensures
        step.after(Ok(())) == Ok::<SetupStep, Seq<char>>(step.next()),
        SetupStep::KeyBit(code).after(Err(e)) == Ok::<SetupStep, Seq<char>>(
            SetupStep::KeyBit(code).next(),
        ),
        SetupStep::Open.after(Err(e)) == Err::<SetupStep, Seq<char>>(
            "open /dev/uinput: "@ + e
                + " (need write access — logind uaccess ACL, `uinput` group, or root)"@,
        ),
        SetupStep::EventBit(t).after(Err(e)) == Err::<SetupStep, Seq<char>>(
            "ioctl 0x40045564("@ + decimal(t as nat) + "): "@ + e,
        ),
        SetupStep::Describe.after(Err(e)) == Err::<SetupStep, Seq<char>>(
            "write uinput_user_dev: "@ + e,
        ),
        SetupStep::Create.after(Err(e)) == Err::<SetupStep, Seq<char>>("UI_DEV_CREATE: "@ + e),
{
}

/// A setup gives the device every key from 1 to 767, and both types of events.
pub proof fn law_setup_by_step(code: u16)
    requires
        1 <= code < 767,
    ensures
        SetupStep::Open.next() == SetupStep::EventBit(1),
        SetupStep::EventBit(1).next() == SetupStep::EventBit(0),
        SetupStep::EventBit(0).next() == SetupStep::KeyBit(1),
        SetupStep::KeyBit(code).next() == SetupStep::KeyBit((code + 1) as u16),
        SetupStep::KeyBit(767).next() == SetupStep::Describe,
        SetupStep::Describe.next() == SetupStep::Create,
        SetupStep::Create.next() == SetupStep::Done,
{
}

/// How writing ended is known by what is told.
pub proof fn law_finish_view_tells_all(f: Finish)
    ensures
        match f.result {
            Ok(_) => f@.result is Ok,
            Err(e) => f@.result == Err::<(), Seq<char>>(e@),
        },
        match f.cleanup_error {
            Some(e) => f@.cleanup_error == Some(e@),
            None => f@.cleanup_error is None,
        },
        finish_view(Some(f)) == Some(f@),
        finish_view(None) is None,
{
}

/// The requests that set a device up hold their parts: group 0x55 and their numbers, those
/// that name a type or a key with four bytes to be written.
pub proof fn law_setup_requests_hold_their_parts()
    ensures
        UI_DEV_CREATE & 0xff == 1 && (UI_DEV_CREATE >> 8) & 0xff == 0x55 && UI_DEV_CREATE >> 16 == 0,
        UI_DEV_DESTROY & 0xff == 2 && (UI_DEV_DESTROY >> 8) & 0xff == 0x55 && UI_DEV_DESTROY >> 16
            == 0,
        UI_SET_EVBIT & 0xff == 100 && (UI_SET_EVBIT >> 8) & 0xff == 0x55 && (UI_SET_EVBIT >> 16)
            & 0x3fff == 4 && UI_SET_EVBIT >> 30 == 1,
        UI_SET_KEYBIT & 0xff == 101 && (UI_SET_KEYBIT >> 8) & 0xff == 0x55 && (UI_SET_KEYBIT >> 16)
            & 0x3fff == 4 && UI_SET_KEYBIT >> 30 == 1,
{
    assert(0x5501u64 & 0xff == 1 && (0x5501u64 >> 8) & 0xff == 0x55 && 0x5501u64 >> 16 == 0)
        by (bit_vector);
    assert(0x5502u64 & 0xff == 2 && (0x5502u64 >> 8) & 0xff == 0x55 && 0x5502u64 >> 16 == 0)
        by (bit_vector);
    assert(0x40045564u64 & 0xff == 100 && (0x40045564u64 >> 8) & 0xff == 0x55 && (0x40045564u64
        >> 16) & 0x3fff == 4 && 0x40045564u64 >> 30 == 1) by (bit_vector);
    assert(0x40045565u64 & 0xff == 101 && (0x40045565u64 >> 8) & 0xff == 0x55 && (0x40045565u64
        >> 16) & 0x3fff == 4 && 0x40045565u64 >> 30 == 1) by (bit_vector);
}

/// A keyboard that writes nothing stays as it is, and while keys are being released each
/// is released in its turn, before the group is ended.
pub proof fn law_writes_by_stage(v: UInputView, outcome: Result<(), Seq<char>>)
    ensures
        v.next_write() is None <==> v.stage == Stage::Idle,
        v.stage == Stage::Idle ==> v.after(outcome) == (v, None::<FinishView>),
        v.stage == Stage::Release ==> v.next_write() == Some(
            InputEvent { type_: 1, code: v.codes[v.at as int], value: 0 },
        ) && v.after(outcome).1 is None && v.after(outcome).0.pressed == v.pressed,
        v.stage == Stage::ReleaseSyn ==> v.next_write() == Some(
            InputEvent { type_: 0, code: 0, value: 0 },
        ) && v.after(outcome).1 is Some && v.after(outcome).0.next_write() is None,
{
}

} // verus!
