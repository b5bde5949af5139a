//! Input devices: events, the identity of the helper's own keyboard, and the
//! modifier keys that are held.
//!
//! Every other part of the helper leaves its own keyboard out, so that keys it
//! injects are not read back. Before a chord is injected, the modifiers that the
//! user holds have to be released, or they would become part of it.

use crate::text::{cat, decimal, decimal_text};
use vstd::prelude::*;

verus! {

/// The type of events that separate groups of events.
pub const EV_SYN: u16 = 0x00;

/// The type of key events.
pub const EV_KEY: u16 = 0x01;

/// The code of the event that ends a group.
pub const SYN_REPORT: u16 = 0x00;

/// An event as input devices give and take it, without its time.
#[derive(Debug, Clone, Copy, PartialEq, Eq, Structural)]
pub struct InputEvent {
    pub type_: u16,
    pub code: u16,
    pub value: i32,
}

/// How events stand in what a device gives: each takes `size` bytes, of which the
/// last eight are its type, its code and its value.
#[derive(Debug, Clone, Copy, PartialEq, Eq, Structural)]
pub struct EventLayout {
    pub size: usize,
    pub little_endian: bool,
}

impl EventLayout {
    /// There is room for an event.
    pub open spec fn wf(self) -> bool {
        self.size >= 8
    }
}

/// The number in two bytes.
pub open spec fn number16(b: Seq<u8>, little: bool) -> int {
    if little {
        b[0] + 0x100 * b[1]
    } else {
        b[1] + 0x100 * b[0]
    }
}

/// The number in four bytes.
pub open spec fn number32(b: Seq<u8>, little: bool) -> int {
    if little {
        number16(b.take(2), little) + 0x1_0000 * number16(b.skip(2), little)
    } else {
        number16(b.skip(2), little) + 0x1_0000 * number16(b.take(2), little)
    }
}

/// The number with a sign that has the bits of `n`.
pub open spec fn signed32(n: int) -> int {
    if n < 0x8000_0000 {
        n
    } else {
        n - 0x1_0000_0000
    }
}

/// The event in the bytes `b`, which are as many as an event takes.
pub open spec fn event_of(b: Seq<u8>, layout: EventLayout) -> InputEvent {
    let at = layout.size as int;
    InputEvent {
        type_: number16(b.subrange(at - 8, at - 6), layout.little_endian) as u16,
        code: number16(b.subrange(at - 6, at - 4), layout.little_endian) as u16,
        value: signed32(number32(b.subrange(at - 4, at), layout.little_endian)) as i32,
    }
}

/// The whole events in `b`, in order. What is left behind them counts for nothing.
pub open spec fn events_of(b: Seq<u8>, layout: EventLayout) -> Seq<InputEvent>
    decreases b.len(),
    when layout.wf()
{
    if b.len() < layout.size {
        Seq::empty()
    } else {
        seq![event_of(b.take(layout.size as int), layout)] + events_of(
            b.skip(layout.size as int),
            layout,
        )
    }
}

fn read16(buf: &[u8], at: usize, little: bool) -> (r: u16)
    requires
        at + 2 <= buf@.len(),
    ensures
        r == number16(buf@.subrange(at as int, at + 2), little),
{
    let a = buf[at] as u16;
    let b = buf[at + 1] as u16;
    if little {
        a + 0x100 * b
    } else {
        b + 0x100 * a
    }
}

fn read32(buf: &[u8], at: usize, little: bool) -> (r: u32)
    requires
        at + 4 <= buf.len(),
    ensures
        r == number32(buf@.subrange(at as int, at + 4), little),
{
    let ghost b = buf@.subrange(at as int, at + 4);
    assert(b.take(2) =~= buf@.subrange(at as int, at + 2));
    assert(b.skip(2) =~= buf@.subrange(at + 2, at + 4));
    let first = read16(buf, at, little) as u32;
    let second = read16(buf, at + 2, little) as u32;
    if little {
        first + 0x1_0000 * second
    } else {
        second + 0x1_0000 * first
    }
}

fn signed(n: u32) -> (r: i32)
    ensures
        r == signed32(n as int),
{
    if n < 0x8000_0000 {
        n as i32
    } else {
        (n as i64 - 0x1_0000_0000) as i32
    }
}

/// Decodes the whole events in the first `n` bytes of what a device gave.
pub fn decode_events(buf: &[u8], n: usize, layout: EventLayout) -> (r: Vec<InputEvent>)
    requires
        layout.wf(),
        n <= buf@.len(),
    ensures
        r@ == events_of(buf@.take(n as int), layout),
{
    let mut r: Vec<InputEvent> = Vec::new();
    let mut off: usize = 0;
    let ghost all = buf@.take(n as int);
    let size = layout.size;
    let little = layout.little_endian;
    assert(all.skip(0) =~= all);
    assert(r@ + events_of(all, layout) =~= events_of(all, layout));
    while n - off >= size
        invariant
            off <= n <= buf@.len(),
            layout.wf(),
            size == layout.size,
            little == layout.little_endian,
            all == buf@.take(n as int),
            r@ + events_of(all.skip(off as int), layout) == events_of(all, layout),
        decreases n - off,
    {
        let end: usize = off + size;
        let ghost rest = all.skip(off as int);
        let ghost b = rest.take(size as int);
        assert(b.subrange(size - 8, size - 6) =~= buf@.subrange(end - 8, end - 6));
        assert(b.subrange(size - 6, size - 4) =~= buf@.subrange(end - 6, end - 4));
        assert(b.subrange(size - 4, size as int) =~= buf@.subrange(end - 4, end as int));
        let event = InputEvent {
            type_: read16(buf, end - 8, little),
            code: read16(buf, end - 6, little),
            value: signed(read32(buf, end - 4, little)),
        };
        assert(event == event_of(b, layout));
        let ghost before = r@;
        r.push(event);
        assert(rest.skip(size as int) =~= all.skip(end as int));
        assert(r@ + events_of(all.skip(end as int), layout) =~= before + events_of(rest, layout));
        off = end;
    }
    assert(r@ =~= events_of(all, layout));
    r
}

/// The two bytes of a number.
pub open spec fn bytes16(n: u16, little: bool) -> Seq<u8> {
    if little {
        seq![(n % 0x100) as u8, (n / 0x100) as u8]
    } else {
        seq![(n / 0x100) as u8, (n % 0x100) as u8]
    }
}

/// The four bytes of a number.
pub open spec fn bytes32(n: u32, little: bool) -> Seq<u8> {
    if little {
        bytes16((n % 0x1_0000) as u16, little) + bytes16((n / 0x1_0000) as u16, little)
    } else {
        bytes16((n / 0x1_0000) as u16, little) + bytes16((n % 0x1_0000) as u16, little)
    }
}

/// The number that has the bits of `n`, without a sign.
pub open spec fn unsigned32(n: i32) -> u32 {
    if n < 0 {
        (n + 0x1_0000_0000) as u32
    } else {
        n as u32
    }
}

/// The bytes of an event, with no time.
pub open spec fn event_bytes(event: InputEvent, layout: EventLayout) -> Seq<u8> {
    Seq::new((layout.size - 8) as nat, |i: int| 0u8) + bytes16(event.type_, layout.little_endian)
        + bytes16(event.code, layout.little_endian) + bytes32(
        unsigned32(event.value),
        layout.little_endian,
    )
}

fn write16(out: &mut Vec<u8>, n: u16, little: bool)
    ensures
        final(out)@ == old(out)@ + bytes16(n, little),
{
    let low = (n % 0x100) as u8;
    let high = (n / 0x100) as u8;
    if little {
        out.push(low);
        out.push(high);
    } else {
        out.push(high);
        out.push(low);
    }
    assert(out@ =~= old(out)@ + bytes16(n, little));
}

fn write32(out: &mut Vec<u8>, n: u32, little: bool)
    ensures
        final(out)@ == old(out)@ + bytes32(n, little),
{
    let low = (n % 0x1_0000) as u16;
    let high = (n / 0x1_0000) as u16;
    if little {
        write16(out, low, little);
        write16(out, high, little);
    } else {
        write16(out, high, little);
        write16(out, low, little);
    }
    assert(out@ =~= old(out)@ + bytes32(n, little));
}

fn unsigned(n: i32) -> (r: u32)
    ensures
        r == unsigned32(n),
{
    if n < 0 {
        (n as i64 + 0x1_0000_0000) as u32
    } else {
        n as u32
    }
}

/// Encodes an event, as devices take it.
pub fn encode_event(event: InputEvent, layout: EventLayout) -> (r: Vec<u8>)
    requires
        layout.wf(),
    ensures
        r@ == event_bytes(event, layout),
{
    let mut r: Vec<u8> = Vec::new();
    let mut i: usize = 0;
    while i < layout.size - 8
        invariant
            layout.wf(),
            i <= layout.size - 8,
            r@ == Seq::new(i as nat, |i: int| 0u8),
        decreases layout.size - i,
    {
        r.push(0);
        assert(r@ =~= Seq::new((i + 1) as nat, |i: int| 0u8));
        i += 1;
    }
    write16(&mut r, event.type_, layout.little_endian);
    write16(&mut r, event.code, layout.little_endian);
    write32(&mut r, unsigned(event.value), layout.little_endian);
    r
}

proof fn lemma_number16(n: u16, little: bool)
    ensures
        bytes16(n, little).len() == 2,
        number16(bytes16(n, little), little) == n,
{
}

proof fn lemma_number32(n: u32, little: bool)
    ensures
        bytes32(n, little).len() == 4,
        number32(bytes32(n, little), little) == n,
{
    let b = bytes32(n, little);
    let low = (n % 0x1_0000) as u16;
    let high = (n / 0x1_0000) as u16;
    lemma_number16(low, little);
    lemma_number16(high, little);
    if little {
        assert(b.take(2) =~= bytes16(low, little));
        assert(b.skip(2) =~= bytes16(high, little));
    } else {
        assert(b.take(2) =~= bytes16(high, little));
        assert(b.skip(2) =~= bytes16(low, little));
    }
}

/// An event is read as it was written.
pub proof fn law_event_is_read_as_written(event: InputEvent, layout: EventLayout)
    requires
        layout.wf(),
    ensures
        event_bytes(event, layout).len() == layout.size,
        events_of(event_bytes(event, layout), layout) == seq![event],
{
    let b = event_bytes(event, layout);
    let at = layout.size as int;
    let little = layout.little_endian;
    lemma_number16(event.type_, little);
    lemma_number16(event.code, little);
    lemma_number32(unsigned32(event.value), little);
    assert(b.subrange(at - 8, at - 6) =~= bytes16(event.type_, little));
    assert(b.subrange(at - 6, at - 4) =~= bytes16(event.code, little));
    assert(b.subrange(at - 4, at) =~= bytes32(unsigned32(event.value), little));
    assert(b.take(at) =~= b);
    assert(b.skip(at) =~= Seq::<u8>::empty());
    reveal_with_fuel(events_of, 2);
    assert(events_of(b, layout) =~= seq![event_of(b, layout)]);
}

/// A device gives whole events. Where it does, it makes no difference how many it
/// gives at once.
pub proof fn law_whole_events_join(a: Seq<u8>, b: Seq<u8>, layout: EventLayout, n: nat)
    requires
        layout.wf(),
        a.len() == n * layout.size,
    ensures
        events_of(a + b, layout) == events_of(a, layout) + events_of(b, layout),
    decreases n,
{
    let size = layout.size as int;
    if n == 0 {
        assert(n * size == 0) by (nonlinear_arith)
            requires
                n == 0,
        ;
        assert(a + b =~= b);
        assert(events_of(a, layout) + events_of(b, layout) =~= events_of(b, layout));
    } else {
        assert(a.len() >= size && a.len() - size == (n - 1) * size) by (nonlinear_arith)
            requires
                a.len() == n * size,
                n >= 1,
                size >= 8,
        ;
        let rest = a.skip(size);
        law_whole_events_join(rest, b, layout, (n - 1) as nat);
        assert((a + b).take(size) =~= a.take(size));
        assert((a + b).skip(size) =~= rest + b);
        assert(events_of(a + b, layout) =~= events_of(a, layout) + events_of(b, layout));
    }
}

// ---------------------------------------------------------------------------
// Requests to devices
// ---------------------------------------------------------------------------

/// The largest code of a key.
pub const KEY_MAX: u16 = 0x2ff;

/// The number of bytes that hold a bit for every key.
pub const BITMAP_LEN: usize = 96;

/// The number of a request that reads `size` bytes from a device: direction, size,
/// group and number, each in its own bits.
pub open spec fn read_request(nr: u64, size: u64) -> u64 {
    (2u64 << 30) | (size << 16) | (0x45u64 << 8) | nr
}

/// Computes [`read_request`].
pub fn ioc_read(nr: u64, size: u64) -> (r: u64)
    ensures
        r == read_request(nr, size),
{
    (2u64 << 30) | (size << 16) | (0x45u64 << 8) | nr
}

/// The request for the name of a device, of at most `len` bytes.
pub fn eviocgname(len: usize) -> (r: u64)
    ensures
        r == read_request(0x06, len as u64),
{
    ioc_read(0x06, len as u64)
}

/// The request for the identity of a device.
pub fn eviocgid() -> (r: u64)
    ensures
        r == read_request(0x02, 8),
{
    ioc_read(0x02, 8)
}

/// The request for the keys that are held on a device.
pub fn eviocgkey() -> (r: u64)
    ensures
        r == read_request(0x18, BITMAP_LEN as u64),
{
    ioc_read(0x18, BITMAP_LEN as u64)
}

/// A request holds its number and size, so that different ones have different
/// numbers.
pub proof fn law_request_holds_its_parts(nr: u64, size: u64)
    requires
        nr < 0x100,
        size < 0x4000,
    ensures
        read_request(nr, size) & 0xff == nr,
        (read_request(nr, size) >> 8) & 0xff == 0x45,
        (read_request(nr, size) >> 16) & 0x3fff == size,
        read_request(nr, size) >> 30 == 2,
{
    let r = read_request(nr, size);
    assert(r & 0xff == nr && (r >> 8) & 0xff == 0x45 && (r >> 16) & 0x3fff == size && r >> 30 == 2)
        by (bit_vector)
        requires
            nr < 0x100,
            size < 0x4000,
            r == (2u64 << 30) | (size << 16) | (0x45u64 << 8) | nr,
    ;
}

// ---------------------------------------------------------------------------
// Identity
// ---------------------------------------------------------------------------

/// The name of the helper's own keyboard: "Wispr Flow Linux Helper".
pub const DEVICE_NAME: [u8; 23] = [
    0x57, 0x69, 0x73, 0x70, 0x72, 0x20, 0x46, 0x6c, 0x6f, 0x77, 0x20, 0x4c, 0x69, 0x6e, 0x75, 0x78,
    0x20, 0x48, 0x65, 0x6c, 0x70, 0x65, 0x72,
];

/// The bus of the helper's own keyboard.
pub const BUSTYPE: u16 = 0x03;

/// The vendor of the helper's own keyboard.
pub const VENDOR: u16 = 0x1234;

/// The product of the helper's own keyboard.
pub const PRODUCT: u16 = 0x5678;

/// The version of the helper's own keyboard.
pub const VERSION: u16 = 1;

/// The identity of a device.
#[derive(Debug, Clone, Copy, PartialEq, Eq, Structural)]
pub struct InputId {
    pub bustype: u16,
    pub vendor: u16,
    pub product: u16,
    pub version: u16,
}

/// The identity of the helper's own keyboard.
pub open spec fn helper_id() -> InputId {
    InputId { bustype: BUSTYPE, vendor: VENDOR, product: PRODUCT, version: VERSION }
}

fn same_bytes(a: &[u8], b: &[u8]) -> (r: bool)
    ensures
        r == (a@ == b@),
{
    if a.len() != b.len() {
        return false;
    }
    let mut i: usize = 0;
    while i < a.len()
        invariant
            i <= a.len() == b.len(),
            forall|j: int| 0 <= j < i ==> a@[j] == b@[j],
        decreases a.len() - i,
    {
        if a[i] != b[i] {
            return false;
        }
        i += 1;
    }
    assert(a@ =~= b@);
    true
}

/// Whether a name and an identity are those of the helper's own keyboard.
pub fn matches_helper_identity(name: &[u8], id: &InputId) -> (r: bool)
    ensures
        r == (name@ == DEVICE_NAME@ && *id == helper_id()),
{
    let own = DEVICE_NAME;
    same_bytes(name, &own) && id.bustype == BUSTYPE && id.vendor == VENDOR && id.product == PRODUCT
        && id.version == VERSION
}

/// Whether a device is the helper's own keyboard. One that does not tell its name
/// or its identity is not.
pub fn is_helper_device(name: &Option<Vec<u8>>, id: &Option<InputId>) -> (r: bool)
    ensures
        r == match (name, id) {
            (Some(n), Some(i)) => n@ == DEVICE_NAME@ && *i == helper_id(),
            _ => false,
        },
{
    match name {
        Some(n) => match id {
            Some(i) => matches_helper_identity(n.as_slice(), i),
            None => false,
        },
        None => false,
    }
}

/// The name in `buf` where a device said that it wrote `ret` bytes: without a
/// zero at its end, and missing where `ret` is negative.
pub open spec fn device_name(ret: i32, buf: Seq<u8>) -> Option<Seq<u8>> {
    if ret < 0 {
        None
    } else if ret > 0 && buf[ret - 1] == 0 {
        Some(buf.take(ret - 1))
    } else {
        Some(buf.take(ret as int))
    }
}

/// Reads a name that a device wrote into `buf`.
pub fn read_device_name(ret: i32, buf: &[u8]) -> (r: Option<Vec<u8>>)
    requires
        ret <= buf@.len(),
    ensures
        match r {
            Some(name) => device_name(ret, buf@) == Some(name@),
            None => device_name(ret, buf@) is None,
        },
{
    if ret < 0 {
        return None;
    }
    let len = ret as usize;
    let end: usize = if len > 0 && buf[len - 1] == 0 {
        len - 1
    } else {
        len
    };
    let mut name: Vec<u8> = Vec::new();
    let mut i: usize = 0;
    while i < end
        invariant
            i <= end <= buf@.len(),
            name@ == buf@.take(i as int),
        decreases end - i,
    {
        name.push(buf[i]);
        i += 1;
    }
    Some(name)
}

/// The identity that a device wrote, missing where `ret` is negative.
pub fn read_device_id(ret: i32, id: InputId) -> (r: Option<InputId>)
    ensures
        r == if ret < 0 {
            None
        } else {
            Some(id)
        },
{
    if ret < 0 {
        None
    } else {
        Some(id)
    }
}

// ---------------------------------------------------------------------------
// Keys that are held
// ---------------------------------------------------------------------------

/// The bit of the key `code` is set. A bitmap that is too short has no such bit.
pub open spec fn is_set(bitmap: Seq<u8>, code: u16) -> bool {
    code / 8 < bitmap.len() && (bitmap[code as int / 8] >> (code % 8)) & 1 == 1
}

/// Decides [`is_set`].
pub fn bit_set(bitmap: &[u8], code: u16) -> (r: bool)
    ensures
        r == is_set(bitmap@, code),
{
    let byte: usize = code as usize / 8;
    let bit: u16 = code % 8;
    byte < bitmap.len() && (bitmap[byte] >> bit) & 1 == 1
}

/// The keys that modify others: both control, shift, alt and super keys.
pub const MODIFIER_CODES: [u16; 8] = [29, 97, 42, 54, 56, 100, 125, 126];

/// The codes of `codes` whose bits are set, in order.
pub open spec fn set_among(codes: Seq<u16>, bitmap: Seq<u8>) -> Seq<u16> {
    codes.filter(|code: u16| is_set(bitmap, code))
}

/// The modifiers that are held, in the order of [`MODIFIER_CODES`].
pub fn modifiers_from_bitmap(bitmap: &[u8]) -> (r: Vec<u16>)
    ensures
        r@ == set_among(MODIFIER_CODES@, bitmap@),
{
    let codes = MODIFIER_CODES;
    let mut r: Vec<u16> = Vec::new();
    let mut i: usize = 0;
    proof {
        reveal(Seq::filter);
    }
    while i < 8
        invariant
            i <= 8,
            codes == MODIFIER_CODES,
            r@ == set_among(MODIFIER_CODES@.take(i as int), bitmap@),
        decreases 8 - i,
    {
        proof {
            reveal(Seq::filter);
            assert(MODIFIER_CODES@.take(i + 1).drop_last() =~= MODIFIER_CODES@.take(i as int));
        }
        if bit_set(bitmap, codes[i]) {
            r.push(codes[i]);
        }
        i += 1;
    }
    assert(MODIFIER_CODES@.take(8) =~= MODIFIER_CODES@);
    r
}

/// `codes` behind `held`, without those that are there.
pub open spec fn with_new(held: Seq<u16>, codes: Seq<u16>) -> Seq<u16>
    decreases codes.len(),
{
    if codes.len() == 0 {
        held
    } else {
        let before = with_new(held, codes.drop_last());
        if before.contains(codes.last()) {
            before
        } else {
            before.push(codes.last())
        }
    }
}

/// A bitmap that may be missing.
pub open spec fn bitmap_view(b: Option<Vec<u8>>) -> Option<Seq<u8>> {
    match b {
        Some(b) => Some(b@),
        None => None,
    }
}

/// Bitmaps of devices, missing where a device did not tell.
pub open spec fn bitmaps_view(bs: Seq<Option<Vec<u8>>>) -> Seq<Option<Seq<u8>>> {
    bs.map_values(|b: Option<Vec<u8>>| bitmap_view(b))
}

/// The modifiers that are held on any of the devices, each once.
pub open spec fn held_over(bitmaps: Seq<Option<Seq<u8>>>) -> Seq<u16>
    decreases bitmaps.len(),
{
    if bitmaps.len() == 0 {
        Seq::empty()
    } else {
        match bitmaps.last() {
            Some(b) => with_new(held_over(bitmaps.drop_last()), set_among(MODIFIER_CODES@, b)),
            None => held_over(bitmaps.drop_last()),
        }
    }
}

fn add_new(held: &mut Vec<u16>, codes: &Vec<u16>)
    ensures
        final(held)@ == with_new(old(held)@, codes@),
{
    let mut i: usize = 0;
    while i < codes.len()
        invariant
            i <= codes.len(),
            held@ == with_new(old(held)@, codes@.take(i as int)),
        decreases codes.len() - i,
    {
        assert(codes@.take(i + 1).drop_last() =~= codes@.take(i as int));
        let mut known = false;
        let mut j: usize = 0;
        while j < held.len() && !known
            invariant
                j <= held.len(),
                i < codes.len(),
                known ==> held@.contains(codes@[i as int]),
                !known ==> forall|k: int| 0 <= k < j ==> held@[k] != codes@[i as int],
            decreases held.len() - j,
        {
            if held[j] == codes[i] {
                known = true;
            }
            j += 1;
        }
        if !known {
            held.push(codes[i]);
        }
        i += 1;
    }
    assert(codes@.take(i as int) =~= codes@);
}

/// The modifiers that are held on any of the devices, each once. A device whose
/// keys could not be read counts for nothing.
pub fn scan_held_modifiers(bitmaps: &Vec<Option<Vec<u8>>>) -> (r: Vec<u16>)
    ensures
        r@ == held_over(bitmaps_view(bitmaps@)),
{
    let mut held: Vec<u16> = Vec::new();
    let ghost all = bitmaps_view(bitmaps@);
    let mut i: usize = 0;
    while i < bitmaps.len()
        invariant
            i <= bitmaps.len(),
            all == bitmaps_view(bitmaps@),
            held@ == held_over(all.take(i as int)),
        decreases bitmaps.len() - i,
    {
        assert(all.take(i + 1).drop_last() =~= all.take(i as int));
        assert(all[i as int] == bitmap_view(bitmaps@[i as int]));
        if let Some(bitmap) = &bitmaps[i] {
            let codes = modifiers_from_bitmap(bitmap.as_slice());
            add_new(&mut held, &codes);
        }
        i += 1;
    }
    assert(all.take(i as int) =~= all);
    held
}

proof fn lemma_with_new(held: Seq<u16>, codes: Seq<u16>)
    requires
        held.no_duplicates(),
    ensures
        with_new(held, codes).no_duplicates(),
        forall|c: u16| #[trigger] with_new(held, codes).contains(c) <==> held.contains(c) || codes.contains(c),
    decreases codes.len(),
{
    if codes.len() > 0 {
        let rest = codes.drop_last();
        let before = with_new(held, rest);
        let all = with_new(held, codes);
        lemma_with_new(held, rest);
        assert forall|c: u16| #[trigger] all.contains(c) <==> held.contains(c) || codes.contains(
            c,
        ) by {
            assert(codes.contains(c) <==> rest.contains(c) || c == codes.last()) by {
                if rest.contains(c) {
                    let k = choose|k: int| 0 <= k < rest.len() && rest[k] == c;
                    assert(codes[k] == c);
                }
                if codes.contains(c) && c != codes.last() {
                    let k = choose|k: int| 0 <= k < codes.len() && codes[k] == c;
                    assert(rest[k] == c);
                }
                assert(codes[codes.len() - 1] == codes.last());
            }
            assert(all.contains(c) <==> before.contains(c) || c == codes.last()) by {
                if before.contains(c) {
                    let k = choose|k: int| 0 <= k < before.len() && before[k] == c;
                    assert(all[k] == c);
                }
                if !before.contains(codes.last()) {
                    assert(all[all.len() - 1] == codes.last());
                }
            }
        }
    }
}

proof fn lemma_set_among(codes: Seq<u16>, bitmap: Seq<u8>)
    ensures
        forall|c: u16| #[trigger] set_among(codes, bitmap).contains(c) <==> codes.contains(c) && is_set(
            bitmap,
            c,
        ),
    decreases codes.len(),
{
    reveal(Seq::filter);
    if codes.len() > 0 {
        let rest = codes.drop_last();
        let before = set_among(rest, bitmap);
        let all = set_among(codes, bitmap);
        let last = codes.last();
        lemma_set_among(rest, bitmap);
        assert(codes =~= rest.push(last));
        assert(all == if is_set(bitmap, last) {
            before.push(last)
        } else {
            before
        });
        broadcast use vstd::seq_lib::group_seq_properties;

    }
}

/// Exactly the modifiers whose bits some device has set are held, and none is
/// named twice.
pub proof fn law_held_modifiers_are_those_set(bitmaps: Seq<Option<Seq<u8>>>, code: u16)
    ensures
        held_over(bitmaps).no_duplicates(),
        held_over(bitmaps).contains(code) <==> MODIFIER_CODES@.contains(code) && exists|i: int|
            0 <= i < bitmaps.len() && (#[trigger] bitmaps[i] matches Some(b) && is_set(b, code)),
    decreases bitmaps.len(),
{
    if bitmaps.len() > 0 {
        let before = bitmaps.drop_last();
        law_held_modifiers_are_those_set(before, code);
        if let Some(b) = bitmaps.last() {
            lemma_set_among(MODIFIER_CODES@, b);
            lemma_with_new(held_over(before), set_among(MODIFIER_CODES@, b));
        }
        assert forall|i: int| 0 <= i < before.len() implies before[i] == #[trigger] bitmaps[i] by {}
        let last = bitmaps.len() - 1;
        assert(bitmaps[last] == bitmaps.last());
        if exists|i: int|
            0 <= i < before.len() && (#[trigger] before[i] matches Some(b) && is_set(b, code)) {
            let i = choose|i: int|
                0 <= i < before.len() && (#[trigger] before[i] matches Some(b) && is_set(b, code));
            assert(bitmaps[i] matches Some(b) && is_set(b, code));
        }
        if exists|i: int|
            0 <= i < bitmaps.len() && (#[trigger] bitmaps[i] matches Some(b) && is_set(b, code)) {
            let i = choose|i: int|
                0 <= i < bitmaps.len() && (#[trigger] bitmaps[i] matches Some(b) && is_set(b, code));
            if i < before.len() {
                assert(before[i] matches Some(b) && is_set(b, code));
            }
        }
    }
}

// ---------------------------------------------------------------------------
// Waiting for modifiers
// ---------------------------------------------------------------------------

/// How long modifiers are waited for, in milliseconds.
pub const MODIFIER_WAIT_MS: u64 = 1000;

/// How long to wait between two looks at the devices, in milliseconds.
pub const MODIFIER_POLL_MS: u64 = 8;

/// What follows a look at the devices.
#[derive(Debug, PartialEq, Eq)]
pub enum WaitStep {
    /// No modifier is held.
    Released,
    /// Look again, after a while.
    Again,
    /// The time is up.
    Failed(String),
}

/// A [`WaitStep`] as a mathematical value.
#[verifier::ext_equal]
pub enum WaitStepView {
    Released,
    Again,
    Failed(Seq<char>),
}

impl WaitStep {
    /// The step as a mathematical value.
    pub open spec fn view(&self) -> WaitStepView {
        match *self {
            WaitStep::Released => WaitStepView::Released,
            WaitStep::Again => WaitStepView::Again,
            WaitStep::Failed(e) => WaitStepView::Failed(e@),
        }
    }
}

/// Codes in decimal, with a comma and a space between two of them.
pub open spec fn comma_list(codes: Seq<u16>) -> Seq<char>
    decreases codes.len(),
{
    if codes.len() == 0 {
        Seq::empty()
    } else if codes.len() == 1 {
        decimal(codes[0] as nat)
    } else {
        comma_list(codes.drop_last()) + ", "@ + decimal(codes.last() as nat)
    }
}

/// What is told where modifiers are held for too long.
pub open spec fn still_held(held: Seq<u16>) -> Seq<char> {
    "modifier keys still held after "@ + decimal(MODIFIER_WAIT_MS as nat) + "ms: ["@ + comma_list(
        held,
    ) + "]"@
}

fn comma_text(codes: &Vec<u16>) -> (r: String)
    ensures
        r@ == comma_list(codes@),
{
    let mut r = String::new();
    let mut i: usize = 0;
    while i < codes.len()
        invariant
            i <= codes.len(),
            r@ == comma_list(codes@.take(i as int)),
        decreases codes.len() - i,
    {
        assert(codes@.take(i + 1).drop_last() =~= codes@.take(i as int));
        if i > 0 {
            r.append(", ");
        }
        r.append(&decimal_text(codes[i] as u64));
        assert(r@ =~= comma_list(codes@.take(i + 1)));
        i += 1;
    }
    assert(codes@.take(i as int) =~= codes@);
    r
}

/// Decides what follows a look at the devices: `bitmaps` holds for each what keys
/// are held on it, and `expired` says whether the time is up. Without devices
/// nothing can be told, and nothing is waited for.
pub fn wait_modifiers_released(bitmaps: &Vec<Option<Vec<u8>>>, expired: bool) -> (r: WaitStep)
    ensures
        r@ == if held_over(bitmaps_view(bitmaps@)).len() == 0 {
            WaitStepView::Released
        } else if expired {
            WaitStepView::Failed(still_held(held_over(bitmaps_view(bitmaps@))))
        } else {
            WaitStepView::Again
        },
{
    let held = scan_held_modifiers(bitmaps);
    if held.len() == 0 {
        return WaitStep::Released;
    }
    if !expired {
        return WaitStep::Again;
    }
    let mut e = cat("modifier keys still held after ", &decimal_text(MODIFIER_WAIT_MS));
    e.append("ms: [");
    e.append(&comma_text(&held));
    e.append("]");
    WaitStep::Failed(e)
}

// ---------------------------------------------------------------------------
// Laws
// ---------------------------------------------------------------------------

/// The event of which the last byte is the one before `at` in `b`: its type and its code
/// take two bytes each, its value four, and the first byte of each is the lowest or the
/// highest.
pub open spec fn stands_before(b: Seq<u8>, at: int, little: bool, e: InputEvent) -> bool {
    if little {
        &&& e.type_ == b[at - 8] + 0x100 * b[at - 7]
        &&& e.code == b[at - 6] + 0x100 * b[at - 5]
        &&& e.value as int % 0x1_0000_0000 == b[at - 4] + 0x100 * b[at - 3] + 0x1_0000 * b[at - 2]
            + 0x100_0000 * b[at - 1]
    } else {
        &&& e.type_ == 0x100 * b[at - 8] + b[at - 7]
        &&& e.code == 0x100 * b[at - 6] + b[at - 5]
        &&& e.value as int % 0x1_0000_0000 == 0x100_0000 * b[at - 4] + 0x1_0000 * b[at - 3] + 0x100
            * b[at - 2] + b[at - 1]
    }
}

proof fn lemma_event_stands(b: Seq<u8>, layout: EventLayout)
    requires
        layout.wf(),
        b.len() == layout.size,
    ensures
        stands_before(b, layout.size as int, layout.little_endian, event_of(b, layout)),
{
    let at = layout.size as int;
    let four = b.subrange(at - 4, at);
    assert(four.take(2)[0] == b[at - 4] && four.take(2)[1] == b[at - 3]);
    assert(four.skip(2)[0] == b[at - 2] && four.skip(2)[1] == b[at - 1]);
}

/// Every whole event in the bytes is read from its own place, whatever stands before it.
pub proof fn law_events_are_read_from_their_places(b: Seq<u8>, layout: EventLayout, i: nat)
    requires
        layout.wf(),
        (i + 1) * layout.size <= b.len(),
    ensures
        i < events_of(b, layout).len(),
        stands_before(
            b,
            (i + 1) * layout.size as int,
            layout.little_endian,
            events_of(b, layout)[i as int],
        ),
    decreases i,
{
    let size = layout.size as int;
    assert((i + 1) * size >= size) by (nonlinear_arith)
        requires
            i >= 0,
            size >= 8,
    ;
    let head = b.take(size);
    lemma_event_stands(head, layout);
    if i > 0 {
        let rest = b.skip(size);
        assert((i + 1) * size == i * size + size) by (nonlinear_arith);
        assert(i * size >= size) by (nonlinear_arith)
            requires
                i >= 1,
                size >= 8,
        ;
        law_events_are_read_from_their_places(rest, layout, (i - 1) as nat);
        let at = i * size;
        assert(rest[at - 1] == b[at + size - 1] && rest[at - 2] == b[at + size - 2] && rest[at - 3]
            == b[at + size - 3] && rest[at - 4] == b[at + size - 4] && rest[at - 5] == b[at + size
            - 5] && rest[at - 6] == b[at + size - 6] && rest[at - 7] == b[at + size - 7] && rest[at
            - 8] == b[at + size - 8]);
        assert(events_of(b, layout)[i as int] == events_of(rest, layout)[i - 1]);
    } else {
        assert((i + 1) * size == size) by (nonlinear_arith)
            requires
                i == 0,
        ;
    }
}

/// As many events are read as there are whole ones.
pub proof fn law_whole_events_are_read(b: Seq<u8>, layout: EventLayout)
    requires
        layout.wf(),
    ensures
        events_of(b, layout).len() == b.len() as int / layout.size as int,
    decreases b.len(),
{
    let size = layout.size as int;
    if b.len() >= layout.size {
        law_whole_events_are_read(b.skip(size), layout);
        vstd::arithmetic::div_mod::lemma_div_plus_one(b.len() - size, size);
    } else {
        vstd::arithmetic::div_mod::lemma_basic_div(b.len() as int, size);
    }
}

/// An event is written with no time, and so that it stands where it is read.
pub proof fn law_event_is_written_at_its_end(event: InputEvent, layout: EventLayout)
    requires
        layout.wf(),
    ensures
        event_bytes(event, layout).len() == layout.size,
        forall|i: int| 0 <= i < layout.size - 8 ==> #[trigger] event_bytes(event, layout)[i] == 0,
        stands_before(
            event_bytes(event, layout),
            layout.size as int,
            layout.little_endian,
            event,
        ),
{
    let b = event_bytes(event, layout);
    law_event_is_read_as_written(event, layout);
    assert(b.take(layout.size as int) =~= b);
    assert(events_of(b, layout)[0] == event);
    assert((0 + 1) * layout.size as int == layout.size);
    law_events_are_read_from_their_places(b, layout, 0);
}

/// A key is set where its bit is: the keys stand in order, eight to a byte, the lowest
/// bit first.
pub proof fn law_keys_stand_eight_to_a_byte(bitmap: Seq<u8>, code: u16)
    ensures
        is_set(bitmap, code) <==> code as int / 8 < bitmap.len() && (bitmap[code as int / 8] as int
            / seq![1int, 2, 4, 8, 16, 32, 64, 128][code as int % 8]) % 2 == 1,
{
    if code / 8 < bitmap.len() {
        let x = bitmap[code as int / 8];
        let n = code % 8;
        assert((x >> 0u16) & 1 == (x / 1u8) % 2 && (x >> 1u16) & 1 == (x / 2u8) % 2 && (x >> 2u16)
            & 1 == (x / 4u8) % 2 && (x >> 3u16) & 1 == (x / 8u8) % 2 && (x >> 4u16) & 1 == (x
            / 16u8) % 2 && (x >> 5u16) & 1 == (x / 32u8) % 2 && (x >> 6u16) & 1 == (x / 64u8) % 2
            && (x >> 7u16) & 1 == (x / 128u8) % 2) by (bit_vector);
        assert(n == 0 || n == 1 || n == 2 || n == 3 || n == 4 || n == 5 || n == 6 || n == 7);
    }
}

/// The helper's own keyboard is known by this identity alone.
pub proof fn law_helper_has_its_own_identity(id: InputId)
    ensures
        id == helper_id() <==> id.bustype == 3 && id.vendor == 0x1234 && id.product == 0x5678
            && id.version == 1,
{
}

/// A device has the name that it wrote, without a zero at its end, and none where it
/// failed.
pub proof fn law_name_is_what_was_written(ret: i32, buf: Seq<u8>)
    requires
        ret <= buf.len(),
    ensures
        device_name(ret, buf) is None <==> ret < 0,
        device_name(ret, buf) matches Some(name) ==> (name.push(0) == buf.take(ret as int) || (name
            == buf.take(ret as int) && (name.len() > 0 ==> name.last() != 0))),
{
    if ret > 0 && buf[ret - 1] == 0 {
        assert(buf.take(ret - 1).push(0) =~= buf.take(ret as int));
    }
}

/// The modifiers are both control, shift, alt and super keys, and one of them is held
/// exactly where its bit is set on some device.
pub proof fn law_held_modifiers_by_code(bitmaps: Seq<Option<Seq<u8>>>, code: u16)
    ensures
        held_over(bitmaps).contains(code) <==> (code == 29 || code == 97 || code == 42 || code == 54
            || code == 56 || code == 100 || code == 125 || code == 126) && exists|i: int|
            0 <= i < bitmaps.len() && (#[trigger] bitmaps[i] matches Some(b) && is_set(b, code)),
{
    law_held_modifiers_are_those_set(bitmaps, code);
    let all = MODIFIER_CODES@;
    assert(all[0] == 29 && all[1] == 97 && all[2] == 42 && all[3] == 54 && all[4] == 56 && all[5]
        == 100 && all[6] == 125 && all[7] == 126);
}

/// Devices are looked at one after the other: each adds those of its modifiers that are
/// not known yet, in their order, and one that did not tell adds none.
pub proof fn law_each_device_adds_its_modifiers(bitmaps: Seq<Option<Seq<u8>>>, b: Seq<u8>)
    ensures
        held_over(Seq::empty()) == Seq::<u16>::empty(),
        held_over(bitmaps.push(None)) == held_over(bitmaps),
        held_over(bitmaps.push(Some(b))) == held_over(bitmaps) + seq![
            29u16,
            97u16,
            42u16,
            54u16,
            56u16,
            100u16,
            125u16,
            126u16,
        ].filter(|c: u16| is_set(b, c) && !held_over(bitmaps).contains(c)),
{
    let held = held_over(bitmaps);
    let all = seq![29u16, 97u16, 42u16, 54u16, 56u16, 100u16, 125u16, 126u16];
    assert(MODIFIER_CODES@ =~= all);
    assert(bitmaps.push(None).drop_last() =~= bitmaps);
    assert(bitmaps.push(Some(b)).drop_last() =~= bitmaps);
    assert(all.no_duplicates());
    lemma_new_are_added(held, all, b);
}

proof fn lemma_new_are_added(held: Seq<u16>, codes: Seq<u16>, b: Seq<u8>)
    requires
        codes.no_duplicates(),
    ensures
        with_new(held, set_among(codes, b)) == held + codes.filter(
            |c: u16| is_set(b, c) && !held.contains(c),
        ),
    decreases codes.len(),
{
    reveal(Seq::filter);
    let new = |c: u16| is_set(b, c) && !held.contains(c);
    if codes.len() == 0 {
        assert(held + codes.filter(new) =~= held);
    } else {
        let rest = codes.drop_last();
        let last = codes.last();
        lemma_new_are_added(held, rest, b);
        let before = held + rest.filter(new);
        let among = set_among(rest, b);
        if is_set(b, last) {
            assert(set_among(codes, b) == among.push(last));
            assert(among.push(last).drop_last() =~= among);
            if before.contains(last) && !held.contains(last) {
                let k = choose|k: int| 0 <= k < before.len() && before[k] == last;
                assert(rest.filter(new)[k - held.len()] == last);
                rest.lemma_filter_contains_rev(new, last);
            }
            if held.contains(last) {
                let k = choose|k: int| 0 <= k < held.len() && held[k] == last;
                assert(before[k] == last);
            }
        }
        assert(with_new(held, set_among(codes, b)) =~= held + codes.filter(new));
    }
}

/// Codes are listed in decimal with a comma and a blank between them, and what is told of
/// modifiers that are held for too long names the time and all of them.
pub proof fn law_held_codes_are_listed(codes: Seq<u16>, code: u16)
    ensures
        comma_list(Seq::empty()) == Seq::<char>::empty(),
        comma_list(seq![code]) == decimal(code as nat),
        codes.len() > 0 ==> comma_list(codes.push(code)) == comma_list(codes) + ", "@ + decimal(
            code as nat,
        ),
        still_held(codes) == "modifier keys still held after "@ + decimal(1000) + "ms: ["@ + comma_list(
            codes,
        ) + "]"@,
{
    assert(codes.push(code).drop_last() =~= codes);
}

/// Bitmaps that may be missing are known by their bytes, one by one.
pub proof fn law_bitmap_views_tell_all(bs: Seq<Option<Vec<u8>>>, i: int)
    ensures
        bitmaps_view(bs).len() == bs.len(),
        0 <= i < bs.len() ==> match bs[i] {
            Some(b) => bitmaps_view(bs)[i] == Some(b@),
            None => bitmaps_view(bs)[i] is None,
        },
{
}

} // verus!
