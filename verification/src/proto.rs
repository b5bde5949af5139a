//! Wire framing and envelopes of the helper's protocol.
//!
//! A message is a JSON document, written with an indent of two spaces. On the
//! wire its text is escaped (`+` becomes `+1`, then `|` becomes `+2`) and ends
//! with the delimiter `|`. The document is an envelope,
//! `{ "HelperAPIRequest": {..} }` or `{ "HelperAPIResponse": {..} }`, whose inner
//! object has one command key beside `uuid` and, now and then, `sentryTrace` and
//! `sentryBaggage`.

use crate::json::{entries_view, find_entry, json_parsed, json_pretty, lemma_member_has_entry};
use crate::json::{no_members, put, reads_back, Json, JsonView};
use crate::text::{chars_of, decimal, decimal_text, is_before, law_text_order_total};
use crate::text::{law_text_order_transitive, same_text, text_before};
use vstd::prelude::*;
use vstd::utf8::{decode_utf8, encode_scalar, encode_utf8, valid_utf8};

verus! {

/// The byte that ends a frame.
pub const DELIMITER: u8 = 0x7c;

/// The longest text of a message, in bytes.
pub const MAX_BODY_LEN: usize = 30_000;

// ---------------------------------------------------------------------------
// Escaping
// ---------------------------------------------------------------------------

/// `s` with `to` in place of each `from`.
pub open spec fn replace_char(s: Seq<char>, from: char, to: Seq<char>) -> Seq<char>
    decreases s.len(),
{
    if s.len() == 0 {
        s
    } else {
        replace_char(s.drop_last(), from, to) + (if s.last() == from {
            to
        } else {
            seq![s.last()]
        })
    }
}

/// `s` with `to` in place of each `first` that `second` follows, and of that
/// `second`, from the left.
pub open spec fn replace_pair(s: Seq<char>, first: char, second: char, to: char) -> Seq<char>
    decreases s.len(),
{
    if s.len() < 2 {
        s
    } else if s[0] == first && s[1] == second {
        seq![to] + replace_pair(s.skip(2), first, second, to)
    } else {
        seq![s[0]] + replace_pair(s.skip(1), first, second, to)
    }
}

/// `+` becomes `+1`, then `|` becomes `+2`.
pub open spec fn escaped(s: Seq<char>) -> Seq<char> {
    replace_char(replace_char(s, '+', seq!['+', '1']), '|', seq!['+', '2'])
}

/// `+2` becomes `|`, then `+1` becomes `+`.
pub open spec fn unescaped(s: Seq<char>) -> Seq<char> {
    replace_pair(replace_pair(s, '+', '2', '|'), '+', '1', '+')
}

fn replace_each(s: &str, from: char, second: char) -> (r: String)
    ensures
        r@ == replace_char(s@, from, seq!['+', second]),
{
    let mut r = String::new();
    for c in it: s.chars()
        invariant
            it.seq() == s@,
            r@ == replace_char(s@.take(it.index() as int), from, seq!['+', second]),
    {
        assert(s@.take(it.index() + 1).drop_last() =~= s@.take(it.index() as int));
        if c == from {
            r.push('+');
            r.push(second);
        } else {
            r.push(c);
        }
        assert(r@ =~= replace_char(s@.take(it.index() + 1), from, seq!['+', second]));
    }
    assert(s@.take(s@.len() as int) =~= s@);
    r
}

fn replace_pairs(s: &str, first: char, second: char, to: char) -> (r: String)
    ensures
        r@ == replace_pair(s@, first, second, to),
{
    let x = chars_of(s);
    let mut r = String::new();
    let mut i: usize = 0;
    assert(x@.skip(0) =~= s@);
    while i < x.len()
        invariant
            i <= x.len(),
            replace_pair(s@, first, second, to) == r@ + replace_pair(
                x@.skip(i as int),
                first,
                second,
                to,
            ),
        decreases x.len() - i,
    {
        let ghost rest = x@.skip(i as int);
        let ghost sofar = r@;
        if i + 1 < x.len() && x[i] == first && x[i + 1] == second {
            r.push(to);
            assert(rest.skip(2) =~= x@.skip(i + 2));
            assert(sofar + (seq![to] + replace_pair(x@.skip(i + 2), first, second, to)) =~= r@
                + replace_pair(x@.skip(i + 2), first, second, to));
            i += 2;
        } else {
            r.push(x[i]);
            assert(rest.skip(1) =~= x@.skip(i + 1));
            assert(replace_pair(rest, first, second, to) =~= seq![rest[0]] + replace_pair(
                rest.skip(1),
                first,
                second,
                to,
            ));
            assert(sofar + (seq![rest[0]] + replace_pair(x@.skip(i + 1), first, second, to)) =~= r@
                + replace_pair(x@.skip(i + 1), first, second, to));
            i += 1;
        }
    }
    assert(r@ + replace_pair(x@.skip(i as int), first, second, to) =~= r@);
    r
}

/// Reverses [`escape`]: `+2` becomes `|`, then `+1` becomes `+`.
pub fn unescape(s: &str) -> (r: String)
    ensures
        r@ == unescaped(s@),
{
    replace_pairs(&replace_pairs(s, '+', '2', '|'), '+', '1', '+')
}

/// Escapes the text of a message: `+` becomes `+1`, then `|` becomes `+2`.
pub fn escape(s: &str) -> (r: String)
    ensures
        r@ == escaped(s@),
{
    replace_each(&replace_each(s, '+', '1'), '|', '2')
}

proof fn lemma_replace_char_concat(a: Seq<char>, b: Seq<char>, from: char, to: Seq<char>)
    ensures
        replace_char(a + b, from, to) == replace_char(a, from, to) + replace_char(b, from, to),
    decreases b.len(),
{
    if b.len() == 0 {
        assert(a + b =~= a);
        assert(replace_char(a, from, to) + b =~= replace_char(a, from, to));
    } else {
        assert((a + b).drop_last() =~= a + b.drop_last());
        lemma_replace_char_concat(a, b.drop_last(), from, to);
        assert(replace_char(a + b, from, to) =~= replace_char(a, from, to) + replace_char(
            b,
            from,
            to,
        ));
    }
}

/// What a character becomes when it is escaped.
pub open spec fn escaped_char(c: char) -> Seq<char> {
    if c == '+' {
        seq!['+', '1']
    } else if c == '|' {
        seq!['+', '2']
    } else {
        seq![c]
    }
}

proof fn lemma_replace_char_one(c: char, from: char, to: Seq<char>)
    ensures
        replace_char(seq![c], from, to) == if c == from {
            to
        } else {
            seq![c]
        },
{
    reveal_with_fuel(replace_char, 2);
    assert(seq![c].drop_last() =~= Seq::empty());
    assert(Seq::<char>::empty() + to =~= to);
    assert(Seq::<char>::empty() + seq![c] =~= seq![c]);
}

/// Escaping goes character by character.
pub proof fn law_escape_by_character(s: Seq<char>)
    ensures
        s.len() == 0 ==> escaped(s) == s,
        s.len() > 0 ==> escaped(s) == escaped_char(s[0]) + escaped(s.drop_first()),
{
    if s.len() > 0 {
        let one = seq![s[0]];
        let plus = seq!['+', '1'];
        let pipe = seq!['+', '2'];
        assert(s =~= one + s.drop_first());
        lemma_replace_char_concat(one, s.drop_first(), '+', plus);
        lemma_replace_char_one(s[0], '+', plus);
        let head = replace_char(one, '+', plus);
        lemma_replace_char_concat(head, replace_char(s.drop_first(), '+', plus), '|', pipe);
        if s[0] == '+' {
            assert(head =~= seq!['+'] + seq!['1']);
            lemma_replace_char_concat(seq!['+'], seq!['1'], '|', pipe);
            lemma_replace_char_one('+', '|', pipe);
            lemma_replace_char_one('1', '|', pipe);
            assert(replace_char(head, '|', pipe) =~= plus);
        } else {
            lemma_replace_char_one(s[0], '|', pipe);
        }
    }
}

proof fn lemma_pair_head(c: char, rest: Seq<char>, first: char, second: char, to: char)
    requires
        c != first,
    ensures
        replace_pair(seq![c] + rest, first, second, to) == seq![c] + replace_pair(
            rest,
            first,
            second,
            to,
        ),
{
    let s = seq![c] + rest;
    assert(s.skip(1) =~= rest);
    if rest.len() == 0 {
        assert(s =~= seq![c] + replace_pair(rest, first, second, to));
    }
}

proof fn lemma_pair_found(rest: Seq<char>, first: char, second: char, to: char)
    ensures
        replace_pair(seq![first, second] + rest, first, second, to) == seq![to] + replace_pair(
            rest,
            first,
            second,
            to,
        ),
{
    assert((seq![first, second] + rest).skip(2) =~= rest);
}

/// The first step back: `+2` becomes `|` again, and nothing else changes.
proof fn lemma_first_step_back(s: Seq<char>)
    ensures
        replace_pair(escaped(s), '+', '2', '|') == replace_char(s, '+', seq!['+', '1']),
    decreases s.len(),
{
    law_escape_by_character(s);
    let plus = seq!['+', '1'];
    if s.len() > 0 {
        let rest = escaped(s.drop_first());
        lemma_first_step_back(s.drop_first());
        assert(s =~= seq![s[0]] + s.drop_first());
        lemma_replace_char_concat(seq![s[0]], s.drop_first(), '+', plus);
        lemma_replace_char_one(s[0], '+', plus);
        if s[0] == '|' {
            lemma_pair_found(rest, '+', '2', '|');
        } else if s[0] == '+' {
            let tail = seq!['1'] + rest;
            lemma_pair_head('1', rest, '+', '2', '|');
            assert(plus + rest =~= seq!['+'] + tail);
            let whole = seq!['+'] + tail;
            assert(whole.skip(1) =~= tail);
            assert(replace_pair(whole, '+', '2', '|') == seq!['+'] + replace_pair(
                tail,
                '+',
                '2',
                '|',
            ));
            assert(seq!['+'] + (seq!['1'] + replace_pair(rest, '+', '2', '|')) =~= plus
                + replace_pair(rest, '+', '2', '|'));
        } else {
            lemma_pair_head(s[0], rest, '+', '2', '|');
        }
    }
}

proof fn lemma_second_step_back(s: Seq<char>)
    ensures
        replace_pair(replace_char(s, '+', seq!['+', '1']), '+', '1', '+') == s,
    decreases s.len(),
{
    let plus = seq!['+', '1'];
    if s.len() > 0 {
        let rest = replace_char(s.drop_first(), '+', plus);
        lemma_second_step_back(s.drop_first());
        assert(s =~= seq![s[0]] + s.drop_first());
        lemma_replace_char_concat(seq![s[0]], s.drop_first(), '+', plus);
        lemma_replace_char_one(s[0], '+', plus);
        if s[0] == '+' {
            lemma_pair_found(rest, '+', '1', '+');
        } else {
            lemma_pair_head(s[0], rest, '+', '1', '+');
        }
    }
}

/// Unescaping gives back what was escaped.
pub proof fn law_unescape_reverses_escape(s: Seq<char>)
    ensures
        unescaped(escaped(s)) == s,
{
    lemma_first_step_back(s);
    lemma_second_step_back(s);
}

/// An escaped text holds no delimiter.
pub proof fn law_escaped_has_no_delimiter(s: Seq<char>)
    ensures
        !escaped(s).contains('|'),
    decreases s.len(),
{
    law_escape_by_character(s);
    if s.len() > 0 {
        law_escaped_has_no_delimiter(s.drop_first());
        let head = escaped_char(s[0]);
        let rest = escaped(s.drop_first());
        if escaped(s).contains('|') {
            let i = choose|i: int| 0 <= i < escaped(s).len() && escaped(s)[i] == '|';
            if i < head.len() {
                assert(head[i] == '|');
            } else {
                assert(rest[i - head.len()] == '|');
            }
        }
    }
}

/// Different texts are escaped differently.
pub proof fn law_escape_is_injective(a: Seq<char>, b: Seq<char>)
    requires
        escaped(a) == escaped(b),
    ensures
        a == b,
{
    law_unescape_reverses_escape(a);
    law_unescape_reverses_escape(b);
}

// ---------------------------------------------------------------------------
// Frames
// ---------------------------------------------------------------------------

/// A stream of bytes, cut at its delimiters.
#[verifier::ext_equal]
pub struct Cut {
    /// The frames that a delimiter ended, without those of no bytes.
    pub frames: Seq<Seq<u8>>,
    /// The bytes behind the last delimiter.
    pub rest: Seq<u8>,
}

/// Cuts a stream at its delimiters.
pub open spec fn cut(stream: Seq<u8>) -> Cut
    decreases stream.len(),
{
    if stream.len() == 0 {
        Cut { frames: Seq::empty(), rest: Seq::empty() }
    } else {
        let before = cut(stream.drop_last());
        if stream.last() != DELIMITER {
            Cut { frames: before.frames, rest: before.rest.push(stream.last()) }
        } else if before.rest.len() == 0 {
            Cut { frames: before.frames, rest: Seq::empty() }
        } else {
            Cut { frames: before.frames.push(before.rest), rest: Seq::empty() }
        }
    }
}

/// The text that `String::from_utf8_lossy` makes of bytes.
pub uninterp spec fn lossy_text(bytes: Seq<u8>) -> Seq<char>;

/// `String::from_utf8_lossy`: what it makes of bytes that are no UTF-8 has a name
/// and is not described; bytes that are UTF-8 give the text that they encode.
#[verifier::external_body]
fn text_from_bytes(bytes: &Vec<u8>) -> (r: String)
    ensures
        r@ == lossy_text(bytes@),
        valid_utf8(bytes@) ==> r@ == decode_utf8(bytes@),
{
    String::from_utf8_lossy(bytes).into_owned()
}

/// `message` is what the frame `frame` says.
pub open spec fn is_message(frame: Seq<u8>, message: Seq<char>) -> bool {
    &&& message == unescaped(lossy_text(frame))
    &&& valid_utf8(frame) ==> message == unescaped(decode_utf8(frame))
}

/// `messages` are what the frames `frames` say, one for one.
pub open spec fn are_messages(frames: Seq<Seq<u8>>, messages: Seq<String>) -> bool {
    &&& messages.len() == frames.len()
    &&& forall|i: int|
        0 <= i < frames.len() ==> is_message(frames[i], (#[trigger] messages[i])@)
}

/// Takes in a stream of bytes piece by piece and hands out its messages.
pub struct FrameDecoder {
    buf: Vec<u8>,
}

impl FrameDecoder {
    /// The bytes taken in since the last delimiter.
    pub closed spec fn pending(self) -> Seq<u8> {
        self.buf@
    }

    /// No delimiter waits in the buffer.
    pub open spec fn wf(self) -> bool {
        !self.pending().contains(DELIMITER)
    }

    /// Takes in `bytes` and hands out the messages whose frames they end, in
    /// order. The bytes behind the last delimiter wait for the next call.
    pub fn feed(&mut self, bytes: &[u8]) -> (out: Vec<String>)
        requires
            old(self).wf(),
        ensures
            final(self).wf(),
            final(self).pending() == cut(old(self).pending() + bytes@).rest,
            are_messages(cut(old(self).pending() + bytes@).frames, out@),
    {
        let mut out: Vec<String> = Vec::new();
        let ghost start = self.buf@;
        let mut i: usize = 0;
        proof {
            lemma_cut_without_delimiter(start);
            assert(start + bytes@.take(0) =~= start);
        }
        while i < bytes.len()
            invariant
                i <= bytes.len(),
                self.buf@ == cut(start + bytes@.take(i as int)).rest,
                are_messages(cut(start + bytes@.take(i as int)).frames, out@),
            decreases bytes.len() - i,
        {
            let ghost seen = start + bytes@.take(i as int);
            let ghost next = start + bytes@.take(i + 1);
            assert(next.drop_last() =~= seen);
            let b = bytes[i];
            if b == DELIMITER {
                if !self.buf.is_empty() {
                    let escaped_body = text_from_bytes(&self.buf);
                    out.push(unescape(&escaped_body));
                }
                self.buf.clear();
            } else {
                self.buf.push(b);
            }
            i += 1;
        }
        assert(bytes@.take(i as int) =~= bytes@);
        proof {
            law_rest_has_no_delimiter(start + bytes@);
        }
        out
    }
}

impl Default for FrameDecoder {
    /// A decoder that has taken in nothing.
    fn default() -> (r: FrameDecoder)
        ensures
            r.wf(),
            r.pending() == Seq::<u8>::empty(),
    {
        FrameDecoder { buf: Vec::new() }
    }
}

proof fn lemma_cut_without_delimiter(s: Seq<u8>)
    requires
        !s.contains(DELIMITER),
    ensures
        cut(s) == (Cut { frames: Seq::empty(), rest: s }),
    decreases s.len(),
{
    if s.len() > 0 {
        assert(s[s.len() - 1] != DELIMITER);
        assert forall|i: int| 0 <= i < s.drop_last().len() implies s.drop_last()[i] != DELIMITER by {
            assert(s[i] != DELIMITER);
        }
        lemma_cut_without_delimiter(s.drop_last());
        assert(s.drop_last().push(s.last()) =~= s);
    } else {
        assert(s =~= Seq::empty());
    }
}

/// Neither the frames of a stream nor the bytes behind them hold a delimiter,
/// and no frame is empty.
pub proof fn law_rest_has_no_delimiter(s: Seq<u8>)
    ensures
        !cut(s).rest.contains(DELIMITER),
        forall|i: int|
            0 <= i < cut(s).frames.len() ==> (#[trigger] cut(s).frames[i]).len() > 0
                && !cut(s).frames[i].contains(DELIMITER),
    decreases s.len(),
{
    if s.len() > 0 {
        law_rest_has_no_delimiter(s.drop_last());
    }
}

/// It does not matter where a stream is cut into pieces: taking in `a` and then
/// `b` hands out the frames of `a + b`, and leaves the same bytes waiting.
pub proof fn law_pieces_do_not_matter(a: Seq<u8>, b: Seq<u8>)
    ensures
        cut(a + b).frames == cut(a).frames + cut(cut(a).rest + b).frames,
        cut(a + b).rest == cut(cut(a).rest + b).rest,
    decreases b.len(),
{
    let kept = cut(a).rest;
    if b.len() == 0 {
        assert(a + b =~= a);
        assert(kept + b =~= kept);
        law_rest_has_no_delimiter(a);
        lemma_cut_without_delimiter(kept);
        assert(cut(a).frames + Seq::<Seq<u8>>::empty() =~= cut(a).frames);
    } else {
        law_pieces_do_not_matter(a, b.drop_last());
        assert((a + b).drop_last() =~= a + b.drop_last());
        assert((kept + b).drop_last() =~= kept + b.drop_last());
        assert(cut(a + b).frames =~= cut(a).frames + cut(kept + b).frames);
    }
}

proof fn lemma_scalar_bytes(c: char)
    requires
        c != '|',
    ensures
        !encode_scalar(c as u32).contains(DELIMITER),
{
    let u = c as u32;
    assert(u <= 0x7f ==> (u & 0x7f) as u8 == u) by (bit_vector);
    assert(0xC0 | ((u >> 6) & 0x1F) as u8 >= 0x80) by (bit_vector);
    assert(0xE0 | ((u >> 12) & 0x0F) as u8 >= 0x80) by (bit_vector);
    assert(0xF0 | ((u >> 18) & 0x7) as u8 >= 0x80) by (bit_vector);
    assert(0x80 | (u & 0x3F) as u8 >= 0x80) by (bit_vector);
    assert(0x80 | ((u >> 6) & 0x3F) as u8 >= 0x80) by (bit_vector);
    assert(0x80 | ((u >> 12) & 0x3F) as u8 >= 0x80) by (bit_vector);
}

proof fn lemma_text_bytes(s: Seq<char>)
    requires
        !s.contains('|'),
    ensures
        !encode_utf8(s).contains(DELIMITER),
        s.len() > 0 ==> encode_utf8(s).len() > 0,
    decreases s.len(),
{
    if s.len() > 0 {
        let head = encode_scalar(s[0] as u32);
        let rest = encode_utf8(s.drop_first());
        assert(s[0] != '|');
        lemma_scalar_bytes(s[0]);
        assert forall|i: int| 0 <= i < s.drop_first().len() implies s.drop_first()[i] != '|' by {
            assert(s[i + 1] != '|');
        }
        lemma_text_bytes(s.drop_first());
        assert forall|i: int| 0 <= i < (head + rest).len() implies (head + rest)[i] != DELIMITER by {
            if i < head.len() {
                assert(head[i] != DELIMITER);
            } else {
                assert(rest[i - head.len()] != DELIMITER);
            }
        }
    }
}

/// The frame of a message with the text `body`.
pub open spec fn framed(body: Seq<char>) -> Seq<u8> {
    encode_utf8(escaped(body)).push(DELIMITER)
}

/// A decoder with nothing waiting that takes in the frame of a text hands out
/// exactly that text, and has nothing waiting afterwards.
pub proof fn law_frame_gives_text_back(body: Seq<char>, message: Seq<char>)
    requires
        body.len() > 0,
    ensures
        cut(framed(body)).rest == Seq::<u8>::empty(),
        cut(framed(body)).frames == seq![encode_utf8(escaped(body))],
        is_message(encode_utf8(escaped(body)), message) ==> message == body,
{
    broadcast use vstd::utf8::encode_utf8_valid_utf8, vstd::utf8::encode_utf8_decode_utf8;

    let bytes = encode_utf8(escaped(body));
    law_escaped_has_no_delimiter(body);
    law_escape_by_character(body);
    lemma_text_bytes(escaped(body));
    lemma_cut_without_delimiter(bytes);
    assert(framed(body).drop_last() =~= bytes);
    law_unescape_reverses_escape(body);
}

// ---------------------------------------------------------------------------
// Encoding
// ---------------------------------------------------------------------------

/// The frame of a message with the text `body`, or the complaint that the text is
/// too long.
pub open spec fn frame_of(body: Seq<char>) -> Result<Seq<u8>, Seq<char>> {
    let n = encode_utf8(body).len();
    if n > MAX_BODY_LEN {
        Err("IPC message too long: "@ + decimal(n) + " > "@ + decimal(MAX_BODY_LEN as nat))
    } else {
        Ok(framed(body))
    }
}

/// Frames the text of a message.
pub fn encode_body(body: &str) -> (r: Result<Vec<u8>, String>)
    ensures
        match r {
            Ok(frame) => frame_of(body@) matches Ok(f) && f == frame@,
            Err(e) => frame_of(body@) matches Err(m) && m == e@,
        },
{
    let len = body.as_bytes().len();
    if len > MAX_BODY_LEN {
        let mut e = "IPC message too long: ".to_owned();
        e.append(&decimal_text(len as u64));
        e.append(" > ");
        e.append(&decimal_text(MAX_BODY_LEN as u64));
        return Err(e);
    }
    let escaped_body = escape(body);
    let mut frame = escaped_body.as_str().as_bytes_vec();
    frame.push(DELIMITER);
    Ok(frame)
}

/// A frame holds a document: it is one frame, and what it says reads as the
/// document, where that is plain.
pub open spec fn carries(frame: Seq<u8>, v: JsonView) -> bool {
    &&& cut(frame).rest == Seq::<u8>::empty()
    &&& cut(frame).frames.len() == 1
    &&& forall|message: Seq<char>| #[trigger]
        is_message(cut(frame).frames[0], message) ==> reads_back(message, v)
}

/// Writes a document as a frame. Feeding the frame to a decoder and parsing what
/// it hands out gives a plain document back.
pub fn encode(envelope: &Json) -> (r: Result<Vec<u8>, String>)
    ensures
        match r {
            Ok(frame) => frame_of(json_pretty(envelope@)) matches Ok(f) && f == frame@ && carries(
                frame@,
                envelope@,
            ),
            Err(e) => frame_of(json_pretty(envelope@)) matches Err(m) && m == e@,
        },
{
    let body = envelope.pretty();
    let r = encode_body(&body);
    proof {
        if r is Ok {
            let frame = r->Ok_0;
            assert forall|message: Seq<char>| #[trigger]
                is_message(cut(frame@).frames[0], message) implies reads_back(
                message,
                envelope@,
            ) by {
                law_frame_gives_text_back(body@, message);
            }
            law_frame_gives_text_back(body@, body@);
        }
    }
    r
}

/// Frames, one behind the other.
pub open spec fn stream_of(frames: Seq<Seq<u8>>) -> Seq<u8>
    decreases frames.len(),
{
    if frames.len() == 0 {
        Seq::empty()
    } else {
        stream_of(frames.drop_last()) + frames.last()
    }
}

/// A stream of frames is taken apart into exactly these frames, in order, and
/// nothing is left waiting.
pub proof fn law_stream_gives_frames_back(frames: Seq<Seq<u8>>)
    requires
        forall|i: int|
            0 <= i < frames.len() ==> cut(#[trigger] frames[i]).rest == Seq::<u8>::empty() && cut(
                frames[i],
            ).frames.len() == 1,
    ensures
        cut(stream_of(frames)).rest == Seq::<u8>::empty(),
        cut(stream_of(frames)).frames == frames.map_values(|f: Seq<u8>| cut(f).frames[0]),
    decreases frames.len(),
{
    let each = frames.map_values(|f: Seq<u8>| cut(f).frames[0]);
    if frames.len() == 0 {
        assert(each =~= Seq::<Seq<u8>>::empty());
    } else {
        let rest = frames.drop_last();
        let last = frames.last();
        assert forall|i: int| 0 <= i < rest.len() implies cut(#[trigger] rest[i]).rest == Seq::<
            u8,
        >::empty() && cut(rest[i]).frames.len() == 1 by {
            assert(rest[i] == frames[i]);
        }
        assert(last == frames[frames.len() - 1]);
        law_stream_gives_frames_back(rest);
        law_pieces_do_not_matter(stream_of(rest), last);
        assert(Seq::<u8>::empty() + last =~= last);
        assert(cut(stream_of(frames)).frames =~= each);
    }
}

/// Documents that were written as frames, one behind the other, are read in the same
/// order: what a decoder with nothing waiting hands out for the stream is one
/// message for each document, which reads as the document where that is plain.
pub proof fn law_stream_is_read(
    frames: Seq<Seq<u8>>,
    documents: Seq<JsonView>,
    messages: Seq<String>,
)
    requires
        frames.len() == documents.len(),
        forall|i: int| 0 <= i < frames.len() ==> carries(#[trigger] frames[i], documents[i]),
        are_messages(cut(stream_of(frames)).frames, messages),
    ensures
        messages.len() == documents.len(),
        forall|i: int|
            0 <= i < documents.len() ==> reads_back((#[trigger] messages[i])@, documents[i]),
{
    law_stream_gives_frames_back(frames);
    let each = cut(stream_of(frames)).frames;
    assert forall|i: int| 0 <= i < documents.len() implies reads_back(
        (#[trigger] messages[i])@,
        documents[i],
    ) by {
        assert(carries(frames[i], documents[i]));
        assert(each[i] == cut(frames[i]).frames[0]);
        assert(is_message(each[i], messages[i]@));
    }
}

// ---------------------------------------------------------------------------
// Envelopes
// ---------------------------------------------------------------------------

/// The envelope of `kind` round the members `inner` and `uuid`.
pub open spec fn envelope_view(
    kind: Seq<char>,
    inner: Map<Seq<char>, JsonView>,
    uuid: Seq<char>,
) -> JsonView {
    JsonView::Object(
        Map::empty().insert(kind, JsonView::Object(inner.insert("uuid"@, JsonView::Text(uuid)))),
    )
}

/// The response `name`.
pub open spec fn response_view(name: Seq<char>, body: JsonView, uuid: Seq<char>) -> JsonView {
    envelope_view("HelperAPIResponse"@, Map::empty().insert(name, body), uuid)
}

/// The request `name`.
pub open spec fn request_view(name: Seq<char>, body: JsonView, uuid: Seq<char>) -> JsonView {
    envelope_view("HelperAPIRequest"@, Map::empty().insert(name, body), uuid)
}

/// The document with the one member `payload`.
pub open spec fn payload_view(members: Map<Seq<char>, JsonView>) -> JsonView {
    JsonView::Object(Map::empty().insert("payload"@, JsonView::Object(members)))
}

/// The response that acknowledges a request.
pub open spec fn ack_view(uuid: Seq<char>) -> JsonView {
    response_view("ACK"@, JsonView::Bool(true), uuid)
}

/// The response that reports an error.
pub open spec fn error_view(description: Seq<char>, uuid: Seq<char>) -> JsonView {
    response_view(
        "HelperAPIError"@,
        payload_view(
            Map::empty().insert("type"@, JsonView::Text(Seq::empty())).insert(
                "description"@,
                JsonView::Text(description),
            ).insert("params"@, JsonView::Object(no_members())),
        ),
        uuid,
    )
}

/// Wraps the members of an inner object, one or more, in an envelope with `uuid`.
pub fn envelope(kind: &str, inner: Vec<(String, Json)>, uuid: &str) -> (r: Json)
    ensures
        r@ == envelope_view(kind@, entries_view(inner@), uuid@),
{
    let mut inner = inner;
    put(&mut inner, "uuid", Json::text(uuid));
    Json::member(kind, Json::Object(inner))
}

/// Builds the response `name`.
pub fn response(name: &str, body: Json, uuid: &str) -> (r: Json)
    ensures
        r@ == response_view(name@, body@, uuid@),
{
    let mut inner: Vec<(String, Json)> = Vec::new();
    put(&mut inner, name, body);
    envelope("HelperAPIResponse", inner, uuid)
}

/// Builds the request `name`: what the helper sends unasked.
pub fn request(name: &str, body: Json, uuid: &str) -> (r: Json)
    ensures
        r@ == request_view(name@, body@, uuid@),
{
    let mut inner: Vec<(String, Json)> = Vec::new();
    put(&mut inner, name, body);
    envelope("HelperAPIRequest", inner, uuid)
}

/// Wraps members in `{ "payload": .. }`.
pub fn payload(members: Vec<(String, Json)>) -> (r: Json)
    ensures
        r@ == payload_view(entries_view(members@)),
{
    Json::member("payload", Json::Object(members))
}

/// Builds the response that acknowledges a request: `{ ACK: true, uuid }`.
pub fn ack(uuid: &str) -> (r: Json)
    ensures
        r@ == ack_view(uuid@),
{
    response("ACK", Json::Bool(true), uuid)
}

/// Builds the response that reports an error.
pub fn error(description: &str, uuid: &str) -> (r: Json)
    ensures
        r@ == error_view(description@, uuid@),
{
    let mut members: Vec<(String, Json)> = Vec::new();
    put(&mut members, "type", Json::text(""));
    put(&mut members, "description", Json::text(description));
    put(&mut members, "params", Json::Object(Vec::new()));
    proof {
        reveal_strlit("");
        assert(""@ =~= Seq::<char>::empty());
    }
    response("HelperAPIError", payload(members), uuid)
}

// ---------------------------------------------------------------------------
// Reading
// ---------------------------------------------------------------------------

/// The two kinds of envelope.
#[derive(Debug, PartialEq, Eq, Structural, Clone, Copy)]
pub enum Kind {
    Request,
    Response,
}

/// A message as it came in: the kind of its envelope, the name of its command or
/// response, what came with that, and its uuid.
#[derive(Debug)]
pub struct Incoming {
    pub kind: Kind,
    pub command: String,
    pub payload: Json,
    pub uuid: String,
}

/// An [`Incoming`] as a mathematical value.
#[verifier::ext_equal]
pub struct IncomingView {
    pub kind: Kind,
    pub command: Seq<char>,
    pub payload: JsonView,
    pub uuid: Seq<char>,
}

/// The keys of an inner object that name no command.
pub open spec fn is_meta(key: Seq<char>) -> bool {
    key == "uuid"@ || key == "sentryTrace"@ || key == "sentryBaggage"@
}

/// `key` could be the command of an inner object.
pub open spec fn may_be_command(inner: Map<Seq<char>, JsonView>, key: Seq<char>) -> bool {
    inner.contains_key(key) && !is_meta(key) && inner[key] !is Null
}

/// `key` is the first of the keys that could be the command.
pub open spec fn is_command(inner: Map<Seq<char>, JsonView>, key: Seq<char>) -> bool {
    &&& may_be_command(inner, key)
    &&& forall|other: Seq<char>| #[trigger]
        may_be_command(inner, other) && other != key ==> text_before(key, other)
}

/// The command of an inner object that has one.
pub open spec fn command_of(inner: Map<Seq<char>, JsonView>) -> Seq<char> {
    choose|key: Seq<char>| is_command(inner, key)
}

/// What an inner object says.
pub open spec fn inner_of(kind: Kind, inner: JsonView) -> Result<IncomingView, Seq<char>> {
    match inner {
        JsonView::Object(m) => if exists|key: Seq<char>| may_be_command(m, key) {
            Ok(
                IncomingView {
                    kind,
                    command: command_of(m),
                    payload: m[command_of(m)],
                    uuid: inner.text_at("uuid"@),
                },
            )
        } else {
            Err("no command key found in envelope"@)
        },
        _ => Err("inner is not an object"@),
    }
}

/// What an envelope says.
pub open spec fn incoming_of(v: JsonView) -> Result<IncomingView, Seq<char>> {
    match v {
        JsonView::Object(m) => if m.contains_key("HelperAPIRequest"@) {
            inner_of(Kind::Request, m["HelperAPIRequest"@])
        } else if m.contains_key("HelperAPIResponse"@) {
            inner_of(Kind::Response, m["HelperAPIResponse"@])
        } else {
            Err("envelope has neither HelperAPIRequest nor HelperAPIResponse"@)
        },
        _ => Err("envelope is not an object"@),
    }
}

/// `m` is a message whose command is that of the inner object for its kind in the
/// envelope `v`.
pub open spec fn is_command_in(v: JsonView, m: IncomingView) -> bool {
    &&& v matches JsonView::Object(outer)
    &&& outer.contains_key(kind_key(m.kind))
    &&& outer[kind_key(m.kind)] matches JsonView::Object(inner)
    &&& is_command(inner, m.command)
}

/// What the text of a message says.
pub open spec fn message_of(body: Seq<char>) -> Result<IncomingView, Seq<char>> {
    match json_parsed(body) {
        Ok(v) => incoming_of(v),
        Err(e) => Err(e),
    }
}

/// An object has one command at most.
pub proof fn law_command_is_unique(inner: Map<Seq<char>, JsonView>, a: Seq<char>, b: Seq<char>)
    requires
        is_command(inner, a),
        is_command(inner, b),
    ensures
        a == b,
{
    law_text_order_total(a, b);
}

/// An object with a key that could be the command has one: [`command_of`] is the
/// first of those keys.
pub proof fn law_command_is_first(inner: Map<Seq<char>, JsonView>, key: Seq<char>)
    requires
        inner.dom().finite(),
        may_be_command(inner, key),
    ensures
        is_command(inner, command_of(inner)),
    decreases inner.dom().len(),
{
    let rest = inner.remove(key);
    assert(rest.dom() =~= inner.dom().remove(key));
    let first = if exists|other: Seq<char>| may_be_command(rest, other) {
        let other = choose|other: Seq<char>| may_be_command(rest, other);
        law_command_is_first(rest, other);
        let ahead = command_of(rest);
        law_text_order_total(key, ahead);
        if text_before(key, ahead) {
            assert forall|k: Seq<char>| #[trigger]
                may_be_command(inner, k) && k != key implies text_before(key, k) by {
                assert(may_be_command(rest, k));
                if k != ahead {
                    law_text_order_transitive(key, ahead, k);
                }
            }
            key
        } else {
            assert forall|k: Seq<char>| #[trigger]
                may_be_command(inner, k) && k != ahead implies text_before(ahead, k) by {
                if k != key {
                    assert(may_be_command(rest, k));
                }
            }
            ahead
        }
    } else {
        assert forall|k: Seq<char>| #[trigger]
            may_be_command(inner, k) && k != key implies text_before(key, k) by {
            assert(may_be_command(rest, k));
        }
        key
    };
    assert(is_command(inner, first));
}

/// Decides [`is_meta`].
fn meta(key: &str) -> (r: bool)
    ensures
        r == is_meta(key@),
{
    same_text(key, "uuid") || same_text(key, "sentryTrace") || same_text(key, "sentryBaggage")
}

/// The place of the entry that gives an inner object its command.
fn find_command(entries: &Vec<(String, Json)>) -> (r: Option<usize>)
    ensures
        match r {
            Some(i) => i < entries@.len() && is_command(
                entries_view(entries@),
                entries@[i as int].0@,
            ) && entries_view(entries@)[entries@[i as int].0@] == entries@[i as int].1@,
            None => forall|key: Seq<char>| !may_be_command(entries_view(entries@), key),
        },
{
    let ghost inner = entries_view(entries@);
    let mut best: Option<usize> = None;
    let mut i: usize = 0;
    while i < entries.len()
        invariant
            i <= entries.len(),
            inner == entries_view(entries@),
            match best {
                Some(b) => b < entries@.len() && may_be_command(inner, entries@[b as int].0@)
                    && inner[entries@[b as int].0@] == entries@[b as int].1@ && forall|j: int|
                    0 <= j < i && may_be_command(inner, (#[trigger] entries@[j]).0@)
                        && entries@[j].0@ != entries@[b as int].0@ ==> text_before(
                        entries@[b as int].0@,
                        entries@[j].0@,
                    ),
                None => forall|j: int|
                    0 <= j < i ==> !may_be_command(inner, (#[trigger] entries@[j]).0@),
            },
        decreases entries.len() - i,
    {
        let key = entries[i].0.as_str();
        if !meta(key) {
            if let Some(at) = find_entry(entries, key) {
                if !entries[at].1.is_null() {
                    match best {
                        None => {
                            best = Some(at);
                        },
                        Some(b) => {
                            let ghost ahead = entries@[b as int].0@;
                            if is_before(key, &entries[b].0) {
                                best = Some(at);
                                proof {
                                    assert forall|j: int|
                                        0 <= j < i && may_be_command(
                                            inner,
                                            (#[trigger] entries@[j]).0@,
                                        ) && entries@[j].0@ != key@ implies text_before(
                                        key@,
                                        entries@[j].0@,
                                    ) by {
                                        if entries@[j].0@ != ahead {
                                            law_text_order_transitive(
                                                key@,
                                                ahead,
                                                entries@[j].0@,
                                            );
                                        }
                                    }
                                }
                            } else {
                                proof {
                                    law_text_order_total(key@, ahead);
                                }
                            }
                        },
                    }
                }
            }
        }
        i += 1;
    }
    proof {
        assert forall|key: Seq<char>| may_be_command(inner, key) implies exists|j: int|
            0 <= j < entries@.len() && (#[trigger] entries@[j]).0@ == key by {
            lemma_member_has_entry(entries@, key);
        }
    }
    best
}

/// Takes the member `key` out of the entries of an object.
fn take_member(entries: Vec<(String, Json)>, key: &str) -> (r: Option<Json>)
    ensures
        match r {
            Some(v) => entries_view(entries@).contains_key(key@) && entries_view(entries@)[key@]
                == v@,
            None => !entries_view(entries@).contains_key(key@),
        },
{
    let mut entries = entries;
    match find_entry(&entries, key) {
        Some(i) => {
            let (_, v) = entries.swap_remove(i);
            Some(v)
        },
        None => None,
    }
}

impl Incoming {
    /// The message as a mathematical value.
    pub open spec fn view(&self) -> IncomingView {
        IncomingView {
            kind: self.kind,
            command: self.command@,
            payload: self.payload@,
            uuid: self.uuid@,
        }
    }

    /// Reads an inner object.
    fn from_inner(kind: Kind, inner: Json) -> (r: Result<Incoming, String>)
        ensures
            match r {
                Ok(m) => (inner_of(kind, inner@) matches Ok(w) && w == m@) && (
                inner@ matches JsonView::Object(keys) && is_command(keys, m@.command)),
                Err(e) => inner_of(kind, inner@) matches Err(w) && w == e@,
            },
    {
        let uuid = inner.text_at("uuid");
        match inner {
            Json::Object(mut entries) => match find_command(&entries) {
                Some(i) => {
                    let ghost m = entries_view(entries@);
                    proof {
                        assert(may_be_command(m, entries@[i as int].0@));
                        assert(is_command(m, command_of(m)));
                        law_command_is_unique(m, command_of(m), entries@[i as int].0@);
                    }
                    let (command, payload) = entries.swap_remove(i);
                    Ok(Incoming { kind, command, payload, uuid })
                },
                None => Err("no command key found in envelope".to_owned()),
            },
            _ => Err("inner is not an object".to_owned()),
        }
    }

    /// Reads an envelope. The command is the first of the inner object's keys, in
    /// their order as texts, that is no metadata and whose value is not `null`.
    pub fn from_envelope(v: Json) -> (r: Result<Incoming, String>)
        ensures
            match r {
                Ok(m) => (incoming_of(v@) matches Ok(w) && w == m@) && is_command_in(v@, m@),
                Err(e) => incoming_of(v@) matches Err(w) && w == e@,
            },
    {
        match v {
            Json::Object(entries) => {
                let is_request = match find_entry(&entries, "HelperAPIRequest") {
                    Some(_) => true,
                    None => false,
                };
                let (kind, key) = if is_request {
                    (Kind::Request, "HelperAPIRequest")
                } else {
                    (Kind::Response, "HelperAPIResponse")
                };
                match take_member(entries, key) {
                    Some(inner) => Incoming::from_inner(kind, inner),
                    None => Err(
                        "envelope has neither HelperAPIRequest nor HelperAPIResponse".to_owned(),
                    ),
                }
            },
            _ => Err("envelope is not an object".to_owned()),
        }
    }

    /// Reads the text of a message. A text that is no JSON is refused with the
    /// message of `serde_json`.
    pub fn parse(body: &str) -> (r: Result<Incoming, String>)
        ensures
            match r {
                Ok(m) => (message_of(body@) matches Ok(w) && w == m@) && (
                json_parsed(body@) matches Ok(v) && is_command_in(v, m@)),
                Err(e) => message_of(body@) matches Err(w) && w == e@,
            },
    {
        match Json::parse(body) {
            Ok(v) => Incoming::from_envelope(v),
            Err(e) => Err(e),
        }
    }
}

/// The member of an envelope for messages of `kind`.
pub open spec fn kind_key(kind: Kind) -> Seq<char> {
    match kind {
        Kind::Request => "HelperAPIRequest"@,
        Kind::Response => "HelperAPIResponse"@,
    }
}

/// An envelope is read as it was built: with its kind, its uuid and, of its members
/// that could be the command, the first.
pub proof fn law_envelope_is_read(
    kind: Kind,
    inner: Map<Seq<char>, JsonView>,
    uuid: Seq<char>,
    name: Seq<char>,
)
    requires
        is_command(inner, name),
    ensures
        incoming_of(envelope_view(kind_key(kind), inner, uuid)) == Ok::<IncomingView, Seq<char>>(
            IncomingView { kind, command: name, payload: inner[name], uuid },
        ),
{
    reveal_strlit("HelperAPIRequest");
    reveal_strlit("HelperAPIResponse");
    assert("HelperAPIRequest"@.len() != "HelperAPIResponse"@.len());
    let whole = inner.insert("uuid"@, JsonView::Text(uuid));
    assert(may_be_command(whole, name));
    assert forall|other: Seq<char>| #[trigger]
        may_be_command(whole, other) && other != name implies text_before(name, other) by {
        assert(may_be_command(inner, other));
    }
    assert(is_command(whole, name));
    law_command_is_unique(whole, command_of(whole), name);
}

/// A message is read as it was built: with its kind, its name, its body and its
/// uuid. This holds of every name that is no metadata and every body but `null`.
pub proof fn law_built_message_is_read(
    kind: Kind,
    name: Seq<char>,
    body: JsonView,
    uuid: Seq<char>,
)
    requires
        !is_meta(name),
        body !is Null,
    ensures
        incoming_of(envelope_view(kind_key(kind), Map::empty().insert(name, body), uuid)) == Ok::<
            IncomingView,
            Seq<char>,
        >(IncomingView { kind, command: name, payload: body, uuid }),
{
    let inner = Map::<Seq<char>, JsonView>::empty().insert(name, body);
    assert(may_be_command(inner, name));
    law_envelope_is_read(kind, inner, uuid, name);
}

/// What was built, framed, taken in and parsed is read as it was built: where the
/// body is a plain document, parsing the text that a decoder hands out for the
/// frame gives the kind, the name, the body and the uuid.
pub proof fn law_sent_message_is_read(
    kind: Kind,
    name: Seq<char>,
    body: JsonView,
    uuid: Seq<char>,
    frame: Seq<u8>,
    message: Seq<char>,
)
    requires
        !is_meta(name),
        body !is Null,
        body.is_plain(125),
        carries(frame, envelope_view(kind_key(kind), Map::empty().insert(name, body), uuid)),
        is_message(cut(frame).frames[0], message),
    ensures
        message_of(message) == Ok::<IncomingView, Seq<char>>(
            IncomingView { kind, command: name, payload: body, uuid },
        ),
{
    let members = Map::<Seq<char>, JsonView>::empty().insert(name, body);
    let inner = members.insert("uuid"@, JsonView::Text(uuid));
    let v = envelope_view(kind_key(kind), members, uuid);
    assert(JsonView::Text(uuid).is_plain(125));
    assert(JsonView::Object(inner).is_plain(126));
    assert(v.is_plain(127));
    law_built_message_is_read(kind, name, body, uuid);
}

// ---------------------------------------------------------------------------
// Laws
// ---------------------------------------------------------------------------

/// Escaping goes from character to character: `+` is written `+1`, `|` is written
/// `+2`, and any other character as itself.
pub proof fn law_escape_from_the_left(c: char, rest: Seq<char>)
    ensures
        escaped(Seq::empty()) == Seq::<char>::empty(),
        escaped(seq!['+'] + rest) == seq!['+', '1'] + escaped(rest),
        escaped(seq!['|'] + rest) == seq!['+', '2'] + escaped(rest),
        c != '+' && c != '|' ==> escaped(seq![c] + rest) == seq![c] + escaped(rest),
{
    law_escape_by_character(Seq::empty());
    law_escape_by_character(seq!['+'] + rest);
    law_escape_by_character(seq!['|'] + rest);
    law_escape_by_character(seq![c] + rest);
    assert((seq!['+'] + rest).drop_first() =~= rest);
    assert((seq!['|'] + rest).drop_first() =~= rest);
    assert((seq![c] + rest).drop_first() =~= rest);
}

proof fn lemma_pair_starts(s: Seq<char>)
    requires
        s.len() > 0,
    ensures
        replace_pair(s, '+', '2', '|').len() > 0,
        replace_pair(s, '+', '2', '|')[0] == s[0] || replace_pair(s, '+', '2', '|')[0] == '|',
{
}

/// Unescaping goes from left to right: `+2` is read as `|`, `+1` as `+`, and any other
/// character, a lone `+` among them, as itself.
pub proof fn law_unescape_from_the_left(s: Seq<char>)
    ensures
        s.len() == 0 ==> unescaped(s) == s,
        s.len() >= 2 && s[0] == '+' && s[1] == '2' ==> unescaped(s) == seq!['|'] + unescaped(
            s.skip(2),
        ),
        s.len() >= 2 && s[0] == '+' && s[1] == '1' ==> unescaped(s) == seq!['+'] + unescaped(
            s.skip(2),
        ),
        s.len() >= 1 && !(s.len() >= 2 && s[0] == '+' && (s[1] == '1' || s[1] == '2'))
            ==> unescaped(s) == seq![s[0]] + unescaped(s.skip(1)),
{
    if s.len() > 0 {
        let rest = s.skip(1);
        let t = replace_pair(rest, '+', '2', '|');
        assert(s =~= seq![s[0]] + rest);
        if s[0] != '+' {
            lemma_pair_head(s[0], rest, '+', '2', '|');
            lemma_pair_head(s[0], t, '+', '1', '+');
        } else if s.len() == 1 {
            assert(rest =~= Seq::empty());
            assert(unescaped(s) =~= seq![s[0]] + unescaped(rest));
        } else {
            let later = s.skip(2);
            let u = replace_pair(later, '+', '2', '|');
            assert(rest =~= seq![s[1]] + later);
            if s[1] == '2' {
                lemma_pair_head('|', u, '+', '1', '+');
            } else if s[1] == '1' {
                lemma_pair_head('1', later, '+', '2', '|');
                assert(replace_pair(s, '+', '2', '|') =~= seq!['+', '1'] + u);
                lemma_pair_found(u, '+', '1', '+');
            } else {
                let whole = seq!['+'] + t;
                lemma_pair_starts(rest);
                assert(whole.skip(1) =~= t);
                assert(replace_pair(s, '+', '2', '|') == whole);
                assert(whole[1] != '1');
            }
        }
    }
}

/// A stream is cut at its delimiters: bytes without one wait, and a delimiter behind
/// them makes them a frame, unless there are none; what follows is cut in the same way.
pub proof fn law_stream_is_cut_at_delimiters(a: Seq<u8>, b: Seq<u8>)
    requires
        !a.contains(0x7c),
    ensures
        cut(a).frames.len() == 0,
        cut(a).rest == a,
        a.len() == 0 ==> cut(a.push(0x7c) + b).frames == cut(b).frames,
        a.len() > 0 ==> cut(a.push(0x7c) + b).frames == seq![a] + cut(b).frames,
        cut(a.push(0x7c) + b).rest == cut(b).rest,
{
    let ended = a.push(0x7c);
    lemma_cut_without_delimiter(a);
    assert(ended.drop_last() =~= a);
    law_pieces_do_not_matter(ended, b);
    assert(cut(ended).rest + b =~= b);
    assert(Seq::<Seq<u8>>::empty().push(a) =~= seq![a]);
    assert(Seq::<Seq<u8>>::empty() + cut(b).frames =~= cut(b).frames);
}

/// A frame says its text without the escapes: the text that its bytes encode, or, where
/// they encode none, the lossy one.
pub proof fn law_frame_says_its_text(frame: Seq<u8>, message: Seq<char>)
    ensures
        valid_utf8(frame) && lossy_text(frame) == decode_utf8(frame) ==> (is_message(frame, message)
            <==> message == unescaped(decode_utf8(frame))),
        !valid_utf8(frame) ==> (is_message(frame, message) <==> message == unescaped(
            lossy_text(frame),
        )),
        is_message(frame, message) && valid_utf8(frame) ==> message == unescaped(
            decode_utf8(frame),
        ),
{
}

/// Every frame gives one message, in order.
pub proof fn law_each_frame_gives_a_message(
    frames: Seq<Seq<u8>>,
    messages: Seq<String>,
    i: int,
)
    requires
        are_messages(frames, messages),
        0 <= i < frames.len(),
    ensures
        messages.len() == frames.len(),
        messages[i]@ == unescaped(lossy_text(frames[i])),
        valid_utf8(frames[i]) ==> messages[i]@ == unescaped(decode_utf8(frames[i])),
{
    assert(is_message(frames[i], messages[i]@));
}

/// A text is framed exactly where its UTF-8 encoding has at most 30000 bytes, however
/// long it is once escaped. The frame is the encoding of the escaped text with one
/// delimiter behind it; a longer text is refused, and its length told.
pub proof fn law_text_is_framed_up_to_its_limit(body: Seq<char>)
    ensures
        frame_of(body) is Ok <==> encode_utf8(body).len() <= 30_000,
        frame_of(body) matches Ok(f) ==> f.len() == encode_utf8(escaped(body)).len() + 1 && f.last()
            == 0x7c && f.drop_last() == encode_utf8(escaped(body)),
        frame_of(body) matches Err(e) ==> e == "IPC message too long: "@ + decimal(
            encode_utf8(body).len(),
        ) + " > "@ + decimal(30_000),
{
    assert(framed(body).drop_last() =~= encode_utf8(escaped(body)));
}

/// A text whose frame is made comes back from it: a decoder that takes in the frame
/// hands out the text.
pub proof fn law_framed_text_comes_back(body: Seq<char>, message: Seq<char>)
    requires
        0 < body.len(),
        encode_utf8(body).len() <= 30_000,
    ensures
        frame_of(body) matches Ok(f) && cut(f).rest.len() == 0 && cut(f).frames.len() == 1 && (
        is_message(cut(f).frames[0], message) ==> message == body),
{
    law_frame_gives_text_back(body, message);
}

/// An envelope is an object with one member, of its kind, which holds the inner members
/// and the uuid.
pub proof fn law_envelope_holds_its_members(
    kind: Seq<char>,
    inner: Map<Seq<char>, JsonView>,
    uuid: Seq<char>,
    key: Seq<char>,
)
    ensures
        envelope_view(kind, inner, uuid) matches JsonView::Object(outer) && outer.contains_key(kind)
            && (outer.contains_key(key) ==> key == kind) && (outer[kind] matches JsonView::Object(m)
            && m.contains_key("uuid"@) && m["uuid"@] == JsonView::Text(uuid) && (key != "uuid"@ ==> (
        m.contains_key(key) <==> inner.contains_key(key))) && (key != "uuid"@ && inner.contains_key(
            key,
        ) ==> m[key] == inner[key])),
{
}

/// Responses and requests as they are written: the body stands under the name, the uuid
/// beside it.
pub proof fn law_messages_as_written(name: Seq<char>, body: JsonView, uuid: Seq<char>)
    ensures
        response_view(name, body, uuid) == JsonView::Object(
            map![
                "HelperAPIResponse"@ => JsonView::Object(
                    map![name => body, "uuid"@ => JsonView::Text(uuid)],
                ),
            ],
        ),
        request_view(name, body, uuid) == JsonView::Object(
            map![
                "HelperAPIRequest"@ => JsonView::Object(
                    map![name => body, "uuid"@ => JsonView::Text(uuid)],
                ),
            ],
        ),
{
}

/// The members of a payload stand in an object under `payload`, and nothing else does.
pub proof fn law_payload_as_written(members: Map<Seq<char>, JsonView>)
    ensures
        payload_view(members) == JsonView::Object(map!["payload"@ => JsonView::Object(members)]),
{
}

/// An acknowledgement and an error as they are written.
pub proof fn law_short_answers_as_written(description: Seq<char>, uuid: Seq<char>)
    ensures
        ack_view(uuid) == JsonView::Object(
            map![
                "HelperAPIResponse"@ => JsonView::Object(
                    map!["ACK"@ => JsonView::Bool(true), "uuid"@ => JsonView::Text(uuid)],
                ),
            ],
        ),
        error_view(description, uuid) == JsonView::Object(
            map![
                "HelperAPIResponse"@ => JsonView::Object(
                    map![
                        "HelperAPIError"@ => JsonView::Object(
                            map![
                                "payload"@ => JsonView::Object(
                                    map![
                                        "type"@ => JsonView::Text(Seq::empty()),
                                        "description"@ => JsonView::Text(description),
                                        "params"@ => JsonView::Object(Map::empty()),
                                    ],
                                ),
                            ],
                        ),
                        "uuid"@ => JsonView::Text(uuid),
                    ],
                ),
            ],
        ),
{
}

/// `key` names a command: it is a key of `inner`, its value is not `null`, and it is
/// none of the keys for metadata.
pub open spec fn names_command(inner: Map<Seq<char>, JsonView>, key: Seq<char>) -> bool {
    &&& inner.contains_key(key)
    &&& !(inner[key] is Null)
    &&& key != "uuid"@
    &&& key != "sentryTrace"@
    &&& key != "sentryBaggage"@
}

/// The keys that could name the command are those with a value, but for metadata.
pub proof fn law_candidates_are_keys_with_a_value(inner: Map<Seq<char>, JsonView>, key: Seq<char>)
    ensures
        may_be_command(inner, key) <==> inner.contains_key(key) && !(inner[key] is Null) && key
            != "uuid"@ && key != "sentryTrace"@ && key != "sentryBaggage"@,
{
}

/// A request is read as such: its command is the first key that names one, what came
/// with it is under that key, and its uuid is the text under `uuid`, where it has one.
/// Whether there is a response beside it does not matter.
pub proof fn law_request_is_read(
    outer: Map<Seq<char>, JsonView>,
    inner: Map<Seq<char>, JsonView>,
    key: Seq<char>,
)
    requires
        outer.contains_key("HelperAPIRequest"@),
        outer["HelperAPIRequest"@] == JsonView::Object(inner),
        names_command(inner, key),
        forall|other: Seq<char>| #[trigger]
            names_command(inner, other) && other != key ==> text_before(key, other),
    ensures
        incoming_of(JsonView::Object(outer)) matches Ok(m) && m.kind == Kind::Request && m.command
            == key && m.payload == inner[key] && (inner.contains_key("uuid"@) ==> match inner["uuid"@] {
            JsonView::Text(u) => m.uuid == u,
            _ => m.uuid.len() == 0,
        }) && (!inner.contains_key("uuid"@) ==> m.uuid.len() == 0),
{
    lemma_first_is_command(inner, key);
}

/// A response is read as such, where there is no request beside it.
pub proof fn law_response_is_read(
    outer: Map<Seq<char>, JsonView>,
    inner: Map<Seq<char>, JsonView>,
    key: Seq<char>,
)
    requires
        !outer.contains_key("HelperAPIRequest"@),
        outer.contains_key("HelperAPIResponse"@),
        outer["HelperAPIResponse"@] == JsonView::Object(inner),
        names_command(inner, key),
        forall|other: Seq<char>| #[trigger]
            names_command(inner, other) && other != key ==> text_before(key, other),
    ensures
        incoming_of(JsonView::Object(outer)) matches Ok(m) && m.kind == Kind::Response && m.command
            == key && m.payload == inner[key] && (inner.contains_key("uuid"@) ==> match inner["uuid"@] {
            JsonView::Text(u) => m.uuid == u,
            _ => m.uuid.len() == 0,
        }) && (!inner.contains_key("uuid"@) ==> m.uuid.len() == 0),
{
    lemma_first_is_command(inner, key);
}

proof fn lemma_first_is_command(inner: Map<Seq<char>, JsonView>, key: Seq<char>)
    requires
        names_command(inner, key),
        forall|other: Seq<char>| #[trigger]
            names_command(inner, other) && other != key ==> text_before(key, other),
    ensures
        may_be_command(inner, key),
        command_of(inner) == key,
{
    assert forall|other: Seq<char>| #[trigger]
        may_be_command(inner, other) && other != key implies text_before(key, other) by {
        assert(names_command(inner, other));
    }
    assert(is_command(inner, key));
    law_command_is_unique(inner, command_of(inner), key);
}

/// What is no object, or an object with neither a request nor a response, is refused;
/// so is a request or a response that is no object. Each is told.
pub proof fn law_other_documents_are_refused(v: JsonView)
    ensures
        !(v is Object) ==> incoming_of(v) == Err::<IncomingView, Seq<char>>(
            "envelope is not an object"@,
        ),
        forall|outer: Map<Seq<char>, JsonView>|
            v == JsonView::Object(outer) && !outer.contains_key("HelperAPIRequest"@)
                && !outer.contains_key("HelperAPIResponse"@) ==> #[trigger] incoming_of(
                JsonView::Object(outer),
            ) == Err::<IncomingView, Seq<char>>(
                "envelope has neither HelperAPIRequest nor HelperAPIResponse"@,
            ),
        forall|outer: Map<Seq<char>, JsonView>|
            v == JsonView::Object(outer) && outer.contains_key("HelperAPIRequest"@) && !(
            outer["HelperAPIRequest"@] is Object) ==> #[trigger] incoming_of(
                JsonView::Object(outer),
            ) == Err::<IncomingView, Seq<char>>("inner is not an object"@),
        forall|outer: Map<Seq<char>, JsonView>|
            v == JsonView::Object(outer) && !outer.contains_key("HelperAPIRequest"@)
                && outer.contains_key("HelperAPIResponse"@) && !(outer["HelperAPIResponse"@] is Object)
                ==> #[trigger] incoming_of(JsonView::Object(outer)) == Err::<
                IncomingView,
                Seq<char>,
            >("inner is not an object"@),
{
}

/// A request or a response without a key that names a command is refused, and told.
pub proof fn law_message_without_command_is_refused(
    outer: Map<Seq<char>, JsonView>,
    kind: Kind,
    inner: Map<Seq<char>, JsonView>,
)
    requires
        kind == Kind::Request || !outer.contains_key("HelperAPIRequest"@),
        kind == Kind::Request ==> outer.contains_key("HelperAPIRequest"@)
            && outer["HelperAPIRequest"@] == JsonView::Object(inner),
        kind == Kind::Response ==> outer.contains_key("HelperAPIResponse"@)
            && outer["HelperAPIResponse"@] == JsonView::Object(inner),
        forall|key: Seq<char>| !names_command(inner, key),
    ensures
        incoming_of(JsonView::Object(outer)) == Err::<IncomingView, Seq<char>>(
            "no command key found in envelope"@,
        ),
{
    assert forall|key: Seq<char>| !may_be_command(inner, key) by {
        assert(!names_command(inner, key));
    }
}

/// The text of a message is read as the document that it holds, and refused with the
/// parser's own words where it holds none.
pub proof fn law_text_is_read_as_its_document(body: Seq<char>)
    ensures
        match json_parsed(body) {
            Ok(v) => message_of(body) == incoming_of(v),
            Err(e) => message_of(body) == Err::<IncomingView, Seq<char>>(e),
        },
        kind_key(Kind::Request) == "HelperAPIRequest"@,
        kind_key(Kind::Response) == "HelperAPIResponse"@,
{
}

/// A message is known by its parts.
pub proof fn law_incoming_view_tells_all(m: Incoming)
    ensures
        m@.kind == m.kind,
        m@.command == m.command@,
        m@.payload == m.payload@,
        m@.uuid == m.uuid@,
{
}

} // verus!
