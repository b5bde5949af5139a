//! Text operations over characters, each against a statement on `Seq<char>`.

use vstd::prelude::*;

verus! {

/// `String::push` appends one character.
pub assume_specification[ String::push ](s: &mut String, c: char)
    ensures
        final(s)@ == old(s)@.push(c),
;

/// A result whose error is a text.
pub open spec fn outcome_view(r: Result<(), String>) -> Result<(), Seq<char>> {
    match r {
        Ok(u) => Ok(u),
        Err(e) => Err(e@),
    }
}

/// A text that may be missing.
pub open spec fn text_view(t: Option<String>) -> Option<Seq<char>> {
    match t {
        Some(s) => Some(s@),
        None => None,
    }
}

/// The texts in `parts`.
pub open spec fn texts(parts: Seq<String>) -> Seq<Seq<char>> {
    parts.map_values(|s: String| s@)
}

/// The characters of `s`, in order.
pub fn chars_of(s: &str) -> (r: Vec<char>)
    ensures
        r@ == s@,
{
    let mut r: Vec<char> = Vec::new();
    for c in it: s.chars()
        invariant
            it.seq() == s@,
            r@ == s@.take(it.index() as int),
    {
        r.push(c);
    }
    r
}

/// The text made of the characters `chars[from..to]`.
pub fn text_of(chars: &Vec<char>, from: usize, to: usize) -> (r: String)
    requires
        from <= to <= chars@.len(),
    ensures
        r@ == chars@.subrange(from as int, to as int),
{
    let mut r = String::new();
    let mut i: usize = from;
    while i < to
        invariant
            from <= i <= to <= chars@.len(),
            r@ == chars@.subrange(from as int, i as int),
        decreases to - i,
    {
        r.push(chars[i]);
        i += 1;
    }
    r
}

/// Whether two texts hold the same characters.
pub fn same_text(a: &str, b: &str) -> (r: bool)
    ensures
        r == (a@ == b@),
{
    let x = chars_of(a);
    let y = chars_of(b);
    if x.len() != y.len() {
        return false;
    }
    let mut i: usize = 0;
    while i < x.len()
        invariant
            i <= x.len() == y.len(),
            x@ == a@,
            y@ == b@,
            forall|j: int| 0 <= j < i ==> x@[j] == y@[j],
        decreases x.len() - i,
    {
        if x[i] != y[i] {
            return false;
        }
        i += 1;
    }
    assert(x@ =~= y@);
    true
}

/// The texts `a` and `b`, one after the other.
pub fn cat(a: &str, b: &str) -> (r: String)
    ensures
        r@ == a@ + b@,
{
    let mut r = a.to_owned();
    r.append(b);
    r
}

/// `a` stands before `b` in the order of their characters' code points: at the
/// first place where they differ, or because `a` ends there.
pub open spec fn text_before(a: Seq<char>, b: Seq<char>) -> bool
    decreases a.len(),
{
    if b.len() == 0 {
        false
    } else if a.len() == 0 {
        true
    } else if a[0] == b[0] {
        text_before(a.drop_first(), b.drop_first())
    } else {
        a[0] < b[0]
    }
}

/// Of two different texts exactly one stands before the other.
pub proof fn law_text_order_total(a: Seq<char>, b: Seq<char>)
    ensures
        a != b ==> text_before(a, b) != text_before(b, a),
        !text_before(a, a),
    decreases a.len(),
{
    if a.len() > 0 && b.len() > 0 && a[0] == b[0] {
        law_text_order_total(a.drop_first(), b.drop_first());
        if a.drop_first() == b.drop_first() {
            assert(a =~= seq![a[0]] + a.drop_first());
            assert(b =~= seq![b[0]] + b.drop_first());
        }
    } else if a.len() == 0 && b.len() == 0 {
        assert(a =~= b);
    }
    if a.len() > 0 {
        law_text_order_total(a.drop_first(), a.drop_first());
    }
}

/// The order of texts is transitive.
pub proof fn law_text_order_transitive(a: Seq<char>, b: Seq<char>, c: Seq<char>)
    requires
        text_before(a, b),
        text_before(b, c),
    ensures
        text_before(a, c),
    decreases a.len(),
{
    if a.len() > 0 && a[0] == b[0] && b[0] == c[0] {
        law_text_order_transitive(a.drop_first(), b.drop_first(), c.drop_first());
    }
}

/// Decides [`text_before`].
pub fn is_before(a: &str, b: &str) -> (r: bool)
    ensures
        r == text_before(a@, b@),
{
    let x = chars_of(a);
    let y = chars_of(b);
    let mut i: usize = 0;
    assert(x@.skip(0) =~= a@);
    assert(y@.skip(0) =~= b@);
    while i < x.len() && i < y.len()
        invariant
            i <= x.len(),
            i <= y.len(),
            text_before(a@, b@) == text_before(x@.skip(i as int), y@.skip(i as int)),
        decreases x.len() - i,
    {
        if x[i] != y[i] {
            return x[i] < y[i];
        }
        assert(x@.skip(i as int).drop_first() =~= x@.skip(i + 1));
        assert(y@.skip(i as int).drop_first() =~= y@.skip(i + 1));
        i += 1;
    }
    i < y.len()
}

/// The decimal digits of `n`.
pub open spec fn decimal(n: nat) -> Seq<char>
    decreases n,
{
    if n < 10 {
        seq![digit(n)]
    } else {
        decimal(n / 10).push(digit(n % 10))
    }
}

/// The decimal digit `d`.
pub open spec fn digit(d: nat) -> char {
    (48 + d) as char
}

/// The decimal digits of a number are digits, one or more.
pub proof fn lemma_decimal_has_digits(n: nat)
    ensures
        decimal(n).len() > 0,
        forall|i: int| 0 <= i < decimal(n).len() ==> '0' <= #[trigger] decimal(n)[i] <= '9',
    decreases n,
{
    if n >= 10 {
        lemma_decimal_has_digits(n / 10);
    }
}

/// Different numbers have different digits.
pub proof fn law_decimal_is_injective(a: nat, b: nat)
    requires
        decimal(a) == decimal(b),
    ensures
        a == b,
    decreases a,
{
    lemma_decimal_has_digits(a / 10);
    lemma_decimal_has_digits(b / 10);
    let x = decimal(a);
    let y = decimal(b);
    assert(x.last() == digit(a % 10));
    assert(y.last() == digit(b % 10));
    assert(a % 10 == b % 10);
    if a >= 10 && b >= 10 {
        assert(x.drop_last() =~= decimal(a / 10));
        assert(y.drop_last() =~= decimal(b / 10));
        law_decimal_is_injective(a / 10, b / 10);
    } else if a >= 10 {
        assert(x.len() == decimal(a / 10).len() + 1);
    } else if b >= 10 {
        assert(y.len() == decimal(b / 10).len() + 1);
    }
}

/// Writes `n` in decimal.
pub fn decimal_text(n: u64) -> (r: String)
    ensures
        r@ == decimal(n as nat),
    decreases n,
{
    let c = (48 + (n % 10) as u8) as char;
    if n < 10 {
        let mut r = String::new();
        r.push(c);
        assert(r@ =~= decimal(n as nat));
        r
    } else {
        let mut r = decimal_text(n / 10);
        r.push(c);
        r
    }
}

/// The characters that Unicode gives the property White_Space.
pub open spec fn is_white(c: char) -> bool {
    ||| '\u{9}' <= c <= '\u{d}'
    ||| c == '\u{20}'
    ||| c == '\u{85}'
    ||| c == '\u{a0}'
    ||| c == '\u{1680}'
    ||| '\u{2000}' <= c <= '\u{200a}'
    ||| c == '\u{2028}'
    ||| c == '\u{2029}'
    ||| c == '\u{202f}'
    ||| c == '\u{205f}'
    ||| c == '\u{3000}'
}

/// `s` without the white space at its start.
pub open spec fn trim_start(s: Seq<char>) -> Seq<char>
    decreases s.len(),
{
    if s.len() > 0 && is_white(s[0]) {
        trim_start(s.drop_first())
    } else {
        s
    }
}

/// `s` without the white space at its end.
pub open spec fn trim_end(s: Seq<char>) -> Seq<char>
    decreases s.len(),
{
    if s.len() > 0 && is_white(s.last()) {
        trim_end(s.drop_last())
    } else {
        s
    }
}

/// `s` without the white space at its start and its end.
pub open spec fn trimmed(s: Seq<char>) -> Seq<char> {
    trim_end(trim_start(s))
}

/// Decides [`is_white`].
pub fn white(c: char) -> (r: bool)
    ensures
        r == is_white(c),
{
    let u = c as u32;
    (0x9 <= u && u <= 0xd) || u == 0x20 || u == 0x85 || u == 0xa0 || u == 0x1680 || (0x2000 <= u
        && u <= 0x200a) || u == 0x2028 || u == 0x2029 || u == 0x202f || u == 0x205f || u == 0x3000
}

/// `s` without the white space round it.
pub fn trim_text(s: &str) -> (r: String)
    ensures
        r@ == trimmed(s@),
{
    let x = chars_of(s);
    let mut from: usize = 0;
    assert(x@.skip(0) =~= s@);
    while from < x.len() && white(x[from])
        invariant
            from <= x.len(),
            trim_start(s@) == trim_start(x@.skip(from as int)),
        decreases x.len() - from,
    {
        assert(x@.skip(from as int).drop_first() =~= x@.skip(from + 1));
        from += 1;
    }
    let mut to: usize = x.len();
    assert(x@.skip(from as int) =~= x@.subrange(from as int, to as int));
    while to > from && white(x[to - 1])
        invariant
            from <= to <= x.len(),
            trimmed(s@) == trim_end(x@.subrange(from as int, to as int)),
        decreases to,
    {
        assert(x@.subrange(from as int, to as int).drop_last() =~= x@.subrange(
            from as int,
            to - 1,
        ));
        to -= 1;
    }
    text_of(&x, from, to)
}

/// `c` in lower case, where it is an ASCII letter.
pub open spec fn lower_char(c: char) -> char {
    if 'A' <= c <= 'Z' {
        ((c as u32) + 32) as char
    } else {
        c
    }
}

/// `s` with its ASCII letters in lower case.
pub open spec fn lowered(s: Seq<char>) -> Seq<char> {
    s.map_values(|c: char| lower_char(c))
}

/// `s` with its ASCII letters in lower case.
pub fn lower_text(s: &str) -> (r: String)
    ensures
        r@ == lowered(s@),
{
    let mut r = String::new();
    for c in it: s.chars()
        invariant
            it.seq() == s@,
            r@ == lowered(s@.take(it.index() as int)),
    {
        if 'A' <= c && c <= 'Z' {
            r.push(((c as u8) + 32) as char);
        } else {
            r.push(c);
        }
    }
    assert(s@.take(s@.len() as int) =~= s@);
    r
}

/// `part` stands in `s` at the place `at`.
pub open spec fn stands_at(s: Seq<char>, part: Seq<char>, at: int) -> bool {
    0 <= at && at + part.len() <= s.len() && s.subrange(at, at + part.len()) == part
}

/// `part` stands somewhere in `s`.
pub open spec fn holds_text(s: Seq<char>, part: Seq<char>) -> bool {
    exists|at: int| stands_at(s, part, at)
}

/// Decides [`stands_at`] for a place in `s`.
fn found_at(s: &Vec<char>, part: &Vec<char>, at: usize) -> (r: bool)
    requires
        at <= s@.len(),
    ensures
        r == stands_at(s@, part@, at as int),
{
    if part.len() > s.len() - at {
        return false;
    }
    let mut i: usize = 0;
    while i < part.len()
        invariant
            i <= part.len(),
            at + part.len() <= s.len(),
            forall|j: int| 0 <= j < i ==> s@[at + j] == part@[j],
        decreases part.len() - i,
    {
        if s[at + i] != part[i] {
            assert(s@.subrange(at as int, at + part.len())[i as int] != part@[i as int]);
            return false;
        }
        i += 1;
    }
    assert(s@.subrange(at as int, at + part.len()) =~= part@);
    true
}

/// Decides [`holds_text`].
pub fn contains_text(s: &str, part: &str) -> (r: bool)
    ensures
        r == holds_text(s@, part@),
{
    let x = chars_of(s);
    let y = chars_of(part);
    let mut at: usize = 0;
    loop
        invariant
            at <= x.len(),
            x@ == s@,
            y@ == part@,
            forall|i: int| 0 <= i < at ==> !stands_at(s@, part@, i),
        decreases x.len() - at,
    {
        if found_at(&x, &y, at) {
            return true;
        }
        if at == x.len() {
            return false;
        }
        at += 1;
    }
}

/// Whether `s` starts with `part`.
pub fn starts_with_text(s: &str, part: &str) -> (r: bool)
    ensures
        r == stands_at(s@, part@, 0),
{
    let x = chars_of(s);
    let y = chars_of(part);
    found_at(&x, &y, 0)
}

/// Whether `s` ends with `part`.
pub fn ends_with_text(s: &str, part: &str) -> (r: bool)
    ensures
        r == stands_at(s@, part@, s@.len() - part@.len()),
{
    let x = chars_of(s);
    let y = chars_of(part);
    if y.len() > x.len() {
        return false;
    }
    found_at(&x, &y, x.len() - y.len())
}

// ---------------------------------------------------------------------------
// Laws
// ---------------------------------------------------------------------------

/// Both texts begin with the same `k` characters, and then either the first ends and
/// the other goes on, or its next character has the smaller code point.
pub open spec fn parts_at(a: Seq<char>, b: Seq<char>, k: int) -> bool {
    &&& 0 <= k <= a.len()
    &&& k < b.len()
    &&& forall|i: int| 0 <= i < k ==> #[trigger] a[i] == b[i]
    &&& k == a.len() || a[k] < b[k]
}

/// A text stands before another where both begin alike, and then either the first
/// ends and the other goes on, or its next character has the smaller code point.
pub proof fn law_text_order_is_lexical(a: Seq<char>, b: Seq<char>)
    ensures
        text_before(a, b) <==> exists|k: int| parts_at(a, b, k),
    decreases a.len(),
{
    if b.len() > 0 && a.len() > 0 && a[0] == b[0] {
        let x = a.drop_first();
        let y = b.drop_first();
        law_text_order_is_lexical(x, y);
        if text_before(x, y) {
            let k = choose|k: int| parts_at(x, y, k);
            assert forall|i: int| 0 <= i < k + 1 implies #[trigger] a[i] == b[i] by {
                if i > 0 {
                    assert(x[i - 1] == y[i - 1]);
                }
            }
            assert(parts_at(a, b, k + 1));
        }
        if exists|k: int| parts_at(a, b, k) {
            let k = choose|k: int| parts_at(a, b, k);
            assert forall|i: int| 0 <= i < k - 1 implies #[trigger] x[i] == y[i] by {
                assert(a[i + 1] == b[i + 1]);
            }
            assert(parts_at(x, y, k - 1));
        }
    } else if text_before(a, b) {
        assert(parts_at(a, b, 0));
    } else if exists|k: int| parts_at(a, b, k) {
        let k = choose|k: int| parts_at(a, b, k);
        if k > 0 {
            assert(a[0] == b[0]);
        }
    }
}

proof fn lemma_digit_at(n: nat, i: nat)
    ensures
        i < decimal(n).len() ==> decimal(n)[decimal(n).len() - 1 - i] as int == 48 + (n as int
            / vstd::arithmetic::power::pow(10, i)) % 10,
        vstd::arithmetic::power::pow(10, i) > 0,
        i < decimal(n).len() <==> i == 0 || n >= vstd::arithmetic::power::pow(10, i),
    decreases i,
{
    lemma_pow(i);
    lemma_decimal_has_digits(n);
    if i > 0 {
        let j = (i - 1) as nat;
        let p = vstd::arithmetic::power::pow(10, j);
        lemma_pow(j);
        lemma_digit_at(n / 10, j);
        lemma_decimal_has_digits(n / 10);
        assert(n as int / (10 * p) == (n as int / 10) / p) by {
            vstd::arithmetic::div_mod::lemma_div_denominator(n as int, 10, p);
        }
        assert(n >= 10 * p <==> n / 10 >= p);
        if n >= 10 && i < decimal(n).len() {
            assert(decimal(n) == decimal(n / 10).push(digit(n % 10)));
            assert(decimal(n)[decimal(n).len() - 1 - i] == decimal(n / 10)[decimal(n / 10).len() - 1
                - j]);
        }
    } else {
        assert(n as int / 1 == n);
    }
}

proof fn lemma_pow(i: nat)
    ensures
        vstd::arithmetic::power::pow(10, i) >= 1,
        i == 0 ==> vstd::arithmetic::power::pow(10, i) == 1,
        i > 0 ==> vstd::arithmetic::power::pow(10, i) == 10 * vstd::arithmetic::power::pow(
            10,
            (i - 1) as nat,
        ),
    decreases i,
{
    reveal(vstd::arithmetic::power::pow);
    if i > 0 {
        lemma_pow((i - 1) as nat);
    }
}

/// The decimal digits of a number are its digits by their places, the last for ones,
/// and there are no more of them than it needs.
pub proof fn law_decimal_digits_by_place(n: nat, i: nat)
    ensures
        decimal(n).len() > 0,
        i < decimal(n).len() ==> decimal(n)[decimal(n).len() - 1 - i] as int == 48 + (n as int
            / vstd::arithmetic::power::pow(10, i)) % 10,
        i > 0 ==> (i < decimal(n).len() <==> n >= vstd::arithmetic::power::pow(10, i)),
{
    lemma_digit_at(n, i);
    lemma_decimal_has_digits(n);
}

/// White space, by its code points. No other character of ASCII is white space but
/// the blank and the controls from tab to carriage return.
pub proof fn law_white_space_by_code_point(c: char)
    ensures
        is_white(c) <==> set![
            9u32,
            10u32,
            11u32,
            12u32,
            13u32,
            32u32,
            133u32,
            160u32,
            5760u32,
            8192u32,
            8193u32,
            8194u32,
            8195u32,
            8196u32,
            8197u32,
            8198u32,
            8199u32,
            8200u32,
            8201u32,
            8202u32,
            8232u32,
            8233u32,
            8239u32,
            8287u32,
            12288u32,
        ].contains(c as u32),
{
}

proof fn lemma_trim_start(s: Seq<char>) -> (from: int)
    ensures
        0 <= from <= s.len(),
        trim_start(s) == s.skip(from),
        forall|i: int| 0 <= i < from ==> is_white(#[trigger] s[i]),
        from < s.len() ==> !is_white(s[from]),
    decreases s.len(),
{
    if s.len() > 0 && is_white(s[0]) {
        let rest = s.drop_first();
        let from = lemma_trim_start(rest);
        assert(rest.skip(from) =~= s.skip(from + 1));
        assert forall|i: int| 0 <= i < from + 1 implies is_white(#[trigger] s[i]) by {
            if i > 0 {
                assert(is_white(rest[i - 1]));
            }
        }
        from + 1
    } else {
        assert(s.skip(0) =~= s);
        0
    }
}

proof fn lemma_trim_end(s: Seq<char>) -> (to: int)
    ensures
        0 <= to <= s.len(),
        trim_end(s) == s.take(to),
        forall|i: int| to <= i < s.len() ==> is_white(#[trigger] s[i]),
        to > 0 ==> !is_white(s[to - 1]),
    decreases s.len(),
{
    if s.len() > 0 && is_white(s.last()) {
        let rest = s.drop_last();
        let to = lemma_trim_end(rest);
        assert(rest.take(to) =~= s.take(to));
        assert forall|i: int| to <= i < s.len() implies is_white(#[trigger] s[i]) by {
            if i < rest.len() {
                assert(is_white(rest[i]));
            }
        }
        to
    } else {
        assert(s.take(s.len() as int) =~= s);
        s.len() as int
    }
}

/// Trimming takes white space away, at both ends, and nothing else: a text is its
/// trimmed form with white space round it, and the trimmed form neither begins nor
/// ends with any.
pub proof fn law_trimming_takes_white_space_away(s: Seq<char>)
    ensures
        exists|a: Seq<char>, b: Seq<char>|
            s == #[trigger] (a + trimmed(s) + b) && (forall|i: int|
                0 <= i < a.len() ==> is_white(#[trigger] a[i])) && (forall|i: int|
                0 <= i < b.len() ==> is_white(#[trigger] b[i])),
        trimmed(s).len() > 0 ==> !is_white(trimmed(s)[0]) && !is_white(trimmed(s).last()),
{
    let from = lemma_trim_start(s);
    let rest = s.skip(from);
    let to = lemma_trim_end(rest);
    let a = s.take(from);
    let b = rest.skip(to);
    assert(s =~= a + trimmed(s) + b);
    assert forall|i: int| 0 <= i < b.len() implies is_white(#[trigger] b[i]) by {
        assert(is_white(rest[to + i]));
    }
    assert forall|i: int| 0 <= i < a.len() implies is_white(#[trigger] a[i]) by {
        assert(is_white(s[i]));
    }
    if to > 0 {
        assert(trimmed(s)[0] == s[from]);
    }
}

/// A text without white space at its ends is its own trimmed form.
pub proof fn law_trimmed_text_stays(s: Seq<char>)
    requires
        s.len() > 0 ==> !is_white(s[0]) && !is_white(s.last()),
    ensures
        trimmed(s) == s,
{
}

/// In lower case a text keeps its length and every character but the letters from A
/// to Z, which become those from a to z.
pub proof fn law_lower_case_by_character(s: Seq<char>, i: int)
    ensures
        lowered(s).len() == s.len(),
        0 <= i < s.len() && 65 <= s[i] as u32 <= 90 ==> lowered(s)[i] as u32 == s[i] as u32 + 32,
        0 <= i < s.len() && !(65 <= s[i] as u32 <= 90) ==> lowered(s)[i] == s[i],
{
}

/// A part stands at a place of a text where the text is something of that length,
/// the part, and something else.
pub proof fn law_part_stands_between(s: Seq<char>, part: Seq<char>, at: int)
    ensures
        stands_at(s, part, at) <==> exists|a: Seq<char>, b: Seq<char>|
            s == #[trigger] (a + part + b) && a.len() == at,
        holds_text(s, part) <==> exists|a: Seq<char>, b: Seq<char>| s == #[trigger] (a + part + b),
{
    assert forall|at: int| stands_at(s, part, at) implies exists|a: Seq<char>, b: Seq<char>|
        s == #[trigger] (a + part + b) && a.len() == at by {
        let a = s.take(at);
        let b = s.skip(at + part.len());
        assert(s =~= a + part + b);
    }
    assert forall|a: Seq<char>, b: Seq<char>| s == #[trigger] (a + part + b) implies stands_at(
        s,
        part,
        a.len() as int,
    ) by {
        assert(s.subrange(a.len() as int, (a.len() + part.len()) as int) =~= part);
    }
}

/// A text that may be missing, and a result whose error is a text, are known by their
/// characters; texts are known one by one.
pub proof fn law_text_views_tell_all(
    t: Option<String>,
    r: Result<(), String>,
    parts: Seq<String>,
    i: int,
)
    ensures
        match t {
            Some(s) => text_view(t) == Some(s@),
            None => text_view(t) is None,
        },
        match r {
            Ok(_) => outcome_view(r) is Ok,
            Err(e) => outcome_view(r) == Err::<(), Seq<char>>(e@),
        },
        texts(parts).len() == parts.len(),
        0 <= i < parts.len() ==> texts(parts)[i] == parts[i]@,
{
}

} // verus!
