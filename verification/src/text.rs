//! Text as UTF-8 bytes: whitespace, cutting slices at safe positions, and
//! the small searches the grammar is built from.

use vstd::prelude::*;
use vstd::string::*;
use vstd::utf8::*;

verus! {

/// ASCII whitespace: space, tab, line feed, form feed, carriage return.
pub open spec fn is_space(b: u8) -> bool {
    b == 0x20 || b == 0x09 || b == 0x0a || b == 0x0c || b == 0x0d
}

/// Whether a byte is ASCII whitespace.
pub fn byte_is_space(b: u8) -> (r: bool)
    ensures
        r == is_space(b),
{
    b == 0x20 || b == 0x09 || b == 0x0a || b == 0x0c || b == 0x0d
}

/// A position at which text may be cut without splitting a character: either
/// end of the text, or a position with an ASCII byte on one side.
pub open spec fn cut_point(bytes: Seq<u8>, i: int) -> bool {
    &&& 0 <= i <= bytes.len()
    &&& (i == 0 || i == bytes.len() || bytes[i] < 0x80 || bytes[i - 1] < 0x80)
}

proof fn lemma_around_ascii(bytes: Seq<u8>, i: int)
    requires
        valid_utf8(bytes),
        0 <= i < bytes.len(),
        bytes[i] < 0x80,
    ensures
        is_char_boundary(bytes, i),
        is_char_boundary(bytes, i + 1),
    decreases bytes.len(),
{
    let k = length_of_first_scalar(bytes);
    let rest = pop_first_scalar(bytes);
    assert(valid_first_scalar(bytes));
    assert(valid_utf8(rest));
    if i < k {
        assert(i == 0);
        assert(k == 1);
        assert(is_char_boundary(rest, 0));
        assert(is_char_boundary(bytes, 1));
    } else {
        assert(rest[i - k] == bytes[i]);
        lemma_around_ascii(rest, i - k);
    }
}

/// Every cut point of well-formed UTF-8 is a character boundary.
pub proof fn lemma_cut_point_is_boundary(bytes: Seq<u8>, i: int)
    requires
        valid_utf8(bytes),
        cut_point(bytes, i),
    ensures
        is_char_boundary(bytes, i),
{
    if i == 0 || i == bytes.len() {
        is_char_boundary_start_end_of_seq(bytes);
    } else if bytes[i] < 0x80 {
        lemma_around_ascii(bytes, i);
    } else {
        lemma_around_ascii(bytes, i - 1);
    }
}

/// A position next to an ASCII byte is a cut point.
pub proof fn lemma_cut_at_ascii(bytes: Seq<u8>, i: int)
    requires
        0 <= i < bytes.len(),
        bytes[i] < 0x80,
    ensures
        cut_point(bytes, i),
        cut_point(bytes, i + 1),
{
}

/// The slice of `s` between two character boundaries.
pub fn slice<'a>(s: &'a str, from: usize, to: usize) -> (r: &'a str)
    requires
        from <= to <= s.spec_bytes().len(),
        is_char_boundary(s.spec_bytes(), from as int),
        is_char_boundary(s.spec_bytes(), to as int),
    ensures
        r.spec_bytes() == s.spec_bytes().subrange(from as int, to as int),
{
    broadcast use encode_utf8_valid_utf8;

    let (head, _) = s.split_at(to);
    proof {
        let whole = s.spec_bytes();
        let part = head.spec_bytes();
        if from < to {
            is_char_boundary_iff_not_is_continuation_byte(whole, from as int);
            is_char_boundary_iff_not_is_continuation_byte(part, from as int);
        } else {
            is_char_boundary_start_end_of_seq(part);
        }
    }
    let (_, r) = head.split_at(from);
    assert(r.spec_bytes() =~= s.spec_bytes().subrange(from as int, to as int));
    r
}

/// The slice of `s` between two cut points.
pub fn substr<'a>(s: &'a str, from: usize, to: usize) -> (r: &'a str)
    requires
        from <= to <= s.spec_bytes().len(),
        cut_point(s.spec_bytes(), from as int),
        cut_point(s.spec_bytes(), to as int),
    ensures
        r.spec_bytes() == s.spec_bytes().subrange(from as int, to as int),
{
    broadcast use encode_utf8_valid_utf8;

    proof {
        lemma_cut_point_is_boundary(s.spec_bytes(), to as int);
        lemma_cut_point_is_boundary(s.spec_bytes(), from as int);
    }
    slice(s, from, to)
}

/// The part of `s` from a cut point to its end.
pub fn tail<'a>(s: &'a str, from: usize) -> (r: &'a str)
    requires
        from <= s.spec_bytes().len(),
        cut_point(s.spec_bytes(), from as int),
    ensures
        r.spec_bytes() == s.spec_bytes().subrange(from as int, s.spec_bytes().len() as int),
{
    let n: usize = s.as_bytes().len();
    substr(s, from, n)
}

/// Encoding distributes over concatenation.
pub proof fn lemma_encode_concat(a: Seq<char>, b: Seq<char>)
    ensures
        encode_utf8(a + b) == encode_utf8(a) + encode_utf8(b),
    decreases a.len(),
{
    if a.len() == 0 {
        assert(a + b =~= b);
        assert(encode_utf8(a) + encode_utf8(b) =~= encode_utf8(b));
    } else {
        lemma_encode_concat(a.drop_first(), b);
        assert((a + b).drop_first() =~= a.drop_first() + b);
        assert(encode_utf8(a + b) =~= encode_utf8(a) + encode_utf8(b));
    }
}

/// Two character sequences with the same encoding are the same.
pub proof fn lemma_encode_injective(a: Seq<char>, b: Seq<char>)
    requires
        encode_utf8(a) == encode_utf8(b),
    ensures
        a == b,
{
    encode_utf8_decode_utf8(a);
    encode_utf8_decode_utf8(b);
}

/// `String::push` appends one character to the end of the string.
#[verifier::external_body]
fn push_char(out: &mut String, c: char)
    ensures
        final(out)@ == old(out)@.push(c),
{
    out.push(c)
}

/// Appends `s` to `out`.
pub fn push_str(out: &mut String, s: &str)
    ensures
        encode_utf8(final(out)@) == encode_utf8(old(out)@) + s.spec_bytes(),
{
    proof {
        lemma_encode_concat(out@, s@);
    }
    out.append(s);
}

/// Appends one ASCII byte to `out`.
pub fn push_ascii(out: &mut String, b: u8)
    requires
        b < 0x80,
    ensures
        encode_utf8(final(out)@) == encode_utf8(old(out)@).push(b),
        encode_utf8(final(out)@) == encode_utf8(old(out)@) + seq![b],
{
    let c: char = b as char;
    proof {
        let one = seq![c];
        lemma_encode_concat(out@, one);
        assert(out@.push(c) =~= out@ + one);
        assert(is_ascii_chars(one));
        is_ascii_chars_encode_utf8(one);
        assert(encode_utf8(one) =~= seq![b]);
        assert(encode_utf8(out@) + seq![b] =~= encode_utf8(out@).push(b));
    }
    push_char(out, c);
}

/// Whether two byte strings are the same.
pub fn bytes_eq(a: &[u8], b: &[u8]) -> (r: bool)
    ensures
        r == (a@ == b@),
{
    if a.len() != b.len() {
        return false;
    }
    let mut i: usize = 0;
    while i < a.len()
        invariant
            i <= a.len(),
            a.len() == b.len(),
            forall|j: int| 0 <= j < i ==> a@[j] == b@[j],
        decreases a.len() - i,
    {
        if a[i] != b[i] {
            return false;
        }
        i += 1;
    }
    assert(a@ =~= b@);
    true
}

/// Whether two strings hold the same text.
pub fn str_eq(a: &str, b: &str) -> (r: bool)
    ensures
        r == (a.spec_bytes() == b.spec_bytes()),
{
    bytes_eq(a.as_bytes(), b.as_bytes())
}

/// The end of the run of bytes that starts at `from` and is made only of
/// whitespace (`space`) or only of other bytes (`!space`).
pub open spec fn run_end(s: Seq<u8>, from: int, space: bool) -> int
    decreases s.len() - from,
{
    if from < 0 || from >= s.len() || is_space(s[from]) != space {
        from
    } else {
        run_end(s, from + 1, space)
    }
}

/// A run ends inside the text, holds bytes of its kind only, and stops
/// before a byte of the other kind.
pub proof fn lemma_run_end(s: Seq<u8>, from: int, space: bool)
    requires
        0 <= from <= s.len(),
    ensures
        from <= run_end(s, from, space) <= s.len(),
        forall|i: int| from <= i < run_end(s, from, space) ==> is_space(#[trigger] s[i]) == space,
        run_end(s, from, space) < s.len() ==> is_space(s[run_end(s, from, space)]) != space,
    decreases s.len() - from,
{
    if from < s.len() && is_space(s[from]) == space {
        lemma_run_end(s, from + 1, space);
    }
}

/// A run is fixed by where it stops.
pub proof fn lemma_run_end_unique(s: Seq<u8>, from: int, space: bool, end: int)
    requires
        0 <= from <= end <= s.len(),
        forall|i: int| from <= i < end ==> is_space(#[trigger] s[i]) == space,
        end < s.len() ==> is_space(s[end]) != space,
    ensures
        run_end(s, from, space) == end,
    decreases end - from,
{
    if from < end {
        lemma_run_end_unique(s, from + 1, space, end);
    }
}

/// Finds where the run that starts at `from` ends.
pub fn scan_run(s: &[u8], from: usize, space: bool) -> (end: usize)
    requires
        from <= s@.len(),
    ensures
        end == run_end(s@, from as int, space),
        from <= end <= s@.len(),
{
    let mut i: usize = from;
    while i < s.len() && byte_is_space(s[i]) == space
        invariant
            from <= i <= s@.len(),
            forall|j: int| from <= j < i ==> is_space(#[trigger] s@[j]) == space,
        decreases s@.len() - i,
    {
        i += 1;
    }
    proof {
        lemma_run_end_unique(s@, from as int, space, i as int);
    }
    i
}

/// The first position at or after `from` that holds `b`, or the length.
pub open spec fn find_from(s: Seq<u8>, b: u8, from: int) -> int
    decreases s.len() - from,
{
    if from < 0 || from >= s.len() || s[from] == b {
        from
    } else {
        find_from(s, b, from + 1)
    }
}

/// The first position that holds `b`, or the length where none does.
pub open spec fn find(s: Seq<u8>, b: u8) -> int {
    find_from(s, b, 0)
}

/// The first position that holds a byte lies inside the text or at its
/// end, and no position before it holds the byte.
pub proof fn lemma_find_from(s: Seq<u8>, b: u8, from: int)
    requires
        0 <= from <= s.len(),
    ensures
        from <= find_from(s, b, from) <= s.len(),
        forall|i: int| from <= i < find_from(s, b, from) ==> #[trigger] s[i] != b,
        find_from(s, b, from) < s.len() ==> s[find_from(s, b, from)] == b,
    decreases s.len() - from,
{
    if from < s.len() && s[from] != b {
        lemma_find_from(s, b, from + 1);
    }
}

/// A position is the first to hold a byte if it holds it, or is the end,
/// and none before it does.
pub proof fn lemma_find_from_unique(s: Seq<u8>, b: u8, from: int, at: int)
    requires
        0 <= from <= at <= s.len(),
        forall|i: int| from <= i < at ==> #[trigger] s[i] != b,
        at < s.len() ==> s[at] == b,
    ensures
        find_from(s, b, from) == at,
    decreases at - from,
{
    if from < at {
        lemma_find_from_unique(s, b, from + 1, at);
    }
}

/// Whether `b` occurs in `s`.
pub open spec fn has_byte(s: Seq<u8>, b: u8) -> bool {
    find(s, b) < s.len()
}

/// The first position in `s` that holds `b`, or the length.
pub fn find_byte(s: &[u8], b: u8) -> (at: usize)
    ensures
        at == find(s@, b),
        at <= s@.len(),
{
    let mut i: usize = 0;
    while i < s.len() && s[i] != b
        invariant
            i <= s@.len(),
            forall|j: int| 0 <= j < i ==> #[trigger] s@[j] != b,
        decreases s@.len() - i,
    {
        i += 1;
    }
    proof {
        lemma_find_from_unique(s@, b, 0, i as int);
    }
    i
}

/// Whether every byte is ASCII whitespace.
pub open spec fn all_space(s: Seq<u8>) -> bool {
    forall|i: int| 0 <= i < s.len() ==> is_space(#[trigger] s[i])
}

/// Whether every byte of `s` is ASCII whitespace.
pub fn is_all_space(s: &[u8]) -> (r: bool)
    ensures
        r == all_space(s@),
{
    let end: usize = scan_run(s, 0, true);
    proof {
        lemma_run_end(s@, 0, true);
    }
    end == s.len()
}

/// A decimal digit.
pub open spec fn is_digit(b: u8) -> bool {
    0x30 <= b <= 0x39
}

/// Whether every byte is a decimal digit.
pub open spec fn all_digits(s: Seq<u8>) -> bool {
    forall|i: int| 0 <= i < s.len() ==> is_digit(#[trigger] s[i])
}

/// The number that a string of decimal digits writes.
pub open spec fn decimal(s: Seq<u8>) -> nat
    decreases s.len(),
{
    if s.len() == 0 {
        0
    } else {
        decimal(s.drop_last()) * 10 + (s.last() - 0x30) as nat
    }
}

proof fn lemma_decimal_prefix(s: Seq<u8>, n: int)
    requires
        all_digits(s),
        0 <= n <= s.len(),
    ensures
        decimal(s.subrange(0, n)) <= decimal(s),
    decreases s.len() - n,
{
    if n == s.len() {
        assert(s.subrange(0, n) =~= s);
    } else {
        lemma_decimal_prefix(s, n + 1);
        let longer = s.subrange(0, n + 1);
        assert(longer.drop_last() =~= s.subrange(0, n));
        assert(is_digit(s[n]));
        assert(longer.last() == s[n]);
    }
}

/// Reads a non-empty string of decimal digits whose value is at most `limit`.
pub open spec fn unsigned_of(s: Seq<u8>, limit: nat) -> Option<nat> {
    if s.len() > 0 && all_digits(s) && decimal(s) <= limit {
        Some(decimal(s))
    } else {
        None
    }
}

/// Reads the digits of `s` as a number that does not exceed `limit`.
pub fn parse_digits(s: &[u8], limit: u64) -> (r: Option<u64>)
    ensures
        r is Some <==> unsigned_of(s@, limit as nat) is Some,
        r is Some ==> r.unwrap() as nat == decimal(s@),
{
    if s.len() == 0 {
        return None;
    }
    let mut acc: u64 = 0;
    let mut i: usize = 0;
    while i < s.len()
        invariant
            i <= s@.len(),
            forall|j: int| 0 <= j < i ==> is_digit(#[trigger] s@[j]),
            acc as nat == decimal(s@.subrange(0, i as int)),
            acc <= limit,
        decreases s@.len() - i,
    {
        let b: u8 = s[i];
        if b < 0x30 || b > 0x39 {
            return None;
        }
        let d: u64 = (b - 0x30) as u64;
        proof {
            let longer = s@.subrange(0, i + 1);
            assert(longer.drop_last() =~= s@.subrange(0, i as int));
            assert(longer.last() == b);
            if all_digits(s@) {
                lemma_decimal_prefix(s@, i + 1);
            }
        }
        if d > limit || acc > (limit - d) / 10 {
            return None;
        }
        acc = acc * 10 + d;
        i += 1;
    }
    assert(s@.subrange(0, i as int) =~= s@);
    Some(acc)
}

/// `s` with the bytes from `from` up to `to` replaced by `ins`.
pub open spec fn splice(s: Seq<u8>, from: int, to: int, ins: Seq<u8>) -> Seq<u8> {
    s.subrange(0, from) + ins + s.subrange(to, s.len() as int)
}

/// The start of the run of whitespace that ends just before `to`.
pub open spec fn run_start(s: Seq<u8>, to: int) -> int
    decreases to,
{
    if to <= 0 || to > s.len() || !is_space(s[to - 1]) {
        to
    } else {
        run_start(s, to - 1)
    }
}

/// A run of whitespace is fixed by where it starts.
pub proof fn lemma_run_start_unique(s: Seq<u8>, to: int, start: int)
    requires
        0 <= start <= to <= s.len(),
        forall|i: int| start <= i < to ==> is_space(#[trigger] s[i]),
        start > 0 ==> !is_space(s[start - 1]),
    ensures
        run_start(s, to) == start,
    decreases to - start,
{
    if start < to {
        lemma_run_start_unique(s, to - 1, start);
    }
}

/// Finds where the run of whitespace that ends just before `to` starts.
pub fn scan_back(s: &[u8], to: usize) -> (start: usize)
    requires
        to <= s@.len(),
    ensures
        start == run_start(s@, to as int),
        start <= to,
        forall|i: int| start <= i < to ==> is_space(#[trigger] s@[i]),
{
    let mut i: usize = to;
    while i > 0 && byte_is_space(s[i - 1])
        invariant
            i <= to <= s@.len(),
            forall|j: int| i <= j < to ==> is_space(#[trigger] s@[j]),
        decreases i,
    {
        i -= 1;
    }
    proof {
        lemma_run_start_unique(s@, to as int, i as int);
    }
    i
}

/// Whether the text ends in whitespace.
pub open spec fn ends_in_space(s: Seq<u8>) -> bool {
    s.len() > 0 && is_space(s.last())
}

/// A copy of `s` with the bytes between two character boundaries replaced
/// by `ins`.
pub fn replace_between(s: &str, from: usize, to: usize, ins: &str) -> (r: String)
    requires
        from <= to <= s.spec_bytes().len(),
        is_char_boundary(s.spec_bytes(), from as int),
        is_char_boundary(s.spec_bytes(), to as int),
    ensures
        encode_utf8(r@) == splice(s.spec_bytes(), from as int, to as int, ins.spec_bytes()),
{
    broadcast use encode_utf8_valid_utf8;

    proof {
        is_char_boundary_start_end_of_seq(s.spec_bytes());
    }
    let n: usize = s.as_bytes().len();
    let mut out = String::new();
    assert(encode_utf8(out@) =~= Seq::<u8>::empty());
    push_str(&mut out, slice(s, 0, from));
    push_str(&mut out, ins);
    push_str(&mut out, slice(s, to, n));
    assert(encode_utf8(out@) =~= splice(
        s.spec_bytes(),
        from as int,
        to as int,
        ins.spec_bytes(),
    ));
    out
}

/// A copy of `s` with the bytes between two cut points replaced by `ins`.
pub fn replace_range(s: &str, from: usize, to: usize, ins: &str) -> (r: String)
    requires
        from <= to <= s.spec_bytes().len(),
        cut_point(s.spec_bytes(), from as int),
        cut_point(s.spec_bytes(), to as int),
    ensures
        encode_utf8(r@) == splice(s.spec_bytes(), from as int, to as int, ins.spec_bytes()),
{
    broadcast use encode_utf8_valid_utf8;

    proof {
        lemma_cut_point_is_boundary(s.spec_bytes(), to as int);
        lemma_cut_point_is_boundary(s.spec_bytes(), from as int);
    }
    replace_between(s, from, to, ins)
}

/// The decimal digits of a number.
pub open spec fn digits_of(n: nat) -> Seq<u8>
    decreases n,
{
    if n < 10 {
        seq![(0x30 + n) as u8]
    } else {
        digits_of(n / 10).push((0x30 + n % 10) as u8)
    }
}

/// The decimal digits of a number, with zeros in front of them where they
/// are fewer than `width`.
pub open spec fn padded(n: nat, width: nat) -> Seq<u8> {
    let digits = digits_of(n);
    if digits.len() >= width {
        digits
    } else {
        Seq::new((width - digits.len()) as nat, |i: int| 0x30u8) + digits
    }
}

fn decimal_digits(n: u64) -> (r: Vec<u8>)
    ensures
        r@ == digits_of(n as nat),
        r@.len() >= 1,
        forall|i: int| 0 <= i < r@.len() ==> is_digit(#[trigger] r@[i]),
    decreases n,
{
    if n < 10 {
        let mut v: Vec<u8> = Vec::new();
        v.push(0x30 + n as u8);
        assert(v@ =~= digits_of(n as nat));
        v
    } else {
        let mut v = decimal_digits(n / 10);
        v.push(0x30 + (n % 10) as u8);
        v
    }
}

/// Appends a number in decimal digits, with zeros in front of them where
/// they are fewer than `width`.
pub fn push_padded(out: &mut String, n: u64, width: usize)
    ensures
        encode_utf8(final(out)@) == encode_utf8(old(out)@) + padded(n as nat, width as nat),
{
    let digits = decimal_digits(n);
    let ghost start = encode_utf8(out@);
    let mut k: usize = digits.len();
    while k < width
        invariant
            digits@.len() <= k,
            k <= width || k == digits@.len(),
            encode_utf8(out@) == start + Seq::new((k - digits@.len()) as nat, |i: int| 0x30u8),
        decreases width - k,
    {
        push_ascii(out, 0x30);
        assert(Seq::new((k - digits@.len()) as nat, |i: int| 0x30u8).push(0x30u8) =~= Seq::new(
            (k + 1 - digits@.len()) as nat,
            |i: int| 0x30u8,
        ));
        assert(encode_utf8(out@) =~= start + Seq::new(
            (k + 1 - digits@.len()) as nat,
            |i: int| 0x30u8,
        ));
        k += 1;
    }
    let ghost zeros = Seq::new((k - digits@.len()) as nat, |i: int| 0x30u8);
    let mut i: usize = 0;
    while i < digits.len()
        invariant
            i <= digits@.len(),
            forall|j: int| 0 <= j < digits@.len() ==> is_digit(#[trigger] digits@[j]),
            encode_utf8(out@) == start + zeros + digits@.subrange(0, i as int),
        decreases digits@.len() - i,
    {
        push_ascii(out, digits[i]);
        assert(digits@.subrange(0, i as int).push(digits@[i as int]) =~= digits@.subrange(
            0,
            i + 1,
        ));
        assert(encode_utf8(out@) =~= start + zeros + digits@.subrange(0, i + 1));
        i += 1;
    }
    assert(digits@.subrange(0, i as int) =~= digits@);
    assert(start + zeros + digits@ =~= start + padded(n as nat, width as nat));
}

/// Reads a number with an optional sign, `+` or `-`, in front of its digits,
/// if it lies between `min` and `max`.
pub open spec fn signed_of(s: Seq<u8>, min: int, max: int) -> Option<int> {
    let signed = s.len() > 0 && (s[0] == 0x2b || s[0] == 0x2d);
    let digits = if signed {
        s.subrange(1, s.len() as int)
    } else {
        s
    };
    let value = if s.len() > 0 && s[0] == 0x2d {
        -(decimal(digits) as int)
    } else {
        decimal(digits) as int
    };
    if digits.len() > 0 && all_digits(digits) && min <= value <= max {
        Some(value)
    } else {
        None
    }
}

/// Reads a number with an optional sign that lies between `min` and `max`.
pub fn parse_signed(s: &[u8], min: i64, max: i64) -> (r: Option<i64>)
    requires
        min <= 0 <= max,
    ensures
        r is Some <==> signed_of(s@, min as int, max as int) is Some,
        r is Some ==> Some(r.unwrap() as int) == signed_of(s@, min as int, max as int),
{
    let negative: bool = s.len() > 0 && s[0] == 0x2d;
    let digits = if s.len() > 0 && (s[0] == 0x2b || s[0] == 0x2d) {
        vstd::slice::slice_subrange(s, 1, s.len())
    } else {
        s
    };
    let limit: u64 = if !negative {
        max as u64
    } else if min == 0 {
        0
    } else {
        (-(min + 1)) as u64 + 1
    };
    match parse_digits(digits, limit) {
        Some(m) => {
            if negative {
                if m == 0x8000_0000_0000_0000 {
                    Some(i64::MIN)
                } else {
                    Some(-(m as i64))
                }
            } else {
                Some(m as i64)
            }
        },
        None => None,
    }
}

} // verus!
