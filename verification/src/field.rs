//! The typed fields of a task line: one type for each kind of token, with the
//! rule that recognises it and its length in bytes.

use crate::text::{
    all_space, bytes_eq, decimal, find, find_byte, has_byte, is_all_space, is_digit,
    lemma_cut_at_ascii, lemma_find_from, lemma_find_from_unique, parse_digits, substr, tail,
    unsigned_of,
};
use vstd::prelude::*;
use vstd::slice::slice_subrange;
use vstd::string::*;

verus! {

/// How far a scan of one line has come. A line is read left to right, and the
/// stage only ever moves forward: it says which of the leading fields may
/// still be recognised.
#[derive(Clone, Copy, Debug, PartialEq, Eq, PartialOrd, Structural)]
pub enum Stage {
    Marker,
    End,
    Priority,
    Entry,
    Body,
}

impl Stage {
    /// The stage at the start of a line.
    pub fn new() -> (r: Stage)
        ensures
            r == Stage::Marker,
    {
        Stage::Marker
    }

    /// The place of a stage in their order.
    pub open spec fn rank(self) -> int {
        match self {
            Stage::Marker => 0,
            Stage::End => 1,
            Stage::Priority => 2,
            Stage::Entry => 3,
            Stage::Body => 4,
        }
    }

    /// The place of this stage in their order.
    pub fn level(&self) -> (r: u8)
        ensures
            r == self.rank(),
    {
        match self {
            Stage::Marker => 0,
            Stage::End => 1,
            Stage::Priority => 2,
            Stage::Entry => 3,
            Stage::Body => 4,
        }
    }
}

/// The shape `YYYY-MM-DD`: ten bytes, digits round two hyphens, the month
/// starting with `0` or `1` and the day with `0` to `3`. Whether such a day
/// exists in the calendar is not asked here.
pub open spec fn is_date_shape(s: Seq<u8>) -> bool {
    &&& s.len() == 10
    &&& is_digit(s[0])
    &&& is_digit(s[1])
    &&& is_digit(s[2])
    &&& is_digit(s[3])
    &&& s[4] == 0x2d
    &&& (s[5] == 0x30 || s[5] == 0x31)
    &&& is_digit(s[6])
    &&& s[7] == 0x2d
    &&& 0x30 <= s[8] <= 0x33
    &&& is_digit(s[9])
}

fn digit(b: u8) -> (r: bool)
    ensures
        r == is_digit(b),
{
    0x30 <= b && b <= 0x39
}

/// Whether `str` has the shape `YYYY-MM-DD`.
pub fn is_yyyy_mm_dd(str: &str) -> (r: bool)
    ensures
        r == is_date_shape(str.spec_bytes()),
{
    let s = str.as_bytes();
    s.len() == 10 && digit(s[0]) && digit(s[1]) && digit(s[2]) && digit(s[3]) && s[4] == 0x2d && (
    s[5] == 0x30 || s[5] == 0x31) && digit(s[6]) && s[7] == 0x2d && 0x30 <= s[8] && s[8] <= 0x33
        && digit(s[9])
}

/// The shape `(X)` with `X` an upper-case letter.
pub open spec fn is_priority_shape(s: Seq<u8>) -> bool {
    &&& s.len() == 3
    &&& s[0] == 0x28
    &&& 0x41 <= s[1] <= 0x5a
    &&& s[2] == 0x29
}

/// The shape `(X-Y)` with `X` and `Y` upper-case letters.
pub open spec fn is_priority_range_shape(s: Seq<u8>) -> bool {
    &&& s.len() == 5
    &&& s[0] == 0x28
    &&& 0x41 <= s[1] <= 0x5a
    &&& s[2] == 0x2d
    &&& 0x41 <= s[3] <= 0x5a
    &&& s[4] == 0x29
}

/// Whether `s` begins with the byte `b`.
pub open spec fn starts_with(s: Seq<u8>, b: u8) -> bool {
    s.len() > 0 && s[0] == b
}

fn begins_with(s: &str, b: u8) -> (r: bool)
    ensures
        r == starts_with(s.spec_bytes(), b),
{
    let bytes = s.as_bytes();
    bytes.len() > 0 && bytes[0] == b
}

/// The annotation sign, a lone `|`.
#[derive(PartialEq, Eq, PartialOrd, Ord, Hash)]
pub struct Annotation;

impl Annotation {
    /// Reads a word as the annotation sign.
    pub fn new(str: &str) -> (r: Option<Self>)
        ensures
            r is Some <==> str.spec_bytes() == seq![0x7cu8],
    {
        let s = str.as_bytes();
        if s.len() == 1 && s[0] == 0x7c {
            assert(s@ =~= seq![0x7cu8]);
            Some(Annotation)
        } else {
            None
        }
    }

    /// The length in bytes.
    pub fn len(&self) -> (r: usize)
        ensures
            r == 1,
    {
        1
    }
}

/// A context tag: a word that begins with `@`.
#[derive(PartialEq, Eq, PartialOrd, Ord, Hash)]
pub struct Context<'a>(&'a str);

impl<'a> Clone for Context<'a> {
    fn clone(&self) -> (r: Self)
        ensures
            r@ == self@,
    {
        Context(self.0)
    }
}

impl<'a> View for Context<'a> {
    type V = Seq<u8>;

    closed spec fn view(&self) -> Seq<u8> {
        self.0.spec_bytes()
    }
}

impl<'a> Context<'a> {
    /// Reads a word as a context tag.
    pub fn new(str: &'a str) -> (r: Option<Self>)
        ensures
            r is Some <==> starts_with(str.spec_bytes(), 0x40),
            r is Some ==> r.unwrap()@ == str.spec_bytes(),
    {
        if begins_with(str, 0x40) {
            Some(Context(str))
        } else {
            None
        }
    }

    /// The length in bytes.
    pub fn len(&self) -> (r: usize)
        ensures
            r == self@.len(),
    {
        self.0.as_bytes().len()
    }

    /// The text.
    pub fn as_str(&self) -> (r: &'a str)
        ensures
            r.spec_bytes() == self@,
    {
        self.0
    }
}

/// A completion date, written `YYYY-MM-DD`.
#[derive(PartialEq, Eq, PartialOrd, Ord, Hash)]
pub struct End<'a>(pub &'a str);

impl<'a> View for End<'a> {
    type V = Seq<u8>;

    open spec fn view(&self) -> Seq<u8> {
        self.0.spec_bytes()
    }
}

impl<'a> End<'a> {
    /// Reads a word as a completion date, which it can be only right after
    /// the completion marker or the whitespace that a line starts with.
    pub fn new(str: &'a str, stage: Stage) -> (r: Option<Self>)
        ensures
            r is Some <==> stage == Stage::End && is_date_shape(str.spec_bytes()),
            r is Some ==> r.unwrap()@ == str.spec_bytes(),
    {
        if stage == Stage::End && is_yyyy_mm_dd(str) {
            Some(End(str))
        } else {
            None
        }
    }

    /// The text.
    pub fn as_str(&self) -> (r: &'a str)
        ensures
            r.spec_bytes() == self@,
    {
        self.0
    }

    /// The length in bytes.
    pub fn len(&self) -> (r: usize)
        ensures
            r == self@.len(),
    {
        self.0.as_bytes().len()
    }
}

/// A creation date, written `YYYY-MM-DD`.
#[derive(PartialEq, Eq, PartialOrd, Ord, Hash)]
pub struct Entry<'a>(pub &'a str);

impl<'a> View for Entry<'a> {
    type V = Seq<u8>;

    open spec fn view(&self) -> Seq<u8> {
        self.0.spec_bytes()
    }
}

impl<'a> Entry<'a> {
    /// Reads a word as a creation date, which it can be until the body has
    /// begun.
    pub fn new(str: &'a str, stage: Stage) -> (r: Option<Self>)
        ensures
            r is Some <==> stage.rank() <= Stage::Entry.rank() && is_date_shape(str.spec_bytes()),
            r is Some ==> r.unwrap()@ == str.spec_bytes(),
    {
        if stage.level() <= 3 && is_yyyy_mm_dd(str) {
            Some(Entry(str))
        } else {
            None
        }
    }

    /// The text.
    pub fn as_str(&self) -> (r: &'a str)
        ensures
            r.spec_bytes() == self@,
    {
        self.0
    }

    /// The length in bytes.
    pub fn len(&self) -> (r: usize)
        ensures
            r == self@.len(),
    {
        self.0.as_bytes().len()
    }
}

/// The key of a `key:value` pair.
#[derive(PartialEq, Eq, PartialOrd, Ord, Hash)]
pub struct Key<'a>(&'a str);

impl<'a> View for Key<'a> {
    type V = Seq<u8>;

    closed spec fn view(&self) -> Seq<u8> {
        self.0.spec_bytes()
    }
}

impl<'a> Key<'a> {
    /// The key spelled `str`.
    pub fn new(str: &'a str) -> (r: Self)
        ensures
            r@ == str.spec_bytes(),
    {
        Key(str)
    }

    /// The text.
    pub fn as_str(&self) -> (r: &'a str)
        ensures
            r.spec_bytes() == self@,
    {
        self.0
    }

    /// The length in bytes.
    pub fn len(&self) -> (r: usize)
        ensures
            r == self@.len(),
    {
        self.0.as_bytes().len()
    }

    /// Whether two keys are spelled alike.
    pub fn same(&self, other: &Key) -> (r: bool)
        ensures
            r == (self@ == other@),
    {
        bytes_eq(self.0.as_bytes(), other.0.as_bytes())
    }
}

/// The completion marker, a lone `x` at the very start of a line.
#[derive(PartialEq, Eq, PartialOrd, Ord, Hash)]
pub struct Marker;

impl Marker {
    /// Reads a word as the completion marker, which it can be only at the
    /// very start of a line.
    pub fn new(str: &str, stage: Stage) -> (r: Option<Self>)
        ensures
            r is Some <==> stage == Stage::Marker && str.spec_bytes() == seq![0x78u8],
    {
        let s = str.as_bytes();
        if stage == Stage::Marker && s.len() == 1 && s[0] == 0x78 {
            assert(s@ =~= seq![0x78u8]);
            Some(Marker)
        } else {
            None
        }
    }

    /// The length in bytes.
    pub fn len(&self) -> (r: usize)
        ensures
            r == 1,
    {
        1
    }
}

/// A plain word of the body.
#[derive(PartialEq, Eq, PartialOrd, Ord, Hash)]
pub struct Normal<'a>(&'a str);

impl<'a> View for Normal<'a> {
    type V = Seq<u8>;

    closed spec fn view(&self) -> Seq<u8> {
        self.0.spec_bytes()
    }
}

impl<'a> Normal<'a> {
    /// The plain word `str`.
    pub fn new(str: &'a str) -> (r: Self)
        ensures
            r@ == str.spec_bytes(),
    {
        Normal(str)
    }

    /// The text.
    pub fn as_str(&self) -> (r: &'a str)
        ensures
            r.spec_bytes() == self@,
    {
        self.0
    }

    /// The length in bytes.
    pub fn len(&self) -> (r: usize)
        ensures
            r == self@.len(),
    {
        self.0.as_bytes().len()
    }
}

/// The number of a line in its file, counted from one.
#[derive(Clone, Copy, Debug, PartialEq, Eq, PartialOrd, Ord, Hash, Structural)]
pub struct Number(usize);

/// How many decimal digits it takes to write `n`; none for zero.
pub open spec fn digit_count(n: nat) -> nat
    decreases n,
{
    if n == 0 {
        0
    } else {
        1 + digit_count(n / 10)
    }
}

/// The values of a list of numbers.
pub open spec fn numbers(list: Seq<Number>) -> Seq<nat> {
    Seq::new(list.len(), |i: int| list[i]@)
}

/// An unsigned number as `str::parse` reads it: an optional `+`, then digits.
pub open spec fn number_of(s: Seq<u8>, limit: nat) -> Option<nat> {
    if starts_with(s, 0x2b) {
        unsigned_of(s.subrange(1, s.len() as int), limit)
    } else {
        unsigned_of(s, limit)
    }
}

/// The numbers of a comma-separated list, if every item is a number.
pub open spec fn number_list_of(s: Seq<u8>, limit: nat) -> Option<Seq<nat>>
    decreases s.len(),
{
    let comma = find(s, 0x2c);
    if 0 <= comma < s.len() {
        match (
            number_of(s.subrange(0, comma), limit),
            number_list_of(s.subrange(comma + 1, s.len() as int), limit),
        ) {
            (Some(n), Some(rest)) => Some(seq![n] + rest),
            _ => None,
        }
    } else {
        match number_of(s, limit) {
            Some(n) => Some(seq![n]),
            None => None,
        }
    }
}

/// The two ends of `A-B`, the smaller first, if both sides of the first
/// hyphen are numbers.
pub open spec fn number_range_of(s: Seq<u8>, limit: nat) -> Option<(nat, nat)> {
    let dash = find(s, 0x2d);
    if dash >= s.len() {
        None
    } else {
        match (
            number_of(s.subrange(0, dash), limit),
            number_of(s.subrange(dash + 1, s.len() as int), limit),
        ) {
            (Some(a), Some(b)) => if a <= b {
                Some((a, b))
            } else {
                Some((b, a))
            },
            _ => None,
        }
    }
}

/// Reads an unsigned number, with an optional `+` in front of its digits,
/// that does not exceed `limit`.
pub fn parse_unsigned(s: &[u8], limit: u64) -> (r: Option<u64>)
    ensures
        r is Some <==> number_of(s@, limit as nat) is Some,
        r is Some ==> Some(r.unwrap() as nat) == number_of(s@, limit as nat),
{
    let digits = if s.len() > 0 && s[0] == 0x2b {
        slice_subrange(s, 1, s.len())
    } else {
        s
    };
    parse_digits(digits, limit)
}

fn parse_number(s: &[u8]) -> (r: Option<usize>)
    ensures
        r is Some <==> number_of(s@, usize::MAX as nat) is Some,
        r is Some ==> Some(r.unwrap() as nat) == number_of(s@, usize::MAX as nat),
{
    match parse_unsigned(s, usize::MAX as u64) {
        Some(n) => Some(n as usize),
        None => None,
    }
}

impl View for Number {
    type V = nat;

    closed spec fn view(&self) -> nat {
        self.0 as nat
    }
}

impl Number {
    /// The line number of the line at a position counted from zero.
    pub fn from_enumerate(nr: usize) -> (r: Self)
        requires
            nr < usize::MAX,
        ensures
            r@ == nr + 1,
    {
        Number(nr + 1)
    }

    /// The number `nr`.
    pub fn from_usize(nr: usize) -> (r: Self)
        ensures
            r@ == nr,
    {
        Number(nr)
    }

    /// Reads a number: an optional `+` and decimal digits that fit a `usize`.
    pub fn from_str(str: &str) -> (r: Option<Self>)
        ensures
            r is Some <==> number_of(str.spec_bytes(), usize::MAX as nat) is Some,
            r is Some ==> Some(r.unwrap()@) == number_of(str.spec_bytes(), usize::MAX as nat),
    {
        match parse_number(str.as_bytes()) {
            Some(n) => Some(Number(n)),
            None => None,
        }
    }

    /// Reads `A-B` as the range between the two numbers, the smaller first.
    pub fn new_range(str: &str) -> (r: Option<(Self, Self)>)
        ensures
            r is Some <==> number_range_of(str.spec_bytes(), usize::MAX as nat) is Some,
            r is Some ==> Some((r.unwrap().0@, r.unwrap().1@)) == number_range_of(
                str.spec_bytes(),
                usize::MAX as nat,
            ),
    {
        let s = str.as_bytes();
        let dash: usize = find_byte(s, 0x2d);
        if dash >= s.len() {
            return None;
        }
        let a = match parse_number(slice_subrange(s, 0, dash)) {
            Some(a) => a,
            None => return None,
        };
        let b = match parse_number(slice_subrange(s, dash + 1, s.len())) {
            Some(b) => b,
            None => return None,
        };
        if a <= b {
            Some((Number(a), Number(b)))
        } else {
            Some((Number(b), Number(a)))
        }
    }

    /// Reads a comma-separated list of numbers.
    pub fn new_list(str: &str) -> (r: Option<Vec<Self>>)
        ensures
            r is Some <==> number_list_of(str.spec_bytes(), usize::MAX as nat) is Some,
            r is Some ==> Some(numbers(r.unwrap()@))
                == number_list_of(str.spec_bytes(), usize::MAX as nat),
    {
        let s = str.as_bytes();
        let mut nrs: Vec<Number> = Vec::new();
        let mut from: usize = 0;
        proof {
            assert(s@.subrange(0, s@.len() as int) =~= s@);
            assert(numbers(nrs@) =~= Seq::<nat>::empty());
            let whole = number_list_of(s@, usize::MAX as nat);
            if whole is Some {
                assert(Seq::<nat>::empty() + whole.unwrap() =~= whole.unwrap());
            }
        }
        loop
            invariant
                s@ == str.spec_bytes(),
                from <= s@.len(),
                number_list_of(s@, usize::MAX as nat) == match number_list_of(
                    s@.subrange(from as int, s@.len() as int),
                    usize::MAX as nat,
                ) {
                    Some(rest) => Some(numbers(nrs@) + rest),
                    None => None,
                },
            decreases s@.len() - from,
        {
            let rest = slice_subrange(s, from, s.len());
            let comma: usize = find_byte(rest, 0x2c);
            let item = slice_subrange(rest, 0, comma);
            proof {
                lemma_find_from(rest@, 0x2c, 0);
                if comma >= rest@.len() {
                    assert(item@ =~= rest@);
                }
            }
            let n = match parse_number(item) {
                Some(n) => n,
                None => return None,
            };
            let ghost before = numbers(nrs@);
            nrs.push(Number(n));
            proof {
                assert(numbers(nrs@) =~= before + seq![n as nat]);
            }
            if comma >= rest.len() {
                return Some(nrs);
            }
            proof {
                assert(rest@.subrange(comma + 1, rest@.len() as int) =~= s@.subrange(
                    from + comma + 1,
                    s@.len() as int,
                ));
                let tail_list = number_list_of(
                    s@.subrange(from + comma + 1, s@.len() as int),
                    usize::MAX as nat,
                );
                if tail_list is Some {
                    assert(before + (seq![n as nat] + tail_list.unwrap()) =~= (before + seq![
                        n as nat,
                    ]) + tail_list.unwrap());
                }
            }
            from = from + comma + 1;
        }
    }

    /// How many decimal digits the number takes; none for zero.
    pub fn digits(&self) -> (r: usize)
        ensures
            r == digit_count(self@),
    {
        let mut nr: usize = self.0;
        let mut len: usize = 0;
        while nr > 0
            invariant
                len + digit_count(nr as nat) == digit_count(self.0 as nat),
            decreases nr,
        {
            proof {
                lemma_digit_count_bound(self.0 as nat);
            }
            nr = nr / 10;
            len += 1;
        }
        len
    }

    /// The number as a `usize`.
    pub fn as_usize(&self) -> (r: usize)
        ensures
            r == self@,
    {
        self.0
    }
}

proof fn lemma_digit_count_bound(n: nat)
    requires
        n <= u64::MAX,
    ensures
        digit_count(n) <= 20,
{
    reveal_with_fuel(digit_count, 22);
}

/// The value of a `key:value` pair.
#[derive(PartialEq, Eq, PartialOrd, Ord, Hash)]
pub struct Value<'a>(&'a str);

impl<'a> View for Value<'a> {
    type V = Seq<u8>;

    closed spec fn view(&self) -> Seq<u8> {
        self.0.spec_bytes()
    }
}

impl<'a> Value<'a> {
    /// The value spelled `str`.
    pub fn new(str: &'a str) -> (r: Self)
        ensures
            r@ == str.spec_bytes(),
    {
        Value(str)
    }

    /// The text.
    pub fn as_str(&self) -> (r: &'a str)
        ensures
            r.spec_bytes() == self@,
    {
        self.0
    }

    /// The length in bytes.
    pub fn len(&self) -> (r: usize)
        ensures
            r == self@.len(),
    {
        self.0.as_bytes().len()
    }
}

/// A word with a `:` in it, split at the first one into key and value.
#[derive(PartialEq, Eq, PartialOrd, Ord, Hash)]
pub struct Pair<'a> {
    pub key: Key<'a>,
    pub value: Value<'a>,
}

impl<'a> View for Pair<'a> {
    type V = Seq<u8>;

    open spec fn view(&self) -> Seq<u8> {
        self.key@ + seq![0x3au8] + self.value@
    }
}

impl<'a> Pair<'a> {
    /// Reads a word as a pair, split at its first `:`.
    pub fn new(str: &'a str) -> (r: Option<Self>)
        ensures
            r is Some <==> has_byte(str.spec_bytes(), 0x3a),
            r is Some ==> {
                let s = str.spec_bytes();
                &&& r.unwrap().key@ == s.subrange(0, find(s, 0x3a))
                &&& r.unwrap().value@ == s.subrange(find(s, 0x3a) + 1, s.len() as int)
                &&& r.unwrap()@ == s
                &&& !has_byte(r.unwrap().key@, 0x3a)
            },
    {
        let s = str.as_bytes();
        let colon: usize = find_byte(s, 0x3a);
        if colon >= s.len() {
            return None;
        }
        proof {
            lemma_find_from(s@, 0x3a, 0);
            lemma_cut_at_ascii(s@, colon as int);
            lemma_find_from_unique(s@.subrange(0, colon as int), 0x3a, 0, colon as int);
        }
        let key = Key(substr(str, 0, colon));
        let value = Value(tail(str, colon + 1));
        let pair = Pair { key, value };
        assert(pair@ =~= s@);
        Some(pair)
    }

    /// The length in bytes.
    pub fn len(&self) -> (r: usize)
        requires
            self@.len() <= usize::MAX,
        ensures
            r == self@.len(),
    {
        self.key.len() + 1 + self.value.len()
    }
}

/// A priority, one of the letters `A` to `Z`.
#[derive(Clone, Copy, Debug, PartialEq, Eq, PartialOrd, Ord, Hash, Structural)]
pub struct Priority(u8);

impl View for Priority {
    type V = u8;

    closed spec fn view(&self) -> u8 {
        self.0
    }
}

impl Priority {
    #[verifier::type_invariant]
    spec fn is_letter(self) -> bool {
        0x41 <= self.0 <= 0x5a
    }

    /// The text of a priority, `(X)`.
    pub open spec fn text(self) -> Seq<u8> {
        seq![0x28u8, self@, 0x29u8]
    }

    fn from_byte(b: u8) -> (r: Option<Self>)
        ensures
            r is Some <==> 0x41 <= b <= 0x5a,
            r is Some ==> r.unwrap()@ == b,
    {
        if 0x41 <= b && b <= 0x5a {
            Some(Priority(b))
        } else {
            None
        }
    }

    /// Reads `(X)`, which is a priority until the creation date has passed.
    pub fn new(str: &str, stage: Stage) -> (r: Option<Self>)
        ensures
            r is Some <==> stage.rank() <= Stage::Priority.rank() && is_priority_shape(
                str.spec_bytes(),
            ),
            r is Some ==> r.unwrap().text() == str.spec_bytes(),
    {
        let s = str.as_bytes();
        if stage.level() > 2 || s.len() != 3 || s[0] != 0x28 || s[2] != 0x29 {
            return None;
        }
        let r = Priority::from_byte(s[1]);
        proof {
            if r is Some {
                assert(r.unwrap().text() =~= s@);
            }
        }
        r
    }

    /// Reads `(X-Y)` as the range between the two priorities, the smaller
    /// letter first.
    pub fn new_range(str: &str) -> (r: Option<(Self, Self)>)
        ensures
            r is Some <==> is_priority_range_shape(str.spec_bytes()),
            r is Some ==> {
                let s = str.spec_bytes();
                &&& r.unwrap().0@ == if s[1] <= s[3] {
                    s[1]
                } else {
                    s[3]
                }
                &&& r.unwrap().1@ == if s[1] <= s[3] {
                    s[3]
                } else {
                    s[1]
                }
            },
    {
        let s = str.as_bytes();
        if s.len() != 5 || s[0] != 0x28 || s[2] != 0x2d || s[4] != 0x29 {
            return None;
        }
        let a = match Priority::from_byte(s[1]) {
            Some(a) => a,
            None => return None,
        };
        let b = match Priority::from_byte(s[3]) {
            Some(b) => b,
            None => return None,
        };
        if a.0 <= b.0 {
            Some((a, b))
        } else {
            Some((b, a))
        }
    }

    /// The priority that a letter names.
    pub fn from_char(c: char) -> (r: Option<Self>)
        ensures
            r is Some <==> 'A' <= c <= 'Z',
            r is Some ==> r.unwrap()@ == c as u8,
    {
        if 'A' <= c && c <= 'Z' {
            Some(Priority(c as u8))
        } else {
            None
        }
    }

    /// The letter of the priority.
    pub fn as_u8(&self) -> (r: u8)
        ensures
            r == self@,
            0x41 <= r <= 0x5a,
    {
        proof {
            use_type_invariant(self);
        }
        self.0
    }

    /// The length in bytes.
    pub fn len(&self) -> (r: usize)
        ensures
            r == 3,
    {
        3
    }
}

/// A project tag: a word that begins with `+`.
#[derive(PartialEq, Eq, PartialOrd, Ord, Hash)]
pub struct Project<'a>(&'a str);

impl<'a> Clone for Project<'a> {
    fn clone(&self) -> (r: Self)
        ensures
            r@ == self@,
    {
        Project(self.0)
    }
}

impl<'a> View for Project<'a> {
    type V = Seq<u8>;

    closed spec fn view(&self) -> Seq<u8> {
        self.0.spec_bytes()
    }
}

impl<'a> Project<'a> {
    /// Reads a word as a project tag.
    pub fn new(str: &'a str) -> (r: Option<Self>)
        ensures
            r is Some <==> starts_with(str.spec_bytes(), 0x2b),
            r is Some ==> r.unwrap()@ == str.spec_bytes(),
    {
        if begins_with(str, 0x2b) {
            Some(Project(str))
        } else {
            None
        }
    }

    /// The length in bytes.
    pub fn len(&self) -> (r: usize)
        ensures
            r == self@.len(),
    {
        self.0.as_bytes().len()
    }

    /// The text.
    pub fn as_str(&self) -> (r: &'a str)
        ensures
            r.spec_bytes() == self@,
    {
        self.0
    }
}

/// A run of whitespace.
#[derive(PartialEq, Eq, PartialOrd, Ord, Hash)]
pub struct Space<'a>(&'a str);

impl<'a> View for Space<'a> {
    type V = Seq<u8>;

    closed spec fn view(&self) -> Seq<u8> {
        self.0.spec_bytes()
    }
}

impl<'a> Space<'a> {
    /// Reads a text as a run of whitespace.
    pub fn new(str: &'a str) -> (r: Option<Self>)
        ensures
            r is Some <==> all_space(str.spec_bytes()),
            r is Some ==> r.unwrap()@ == str.spec_bytes(),
    {
        if is_all_space(str.as_bytes()) {
            Some(Space(str))
        } else {
            None
        }
    }

    /// The length in bytes.
    pub fn len(&self) -> (r: usize)
        ensures
            r == self@.len(),
    {
        self.0.as_bytes().len()
    }

    /// The text.
    pub fn as_str(&self) -> (r: &'a str)
        ensures
            r.spec_bytes() == self@,
    {
        self.0
    }
}

} // verus!
