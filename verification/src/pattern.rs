//! Regular expressions that can be compared: two are equal when they were
//! made from the same pattern.

use crate::error::{Error, Fault};
use crate::text::{lemma_cut_at_ascii, lemma_encode_injective, str_eq, substr};
use vstd::prelude::*;
use vstd::string::*;
use vstd::utf8::*;

verus! {

/// `regex::Regex`, a compiled regular expression. Nothing of what it holds is
/// known here.
#[verifier::external_type_specification]
#[verifier::external_body]
pub struct ExRegex(regex::Regex);

/// Whether `regex::Regex::new` takes a pattern.
pub uninterp spec fn compiles(pattern: Seq<char>) -> bool;

/// The pattern that a `regex::Regex` was made from, which its `as_str`
/// returns.
pub uninterp spec fn source_of(regex: regex::Regex) -> Seq<char>;

/// Whether the regular expression of a pattern has a match anywhere in a
/// text, as `regex::Regex::is_match` finds.
pub uninterp spec fn has_match(pattern: Seq<char>, text: Seq<char>) -> bool;

/// `regex::Regex::new` compiles a pattern, or refuses it; what it makes
/// keeps the pattern.
#[verifier::external_body]
fn compile(pattern: &str) -> (r: Option<regex::Regex>)
    ensures
        r is Some <==> compiles(pattern@),
        r is Some ==> source_of(r.unwrap()) == pattern@,
{
    match regex::Regex::new(pattern) {
        Ok(regex) => Some(regex),
        Err(_) => None,
    }
}

/// `regex::Regex::as_str` returns the pattern that the regular expression
/// was made from.
#[verifier::external_body]
fn source(regex: &regex::Regex) -> (r: &str)
    ensures
        r@ == source_of(*regex),
{
    regex.as_str()
}

/// `regex::Regex::is_match` says whether there is a match anywhere in the
/// text; the answer depends on the pattern and the text alone.
#[verifier::external_body]
fn search(regex: &regex::Regex, text: &str) -> (r: bool)
    ensures
        r == has_match(source_of(*regex), text@),
{
    regex.is_match(text)
}

/// Whether a text stands between two slashes.
pub open spec fn slashed(s: Seq<u8>) -> bool {
    s.len() >= 2 && s[0] == 0x2f && s.last() == 0x2f
}

/// What stands between the slashes.
pub open spec fn between_slashes(s: Seq<u8>) -> Seq<char> {
    decode_utf8(s.subrange(1, s.len() - 1))
}

/// A regular expression. It is made from its pattern by `new`, and in no
/// other way.
pub struct Pattern(regex::Regex);

impl Pattern {
    /// The pattern of the regular expression.
    pub closed spec fn pattern(&self) -> Seq<char> {
        source_of(self.0)
    }

    /// Reads `/pattern/`. A text that does not stand between slashes is no
    /// regular expression; one that does must hold a pattern that compiles.
    pub fn new(str: &str) -> (r: Result<Option<Self>, Error>)
        ensures
            match r {
                Ok(None) => !slashed(str.spec_bytes()),
                Ok(Some(regex)) => slashed(str.spec_bytes()) && compiles(
                    between_slashes(str.spec_bytes()),
                ) && regex.pattern() == between_slashes(str.spec_bytes()),
                Err(e) => slashed(str.spec_bytes()) && !compiles(
                    between_slashes(str.spec_bytes()),
                ) && e@ == Fault::InvalidRegex(str.spec_bytes()),
            },
    {
        broadcast use encode_utf8_decode_utf8;

        let s = str.as_bytes();
        let n: usize = s.len();
        if n < 2 || s[0] != 0x2f || s[n - 1] != 0x2f {
            return Ok(None);
        }
        proof {
            lemma_cut_at_ascii(s@, 0);
            lemma_cut_at_ascii(s@, n - 1);
        }
        match compile(substr(str, 1, n - 1)) {
            Some(compiled) => Ok(Some(Pattern(compiled))),
            None => Err(Error::InvalidRegex(str.to_owned())),
        }
    }

    /// Whether the regular expression has a match anywhere in the text.
    pub fn is_match(&self, str: &str) -> (r: bool)
        ensures
            r == has_match(self.pattern(), str@),
    {
        search(&self.0, str)
    }
}

impl PartialEq for Pattern {
    fn eq(&self, other: &Pattern) -> (r: bool) {
        let mine = source(&self.0);
        let theirs = source(&other.0);
        proof {
            if mine.spec_bytes() == theirs.spec_bytes() {
                lemma_encode_injective(mine@, theirs@);
            }
        }
        str_eq(mine, theirs)
    }
}

impl vstd::std_specs::cmp::PartialEqSpecImpl for Pattern {
    open spec fn obeys_eq_spec() -> bool {
        true
    }

    open spec fn eq_spec(&self, other: &Pattern) -> bool {
        self.pattern() == other.pattern()
    }
}

} // verus!
