//! The errors of the library. Each is a value that names what was wrong and,
//! where there is one, carries the text that was.

use crate::text::push_str;
use vstd::prelude::*;
use vstd::string::*;
use vstd::utf8::*;

verus! {

/// What can go wrong.
#[derive(Debug)]
pub enum Error {
    /// A modification that takes a pair away names a value.
    CannotModNegateKeyValue(String),
    /// A command that only reads was given modifications.
    CmdDisallowsMod,
    /// The changes were not confirmed.
    ConfPromptDeniedErr,
    /// There is nothing left to undo.
    EmptyUndo,
    /// A default filter is no filter.
    InvalidDefaultFilter(String),
    /// A completion date is not a date of one day.
    InvalidEnd(String),
    /// A creation date is not a date of one day.
    InvalidEntry(String),
    /// A filter names a test that there is not.
    InvalidMod(String),
    /// A priority is not a letter from `A` to `Z`.
    InvalidPriority(String),
    /// What stands between two slashes is no regular expression.
    InvalidRegex(String),
    /// A key that holds dates was given a value that is none.
    KeyExpectsDateValue(String),
    /// A line of the undo log is no record.
    MalformedUndo(String),
    /// A test on dates was asked of a key that holds none.
    ModExpectsDateKey(String),
    /// A test on dates was given a value that is no date.
    ModExpectsDateValue(String),
    /// An argument is neither a filter nor a command.
    NotAFilterOrCommand(String),
    /// The line that a record added is not among the tasks.
    UndoMismatch(String),
}

/// An error as a plain value: its kind and the bytes of the text it carries.
pub enum Fault {
    CannotModNegateKeyValue(Seq<u8>),
    CmdDisallowsMod,
    ConfPromptDeniedErr,
    EmptyUndo,
    InvalidDefaultFilter(Seq<u8>),
    InvalidEnd(Seq<u8>),
    InvalidEntry(Seq<u8>),
    InvalidMod(Seq<u8>),
    InvalidPriority(Seq<u8>),
    InvalidRegex(Seq<u8>),
    KeyExpectsDateValue(Seq<u8>),
    MalformedUndo(Seq<u8>),
    ModExpectsDateKey(Seq<u8>),
    ModExpectsDateValue(Seq<u8>),
    NotAFilterOrCommand(Seq<u8>),
    UndoMismatch(Seq<u8>),
}

impl View for Error {
    type V = Fault;

    open spec fn view(&self) -> Fault {
        match self {
            Error::CannotModNegateKeyValue(s) => Fault::CannotModNegateKeyValue(encode_utf8(s@)),
            Error::CmdDisallowsMod => Fault::CmdDisallowsMod,
            Error::ConfPromptDeniedErr => Fault::ConfPromptDeniedErr,
            Error::EmptyUndo => Fault::EmptyUndo,
            Error::InvalidDefaultFilter(s) => Fault::InvalidDefaultFilter(encode_utf8(s@)),
            Error::InvalidEnd(s) => Fault::InvalidEnd(encode_utf8(s@)),
            Error::InvalidEntry(s) => Fault::InvalidEntry(encode_utf8(s@)),
            Error::InvalidMod(s) => Fault::InvalidMod(encode_utf8(s@)),
            Error::InvalidPriority(s) => Fault::InvalidPriority(encode_utf8(s@)),
            Error::InvalidRegex(s) => Fault::InvalidRegex(encode_utf8(s@)),
            Error::KeyExpectsDateValue(s) => Fault::KeyExpectsDateValue(encode_utf8(s@)),
            Error::MalformedUndo(s) => Fault::MalformedUndo(encode_utf8(s@)),
            Error::ModExpectsDateKey(s) => Fault::ModExpectsDateKey(encode_utf8(s@)),
            Error::ModExpectsDateValue(s) => Fault::ModExpectsDateValue(encode_utf8(s@)),
            Error::NotAFilterOrCommand(s) => Fault::NotAFilterOrCommand(encode_utf8(s@)),
            Error::UndoMismatch(s) => Fault::UndoMismatch(encode_utf8(s@)),
        }
    }
}

/// A text as `{:?}` formats it: between double quotes, with what cannot be
/// read as it stands written as escapes.
pub uninterp spec fn quoted(text: Seq<char>) -> Seq<char>;

/// `format!("{:?}", ..)` of a string gives it between double quotes, with
/// escapes.
#[verifier::external_body]
fn quote(text: &str) -> (r: String)
    ensures
        r@ == quoted(text@),
{
    format!("{:?}", text)
}

impl Fault {
    /// The text that the fault carries and what is said of it: before the
    /// text, and after it.
    pub open spec fn saying(self) -> (Seq<u8>, Option<Seq<u8>>, Seq<u8>) {
        match self {
            Fault::CannotModNegateKeyValue(s) => (
                Seq::empty(),
                Some(s),
                " cannot modify negated key:value; try -key:\n".spec_bytes(),
            ),
            Fault::CmdDisallowsMod => (
                "specified command cannot take modifications\n".spec_bytes(),
                None,
                Seq::empty(),
            ),
            Fault::ConfPromptDeniedErr => (
                "confirmation denied, aborting without changes\n".spec_bytes(),
                None,
                Seq::empty(),
            ),
            Fault::EmptyUndo => (
                "undo file is empty or non-existent; cannot undo further\n".spec_bytes(),
                None,
                Seq::empty(),
            ),
            Fault::InvalidDefaultFilter(s) => (
                Seq::empty(),
                Some(s),
                " is an invalid default filter\n".spec_bytes(),
            ),
            Fault::InvalidEnd(s) => (
                Seq::empty(),
                Some(s),
                " is an invalid end date; expects one-day resolution\n".spec_bytes(),
            ),
            Fault::InvalidEntry(s) => (
                Seq::empty(),
                Some(s),
                " is an invalid entry date; expects one-day resolution\n".spec_bytes(),
            ),
            Fault::InvalidMod(s) => (Seq::empty(), Some(s), " has an invalid .mod:\n".spec_bytes()),
            Fault::InvalidPriority(s) => (
                Seq::empty(),
                Some(s),
                " is not a valid priority A-Z\n".spec_bytes(),
            ),
            Fault::InvalidRegex(s) => (
                Seq::empty(),
                Some(s),
                " starts with a '/' but is not valid regex\n".spec_bytes(),
            ),
            Fault::KeyExpectsDateValue(s) => (
                Seq::empty(),
                Some(s),
                " contains date key but non-date value\n".spec_bytes(),
            ),
            Fault::MalformedUndo(s) => (
                "undo file contains non-undo line: `".spec_bytes(),
                Some(s),
                "`\n".spec_bytes(),
            ),
            Fault::ModExpectsDateKey(s) => (
                Seq::empty(),
                Some(s),
                " contains non-date key, conflicting with .mod:\n".spec_bytes(),
            ),
            Fault::ModExpectsDateValue(s) => (
                Seq::empty(),
                Some(s),
                " contains non-date value, conflicting with .mod:\n".spec_bytes(),
            ),
            Fault::NotAFilterOrCommand(s) => (
                Seq::empty(),
                Some(s),
                " is not a valid filter or command\n".spec_bytes(),
            ),
            Fault::UndoMismatch(s) => (
                "unable to find `".spec_bytes(),
                Some(s),
                "` in task file to undo\n".spec_bytes(),
            ),
        }
    }

    /// Whether the text of the fault is shown as it stands; that of the
    /// others is shown in quotes.
    pub open spec fn shown_plain(self) -> bool {
        self is MalformedUndo || self is UndoMismatch
    }

    /// What the fault says.
    pub open spec fn message(self) -> Seq<u8> {
        let (before, text, after) = self.saying();
        before + match text {
            Some(text) => if self.shown_plain() {
                text
            } else {
                encode_utf8(quoted(decode_utf8(text)))
            },
            None => Seq::empty(),
        } + after
    }
}

impl Error {
    /// What the error says, as one line.
    pub fn message(&self) -> (r: String)
        ensures
            encode_utf8(r@) == self@.message(),
    {
        broadcast use encode_utf8_decode_utf8;

        let mut out = String::new();
        assert(encode_utf8(out@) =~= Seq::<u8>::empty());
        let (before, text, after): (&str, Option<&str>, &str) = match self {
            Error::CannotModNegateKeyValue(s) => (
                "",
                Some(s.as_str()),
                " cannot modify negated key:value; try -key:\n",
            ),
            Error::CmdDisallowsMod => ("specified command cannot take modifications\n", None, ""),
            Error::ConfPromptDeniedErr => (
                "confirmation denied, aborting without changes\n",
                None,
                "",
            ),
            Error::EmptyUndo => (
                "undo file is empty or non-existent; cannot undo further\n",
                None,
                "",
            ),
            Error::InvalidDefaultFilter(s) => (
                "",
                Some(s.as_str()),
                " is an invalid default filter\n",
            ),
            Error::InvalidEnd(s) => (
                "",
                Some(s.as_str()),
                " is an invalid end date; expects one-day resolution\n",
            ),
            Error::InvalidEntry(s) => (
                "",
                Some(s.as_str()),
                " is an invalid entry date; expects one-day resolution\n",
            ),
            Error::InvalidMod(s) => ("", Some(s.as_str()), " has an invalid .mod:\n"),
            Error::InvalidPriority(s) => ("", Some(s.as_str()), " is not a valid priority A-Z\n"),
            Error::InvalidRegex(s) => (
                "",
                Some(s.as_str()),
                " starts with a '/' but is not valid regex\n",
            ),
            Error::KeyExpectsDateValue(s) => (
                "",
                Some(s.as_str()),
                " contains date key but non-date value\n",
            ),
            Error::MalformedUndo(s) => (
                "undo file contains non-undo line: `",
                Some(s.as_str()),
                "`\n",
            ),
            Error::ModExpectsDateKey(s) => (
                "",
                Some(s.as_str()),
                " contains non-date key, conflicting with .mod:\n",
            ),
            Error::ModExpectsDateValue(s) => (
                "",
                Some(s.as_str()),
                " contains non-date value, conflicting with .mod:\n",
            ),
            Error::NotAFilterOrCommand(s) => (
                "",
                Some(s.as_str()),
                " is not a valid filter or command\n",
            ),
            Error::UndoMismatch(s) => ("unable to find `", Some(s.as_str()), "` in task file to undo\n"),
        };
        proof {
            reveal_strlit("");
            assert("".spec_bytes() =~= Seq::<u8>::empty());
        }
        let plain: bool = match self {
            Error::MalformedUndo(_) => true,
            Error::UndoMismatch(_) => true,
            _ => false,
        };
        push_str(&mut out, before);
        if let Some(text) = text {
            if plain {
                push_str(&mut out, text);
            } else {
                let shown = quote(text);
                push_str(&mut out, shown.as_str());
            }
        }
        push_str(&mut out, after);
        proof {
            assert(Seq::<u8>::empty() + Seq::<u8>::empty() =~= Seq::<u8>::empty());
            assert(encode_utf8(out@) =~= self@.message());
        }
        out
    }
}

} // verus!
