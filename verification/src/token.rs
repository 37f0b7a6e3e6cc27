//! Tokens: the tagged union over the fields, and the rule that decides, from
//! a word and the stage of the scan, which field the word is.

use crate::field::{
    is_date_shape, is_priority_shape, starts_with, Annotation, Context, End, Entry, Key, Marker,
    Normal, Pair, Priority, Project, Space, Stage,
};
use crate::text::{all_space, bytes_eq, has_byte};
use vstd::prelude::*;
use vstd::string::*;

verus! {

/// The kinds of token.
#[derive(Clone, Copy, Debug, PartialEq, Eq, Structural)]
pub enum TokenKind {
    Annotation,
    Context,
    End,
    Entry,
    Key,
    Marker,
    Normal,
    Pair,
    Priority,
    Project,
    Space,
}

/// One token of a task line.
#[derive(PartialEq, Eq, PartialOrd, Ord, Hash)]
pub enum Token<'a> {
    Annotation(Annotation),
    Context(Context<'a>),
    End(End<'a>),
    Entry(Entry<'a>),
    Key(Key<'a>),
    Marker(Marker),
    Normal(Normal<'a>),
    Pair(Pair<'a>),
    Priority(Priority),
    Project(Project<'a>),
    Space(Space<'a>),
}

/// The transition of the tokenizer: what kind of token a word is when it is
/// met at a stage, and the stage after it.
///
/// Whitespace is always its own token, and leaves the stage alone except at
/// the very start, where it rules out a completion marker. The marker, the
/// two dates and the priority are recognised only while their stage has not
/// passed. Every other word belongs to the body, and once the body has begun
/// nothing but body forms is recognised.
pub open spec fn classify(text: Seq<u8>, stage: Stage) -> (TokenKind, Stage) {
    if all_space(text) {
        if stage == Stage::Marker && text.len() > 0 {
            (TokenKind::Space, Stage::End)
        } else {
            (TokenKind::Space, stage)
        }
    } else if stage == Stage::Marker && text == seq![0x78u8] {
        (TokenKind::Marker, Stage::End)
    } else if stage == Stage::End && is_date_shape(text) {
        (TokenKind::End, Stage::Priority)
    } else if stage.rank() <= Stage::Priority.rank() && is_priority_shape(text) {
        (TokenKind::Priority, Stage::Entry)
    } else if stage.rank() <= Stage::Entry.rank() && is_date_shape(text) {
        (TokenKind::Entry, Stage::Body)
    } else if starts_with(text, 0x2b) {
        (TokenKind::Project, Stage::Body)
    } else if starts_with(text, 0x40) {
        (TokenKind::Context, Stage::Body)
    } else if has_byte(text, 0x3a) {
        (TokenKind::Pair, Stage::Body)
    } else if text == seq![0x7cu8] {
        (TokenKind::Annotation, Stage::Body)
    } else {
        (TokenKind::Normal, Stage::Body)
    }
}

/// The stage never moves backward.
pub proof fn lemma_classify_forward(text: Seq<u8>, stage: Stage)
    ensures
        stage.rank() <= classify(text, stage).1.rank(),
{
}

impl<'a> Token<'a> {
    /// The kind of a token.
    pub open spec fn kind(&self) -> TokenKind {
        match self {
            Token::Annotation(_) => TokenKind::Annotation,
            Token::Context(_) => TokenKind::Context,
            Token::End(_) => TokenKind::End,
            Token::Entry(_) => TokenKind::Entry,
            Token::Key(_) => TokenKind::Key,
            Token::Marker(_) => TokenKind::Marker,
            Token::Normal(_) => TokenKind::Normal,
            Token::Pair(_) => TokenKind::Pair,
            Token::Priority(_) => TokenKind::Priority,
            Token::Project(_) => TokenKind::Project,
            Token::Space(_) => TokenKind::Space,
        }
    }

    /// The bytes that a token stands for in its line.
    pub open spec fn text(&self) -> Seq<u8> {
        match self {
            Token::Annotation(_) => seq![0x7cu8],
            Token::Context(t) => t@,
            Token::End(t) => t@,
            Token::Entry(t) => t@,
            Token::Key(t) => t@,
            Token::Marker(_) => seq![0x78u8],
            Token::Normal(t) => t@,
            Token::Pair(t) => t@,
            Token::Priority(t) => t.text(),
            Token::Project(t) => t@,
            Token::Space(t) => t@,
        }
    }

    /// Two tokens are alike when they are of one kind and read the same; two
    /// pairs, when their keys and their values do.
    pub open spec fn alike(&self, other: &Token) -> bool {
        match (self, other) {
            (Token::Pair(a), Token::Pair(b)) => a.key@ == b.key@ && a.value@ == b.value@,
            _ => self.kind() == other.kind() && self.text() == other.text(),
        }
    }

    /// A pair is split at its first `:`, so that its key holds none.
    pub open spec fn split_at_first(&self) -> bool {
        match self {
            Token::Pair(p) => !has_byte(p.key@, 0x3a),
            _ => true,
        }
    }

    /// The kind of this token.
    pub fn kind_of(&self) -> (r: TokenKind)
        ensures
            r == self.kind(),
    {
        match self {
            Token::Annotation(_) => TokenKind::Annotation,
            Token::Context(_) => TokenKind::Context,
            Token::End(_) => TokenKind::End,
            Token::Entry(_) => TokenKind::Entry,
            Token::Key(_) => TokenKind::Key,
            Token::Marker(_) => TokenKind::Marker,
            Token::Normal(_) => TokenKind::Normal,
            Token::Pair(_) => TokenKind::Pair,
            Token::Priority(_) => TokenKind::Priority,
            Token::Project(_) => TokenKind::Project,
            Token::Space(_) => TokenKind::Space,
        }
    }

    /// Reads a word met at `stage` as a token, and gives the stage after it.
    pub fn new(str: &'a str, stage: Stage) -> (r: (Token<'a>, Stage))
        ensures
            r.0.kind() == classify(str.spec_bytes(), stage).0,
            r.1 == classify(str.spec_bytes(), stage).1,
            r.0.text() == str.spec_bytes(),
            r.0.split_at_first(),
    {
        if let Some(space) = Space::new(str) {
            if stage == Stage::Marker && str.as_bytes().len() > 0 {
                (Token::Space(space), Stage::End)
            } else {
                (Token::Space(space), stage)
            }
        } else if let Some(marker) = Marker::new(str, stage) {
            (Token::Marker(marker), Stage::End)
        } else if let Some(end) = End::new(str, stage) {
            (Token::End(end), Stage::Priority)
        } else if let Some(pri) = Priority::new(str, stage) {
            (Token::Priority(pri), Stage::Entry)
        } else if let Some(entry) = Entry::new(str, stage) {
            (Token::Entry(entry), Stage::Body)
        } else if let Some(proj) = Project::new(str) {
            (Token::Project(proj), Stage::Body)
        } else if let Some(ctx) = Context::new(str) {
            (Token::Context(ctx), Stage::Body)
        } else if let Some(pair) = Pair::new(str) {
            (Token::Pair(pair), Stage::Body)
        } else if let Some(note) = Annotation::new(str) {
            (Token::Annotation(note), Stage::Body)
        } else {
            (Token::Normal(Normal::new(str)), Stage::Body)
        }
    }

    /// The length of the token in bytes.
    pub fn len(&self) -> (r: usize)
        requires
            self.text().len() <= usize::MAX,
        ensures
            r == self.text().len(),
    {
        match self {
            Token::Space(t) => t.len(),
            Token::Marker(t) => t.len(),
            Token::End(t) => t.len(),
            Token::Priority(t) => t.len(),
            Token::Entry(t) => t.len(),
            Token::Project(t) => t.len(),
            Token::Context(t) => t.len(),
            Token::Pair(t) => t.len(),
            Token::Key(t) => t.len(),
            Token::Annotation(t) => t.len(),
            Token::Normal(t) => t.len(),
        }
    }

    /// Whether two tokens are alike.
    pub fn same(&self, other: &Token) -> (r: bool)
        ensures
            r == self.alike(other),
    {
        match (self, other) {
            (Token::Annotation(_), Token::Annotation(_)) => true,
            (Token::Context(a), Token::Context(b)) => bytes_eq(
                a.as_str().as_bytes(),
                b.as_str().as_bytes(),
            ),
            (Token::End(a), Token::End(b)) => bytes_eq(a.as_str().as_bytes(), b.as_str().as_bytes()),
            (Token::Entry(a), Token::Entry(b)) => bytes_eq(
                a.as_str().as_bytes(),
                b.as_str().as_bytes(),
            ),
            (Token::Key(a), Token::Key(b)) => a.same(b),
            (Token::Marker(_), Token::Marker(_)) => true,
            (Token::Normal(a), Token::Normal(b)) => bytes_eq(
                a.as_str().as_bytes(),
                b.as_str().as_bytes(),
            ),
            (Token::Pair(a), Token::Pair(b)) => a.key.same(&b.key) && bytes_eq(
                a.value.as_str().as_bytes(),
                b.value.as_str().as_bytes(),
            ),
            (Token::Priority(a), Token::Priority(b)) => {
                assert(a.text()[1] == a@);
                assert(b.text()[1] == b@);
                a.as_u8() == b.as_u8()
            },
            (Token::Project(a), Token::Project(b)) => bytes_eq(
                a.as_str().as_bytes(),
                b.as_str().as_bytes(),
            ),
            (Token::Space(a), Token::Space(b)) => bytes_eq(
                a.as_str().as_bytes(),
                b.as_str().as_bytes(),
            ),
            _ => false,
        }
    }
}

} // verus!
