//! A task: one line of text, read through its tokens. `Task` looks at a line
//! without changing it; `TaskBuf` owns a line and edits it field by field.

use crate::field::{End, Entry, Key, Pair, Priority, Value};
use crate::taskiter::{
    lemma_piece_end, next_piece, piece_text, pieces, pieces_from, Piece, TaskIter,
};
use crate::text::{
    all_space, byte_is_space, cut_point, ends_in_space, find, has_byte, is_all_space, is_space,
    lemma_cut_at_ascii, lemma_cut_point_is_boundary, lemma_find_from, lemma_find_from_unique,
    lemma_run_end, push_ascii, push_str, replace_between, replace_range, run_end, run_start,
    scan_back, scan_run, splice,
};
use crate::token::{Token, TokenKind};
use core::ops::Range;
use vstd::prelude::*;
use vstd::string::*;
use vstd::utf8::*;

verus! {

/// What is looked for among the tokens of a line.
pub enum Query {
    /// A token of this kind.
    Kind(TokenKind),
    /// A pair with this key.
    Keyed(Seq<u8>),
    /// A token of the body: anything but whitespace and the leading fields.
    Body,
    /// A token of this kind that reads like this.
    Like(TokenKind, Seq<u8>),
    /// A pair with this key and this value.
    LikePair(Seq<u8>, Seq<u8>),
}

/// The key of the pair that a token covers: what stands before its first `:`.
pub open spec fn key_of(line: Seq<u8>, piece: Piece) -> Seq<u8> {
    let text = piece_text(line, piece);
    text.subrange(0, find(text, 0x3a))
}

/// The value of the pair that a token covers: what stands after its first
/// `:`.
pub open spec fn value_of(line: Seq<u8>, piece: Piece) -> Seq<u8> {
    let text = piece_text(line, piece);
    text.subrange(find(text, 0x3a) + 1, text.len() as int)
}

/// Whether a token belongs to the body of its line.
pub open spec fn is_body_kind(kind: TokenKind) -> bool {
    !(kind == TokenKind::Marker || kind == TokenKind::End || kind == TokenKind::Priority || kind
        == TokenKind::Entry || kind == TokenKind::Space)
}

/// Whether a token of the line is what the query looks for.
pub open spec fn answers(line: Seq<u8>, piece: Piece, query: Query) -> bool {
    match query {
        Query::Kind(kind) => piece.kind == kind,
        Query::Keyed(key) => piece.kind == TokenKind::Pair && key_of(line, piece) == key,
        Query::Body => is_body_kind(piece.kind),
        Query::Like(kind, text) => piece.kind == kind && piece_text(line, piece) == text,
        Query::LikePair(key, value) => piece.kind == TokenKind::Pair && key_of(line, piece) == key
            && value_of(line, piece) == value,
    }
}

/// The first token that answers the query among those at positions `from`
/// up to `limit` in the line's tokens.
pub open spec fn first_from(line: Seq<u8>, query: Query, from: int, limit: int) -> Option<Piece>
    decreases pieces(line).len() - from,
{
    if from < 0 || from >= pieces(line).len() || from >= limit {
        None
    } else if answers(line, pieces(line)[from], query) {
        Some(pieces(line)[from])
    } else {
        first_from(line, query, from + 1, limit)
    }
}

/// The first token that answers the query among the first `limit` tokens.
pub open spec fn first(line: Seq<u8>, query: Query, limit: int) -> Option<Piece> {
    first_from(line, query, 0, limit)
}

/// The first token anywhere in the line that answers the query.
pub open spec fn first_any(line: Seq<u8>, query: Query) -> Option<Piece> {
    first_from(line, query, 0, pieces(line).len() as int)
}

/// The completion marker of a line: its very first token, if that is `x`.
pub open spec fn marker_of(line: Seq<u8>) -> Option<Piece> {
    first(line, Query::Kind(TokenKind::Marker), 1)
}

/// The completion date of a line, looked for among its first three tokens.
pub open spec fn end_of(line: Seq<u8>) -> Option<Piece> {
    first(line, Query::Kind(TokenKind::End), 3)
}

/// The priority of a line, looked for among its first five tokens.
pub open spec fn priority_of(line: Seq<u8>) -> Option<Piece> {
    first(line, Query::Kind(TokenKind::Priority), 5)
}

/// The creation date of a line, looked for among its first seven tokens.
pub open spec fn entry_of(line: Seq<u8>) -> Option<Piece> {
    first(line, Query::Kind(TokenKind::Entry), 7)
}

/// The first pair of a line that has the given key.
pub open spec fn pair_of(line: Seq<u8>, key: Seq<u8>) -> Option<Piece> {
    first_any(line, Query::Keyed(key))
}

/// Where the body of a line starts: at its first token that is neither
/// whitespace nor a leading field, or at the end of the line.
pub open spec fn body_start(line: Seq<u8>) -> int {
    match first_any(line, Query::Body) {
        Some(piece) => piece.start,
        None => line.len() as int,
    }
}

/// Whether a line is marked as completed.
pub open spec fn completed(line: Seq<u8>) -> bool {
    marker_of(line) is Some
}

/// What to look for so as to find a token like the given one.
pub open spec fn query_for(token: &Token) -> Query {
    match token {
        Token::Pair(pair) => Query::LikePair(pair.key@, pair.value@),
        _ => Query::Like(token.kind(), token.text()),
    }
}

/// Whether the line holds a token like the given one.
pub open spec fn holds(line: Seq<u8>, token: &Token) -> bool {
    first_any(line, query_for(token)) is Some
}

/// In a pair that is split at its first `:`, the key and the value are the
/// parts of the text round that `:`.
pub proof fn lemma_pair_parts(key: Seq<u8>, value: Seq<u8>)
    requires
        !has_byte(key, 0x3a),
    ensures
        ({
            let text = key + seq![0x3au8] + value;
            &&& find(text, 0x3a) == key.len()
            &&& text.subrange(0, key.len() as int) == key
            &&& text.subrange(key.len() as int + 1, text.len() as int) == value
        }),
{
    let text = key + seq![0x3au8] + value;
    lemma_find_from(key, 0x3a, 0);
    assert forall|i: int| 0 <= i < key.len() implies #[trigger] text[i] != 0x3au8 by {
        assert(text[i] == key[i]);
    }
    assert(text[key.len() as int] == 0x3au8);
    lemma_find_from_unique(text, 0x3a, 0, key.len() as int);
    assert(text.subrange(0, key.len() as int) =~= key);
    assert(text.subrange(key.len() as int + 1, text.len() as int) =~= value);
}

/// The exec side of a query.
enum Probe<'q, 'k> {
    Kind(TokenKind),
    Keyed(&'q Key<'k>),
    Body,
    Like(&'q Token<'k>),
}

impl<'q, 'k> Probe<'q, 'k> {
    spec fn query(&self) -> Query {
        match self {
            Probe::Kind(kind) => Query::Kind(*kind),
            Probe::Keyed(key) => Query::Keyed(key@),
            Probe::Body => Query::Body,
            Probe::Like(token) => query_for(token),
        }
    }

    fn accepts(&self, token: &Token, Ghost(line): Ghost<Seq<u8>>, Ghost(piece): Ghost<Piece>) -> (r:
        bool)
        requires
            token.kind() == piece.kind,
            token.text() == piece_text(line, piece),
            token.split_at_first(),
        ensures
            r == answers(line, piece, self.query()),
    {
        proof {
            if let Token::Pair(pair) = token {
                lemma_pair_parts(pair.key@, pair.value@);
            }
        }
        match self {
            Probe::Kind(kind) => token.kind_of() == *kind,
            Probe::Keyed(key) => match token {
                Token::Pair(pair) => pair.key.same(key),
                _ => false,
            },
            Probe::Body => match token {
                Token::Marker(_) | Token::End(_) | Token::Priority(_) | Token::Entry(_)
                | Token::Space(_) => false,
                _ => true,
            },
            Probe::Like(other) => {
                proof {
                    if let Token::Pair(pair) = other {
                        if let Token::Pair(mine) = token {
                        } else {
                            assert(!token.alike(other));
                        }
                    }
                }
                token.same(other)
            },
        }
    }
}

/// A task: a view of one line of text.
#[derive(Clone, Copy, Debug, PartialEq, Eq, PartialOrd, Ord, Hash)]
pub struct Task<'a>(&'a str);

impl<'a> View for Task<'a> {
    type V = Seq<u8>;

    closed spec fn view(&self) -> Seq<u8> {
        self.0.spec_bytes()
    }
}

impl<'a> Task<'a> {
    /// The task on the line `str`.
    pub fn new(str: &'a str) -> (r: Self)
        ensures
            r@ == str.spec_bytes(),
    {
        Task(str)
    }

    /// A scan over the tokens of the task.
    pub fn iter(&self) -> (r: TaskIter<'a>)
        ensures
            r.line() == self@,
            r.offset() == 0,
            r.remaining() == pieces(self@),
    {
        TaskIter::new(self.0)
    }

    /// A scan over the tokens of the task.
    pub fn into_iter(self) -> (r: TaskIter<'a>)
        ensures
            r.line() == self@,
            r.offset() == 0,
            r.remaining() == pieces(self@),
    {
        TaskIter::new(self.0)
    }

    /// The line of the task.
    pub fn as_str(&self) -> (r: &'a str)
        ensures
            r.spec_bytes() == self@,
    {
        self.0
    }

    /// The line of the task.
    pub fn into_str(self) -> (r: &'a str)
        ensures
            r.spec_bytes() == self@,
    {
        self.0
    }

    /// The tokens of the task, each with the bytes of the line that it
    /// covers.
    pub fn tokens(&self) -> (r: Vec<(Token<'a>, Range<usize>)>)
        ensures
            r@.len() == pieces(self@).len(),
            forall|i: int|
                0 <= i < r@.len() ==> {
                    let (token, range) = #[trigger] r@[i];
                    let piece = pieces(self@)[i];
                    &&& token.kind() == piece.kind
                    &&& token.text() == piece_text(self@, piece)
                    &&& range.start == piece.start
                    &&& range.end == piece.end
                },
    {
        let mut it = self.iter();
        let mut found: Vec<(Token<'a>, Range<usize>)> = Vec::new();
        proof {
            assert(pieces(self@).skip(0) =~= pieces(self@));
        }
        loop
            invariant
                it.line() == self@,
                0 <= it.offset() <= self@.len(),
                found@.len() <= pieces(self@).len(),
                it.remaining() == pieces(self@).skip(found@.len() as int),
                forall|i: int|
                    0 <= i < found@.len() ==> {
                        let (token, range) = #[trigger] found@[i];
                        let piece = pieces(self@)[i];
                        &&& token.kind() == piece.kind
                        &&& token.text() == piece_text(self@, piece)
                        &&& range.start == piece.start
                        &&& range.end == piece.end
                    },
            decreases self@.len() - it.offset(),
        {
            let ghost before = it.remaining();
            let ghost piece = next_piece(self@, it.offset(), it.stage()).0;
            match it.next() {
                None => {
                    assert(before.len() == 0);
                    return found;
                },
                Some(item) => {
                    proof {
                        crate::taskiter::lemma_scan_step(
                            pieces(self@),
                            found@.len() as int,
                            before,
                            piece,
                            it.remaining(),
                        );
                    }
                    found.push(item);
                },
            }
        }
    }

    /// The first token, among the first `limit`, that the probe accepts.
    fn scan(&self, probe: &Probe, limit: usize) -> (r: Option<(Token<'a>, Range<usize>)>)
        ensures
            match first(self@, probe.query(), limit as int) {
                Some(piece) => r is Some && ({
                    let (token, range) = r.unwrap();
                    &&& token.kind() == piece.kind
                    &&& token.text() == piece_text(self@, piece)
                    &&& token.split_at_first()
                    &&& answers(self@, piece, probe.query())
                    &&& range.start == piece.start
                    &&& range.end == piece.end
                    &&& piece.start < piece.end <= self@.len()
                    &&& cut_point(self@, piece.start)
                    &&& cut_point(self@, piece.end)
                }),
                None => r is None,
            },
    {
        let mut it = self.iter();
        let mut seen: usize = 0;
        while seen < limit
            invariant
                it.line() == self@,
                0 <= it.offset() <= self@.len(),
                seen <= pieces(self@).len(),
                it.remaining() == pieces(self@).skip(seen as int),
                first(self@, probe.query(), limit as int) == first_from(
                    self@,
                    probe.query(),
                    seen as int,
                    limit as int,
                ),
            decreases self@.len() - it.offset(),
        {
            let ghost before = it.remaining();
            match it.next() {
                None => {
                    assert(before.len() == 0);
                    return None;
                },
                Some((token, range)) => {
                    let ghost all = pieces(self@);
                    let ghost piece = all[seen as int];
                    proof {
                        assert(before.len() == 1 + it.remaining().len());
                        assert(before.len() == all.len() - seen);
                        assert(before[0] == all.skip(seen as int)[0]);
                        assert forall|i: int| 0 <= i < it.remaining().len() implies it.remaining()[i]
                            == all.skip(seen + 1)[i] by {
                            assert(it.remaining()[i] == before[i + 1]);
                            assert(before[i + 1] == all.skip(seen as int)[i + 1]);
                        }
                        assert(it.remaining() =~= all.skip(seen + 1));
                    }
                    if probe.accepts(&token, Ghost(self@), Ghost(piece)) {
                        return Some((token, range));
                    }
                    seen += 1;
                },
            }
        }
        None
    }

    /// Whether the task is marked as completed.
    pub fn is_completed(&self) -> (r: bool)
        ensures
            r == completed(self@),
    {
        self.find_marker().is_some()
    }

    /// The completion date of the task.
    pub fn get_end(&self) -> (r: Option<End<'a>>)
        ensures
            match end_of(self@) {
                Some(piece) => r is Some && r.unwrap()@ == piece_text(self@, piece),
                None => r is None,
            },
    {
        match self.find_end() {
            Some((end, _)) => Some(end),
            None => None,
        }
    }

    /// The priority of the task.
    pub fn get_priority(&self) -> (r: Option<Priority>)
        ensures
            match priority_of(self@) {
                Some(piece) => r is Some && r.unwrap().text() == piece_text(self@, piece),
                None => r is None,
            },
    {
        match self.find_priority() {
            Some((pri, _)) => Some(pri),
            None => None,
        }
    }

    /// The creation date of the task.
    pub fn get_entry(&self) -> (r: Option<Entry<'a>>)
        ensures
            match entry_of(self@) {
                Some(piece) => r is Some && r.unwrap()@ == piece_text(self@, piece),
                None => r is None,
            },
    {
        match self.find_entry() {
            Some((entry, _)) => Some(entry),
            None => None,
        }
    }

    /// Whether the task holds a token like the given one.
    pub fn has_token(&self, token: &Token) -> (r: bool)
        ensures
            r == holds(self@, token),
    {
        self.find_token(token).is_some()
    }

    /// The value of the first pair of the task that has the given key.
    pub fn get_value(&self, key: &Key) -> (r: Option<Value<'a>>)
        ensures
            match pair_of(self@, key@) {
                Some(piece) => r is Some && r.unwrap()@ == value_of(self@, piece),
                None => r is None,
            },
    {
        match self.find_pair(key) {
            Some((pair, _)) => Some(pair.value),
            None => None,
        }
    }

    /// Where the completion marker of the task stands.
    pub fn find_marker(&self) -> (r: Option<Range<usize>>)
        ensures
            match marker_of(self@) {
                Some(piece) => r is Some && r.unwrap().start == piece.start && r.unwrap().end
                    == piece.end && located(self@, piece),
                None => r is None,
            },
    {
        match self.scan(&Probe::Kind(TokenKind::Marker), 1) {
            Some((_, range)) => Some(range),
            None => None,
        }
    }

    /// The completion date of the task and where it stands.
    pub fn find_end(&self) -> (r: Option<(End<'a>, Range<usize>)>)
        ensures
            match end_of(self@) {
                Some(piece) => r is Some && r.unwrap().0@ == piece_text(self@, piece)
                    && r.unwrap().1.start == piece.start && r.unwrap().1.end == piece.end
                    && located(self@, piece),
                None => r is None,
            },
    {
        match self.scan(&Probe::Kind(TokenKind::End), 3) {
            Some((Token::End(end), range)) => Some((end, range)),
            _ => None,
        }
    }

    /// The priority of the task and where it stands.
    pub fn find_priority(&self) -> (r: Option<(Priority, Range<usize>)>)
        ensures
            match priority_of(self@) {
                Some(piece) => r is Some && r.unwrap().0.text() == piece_text(self@, piece)
                    && r.unwrap().1.start == piece.start && r.unwrap().1.end == piece.end
                    && located(self@, piece),
                None => r is None,
            },
    {
        match self.scan(&Probe::Kind(TokenKind::Priority), 5) {
            Some((Token::Priority(pri), range)) => Some((pri, range)),
            _ => None,
        }
    }

    /// The creation date of the task and where it stands.
    pub fn find_entry(&self) -> (r: Option<(Entry<'a>, Range<usize>)>)
        ensures
            match entry_of(self@) {
                Some(piece) => r is Some && r.unwrap().0@ == piece_text(self@, piece)
                    && r.unwrap().1.start == piece.start && r.unwrap().1.end == piece.end
                    && located(self@, piece),
                None => r is None,
            },
    {
        match self.scan(&Probe::Kind(TokenKind::Entry), 7) {
            Some((Token::Entry(entry), range)) => Some((entry, range)),
            _ => None,
        }
    }

    /// The first pair of the task with the given key, and where it stands.
    pub fn find_pair(&self, key: &Key) -> (r: Option<(Pair<'a>, Range<usize>)>)
        ensures
            match pair_of(self@, key@) {
                Some(piece) => r is Some && r.unwrap().0.key@ == key@ && r.unwrap().0.value@
                    == value_of(self@, piece) && r.unwrap().1.start == piece.start
                    && r.unwrap().1.end == piece.end && located(self@, piece) && piece_text(
                    self@,
                    piece,
                ) == key@ + seq![0x3au8] + value_of(self@, piece),
                None => r is None,
            },
    {
        let n: usize = self.0.as_bytes().len();
        proof {
            lemma_count(self@);
        }
        match self.scan(&Probe::Keyed(key), usize::MAX) {
            Some((Token::Pair(pair), range)) => {
                proof {
                    lemma_pair_parts(pair.key@, pair.value@);
                }
                Some((pair, range))
            },
            _ => None,
        }
    }

    /// The first token of the task like the given one, and where it stands.
    pub fn find_token(&self, token: &Token) -> (r: Option<Range<usize>>)
        ensures
            match first_any(self@, query_for(token)) {
                Some(piece) => r is Some && r.unwrap().start == piece.start && r.unwrap().end
                    == piece.end && located(self@, piece),
                None => r is None,
            },
    {
        let n: usize = self.0.as_bytes().len();
        proof {
            lemma_count(self@);
        }
        match self.scan(&Probe::Like(token), usize::MAX) {
            Some((_, range)) => Some(range),
            None => None,
        }
    }

    /// Where the body of the task starts.
    pub fn find_body_start(&self) -> (r: usize)
        ensures
            r == body_start(self@),
            r <= self@.len(),
            cut_point(self@, r as int),
    {
        let n: usize = self.0.as_bytes().len();
        proof {
            lemma_count(self@);
        }
        match self.scan(&Probe::Body, usize::MAX) {
            Some((_, range)) => range.start,
            None => n,
        }
    }
}

/// The line after `text` has been added at its end. A single space is put
/// between the two, unless the line is empty or ends in whitespace, or the
/// text is empty or starts with whitespace. Whitespace alone is not added to
/// a line that already ends in whitespace.
pub open spec fn appended(line: Seq<u8>, text: Seq<u8>) -> Seq<u8> {
    if ends_in_space(line) {
        if all_space(text) {
            line
        } else {
            line + text
        }
    } else if line.len() > 0 && text.len() > 0 && !is_space(text[0]) {
        line + seq![0x20u8] + text
    } else {
        line + text
    }
}

/// The line without the bytes from `from` up to `to`, and without one run of
/// whitespace next to them: the run that follows, or else the run that comes
/// before.
pub open spec fn without(line: Seq<u8>, from: int, to: int) -> Seq<u8> {
    let after = run_end(line, to, true);
    let before = run_start(line, from);
    if after > to {
        splice(line, from, after, Seq::empty())
    } else if before < from {
        splice(line, before, to, Seq::empty())
    } else {
        splice(line, from, to, Seq::empty())
    }
}

/// The line without its body.
pub open spec fn cleared(line: Seq<u8>) -> Seq<u8> {
    line.subrange(0, body_start(line))
}

/// The line without the token that the query finds first, if it finds one.
pub open spec fn removed(line: Seq<u8>, query: Query) -> Seq<u8> {
    match first_any(line, query) {
        Some(piece) => without(line, piece.start, piece.end),
        None => line,
    }
}

/// The line with `key:value` in it: in place of the value of the first pair
/// with that key, or else as a new pair at the end.
pub open spec fn value_set(line: Seq<u8>, key: Seq<u8>, value: Seq<u8>) -> Seq<u8> {
    match pair_of(line, key) {
        Some(piece) => splice(line, piece.start + key.len() + 1, piece.end, value),
        None => (if line.len() > 0 && !is_space(line.last()) {
            line + seq![0x20u8]
        } else {
            line
        }) + key + seq![0x3au8] + value,
    }
}

/// The line without its completion marker.
pub open spec fn pending(line: Seq<u8>) -> Seq<u8> {
    match marker_of(line) {
        Some(piece) => without(line, piece.start, piece.end),
        None => line,
    }
}

/// The line marked as completed.
pub open spec fn marked(line: Seq<u8>) -> Seq<u8> {
    if completed(line) {
        line
    } else if line.len() == 0 || is_space(line[0]) {
        seq![0x78u8] + line
    } else {
        seq![0x78u8, 0x20u8] + line
    }
}

/// The line with its completion date set or taken away. A new date goes
/// right after the completion marker; a line without marker takes none.
pub open spec fn end_set(line: Seq<u8>, end: Option<Seq<u8>>) -> Seq<u8> {
    match (end, end_of(line)) {
        (Some(new), Some(piece)) => splice(line, piece.start, piece.end, new),
        (Some(new), None) => match marker_of(line) {
            Some(marker) => splice(line, marker.end, marker.end, seq![0x20u8] + new),
            None => line,
        },
        (None, Some(piece)) => without(line, piece.start, piece.end),
        (None, None) => line,
    }
}

/// The line with a field put in front of its body.
pub open spec fn led_by(line: Seq<u8>, field: Seq<u8>) -> Seq<u8> {
    let at = body_start(line);
    if line.len() != at {
        splice(line, at, at, field + seq![0x20u8])
    } else {
        line + field
    }
}

/// The line with its priority set or taken away. A new priority goes before
/// the creation date, or else before the body.
pub open spec fn priority_set(line: Seq<u8>, pri: Option<Seq<u8>>) -> Seq<u8> {
    match (pri, priority_of(line)) {
        (Some(new), Some(piece)) => splice(line, piece.start, piece.end, new),
        (Some(new), None) => match entry_of(line) {
            Some(entry) => splice(line, entry.start, entry.start, new + seq![0x20u8]),
            None => led_by(line, new),
        },
        (None, Some(piece)) => without(line, piece.start, piece.end),
        (None, None) => line,
    }
}

/// The line with its creation date set or taken away. A new date goes before
/// the body.
pub open spec fn entry_set(line: Seq<u8>, entry: Option<Seq<u8>>) -> Seq<u8> {
    match (entry, entry_of(line)) {
        (Some(new), Some(piece)) => splice(line, piece.start, piece.end, new),
        (Some(new), None) => led_by(line, new),
        (None, Some(piece)) => without(line, piece.start, piece.end),
        (None, None) => line,
    }
}

/// The text of an optional field.
pub open spec fn text_of_end(end: Option<End>) -> Option<Seq<u8>> {
    match end {
        Some(end) => Some(end@),
        None => None,
    }
}

/// The text of an optional creation date.
pub open spec fn text_of_entry(entry: Option<Entry>) -> Option<Seq<u8>> {
    match entry {
        Some(entry) => Some(entry@),
        None => None,
    }
}

/// The text of an optional priority.
pub open spec fn text_of_priority(pri: Option<Priority>) -> Option<Seq<u8>> {
    match pri {
        Some(pri) => Some(pri.text()),
        None => None,
    }
}

fn range_of(found: Option<Range<usize>>) -> (r: Option<(usize, usize)>)
    ensures
        match found {
            Some(range) => r == Some((range.start, range.end)),
            None => r is None,
        },
{
    match found {
        Some(range) => Some((range.start, range.end)),
        None => None,
    }
}

/// A task that owns its line and can be edited.
#[derive(Debug)]
pub struct TaskBuf(String);

impl View for TaskBuf {
    type V = Seq<u8>;

    closed spec fn view(&self) -> Seq<u8> {
        encode_utf8(self.0@)
    }
}

impl Clone for TaskBuf {
    fn clone(&self) -> (r: Self)
        ensures
            r@ == self@,
    {
        TaskBuf(self.0.clone())
    }
}

impl TaskBuf {
    /// A buffer that holds the line `str`.
    pub fn new(str: String) -> (r: Self)
        ensures
            r@ == encode_utf8(str@),
    {
        TaskBuf(str)
    }

    /// The task as it stands.
    pub fn as_task(&self) -> (r: Task<'_>)
        ensures
            r@ == self@,
    {
        Task::new(self.0.as_str())
    }

    /// The line of the task.
    pub fn into_string(self) -> (r: String)
        ensures
            encode_utf8(r@) == self@,
    {
        self.0
    }

    /// The line of the task.
    pub fn as_str(&self) -> (r: &str)
        ensures
            r.spec_bytes() == self@,
    {
        self.0.as_str()
    }

    /// Makes the buffer hold the line of `task`.
    pub fn set_to(&mut self, task: &Task)
        ensures
            final(self)@ == task@,
    {
        self.0 = task.as_str().to_owned();
    }

    /// Adds `text` at the end of the line.
    pub fn append_text(&mut self, text: &str)
        ensures
            final(self)@ == appended(old(self)@, text.spec_bytes()),
    {
        let line = self.0.as_str().as_bytes();
        let t = text.as_bytes();
        let n: usize = line.len();
        if n > 0 && byte_is_space(line[n - 1]) {
            if is_all_space(t) {
                return ;
            }
        } else if n > 0 && t.len() > 0 && !byte_is_space(t[0]) {
            push_ascii(&mut self.0, 0x20);
            assert(self@ =~= old(self)@ + seq![0x20u8]);
        }
        push_str(&mut self.0, text);
    }

    /// Removes the body of the line.
    pub fn clear_body(&mut self)
        ensures
            final(self)@ == cleared(old(self)@),
    {
        let at: usize = self.as_task().find_body_start();
        let n: usize = self.0.as_str().as_bytes().len();
        let line = replace_range(self.0.as_str(), at, n, "");
        proof {
            reveal_strlit("");
            assert("".spec_bytes() =~= Seq::<u8>::empty());
            assert(splice(self@, at as int, n as int, Seq::<u8>::empty()) =~= cleared(self@));
        }
        self.0 = line;
    }

    /// Removes the first token like the given one, with the whitespace next
    /// to it.
    pub fn remove_token(&mut self, token: &Token)
        ensures
            final(self)@ == removed(old(self)@, query_for(token)),
    {
        if let Some((from, to)) = range_of(self.as_task().find_token(token)) {
            self.remove_piece(from, to);
        }
    }

    /// Removes the first pair with the given key, with the whitespace next
    /// to it.
    pub fn remove_pair(&mut self, key: &Key)
        ensures
            final(self)@ == removed(old(self)@, Query::Keyed(key@)),
    {
        let found = match self.as_task().find_pair(key) {
            Some((_, range)) => Some((range.start, range.end)),
            None => None,
        };
        if let Some((from, to)) = found {
            self.remove_piece(from, to);
        }
    }

    /// Gives the key a value: that of the first pair with this key is
    /// replaced; without such a pair, `key:value` is added at the end.
    pub fn set_value(&mut self, key: &Key, value: &Value)
        ensures
            final(self)@ == value_set(old(self)@, key@, value@),
    {
        let found = match self.as_task().find_pair(key) {
            Some((_, range)) => Some((range.start, range.end)),
            None => None,
        };
        match found {
            Some((start, end)) => {
                let ghost piece = pair_of(self@, key@).unwrap();
                let from: usize = start + key.len() + 1;
                proof {
                    let text = piece_text(self@, piece);
                    assert(text[key@.len() as int] == 0x3au8);
                    assert(self@[start + key@.len()] == text[key@.len() as int]);
                    lemma_cut_at_ascii(self@, start + key@.len());
                }
                self.0 = replace_range(self.0.as_str(), from, end, value.as_str());
            },
            None => {
                let line = self.0.as_str().as_bytes();
                let n: usize = line.len();
                if n > 0 && !byte_is_space(line[n - 1]) {
                    push_ascii(&mut self.0, 0x20);
                    assert(self@ =~= old(self)@ + seq![0x20u8]);
                }
                push_str(&mut self.0, key.as_str());
                push_ascii(&mut self.0, 0x3a);
                push_str(&mut self.0, value.as_str());
                assert(self@ =~= value_set(old(self)@, key@, value@));
            },
        }
    }

    /// Takes the completion marker away.
    pub fn set_pending(&mut self)
        ensures
            final(self)@ == pending(old(self)@),
    {
        if let Some((from, to)) = range_of(self.as_task().find_marker()) {
            self.remove_piece(from, to);
        }
    }

    /// Marks the task as completed.
    pub fn set_completed(&mut self)
        ensures
            final(self)@ == marked(old(self)@),
    {
        if self.as_task().is_completed() {
            return ;
        }
        let line = self.0.as_str().as_bytes();
        let mut mark = String::new();
        assert(encode_utf8(mark@) =~= Seq::<u8>::empty());
        push_ascii(&mut mark, 0x78);
        if !(line.len() == 0 || byte_is_space(line[0])) {
            push_ascii(&mut mark, 0x20);
        }
        let ghost before = self@;
        let text = replace_range(self.0.as_str(), 0, 0, mark.as_str());
        proof {
            assert(splice(before, 0, 0, encode_utf8(mark@)) =~= encode_utf8(mark@) + before);
            assert(encode_utf8(text@) =~= marked(before));
        }
        self.0 = text;
    }

    /// Sets the completion date, or takes it away.
    pub fn set_end(&mut self, end: Option<End>)
        ensures
            final(self)@ == end_set(old(self)@, text_of_end(end)),
    {
        let existing = match self.as_task().find_end() {
            Some((_, range)) => Some((range.start, range.end)),
            None => None,
        };
        match (end, existing) {
            (Some(new_end), Some((from, to))) => {
                self.0 = replace_range(self.0.as_str(), from, to, new_end.as_str());
            },
            (Some(new_end), None) => {
                if let Some((_, at)) = range_of(self.as_task().find_marker()) {
                    let mut ins = String::new();
                    assert(encode_utf8(ins@) =~= Seq::<u8>::empty());
                    push_ascii(&mut ins, 0x20);
                    push_str(&mut ins, new_end.as_str());
                    assert(encode_utf8(ins@) =~= seq![0x20u8] + new_end@);
                    self.0 = replace_range(self.0.as_str(), at, at, ins.as_str());
                }
            },
            (None, Some((from, to))) => {
                self.remove_piece(from, to);
            },
            (None, None) => {},
        }
    }

    /// Puts `field` and a space in front of the body, or `field` alone at the
    /// end of a line without body.
    fn lead_with(&mut self, field: &str)
        ensures
            final(self)@ == led_by(old(self)@, field.spec_bytes()),
    {
        let at: usize = self.as_task().find_body_start();
        let n: usize = self.0.as_str().as_bytes().len();
        if n != at {
            let mut ins = String::new();
            assert(encode_utf8(ins@) =~= Seq::<u8>::empty());
            push_str(&mut ins, field);
            push_ascii(&mut ins, 0x20);
            assert(encode_utf8(ins@) =~= field.spec_bytes() + seq![0x20u8]);
            self.0 = replace_range(self.0.as_str(), at, at, ins.as_str());
        } else {
            push_str(&mut self.0, field);
        }
    }

    /// Sets the priority, or takes it away.
    pub fn set_priority(&mut self, pri: Option<Priority>)
        ensures
            final(self)@ == priority_set(old(self)@, text_of_priority(pri)),
    {
        let existing = match self.as_task().find_priority() {
            Some((_, range)) => Some((range.start, range.end)),
            None => None,
        };
        match (pri, existing) {
            (Some(new_pri), existing) => {
                let mut text = String::new();
                assert(encode_utf8(text@) =~= Seq::<u8>::empty());
                push_ascii(&mut text, 0x28);
                push_ascii(&mut text, new_pri.as_u8());
                push_ascii(&mut text, 0x29);
                assert(encode_utf8(text@) =~= new_pri.text());
                match existing {
                    Some((from, to)) => {
                        self.0 = replace_range(self.0.as_str(), from, to, text.as_str());
                    },
                    None => {
                        let entry = match self.as_task().find_entry() {
                            Some((_, range)) => Some(range.start),
                            None => None,
                        };
                        match entry {
                            Some(at) => {
                                push_ascii(&mut text, 0x20);
                                assert(encode_utf8(text@) =~= new_pri.text() + seq![0x20u8]);
                                self.0 = replace_range(self.0.as_str(), at, at, text.as_str());
                            },
                            None => {
                                self.lead_with(text.as_str());
                            },
                        }
                    },
                }
            },
            (None, Some((from, to))) => {
                self.remove_piece(from, to);
            },
            (None, None) => {},
        }
    }

    /// Sets the creation date, or takes it away.
    pub fn set_entry(&mut self, entry: Option<Entry>)
        ensures
            final(self)@ == entry_set(old(self)@, text_of_entry(entry)),
    {
        let existing = match self.as_task().find_entry() {
            Some((_, range)) => Some((range.start, range.end)),
            None => None,
        };
        match (entry, existing) {
            (Some(new_entry), Some((from, to))) => {
                self.0 = replace_range(self.0.as_str(), from, to, new_entry.as_str());
            },
            (Some(new_entry), None) => {
                self.lead_with(new_entry.as_str());
            },
            (None, Some((from, to))) => {
                self.remove_piece(from, to);
            },
            (None, None) => {},
        }
    }

    /// Removes the bytes from `from` up to `to` and one run of whitespace
    /// next to them: the run that follows or, if there is none, the run that
    /// comes before. The two ends must not fall inside a character.
    pub fn remove_range_with_whitespace(&mut self, from: usize, to: usize)
        requires
            from <= to <= old(self)@.len(),
            is_char_boundary(old(self)@, from as int),
            is_char_boundary(old(self)@, to as int),
        ensures
            final(self)@ == without(old(self)@, from as int, to as int),
    {
        broadcast use encode_utf8_valid_utf8;

        let line = self.0.as_str().as_bytes();
        let after: usize = scan_run(line, to, true);
        let before: usize = scan_back(line, from);
        let mut start: usize = from;
        let mut end: usize = to;
        proof {
            lemma_run_end(line@, to as int, true);
        }
        if after > to {
            end = after;
            proof {
                lemma_cut_at_ascii(line@, after - 1);
                lemma_cut_point_is_boundary(line@, after as int);
            }
        } else if before < from {
            start = before;
            proof {
                lemma_cut_at_ascii(line@, before as int);
                lemma_cut_point_is_boundary(line@, before as int);
            }
        }
        let text = replace_between(self.0.as_str(), start, end, "");
        proof {
            reveal_strlit("");
            assert("".spec_bytes() =~= Seq::<u8>::empty());
        }
        self.0 = text;
    }

    /// Removes a token and one run of whitespace next to it.
    fn remove_piece(&mut self, from: usize, to: usize)
        requires
            from <= to <= old(self)@.len(),
            cut_point(old(self)@, from as int),
            cut_point(old(self)@, to as int),
        ensures
            final(self)@ == without(old(self)@, from as int, to as int),
    {
        broadcast use encode_utf8_valid_utf8;

        proof {
            lemma_cut_point_is_boundary(self@, from as int);
            lemma_cut_point_is_boundary(self@, to as int);
        }
        self.remove_range_with_whitespace(from, to);
    }
}

/// A token lies inside its line, is not empty, and both its ends are places
/// where the line can be cut.
pub open spec fn located(line: Seq<u8>, piece: Piece) -> bool {
    &&& 0 <= piece.start < piece.end <= line.len()
    &&& cut_point(line, piece.start)
    &&& cut_point(line, piece.end)
}

/// A line has no more tokens than bytes.
pub proof fn lemma_count_from(line: Seq<u8>, pos: int, stage: crate::field::Stage)
    requires
        0 <= pos <= line.len(),
    ensures
        pieces_from(line, pos, stage).len() <= line.len() - pos,
    decreases line.len() - pos,
{
    if pos < line.len() {
        lemma_piece_end(line, pos);
        let (piece, next) = next_piece(line, pos, stage);
        lemma_count_from(line, piece.end, next);
    }
}

/// A scan without a limit sees every token: with a limit of `usize::MAX` no
/// token is left out.
pub proof fn lemma_count(line: Seq<u8>)
    requires
        line.len() <= usize::MAX,
    ensures
        forall|query: Query| #[trigger]
            first(line, query, usize::MAX as int) == first_any(line, query),
{
    lemma_count_from(line, 0, crate::field::Stage::Marker);
    assert forall|query: Query| #[trigger]
        first(line, query, usize::MAX as int) == first_any(line, query) by {
        lemma_limit(line, query, 0, usize::MAX as int, pieces(line).len() as int);
    }
}

proof fn lemma_limit(line: Seq<u8>, query: Query, from: int, a: int, b: int)
    requires
        a >= pieces(line).len(),
        b >= pieces(line).len(),
        0 <= from,
    ensures
        first_from(line, query, from, a) == first_from(line, query, from, b),
    decreases pieces(line).len() - from,
{
    if from < pieces(line).len() {
        lemma_limit(line, query, from + 1, a, b);
    }
}

} // verus!
