//! The tokenizer: a scan of one line, left to right, into tokens that cover
//! the line without gap or overlap.

use crate::field::Stage;
use crate::text::{
    byte_is_space, cut_point, is_space, lemma_cut_at_ascii, lemma_run_end, run_end, scan_run,
    substr,
};
use crate::token::{classify, Token, TokenKind};
use core::ops::Range;
use vstd::prelude::*;
use vstd::string::*;

verus! {

/// One token as the scan sees it: its kind and the bytes of the line that it
/// covers, from `start` up to `end`.
pub struct Piece {
    pub kind: TokenKind,
    pub start: int,
    pub end: int,
}

/// Where the token that starts at `pos` ends: at the end of the run of
/// whitespace, or of the word, that begins there.
pub open spec fn piece_end(line: Seq<u8>, pos: int) -> int {
    run_end(line, pos, is_space(line[pos]))
}

/// The token that starts at `pos` when the scan is at `stage`, and the stage
/// after it.
pub open spec fn next_piece(line: Seq<u8>, pos: int, stage: Stage) -> (Piece, Stage) {
    let end = piece_end(line, pos);
    let (kind, next) = classify(line.subrange(pos, end), stage);
    (Piece { kind, start: pos, end }, next)
}

/// The tokens of the rest of a line, from `pos` on, with the scan at `stage`.
pub open spec fn pieces_from(line: Seq<u8>, pos: int, stage: Stage) -> Seq<Piece>
    decreases line.len() - pos,
{
    let end = piece_end(line, pos);
    if pos < 0 || pos >= line.len() || end <= pos || end > line.len() {
        Seq::empty()
    } else {
        seq![next_piece(line, pos, stage).0] + pieces_from(
            line,
            end,
            next_piece(line, pos, stage).1,
        )
    }
}

/// The tokens of a line.
pub open spec fn pieces(line: Seq<u8>) -> Seq<Piece> {
    pieces_from(line, 0, Stage::Marker)
}

/// The bytes of the line that a token covers.
pub open spec fn piece_text(line: Seq<u8>, piece: Piece) -> Seq<u8> {
    line.subrange(piece.start, piece.end)
}

/// The texts of the tokens, one after the other.
pub open spec fn joined(line: Seq<u8>, ps: Seq<Piece>) -> Seq<u8>
    decreases ps.len(),
{
    if ps.len() == 0 {
        Seq::empty()
    } else {
        piece_text(line, ps[0]) + joined(line, ps.drop_first())
    }
}

/// A token is never empty, and ends inside the line.
pub proof fn lemma_piece_end(line: Seq<u8>, pos: int)
    requires
        0 <= pos < line.len(),
    ensures
        pos < piece_end(line, pos) <= line.len(),
        cut_point(line, piece_end(line, pos)),
{
    let space = is_space(line[pos]);
    lemma_run_end(line, pos + 1, space);
    let end = piece_end(line, pos);
    assert(end == run_end(line, pos + 1, space));
    if end < line.len() {
        if is_space(line[end]) {
            lemma_cut_at_ascii(line, end);
        } else {
            assert(is_space(line[end - 1]));
            lemma_cut_at_ascii(line, end - 1);
        }
    }
}

/// The tokens from `pos` on lie one after the other, without gap or overlap,
/// and reach the end of the line.
pub proof fn lemma_pieces_cover(line: Seq<u8>, pos: int, stage: Stage)
    requires
        0 <= pos <= line.len(),
    ensures
        ({
            let ps = pieces_from(line, pos, stage);
            &&& (pos < line.len() ==> ps.len() > 0 && ps[0].start == pos)
            &&& (pos == line.len() ==> ps.len() == 0)
            &&& forall|i: int|
                0 <= i < ps.len() ==> pos <= (#[trigger] ps[i]).start < ps[i].end <= line.len()
            &&& forall|i: int, j: int|
                0 <= i && j == i + 1 && j < ps.len() ==> (#[trigger] ps[i]).end == (
                #[trigger] ps[j]).start
            &&& (ps.len() > 0 ==> ps.last().end == line.len())
        }),
    decreases line.len() - pos,
{
    if pos < line.len() {
        lemma_piece_end(line, pos);
        let (piece, next) = next_piece(line, pos, stage);
        lemma_pieces_cover(line, piece.end, next);
        let rest = pieces_from(line, piece.end, next);
        let ps = pieces_from(line, pos, stage);
        assert(ps =~= seq![piece] + rest);
        assert forall|i: int| 0 <= i < ps.len() implies pos <= (#[trigger] ps[i]).start < ps[i].end
            <= line.len() by {
            if i > 0 {
                assert(ps[i] == rest[i - 1]);
            }
        }
        assert forall|i: int, j: int| 0 <= i && j == i + 1 && j < ps.len() implies (
        #[trigger] ps[i]).end == (#[trigger] ps[j]).start by {
            assert(ps[j] == rest[j - 1]);
            if i > 0 {
                assert(ps[i] == rest[i - 1]);
            }
        }
        if rest.len() > 0 {
            assert(ps.last() == rest.last());
        }
    }
}

/// Joining the texts of the tokens from `pos` on gives back the rest of the
/// line.
pub proof fn lemma_joined_from(line: Seq<u8>, pos: int, stage: Stage)
    requires
        0 <= pos <= line.len(),
    ensures
        joined(line, pieces_from(line, pos, stage)) == line.subrange(pos, line.len() as int),
    decreases line.len() - pos,
{
    if pos < line.len() {
        lemma_piece_end(line, pos);
        let (piece, next) = next_piece(line, pos, stage);
        lemma_joined_from(line, piece.end, next);
        let ps = pieces_from(line, pos, stage);
        assert(ps.drop_first() =~= pieces_from(line, piece.end, next));
        assert(line.subrange(pos, piece.end) + line.subrange(piece.end, line.len() as int)
            =~= line.subrange(pos, line.len() as int));
    } else {
        assert(line.subrange(pos, line.len() as int) =~= Seq::<u8>::empty());
    }
}

/// Round trip: the texts of the tokens of a line, joined in the order in
/// which the scan gives them, are the line.
pub proof fn lemma_round_trip(line: Seq<u8>)
    ensures
        joined(line, pieces(line)) == line,
{
    lemma_joined_from(line, 0, Stage::Marker);
    assert(line.subrange(0, line.len() as int) =~= line);
}

/// The stage of the scan does not go back from one token to the next.
pub proof fn lemma_stage_forward(line: Seq<u8>, pos: int, stage: Stage)
    ensures
        stage.rank() <= next_piece(line, pos, stage).1.rank(),
{
}

/// One step of a scan: where the tokens yet to come are all but the first
/// `seen`, the next token is the one at position `seen`, and after it all
/// but the first `seen + 1` are yet to come.
pub proof fn lemma_scan_step(
    all: Seq<Piece>,
    seen: int,
    before: Seq<Piece>,
    piece: Piece,
    after: Seq<Piece>,
)
    requires
        0 <= seen <= all.len(),
        before == all.skip(seen),
        before == seq![piece] + after,
    ensures
        seen < all.len(),
        all[seen] == piece,
        after == all.skip(seen + 1),
{
    assert(before.len() == 1 + after.len());
    assert(before.len() == all.len() - seen);
    assert(before[0] == all.skip(seen)[0]);
    assert forall|i: int| 0 <= i < after.len() implies after[i] == all.skip(seen + 1)[i] by {
        assert(after[i] == before[i + 1]);
        assert(before[i + 1] == all.skip(seen)[i + 1]);
    }
    assert(after =~= all.skip(seen + 1));
}

/// A scan over the tokens of one line. It can be started again at any time by
/// making a new one, and ends after finitely many tokens.
pub struct TaskIter<'a> {
    line: &'a str,
    offset: usize,
    stage: Stage,
}

impl<'a> TaskIter<'a> {
    #[verifier::type_invariant]
    spec fn in_line(self) -> bool {
        &&& self.offset <= self.line.spec_bytes().len()
        &&& cut_point(self.line.spec_bytes(), self.offset as int)
    }

    /// The line that is scanned.
    pub closed spec fn line(&self) -> Seq<u8> {
        self.line.spec_bytes()
    }

    /// How many bytes of the line the scan has passed.
    pub closed spec fn offset(&self) -> int {
        self.offset as int
    }

    /// The stage that the scan has reached.
    pub closed spec fn stage(&self) -> Stage {
        self.stage
    }

    /// The tokens that the scan has yet to give.
    pub open spec fn remaining(&self) -> Seq<Piece> {
        pieces_from(self.line(), self.offset(), self.stage())
    }

    /// A scan at the start of `str`.
    pub fn new(str: &'a str) -> (r: Self)
        ensures
            r.line() == str.spec_bytes(),
            r.offset() == 0,
            r.stage() == Stage::Marker,
            r.remaining() == pieces(str.spec_bytes()),
    {
        TaskIter { line: str, offset: 0, stage: Stage::new() }
    }

    /// The next token and the bytes of the line that it covers; `None` once
    /// the line is used up.
    pub fn next(&mut self) -> (r: Option<(Token<'a>, Range<usize>)>)
        ensures
            final(self).line() == old(self).line(),
            0 <= old(self).offset() <= old(self).line().len(),
            old(self).offset() >= old(self).line().len() ==> r is None && *final(self) == *old(
                self,
            ),
            old(self).offset() < old(self).line().len() ==> r is Some && ({
                let (piece, stage) = next_piece(
                    old(self).line(),
                    old(self).offset(),
                    old(self).stage(),
                );
                let (token, range) = r.unwrap();
                &&& token.kind() == piece.kind
                &&& token.text() == piece_text(old(self).line(), piece)
                &&& token.split_at_first()
                &&& piece.start < piece.end <= old(self).line().len()
                &&& cut_point(old(self).line(), piece.start)
                &&& cut_point(old(self).line(), piece.end)
                &&& range.start == piece.start
                &&& range.end == piece.end
                &&& final(self).offset() == piece.end
                &&& final(self).stage() == stage
                &&& old(self).remaining() == seq![piece] + final(self).remaining()
            }),
    {
        proof {
            use_type_invariant(&*self);
        }
        let bytes = self.line.as_bytes();
        if self.offset >= bytes.len() {
            return None;
        }
        let start: usize = self.offset;
        let end: usize = scan_run(bytes, start, byte_is_space(bytes[start]));
        proof {
            lemma_piece_end(bytes@, start as int);
        }
        let (token, stage) = Token::new(substr(self.line, start, end), self.stage);
        self.offset = end;
        self.stage = stage;
        Some((token, start..end))
    }
}

} // verus!
