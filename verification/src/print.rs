//! Printing: what each value appends to the output, with the escape codes
//! that change the colors of the terminal where color is wanted.

use crate::color::{Bg, Colors, Fg};
use crate::field::{
    Annotation, Context, End, Entry, Key, Marker, Normal, Number, Pair, Priority, Project, Space,
    Value,
};
use crate::task::{lemma_pair_parts, Task};
use crate::taskiter::{lemma_piece_end, next_piece, piece_text, pieces, pieces_from, Piece};
use crate::text::{digits_of, find, has_byte, push_ascii, push_padded, push_str};
use crate::token::{Token, TokenKind};
use vstd::prelude::*;
use vstd::string::*;
use vstd::utf8::*;

verus! {

/// What was printed, and the colors that the terminal is in after it.
pub struct Painted {
    pub text: Seq<u8>,
    pub colors: Colors,
}

/// Nothing printed yet.
pub open spec fn blank(colors: Colors) -> Painted {
    Painted { text: Seq::empty(), colors }
}

/// The escape code that sets a foreground.
pub open spec fn fg_code(fg: Fg) -> Seq<u8> {
    match fg {
        Fg::Black => "\x1b[38;5;0m".spec_bytes(),
        Fg::Blue => "\x1b[38;5;33m".spec_bytes(),
        Fg::Cyan => "\x1b[38;5;6m".spec_bytes(),
        Fg::Green => "\x1b[38;5;2m".spec_bytes(),
        Fg::LightGray => "\x1b[38;5;246m".spec_bytes(),
        Fg::Magenta => "\x1b[38;5;092m".spec_bytes(),
        Fg::Red => "\x1b[38;5;196m".spec_bytes(),
        Fg::White => "\x1b[38;5;255m".spec_bytes(),
        Fg::Yellow => "\x1b[38;5;11m".spec_bytes(),
        Fg::Default => "\x1b[0m".spec_bytes(),
    }
}

/// The escape code that sets a background.
pub open spec fn bg_code(bg: Bg) -> Seq<u8> {
    match bg {
        Bg::Default => "\x1b[0m".spec_bytes(),
        Bg::Custom(code) => "\x1b[48;5;".spec_bytes() + digits_of(code as nat) + seq![0x6du8],
    }
}

/// After `before`: the foreground is set, if color is wanted and the
/// terminal is in another.
pub open spec fn with_fg(before: Painted, fg: Fg, color: bool) -> Painted {
    if !color || before.colors.fg == fg {
        before
    } else {
        Painted {
            text: before.text + fg_code(fg),
            colors: Colors { fg, bg: before.colors.bg },
        }
    }
}

/// After `before`: the background is set, if color is wanted and the
/// terminal is in another.
pub open spec fn with_bg(before: Painted, bg: Bg, color: bool) -> Painted {
    if !color || before.colors.bg == bg {
        before
    } else {
        Painted {
            text: before.text + bg_code(bg),
            colors: Colors { fg: before.colors.fg, bg },
        }
    }
}

/// After `before`: some text.
pub open spec fn with_text(before: Painted, text: Seq<u8>) -> Painted {
    Painted { text: before.text + text, colors: before.colors }
}

/// The color number of the background of a priority: the letters share
/// fourteen colors, two letters each, ordered by how much they catch the eye.
pub open spec fn priority_code(letter: u8) -> u8 {
    let block = (letter - 0x41) / 2;
    if block == 0 {
        1
    } else if block == 1 {
        9
    } else if block == 2 {
        3
    } else if block == 3 {
        11
    } else if block == 4 {
        5
    } else if block == 5 {
        13
    } else if block == 6 {
        6
    } else if block == 7 {
        14
    } else if block == 8 {
        2
    } else if block == 9 {
        10
    } else if block == 10 {
        4
    } else if block == 11 {
        12
    } else if block == 12 {
        0
    } else {
        8
    }
}

/// The foreground that can be read on the background of a color number.
pub open spec fn priority_fg(code: u8) -> Fg {
    if code < 8 && code != 3 && code != 6 {
        Fg::White
    } else {
        Fg::Black
    }
}

/// After `before`: a priority on its background, after which the terminal
/// is back in the background it was in.
pub open spec fn with_priority(before: Painted, letter: u8, color: bool) -> Painted {
    let code = priority_code(letter);
    with_bg(
        with_text(
            with_fg(with_bg(before, Bg::Custom(code), color), priority_fg(code), color),
            seq![0x28u8, letter, 0x29u8],
        ),
        before.colors.bg,
        color,
    )
}

/// After `before`: a key and the `:` behind it.
pub open spec fn with_key(before: Painted, key: Seq<u8>, color: bool) -> Painted {
    with_text(with_fg(with_text(with_fg(before, Fg::Green, color), key), Fg::LightGray, color), seq![
        0x3au8,
    ])
}

/// After `before`: a value.
pub open spec fn with_value(before: Painted, value: Seq<u8>, color: bool) -> Painted {
    with_text(with_fg(before, Fg::Cyan, color), value)
}

/// After `before`: a number.
pub open spec fn with_number(before: Painted, nr: nat, color: bool) -> Painted {
    with_text(with_fg(before, Fg::LightGray, color), digits_of(nr))
}

/// After `before`: a token of a kind that reads like `text`.
pub open spec fn with_token(before: Painted, kind: TokenKind, text: Seq<u8>, color: bool) -> Painted {
    match kind {
        TokenKind::Annotation => with_text(with_fg(before, Fg::Yellow, color), seq![0x7cu8]),
        TokenKind::Context => with_text(with_fg(before, Fg::Blue, color), text),
        TokenKind::End => with_text(with_fg(before, Fg::LightGray, color), text),
        TokenKind::Entry => with_text(with_fg(before, Fg::LightGray, color), text),
        TokenKind::Key => with_key(before, text, color),
        TokenKind::Marker => with_text(with_fg(before, Fg::LightGray, color), seq![0x78u8]),
        TokenKind::Normal => with_text(with_fg(before, Fg::White, color), text),
        TokenKind::Pair => with_value(
            with_key(before, text.subrange(0, find(text, 0x3a)), color),
            text.subrange(find(text, 0x3a) + 1, text.len() as int),
            color,
        ),
        TokenKind::Priority => with_priority(before, text[1], color),
        TokenKind::Project => with_text(with_fg(before, Fg::Magenta, color), text),
        TokenKind::Space => with_text(before, text),
    }
}

/// After `before`: the tokens of a line from `pos` on.
pub open spec fn with_pieces(before: Painted, line: Seq<u8>, ps: Seq<Piece>, color: bool) -> Painted
    decreases ps.len(),
{
    if ps.len() == 0 {
        before
    } else {
        with_pieces(
            with_token(before, ps[0].kind, piece_text(line, ps[0]), color),
            line,
            ps.drop_first(),
            color,
        )
    }
}

/// After `before`: a task.
pub open spec fn with_task(before: Painted, line: Seq<u8>, color: bool) -> Painted {
    with_pieces(before, line, pieces(line), color)
}

/// Something that can be printed.
pub trait Print {
    /// What is printed after `before`.
    spec fn painted(&self, before: Painted, color: bool) -> Painted;

    /// Appends the value to `stdout`, in color if `print_color` says so.
    fn print(&self, stdout: &mut String, colors: &mut Colors, print_color: bool)
        ensures
            (Painted { text: encode_utf8(final(stdout)@), colors: *final(colors) }) == self.painted(
                Painted { text: encode_utf8(old(stdout)@), colors: *old(colors) },
                print_color,
            ),
    ;
}

impl Print for Bg {
    open spec fn painted(&self, before: Painted, color: bool) -> Painted {
        with_bg(before, *self, color)
    }

    fn print(&self, stdout: &mut String, colors: &mut Colors, print_color: bool) {
        if !print_color || Bg::get(colors) == *self {
            return ;
        }
        self.set(colors);
        match self {
            Bg::Default => push_str(stdout, "\x1b[0m"),
            Bg::Custom(code) => {
                push_str(stdout, "\x1b[48;5;");
                push_padded(stdout, *code as u64, 0);
                push_ascii(stdout, 0x6d);
                assert(encode_utf8(stdout@) =~= encode_utf8(old(stdout)@) + bg_code(*self));
            },
        }
    }
}

impl Print for Fg {
    open spec fn painted(&self, before: Painted, color: bool) -> Painted {
        with_fg(before, *self, color)
    }

    fn print(&self, stdout: &mut String, colors: &mut Colors, print_color: bool) {
        if !print_color || Fg::get(colors) == *self {
            return ;
        }
        self.set(colors);
        match self {
            Fg::Black => push_str(stdout, "\x1b[38;5;0m"),
            Fg::Blue => push_str(stdout, "\x1b[38;5;33m"),
            Fg::Cyan => push_str(stdout, "\x1b[38;5;6m"),
            Fg::Green => push_str(stdout, "\x1b[38;5;2m"),
            Fg::LightGray => push_str(stdout, "\x1b[38;5;246m"),
            Fg::Magenta => push_str(stdout, "\x1b[38;5;092m"),
            Fg::Red => push_str(stdout, "\x1b[38;5;196m"),
            Fg::White => push_str(stdout, "\x1b[38;5;255m"),
            Fg::Yellow => push_str(stdout, "\x1b[38;5;11m"),
            Fg::Default => push_str(stdout, "\x1b[0m"),
        }
    }
}

impl Print for Annotation {
    open spec fn painted(&self, before: Painted, color: bool) -> Painted {
        with_token(before, TokenKind::Annotation, seq![0x7cu8], color)
    }

    fn print(&self, stdout: &mut String, colors: &mut Colors, print_color: bool) {
        Fg::Yellow.print(stdout, colors, print_color);
        push_ascii(stdout, 0x7c);
        assert(encode_utf8(stdout@) =~= self.painted(
            Painted { text: encode_utf8(old(stdout)@), colors: *old(colors) },
            print_color,
        ).text);
    }
}

impl<'a> Print for Context<'a> {
    open spec fn painted(&self, before: Painted, color: bool) -> Painted {
        with_token(before, TokenKind::Context, self@, color)
    }

    fn print(&self, stdout: &mut String, colors: &mut Colors, print_color: bool) {
        Fg::Blue.print(stdout, colors, print_color);
        push_str(stdout, self.as_str());
    }
}

impl<'a> Print for End<'a> {
    open spec fn painted(&self, before: Painted, color: bool) -> Painted {
        with_token(before, TokenKind::End, self@, color)
    }

    fn print(&self, stdout: &mut String, colors: &mut Colors, print_color: bool) {
        Fg::LightGray.print(stdout, colors, print_color);
        push_str(stdout, self.as_str());
    }
}

impl<'a> Print for Entry<'a> {
    open spec fn painted(&self, before: Painted, color: bool) -> Painted {
        with_token(before, TokenKind::Entry, self@, color)
    }

    fn print(&self, stdout: &mut String, colors: &mut Colors, print_color: bool) {
        Fg::LightGray.print(stdout, colors, print_color);
        push_str(stdout, self.as_str());
    }
}

impl<'a> Print for Key<'a> {
    open spec fn painted(&self, before: Painted, color: bool) -> Painted {
        with_key(before, self@, color)
    }

    fn print(&self, stdout: &mut String, colors: &mut Colors, print_color: bool) {
        Fg::Green.print(stdout, colors, print_color);
        push_str(stdout, self.as_str());
        Fg::LightGray.print(stdout, colors, print_color);
        push_ascii(stdout, 0x3a);
        assert(encode_utf8(stdout@) =~= self.painted(
            Painted { text: encode_utf8(old(stdout)@), colors: *old(colors) },
            print_color,
        ).text);
    }
}

impl Print for Marker {
    open spec fn painted(&self, before: Painted, color: bool) -> Painted {
        with_token(before, TokenKind::Marker, seq![0x78u8], color)
    }

    fn print(&self, stdout: &mut String, colors: &mut Colors, print_color: bool) {
        Fg::LightGray.print(stdout, colors, print_color);
        push_ascii(stdout, 0x78);
        assert(encode_utf8(stdout@) =~= self.painted(
            Painted { text: encode_utf8(old(stdout)@), colors: *old(colors) },
            print_color,
        ).text);
    }
}

impl<'a> Print for Normal<'a> {
    open spec fn painted(&self, before: Painted, color: bool) -> Painted {
        with_token(before, TokenKind::Normal, self@, color)
    }

    fn print(&self, stdout: &mut String, colors: &mut Colors, print_color: bool) {
        Fg::White.print(stdout, colors, print_color);
        push_str(stdout, self.as_str());
    }
}

impl Print for Number {
    open spec fn painted(&self, before: Painted, color: bool) -> Painted {
        with_number(before, self@, color)
    }

    fn print(&self, stdout: &mut String, colors: &mut Colors, print_color: bool) {
        Fg::LightGray.print(stdout, colors, print_color);
        push_padded(stdout, self.as_usize() as u64, 0);
    }
}

impl<'a> Print for Value<'a> {
    open spec fn painted(&self, before: Painted, color: bool) -> Painted {
        with_value(before, self@, color)
    }

    fn print(&self, stdout: &mut String, colors: &mut Colors, print_color: bool) {
        Fg::Cyan.print(stdout, colors, print_color);
        push_str(stdout, self.as_str());
    }
}

impl<'a> Print for Pair<'a> {
    open spec fn painted(&self, before: Painted, color: bool) -> Painted {
        with_value(with_key(before, self.key@, color), self.value@, color)
    }

    fn print(&self, stdout: &mut String, colors: &mut Colors, print_color: bool) {
        self.key.print(stdout, colors, print_color);
        self.value.print(stdout, colors, print_color);
    }
}

impl Print for Priority {
    open spec fn painted(&self, before: Painted, color: bool) -> Painted {
        with_priority(before, self@, color)
    }

    fn print(&self, stdout: &mut String, colors: &mut Colors, print_color: bool) {
        let letter: u8 = self.as_u8();
        let block: u8 = (letter - 0x41) / 2;
        let code: u8 = if block == 0 {
            1
        } else if block == 1 {
            9
        } else if block == 2 {
            3
        } else if block == 3 {
            11
        } else if block == 4 {
            5
        } else if block == 5 {
            13
        } else if block == 6 {
            6
        } else if block == 7 {
            14
        } else if block == 8 {
            2
        } else if block == 9 {
            10
        } else if block == 10 {
            4
        } else if block == 11 {
            12
        } else if block == 12 {
            0
        } else {
            8
        };
        let bg = Bg::Custom(code);
        let fg = if code < 8 && code != 3 && code != 6 {
            Fg::White
        } else {
            Fg::Black
        };
        let previous_bg = Bg::get(colors);
        bg.print(stdout, colors, print_color);
        fg.print(stdout, colors, print_color);
        let ghost mid = encode_utf8(stdout@);
        push_ascii(stdout, 0x28);
        push_ascii(stdout, letter);
        push_ascii(stdout, 0x29);
        assert(encode_utf8(stdout@) =~= mid + seq![0x28u8, letter, 0x29u8]);
        previous_bg.print(stdout, colors, print_color);
    }
}

impl<'a> Print for Project<'a> {
    open spec fn painted(&self, before: Painted, color: bool) -> Painted {
        with_token(before, TokenKind::Project, self@, color)
    }

    fn print(&self, stdout: &mut String, colors: &mut Colors, print_color: bool) {
        Fg::Magenta.print(stdout, colors, print_color);
        push_str(stdout, self.as_str());
    }
}

impl<'a> Print for Space<'a> {
    open spec fn painted(&self, before: Painted, color: bool) -> Painted {
        with_token(before, TokenKind::Space, self@, color)
    }

    fn print(&self, stdout: &mut String, colors: &mut Colors, print_color: bool) {
        push_str(stdout, self.as_str());
    }
}

impl<'a> Print for Token<'a> {
    open spec fn painted(&self, before: Painted, color: bool) -> Painted {
        match self {
            Token::Pair(pair) => pair.painted(before, color),
            _ => with_token(before, self.kind(), self.text(), color),
        }
    }

    fn print(&self, stdout: &mut String, colors: &mut Colors, print_color: bool) {
        match self {
            Token::Annotation(v) => v.print(stdout, colors, print_color),
            Token::Context(v) => v.print(stdout, colors, print_color),
            Token::End(v) => v.print(stdout, colors, print_color),
            Token::Entry(v) => v.print(stdout, colors, print_color),
            Token::Key(v) => v.print(stdout, colors, print_color),
            Token::Marker(v) => v.print(stdout, colors, print_color),
            Token::Normal(v) => v.print(stdout, colors, print_color),
            Token::Pair(v) => v.print(stdout, colors, print_color),
            Token::Priority(v) => {
                assert(v.text()[1] == v@);
                v.print(stdout, colors, print_color)
            },
            Token::Project(v) => v.print(stdout, colors, print_color),
            Token::Space(v) => v.print(stdout, colors, print_color),
        }
    }
}

impl<'a> Print for Task<'a> {
    open spec fn painted(&self, before: Painted, color: bool) -> Painted {
        with_task(before, self@, color)
    }

    fn print(&self, stdout: &mut String, colors: &mut Colors, print_color: bool) {
        let mut it = self.iter();
        let ghost start = Painted { text: encode_utf8(stdout@), colors: *colors };
        loop
            invariant
                it.line() == self@,
                0 <= it.offset() <= self@.len(),
                start == (Painted { text: encode_utf8(old(stdout)@), colors: *old(colors) }),
                with_task(start, self@, print_color) == with_pieces(
                    Painted { text: encode_utf8(stdout@), colors: *colors },
                    self@,
                    it.remaining(),
                    print_color,
                ),
            decreases self@.len() - it.offset(),
        {
            let ghost before = it.remaining();
            match it.next() {
                Some((token, _)) => {
                    proof {
                        assert(before.drop_first() =~= it.remaining());
                        if let Token::Pair(pair) = &token {
                            lemma_pair_parts(pair.key@, pair.value@);
                        }
                    }
                    token.print(stdout, colors, print_color);
                },
                None => {
                    assert(before.len() == 0);
                    return ;
                },
            }
        }
    }
}

/// Without color, a token is printed as it reads.
pub proof fn lemma_plain_token(before: Painted, kind: TokenKind, text: Seq<u8>)
    requires
        kind != TokenKind::Key,
        kind == TokenKind::Annotation ==> text == seq![0x7cu8],
        kind == TokenKind::Marker ==> text == seq![0x78u8],
        kind == TokenKind::Priority ==> text.len() == 3 && text[0] == 0x28 && text[2] == 0x29,
        kind == TokenKind::Pair ==> has_byte(text, 0x3a),
    ensures
        with_token(before, kind, text, false) == with_text(before, text),
{
    if kind == TokenKind::Pair {
        let colon = find(text, 0x3a);
        crate::text::lemma_find_from(text, 0x3a, 0);
        assert(text.subrange(0, colon) + seq![0x3au8] + text.subrange(
            colon + 1,
            text.len() as int,
        ) =~= text);
        assert(with_token(before, kind, text, false).text =~= before.text + text);
    } else if kind == TokenKind::Priority {
        assert(seq![0x28u8, text[1], 0x29u8] =~= text);
    }
}

/// Without color, the tokens of a line from a position on are printed as
/// the rest of the line.
pub proof fn lemma_plain_from(before: Painted, line: Seq<u8>, pos: int, stage: crate::field::Stage)
    requires
        0 <= pos <= line.len(),
    ensures
        with_pieces(before, line, pieces_from(line, pos, stage), false) == with_text(
            before,
            line.subrange(pos, line.len() as int),
        ),
    decreases line.len() - pos,
{
    if pos < line.len() {
        lemma_piece_end(line, pos);
        let (piece, next) = next_piece(line, pos, stage);
        let text = piece_text(line, piece);
        lemma_plain_token(before, piece.kind, text);
        let ps = pieces_from(line, pos, stage);
        assert(ps.drop_first() =~= pieces_from(line, piece.end, next));
        lemma_plain_from(with_text(before, text), line, piece.end, next);
        assert(before.text + text + line.subrange(piece.end, line.len() as int) =~= before.text
            + line.subrange(pos, line.len() as int));
    } else {
        assert(before.text + line.subrange(pos, line.len() as int) =~= before.text);
    }
}

/// Without color, a task is printed as its line.
pub proof fn lemma_plain_task(before: Painted, line: Seq<u8>)
    ensures
        with_task(before, line, false) == with_text(before, line),
{
    lemma_plain_from(before, line, 0, crate::field::Stage::Marker);
    assert(line.subrange(0, line.len() as int) =~= line);
}

} // verus!
