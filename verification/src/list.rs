//! The commands that only read: the list of tasks, and the lists of the
//! projects, contexts and keys that the tasks name.

use crate::color::{Bg, Colors, Fg};
use crate::command::{fresh, select, sieves, wanted, Command, Output, Report};
use crate::error::Error;
use crate::field::{digit_count, Number};
use crate::filter::{Filter, Sieve};
use crate::lines::{lines_of, slices, sort_lines, sort_of, split_lines, texts};
use crate::print::{with_bg, with_fg, with_number, with_task, with_text, with_token, Painted, Print};
use crate::task::{key_of, lemma_pair_parts, Task};
use crate::taskiter::{piece_text, pieces, Piece};
use crate::text::{bytes_eq, push_ascii, push_str};
use crate::token::{Token, TokenKind};
use vstd::prelude::*;
use vstd::string::*;
use vstd::utf8::*;

verus! {

/// Which tokens a list of tokens is of.
#[derive(Clone, Copy, Debug, PartialEq, Eq, Structural)]
pub enum TokenType {
    Projects,
    Contexts,
    Keys,
}

/// The number of the last task that the filters want among the first
/// `upto`, or 0 if they want none of them.
pub open spec fn last_wanted(lines: Seq<Seq<u8>>, sieves: Seq<Sieve>, upto: int) -> int
    decreases upto,
{
    if upto <= 0 {
        0
    } else if wanted(sieves, lines[upto - 1], upto as nat) {
        upto
    } else {
        last_wanted(lines, sieves, upto - 1)
    }
}

/// So many spaces.
pub open spec fn spaces(count: int) -> Seq<u8> {
    if count > 0 {
        Seq::new(count as nat, |i: int| 0x20u8)
    } else {
        Seq::empty()
    }
}

/// After `before`: the row of a task in the list: its number, with spaces
/// in front of it where it has fewer digits than `width`, a space, the task
/// and a line feed.
pub open spec fn with_row(
    before: Painted,
    nr: nat,
    line: Seq<u8>,
    width: nat,
    color: bool,
) -> Painted {
    with_text(
        with_task(
            with_text(
                with_number(with_text(before, spaces(width - digit_count(nr))), nr, color),
                seq![0x20u8],
            ),
            line,
            color,
        ),
        seq![0x0au8],
    )
}

/// After `before`: the rows of the tasks from position `from` on that the
/// filters want.
pub open spec fn with_rows(
    before: Painted,
    lines: Seq<Seq<u8>>,
    sieves: Seq<Sieve>,
    width: nat,
    from: int,
    color: bool,
) -> Painted
    decreases lines.len() - from,
{
    if from < 0 || from >= lines.len() {
        before
    } else {
        with_rows(
            if wanted(sieves, lines[from], (from + 1) as nat) {
                with_row(before, (from + 1) as nat, lines[from], width, color)
            } else {
                before
            },
            lines,
            sieves,
            width,
            from + 1,
            color,
        )
    }
}

/// The list of the tasks that the filters want: each in a row with its
/// number, in the order of the file, the numbers as wide as the last. The
/// background is the terminal's own at the end.
pub open spec fn task_list(lines: Seq<Seq<u8>>, sieves: Seq<Sieve>, color: bool) -> Seq<u8> {
    let last = last_wanted(lines, sieves, lines.len() as int);
    if last == 0 {
        Seq::empty()
    } else {
        with_bg(
            with_rows(fresh(), lines, sieves, digit_count(last as nat), 0, color),
            Bg::Default,
            color,
        ).text
    }
}

/// The kind of token that a list of tokens takes from the tasks.
pub open spec fn source_kind(tt: TokenType) -> TokenKind {
    match tt {
        TokenType::Projects => TokenKind::Project,
        TokenType::Contexts => TokenKind::Context,
        TokenType::Keys => TokenKind::Pair,
    }
}

/// The kind of token that a list of tokens shows.
pub open spec fn shown_kind(tt: TokenType) -> TokenKind {
    match tt {
        TokenType::Projects => TokenKind::Project,
        TokenType::Contexts => TokenKind::Context,
        TokenType::Keys => TokenKind::Key,
    }
}

/// What a list of tokens takes from a token: the token, or of a pair its
/// key.
pub open spec fn name_of(line: Seq<u8>, piece: Piece, tt: TokenType) -> Seq<u8> {
    if tt == TokenType::Keys {
        key_of(line, piece)
    } else {
        piece_text(line, piece)
    }
}

/// The names that a list of tokens takes from some tokens of a line.
pub open spec fn names_in(line: Seq<u8>, ps: Seq<Piece>, tt: TokenType) -> Seq<Seq<u8>>
    decreases ps.len(),
{
    if ps.len() == 0 {
        Seq::empty()
    } else if ps[0].kind == source_kind(tt) {
        seq![name_of(line, ps[0], tt)] + names_in(line, ps.drop_first(), tt)
    } else {
        names_in(line, ps.drop_first(), tt)
    }
}

/// The names that a list of tokens takes from the tasks from position
/// `from` on that the filters want.
pub open spec fn gathered(
    lines: Seq<Seq<u8>>,
    sieves: Seq<Sieve>,
    tt: TokenType,
    from: int,
) -> Seq<Seq<u8>>
    decreases lines.len() - from,
{
    if from < 0 || from >= lines.len() {
        Seq::empty()
    } else if wanted(sieves, lines[from], (from + 1) as nat) {
        names_in(lines[from], pieces(lines[from]), tt) + gathered(lines, sieves, tt, from + 1)
    } else {
        gathered(lines, sieves, tt, from + 1)
    }
}

/// Sorted names, each once.
pub open spec fn distinct(names: Seq<Seq<u8>>) -> Seq<Seq<u8>>
    decreases names.len(),
{
    if names.len() <= 1 {
        names
    } else if names[0] == names[1] {
        distinct(names.drop_first())
    } else {
        seq![names[0]] + distinct(names.drop_first())
    }
}

/// After `before`: each name on a line of its own.
pub open spec fn with_names(
    before: Painted,
    names: Seq<Seq<u8>>,
    kind: TokenKind,
    color: bool,
) -> Painted
    decreases names.len(),
{
    if names.len() == 0 {
        before
    } else {
        with_names(
            with_text(with_token(before, kind, names[0], color), seq![0x0au8]),
            names.drop_first(),
            kind,
            color,
        )
    }
}

/// The list of the projects, contexts or keys that the tasks which the
/// filters want name: each once, in order, on a line of its own. The colors
/// are the terminal's own at the end.
pub open spec fn token_list(
    lines: Seq<Seq<u8>>,
    sieves: Seq<Sieve>,
    tt: TokenType,
    color: bool,
) -> Seq<u8> {
    with_bg(
        with_fg(
            with_names(
                fresh(),
                distinct(sort_of(gathered(lines, sieves, tt, 0))),
                shown_kind(tt),
                color,
            ),
            Fg::Default,
            color,
        ),
        Bg::Default,
        color,
    ).text
}

/// Which of the tasks the filters want.
pub fn choose_tasks(lines: &Vec<&str>, filters: &[Filter]) -> (r: Vec<bool>)
    ensures
        r@.len() == lines@.len(),
        forall|i: int|
            0 <= i < r@.len() ==> r@[i] == wanted(
                sieves(filters@),
                #[trigger] slices(lines@)[i],
                (i + 1) as nat,
            ),
{
    let mut flags: Vec<bool> = Vec::new();
    let mut i: usize = 0;
    while i < lines.len()
        invariant
            i <= lines@.len(),
            flags@.len() == i,
            forall|j: int|
                0 <= j < i ==> flags@[j] == wanted(
                    sieves(filters@),
                    #[trigger] slices(lines@)[j],
                    (j + 1) as nat,
                ),
        decreases lines@.len() - i,
    {
        let keep: bool = select(filters, &Task::new(lines[i]), Number::from_enumerate(i));
        flags.push(keep);
        i += 1;
    }
    flags
}

fn pad(stdout: &mut String, count: usize)
    ensures
        encode_utf8(final(stdout)@) == encode_utf8(old(stdout)@) + spaces(count as int),
{
    let mut k: usize = 0;
    assert(encode_utf8(stdout@) =~= encode_utf8(old(stdout)@) + spaces(0));
    while k < count
        invariant
            k <= count,
            encode_utf8(stdout@) == encode_utf8(old(stdout)@) + spaces(k as int),
        decreases count - k,
    {
        push_ascii(stdout, 0x20);
        assert(spaces(k as int).push(0x20u8) =~= spaces(k + 1));
        assert(encode_utf8(stdout@) =~= encode_utf8(old(stdout)@) + spaces(k + 1));
        k += 1;
    }
}

fn print_row(
    stdout: &mut String,
    colors: &mut Colors,
    nr: Number,
    line: &str,
    width: usize,
    print_color: bool,
)
    ensures
        (Painted { text: encode_utf8(final(stdout)@), colors: *final(colors) }) == with_row(
            Painted { text: encode_utf8(old(stdout)@), colors: *old(colors) },
            nr@,
            line.spec_bytes(),
            width as nat,
            print_color,
        ),
{
    let digits: usize = nr.digits();
    if digits < width {
        pad(stdout, width - digits);
    } else {
        assert(encode_utf8(stdout@) =~= encode_utf8(old(stdout)@) + spaces(width - digits));
    }
    nr.print(stdout, colors, print_color);
    push_ascii(stdout, 0x20);
    Task::new(line).print(stdout, colors, print_color);
    push_ascii(stdout, 0x0a);
}

fn print_name_line(
    stdout: &mut String,
    colors: &mut Colors,
    name: &str,
    tt: TokenType,
    print_color: bool,
)
    ensures
        (Painted { text: encode_utf8(final(stdout)@), colors: *final(colors) }) == with_text(
            with_token(
                Painted { text: encode_utf8(old(stdout)@), colors: *old(colors) },
                shown_kind(tt),
                name.spec_bytes(),
                print_color,
            ),
            seq![0x0au8],
        ),
{
    match tt {
        TokenType::Projects => {
            Fg::Magenta.print(stdout, colors, print_color);
            push_str(stdout, name);
        },
        TokenType::Contexts => {
            Fg::Blue.print(stdout, colors, print_color);
            push_str(stdout, name);
        },
        TokenType::Keys => {
            crate::field::Key::new(name).print(stdout, colors, print_color);
        },
    }
    push_ascii(stdout, 0x0a);
}

/// Sorted names with the first of them taken off.
proof fn lemma_distinct_step(names: Seq<Seq<u8>>)
    requires
        names.len() >= 1,
    ensures
        names.len() >= 2 && names[0] == names[1] ==> distinct(names) == distinct(
            names.drop_first(),
        ),
        !(names.len() >= 2 && names[0] == names[1]) ==> distinct(names) == seq![names[0]]
            + distinct(names.drop_first()),
{
    if names.len() == 1 {
        assert(names.drop_first() =~= Seq::<Seq<u8>>::empty());
        assert(names =~= seq![names[0]] + Seq::<Seq<u8>>::empty());
    }
}

impl Command {
    /// Lists the tasks that the filters want.
    pub fn list_tasks(tasks: String, filters: &[Filter], print_color: bool) -> (r: Result<
        Output,
        Error,
    >)
        ensures
            r is Ok,
            r->Ok_0@ == (Report::JustPrint {
                stdout: task_list(lines_of(encode_utf8(tasks@)), sieves(filters@), print_color),
            }),
    {
        let lines = split_lines(tasks.as_str());
        let flags = choose_tasks(&lines, filters);
        let ghost all = lines_of(encode_utf8(tasks@));
        let ghost ss = sieves(filters@);
        let mut last: usize = 0;
        let mut i: usize = 0;
        while i < lines.len()
            invariant
                i <= lines@.len(),
                flags@.len() == lines@.len(),
                all == slices(lines@),
                forall|j: int|
                    0 <= j < flags@.len() ==> flags@[j] == wanted(
                        ss,
                        #[trigger] all[j],
                        (j + 1) as nat,
                    ),
                last == last_wanted(all, ss, i as int),
                last <= i,
            decreases lines@.len() - i,
        {
            if flags[i] {
                last = i + 1;
            }
            i += 1;
        }
        let mut stdout = String::new();
        assert(encode_utf8(stdout@) =~= Seq::<u8>::empty());
        if last == 0 {
            return Ok(Output::JustPrint { stdout });
        }
        let width: usize = Number::from_usize(last).digits();
        let mut colors = Colors::new();
        let mut i: usize = 0;
        while i < lines.len()
            invariant
                i <= lines@.len(),
                flags@.len() == lines@.len(),
                all == slices(lines@),
                forall|j: int|
                    0 <= j < flags@.len() ==> flags@[j] == wanted(
                        ss,
                        #[trigger] all[j],
                        (j + 1) as nat,
                    ),
                width == digit_count(last as nat),
                with_rows(fresh(), all, ss, width as nat, 0, print_color) == with_rows(
                    Painted { text: encode_utf8(stdout@), colors },
                    all,
                    ss,
                    width as nat,
                    i as int,
                    print_color,
                ),
            decreases lines@.len() - i,
        {
            if flags[i] {
                assert(all[i as int] == lines@[i as int].spec_bytes());
                print_row(
                    &mut stdout,
                    &mut colors,
                    Number::from_enumerate(i),
                    lines[i],
                    width,
                    print_color,
                );
            }
            i += 1;
        }
        Bg::Default.print(&mut stdout, &mut colors, print_color);
        Ok(Output::JustPrint { stdout })
    }

    /// The names that a list of tokens takes from a task.
    fn gather(task: &Task, tt: TokenType, names: &mut Vec<String>)
        ensures
            texts(final(names)@) == texts(old(names)@) + names_in(task@, pieces(task@), tt),
    {
        let mut it = task.iter();
        let ghost start = texts(names@);
        proof {
            assert(start + names_in(task@, pieces(task@), tt) =~= texts(names@) + names_in(
                task@,
                it.remaining(),
                tt,
            ));
        }
        loop
            invariant
                it.line() == task@,
                0 <= it.offset() <= task@.len(),
                start == texts(old(names)@),
                start + names_in(task@, pieces(task@), tt) == texts(names@) + names_in(
                    task@,
                    it.remaining(),
                    tt,
                ),
            decreases task@.len() - it.offset(),
        {
            let ghost before = it.remaining();
            let ghost had = texts(names@);
            match it.next() {
                None => {
                    assert(before.len() == 0);
                    assert(texts(names@) + Seq::<Seq<u8>>::empty() =~= texts(names@));
                    return ;
                },
                Some((token, _)) => {
                    proof {
                        assert(before.drop_first() =~= it.remaining());
                    }
                    match (tt, token) {
                        (TokenType::Projects, Token::Project(t)) => {
                            names.push(t.as_str().to_owned());
                            assert(texts(names@) =~= had.push(t@));
                        },
                        (TokenType::Contexts, Token::Context(t)) => {
                            names.push(t.as_str().to_owned());
                            assert(texts(names@) =~= had.push(t@));
                        },
                        (TokenType::Keys, Token::Pair(pair)) => {
                            proof {
                                lemma_pair_parts(pair.key@, pair.value@);
                            }
                            names.push(pair.key.as_str().to_owned());
                            assert(texts(names@) =~= had.push(pair.key@));
                        },
                        _ => {},
                    }
                    proof {
                        let rest = names_in(task@, it.remaining(), tt);
                        if before[0].kind == source_kind(tt) {
                            assert(had + (seq![name_of(task@, before[0], tt)] + rest) =~= had.push(
                                name_of(task@, before[0], tt),
                            ) + rest);
                        }
                    }
                },
            }
        }
    }

    /// Lists the projects, contexts or keys of the tasks that the filters
    /// want.
    pub fn list_tokens(
        tasks: String,
        filters: &[Filter],
        tt: TokenType,
        print_color: bool,
    ) -> (r: Result<Output, Error>)
        ensures
            r is Ok,
            r->Ok_0@ == (Report::JustPrint {
                stdout: token_list(
                    lines_of(encode_utf8(tasks@)),
                    sieves(filters@),
                    tt,
                    print_color,
                ),
            }),
    {
        let lines = split_lines(tasks.as_str());
        let flags = choose_tasks(&lines, filters);
        let ghost all = lines_of(encode_utf8(tasks@));
        let ghost ss = sieves(filters@);
        let mut names: Vec<String> = Vec::new();
        let mut i: usize = 0;
        proof {
            assert(texts(names@) =~= Seq::<Seq<u8>>::empty());
            assert(Seq::<Seq<u8>>::empty() + gathered(all, ss, tt, 0) =~= gathered(all, ss, tt, 0));
        }
        while i < lines.len()
            invariant
                i <= lines@.len(),
                flags@.len() == lines@.len(),
                all == slices(lines@),
                forall|j: int|
                    0 <= j < flags@.len() ==> flags@[j] == wanted(
                        ss,
                        #[trigger] all[j],
                        (j + 1) as nat,
                    ),
                gathered(all, ss, tt, 0) == texts(names@) + gathered(all, ss, tt, i as int),
            decreases lines@.len() - i,
        {
            if flags[i] {
                let ghost had = texts(names@);
                Command::gather(&Task::new(lines[i]), tt, &mut names);
                proof {
                    assert(all[i as int] == lines@[i as int].spec_bytes());
                    let here = names_in(all[i as int], pieces(all[i as int]), tt);
                    assert(had + (here + gathered(all, ss, tt, i + 1)) =~= (had + here) + gathered(
                        all,
                        ss,
                        tt,
                        i + 1,
                    ));
                }
            }
            i += 1;
        }
        proof {
            assert(texts(names@) + Seq::<Seq<u8>>::empty() =~= texts(names@));
        }
        let sorted = sort_lines(names);
        let mut stdout = String::new();
        let mut colors = Colors::new();
        assert(encode_utf8(stdout@) =~= Seq::<u8>::empty());
        let ghost list = texts(sorted@);
        let n: usize = sorted.len();
        let mut i: usize = 0;
        proof {
            assert(list.subrange(0, n as int) =~= list);
        }
        while i < n
            invariant
                i <= n,
                n == sorted@.len(),
                list == texts(sorted@),
                with_names(fresh(), distinct(list), shown_kind(tt), print_color) == with_names(
                    Painted { text: encode_utf8(stdout@), colors },
                    distinct(list.subrange(i as int, n as int)),
                    shown_kind(tt),
                    print_color,
                ),
            decreases n - i,
        {
            let name = sorted[i].as_str();
            let ghost rest = list.subrange(i as int, n as int);
            let ghost now = Painted { text: encode_utf8(stdout@), colors };
            proof {
                assert(rest[0] == list[i as int]);
                assert(rest.drop_first() =~= list.subrange(i + 1, n as int));
                if i + 1 < n {
                    assert(rest[1] == list[i + 1]);
                }
                lemma_distinct_step(rest);
            }
            let again: bool = i + 1 < n && bytes_eq(
                name.as_bytes(),
                sorted[i + 1].as_str().as_bytes(),
            );
            if !again {
                proof {
                    let shorter = distinct(rest.drop_first());
                    assert((seq![rest[0]] + shorter).drop_first() =~= shorter);
                }
                print_name_line(&mut stdout, &mut colors, name, tt, print_color);
            }
            i += 1;
        }
        proof {
            assert(list.subrange(n as int, n as int) =~= Seq::<Seq<u8>>::empty());
        }
        Fg::Default.print(&mut stdout, &mut colors, print_color);
        Bg::Default.print(&mut stdout, &mut colors, print_color);
        Ok(Output::JustPrint { stdout })
    }

}

} // verus!
