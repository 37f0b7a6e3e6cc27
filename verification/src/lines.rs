//! A file as lines: how a text falls into lines, how lines make a text
//! again, and the order in which the lines of a task file stand.

use crate::text::{
    cut_point, find, find_byte, lemma_cut_at_ascii, lemma_find_from, push_ascii, push_str, substr,
    tail,
};
use vstd::prelude::*;
use vstd::string::*;
use vstd::utf8::*;

verus! {

/// A line without the carriage return that may end it.
pub open spec fn chomped(line: Seq<u8>) -> Seq<u8> {
    if line.len() > 0 && line.last() == 0x0d {
        line.drop_last()
    } else {
        line
    }
}

/// The lines of a text. A line ends with a line feed, or with a carriage
/// return and a line feed; the last line may end with the text.
pub open spec fn lines_of(text: Seq<u8>) -> Seq<Seq<u8>>
    decreases text.len(),
{
    let at = find(text, 0x0a);
    if text.len() == 0 {
        Seq::empty()
    } else if 0 <= at < text.len() {
        seq![chomped(text.subrange(0, at))] + lines_of(text.subrange(at + 1, text.len() as int))
    } else {
        seq![text]
    }
}

/// The text that lines make: each line, and a line feed after it.
pub open spec fn text_of(lines: Seq<Seq<u8>>) -> Seq<u8>
    decreases lines.len(),
{
    if lines.len() == 0 {
        Seq::empty()
    } else {
        text_of(lines.drop_last()) + lines.last() + seq![0x0au8]
    }
}

/// The bytes of each of some strings.
pub open spec fn texts(list: Seq<String>) -> Seq<Seq<u8>> {
    Seq::new(list.len(), |i: int| encode_utf8(list[i]@))
}

/// The bytes of each of some string slices.
pub open spec fn slices(list: Seq<&str>) -> Seq<Seq<u8>> {
    Seq::new(list.len(), |i: int| list[i].spec_bytes())
}

/// The order of lines: byte by byte, a line before every line that it
/// starts.
pub open spec fn lex_le(a: Seq<u8>, b: Seq<u8>) -> bool
    decreases a.len(),
{
    if a.len() == 0 {
        true
    } else if b.len() == 0 {
        false
    } else if a[0] != b[0] {
        a[0] < b[0]
    } else {
        lex_le(a.drop_first(), b.drop_first())
    }
}

/// Whether lines stand in order.
pub open spec fn is_sorted(lines: Seq<Seq<u8>>) -> bool {
    forall|i: int, j: int| 0 <= i <= j < lines.len() ==> lex_le(#[trigger] lines[i], #[trigger] lines[j])
}

/// Sorted lines with one more line put in its place: behind the lines that
/// do not come after it.
pub open spec fn inserted(lines: Seq<Seq<u8>>, line: Seq<u8>) -> Seq<Seq<u8>>
    decreases lines.len(),
{
    if lines.len() == 0 {
        seq![line]
    } else if lex_le(lines[0], line) {
        seq![lines[0]] + inserted(lines.drop_first(), line)
    } else {
        seq![line] + lines
    }
}

/// The lines in order.
pub open spec fn sort_of(lines: Seq<Seq<u8>>) -> Seq<Seq<u8>>
    decreases lines.len(),
{
    if lines.len() == 0 {
        Seq::empty()
    } else {
        inserted(sort_of(lines.drop_first()), lines[0])
    }
}

/// A line does not come after itself.
pub proof fn lemma_lex_reflexive(a: Seq<u8>)
    ensures
        lex_le(a, a),
    decreases a.len(),
{
    if a.len() > 0 {
        lemma_lex_reflexive(a.drop_first());
    }
}

/// Of two lines, one does not come after the other.
pub proof fn lemma_lex_total(a: Seq<u8>, b: Seq<u8>)
    ensures
        lex_le(a, b) || lex_le(b, a),
    decreases a.len(),
{
    if a.len() > 0 && b.len() > 0 && a[0] == b[0] {
        lemma_lex_total(a.drop_first(), b.drop_first());
    }
}

/// What does not come after a line does not come after the lines that
/// follow it.
pub proof fn lemma_lex_transitive(a: Seq<u8>, b: Seq<u8>, c: Seq<u8>)
    requires
        lex_le(a, b),
        lex_le(b, c),
    ensures
        lex_le(a, c),
    decreases a.len(),
{
    if a.len() > 0 && b.len() > 0 && c.len() > 0 && a[0] == b[0] && b[0] == c[0] {
        lemma_lex_transitive(a.drop_first(), b.drop_first(), c.drop_first());
    }
}

/// Two lines neither of which comes after the other are the same.
pub proof fn lemma_lex_antisymmetric(a: Seq<u8>, b: Seq<u8>)
    requires
        lex_le(a, b),
        lex_le(b, a),
    ensures
        a == b,
    decreases a.len(),
{
    if a.len() > 0 && b.len() > 0 {
        lemma_lex_antisymmetric(a.drop_first(), b.drop_first());
        assert(a =~= seq![a[0]] + a.drop_first());
        assert(b =~= seq![b[0]] + b.drop_first());
    } else {
        assert(a =~= b);
    }
}

/// What comes before a line and before all of some lines comes before all
/// of them with the line put among them.
proof fn lemma_inserted_after(lines: Seq<Seq<u8>>, line: Seq<u8>, first: Seq<u8>)
    requires
        lex_le(first, line),
        forall|i: int| 0 <= i < lines.len() ==> lex_le(first, #[trigger] lines[i]),
    ensures
        forall|i: int|
            0 <= i < inserted(lines, line).len() ==> lex_le(
                first,
                #[trigger] inserted(lines, line)[i],
            ),
    decreases lines.len(),
{
    let r = inserted(lines, line);
    if lines.len() == 0 {
    } else if lex_le(lines[0], line) {
        let rest = lines.drop_first();
        assert forall|i: int| 0 <= i < rest.len() implies lex_le(first, #[trigger] rest[i]) by {
            assert(rest[i] == lines[i + 1]);
        }
        lemma_inserted_after(rest, line, first);
        assert forall|i: int| 0 <= i < r.len() implies lex_le(first, #[trigger] r[i]) by {
            if i > 0 {
                assert(r[i] == inserted(rest, line)[i - 1]);
            } else {
                assert(r[0] == lines[0]);
            }
        }
    } else {
        assert forall|i: int| 0 <= i < r.len() implies lex_le(first, #[trigger] r[i]) by {
            if i > 0 {
                assert(r[i] == lines[i - 1]);
            }
        }
    }
}

/// Putting a line in its place keeps the lines in order and adds that line
/// to them, once.
pub proof fn lemma_inserted(lines: Seq<Seq<u8>>, line: Seq<u8>)
    requires
        is_sorted(lines),
    ensures
        is_sorted(inserted(lines, line)),
        inserted(lines, line).to_multiset() == lines.to_multiset().insert(line),
        inserted(lines, line).len() == lines.len() + 1,
    decreases lines.len(),
{
    broadcast use vstd::seq_lib::group_to_multiset_ensures;

    let r = inserted(lines, line);
    if lines.len() == 0 {
        lemma_lex_reflexive(line);
        assert(lines =~= Seq::<Seq<u8>>::empty());
        assert(r =~= Seq::<Seq<u8>>::empty().push(line));
    } else if lex_le(lines[0], line) {
        let rest = lines.drop_first();
        assert forall|i: int, j: int| 0 <= i <= j < rest.len() implies lex_le(
            #[trigger] rest[i],
            #[trigger] rest[j],
        ) by {
            assert(rest[i] == lines[i + 1] && rest[j] == lines[j + 1]);
        }
        lemma_inserted(rest, line);
        let tail = inserted(rest, line);
        assert(r =~= seq![lines[0]] + tail);
        assert forall|i: int| 0 <= i < rest.len() implies lex_le(lines[0], #[trigger] rest[i]) by {
            assert(rest[i] == lines[i + 1]);
        }
        lemma_inserted_after(rest, line, lines[0]);
        assert forall|i: int, j: int| 0 <= i <= j < r.len() implies lex_le(
            #[trigger] r[i],
            #[trigger] r[j],
        ) by {
            if i == 0 {
                if j == 0 {
                    lemma_lex_reflexive(r[0]);
                } else {
                    assert(r[j] == tail[j - 1]);
                }
            } else {
                assert(r[i] == tail[i - 1] && r[j] == tail[j - 1]);
            }
        }
        assert(lines =~= seq![lines[0]] + rest);
        assert((seq![lines[0]] + tail).to_multiset() =~= (seq![lines[0]]
            + rest).to_multiset().insert(line)) by {
            vstd::seq_lib::lemma_multiset_commutative(seq![lines[0]], tail);
            vstd::seq_lib::lemma_multiset_commutative(seq![lines[0]], rest);
        }
    } else {
        lemma_lex_total(lines[0], line);
        assert(r =~= seq![line] + lines);
        assert forall|i: int, j: int| 0 <= i <= j < r.len() implies lex_le(
            #[trigger] r[i],
            #[trigger] r[j],
        ) by {
            if i == 0 {
                if j == 0 {
                    lemma_lex_reflexive(line);
                } else {
                    assert(r[j] == lines[j - 1]);
                    assert(lex_le(lines[0], lines[j - 1]));
                    lemma_lex_transitive(line, lines[0], lines[j - 1]);
                }
            } else {
                assert(r[i] == lines[i - 1] && r[j] == lines[j - 1]);
            }
        }
        assert((seq![line] + lines).to_multiset() =~= lines.to_multiset().insert(line)) by {
            vstd::seq_lib::lemma_multiset_commutative(seq![line], lines);
        }
    }
}

/// The lines in order are in order, and are the same lines: each as often
/// as before.
pub proof fn lemma_sort_of(lines: Seq<Seq<u8>>)
    ensures
        is_sorted(sort_of(lines)),
        sort_of(lines).to_multiset() == lines.to_multiset(),
        sort_of(lines).len() == lines.len(),
    decreases lines.len(),
{
    broadcast use vstd::seq_lib::group_to_multiset_ensures;

    if lines.len() == 0 {
        assert(lines =~= Seq::<Seq<u8>>::empty());
    } else {
        lemma_sort_of(lines.drop_first());
        lemma_inserted(sort_of(lines.drop_first()), lines[0]);
        assert(lines =~= seq![lines[0]] + lines.drop_first());
        vstd::seq_lib::lemma_multiset_commutative(seq![lines[0]], lines.drop_first());
    }
}

/// Every line of the lines in order is one of the lines.
pub proof fn lemma_sort_keeps(lines: Seq<Seq<u8>>, i: int)
    requires
        0 <= i < sort_of(lines).len(),
    ensures
        lines.contains(sort_of(lines)[i]),
{
    let line = sort_of(lines)[i];
    lemma_sort_of(lines);
    assert(sort_of(lines).contains(line));
    vstd::seq_lib::to_multiset_contains(sort_of(lines), line);
    vstd::seq_lib::to_multiset_contains(lines, line);
}

/// Lines that stand in order stay as they are when put in order.
pub proof fn lemma_sort_idempotent(lines: Seq<Seq<u8>>)
    requires
        is_sorted(lines),
    ensures
        sort_of(lines) == lines,
    decreases lines.len(),
{
    if lines.len() > 0 {
        let rest = lines.drop_first();
        assert forall|i: int, j: int| 0 <= i <= j < rest.len() implies lex_le(
            #[trigger] rest[i],
            #[trigger] rest[j],
        ) by {
            assert(rest[i] == lines[i + 1] && rest[j] == lines[j + 1]);
        }
        lemma_sort_idempotent(rest);
        lemma_first_inserted(rest, lines[0]);
        assert(lines =~= seq![lines[0]] + rest);
    } else {
        assert(lines =~= Seq::<Seq<u8>>::empty());
    }
}

/// A line that comes before all others goes in front.
proof fn lemma_first_inserted(lines: Seq<Seq<u8>>, line: Seq<u8>)
    requires
        forall|i: int| 0 <= i < lines.len() ==> lex_le(line, #[trigger] lines[i]),
    ensures
        inserted(lines, line) == seq![line] + lines,
    decreases lines.len(),
{
    if lines.len() > 0 && lex_le(lines[0], line) {
        lemma_lex_antisymmetric(lines[0], line);
        let rest = lines.drop_first();
        assert forall|i: int| 0 <= i < rest.len() implies lex_le(line, #[trigger] rest[i]) by {
            assert(rest[i] == lines[i + 1]);
        }
        lemma_first_inserted(rest, line);
        assert(seq![lines[0]] + (seq![line] + rest) =~= seq![line] + lines);
    } else if lines.len() == 0 {
        assert(seq![line] + lines =~= seq![line]);
    }
}

/// The text that lines make starts with the first line.
pub proof fn lemma_text_of_first(lines: Seq<Seq<u8>>)
    requires
        lines.len() > 0,
    ensures
        text_of(lines) == lines[0] + seq![0x0au8] + text_of(lines.drop_first()),
    decreases lines.len(),
{
    if lines.len() == 1 {
        assert(lines.drop_last() =~= Seq::<Seq<u8>>::empty());
        assert(lines.drop_first() =~= Seq::<Seq<u8>>::empty());
        assert(text_of(lines) =~= lines[0] + seq![0x0au8] + text_of(lines.drop_first()));
    } else {
        lemma_text_of_first(lines.drop_last());
        assert(lines.drop_last().drop_first() =~= lines.drop_first().drop_last());
        assert(lines.drop_last()[0] == lines[0]);
        assert(lines.drop_first().last() == lines.last());
        assert(text_of(lines) =~= lines[0] + seq![0x0au8] + text_of(lines.drop_first()));
    }
}

/// Whether a line can stand in a file as one line: it holds no line feed
/// and does not end in a carriage return.
pub open spec fn is_one_line(line: Seq<u8>) -> bool {
    !crate::text::has_byte(line, 0x0a) && !(line.len() > 0 && line.last() == 0x0d)
}

/// A file that is written and read again holds the lines that were
/// written, if each of them can stand as one line.
pub proof fn lemma_read_back(lines: Seq<Seq<u8>>)
    requires
        forall|i: int| 0 <= i < lines.len() ==> is_one_line(#[trigger] lines[i]),
    ensures
        lines_of(text_of(lines)) == lines,
    decreases lines.len(),
{
    if lines.len() == 0 {
        assert(lines =~= Seq::<Seq<u8>>::empty());
    } else {
        let rest = lines.drop_first();
        lemma_text_of_first(lines);
        assert forall|i: int| 0 <= i < rest.len() implies is_one_line(#[trigger] rest[i]) by {
            assert(rest[i] == lines[i + 1]);
        }
        lemma_read_back(rest);
        let first = lines[0];
        let text = text_of(lines);
        assert(is_one_line(first));
        lemma_find_from(first, 0x0a, 0);
        assert forall|i: int| 0 <= i < first.len() implies #[trigger] text[i] != 0x0au8 by {
            assert(text[i] == first[i]);
        }
        assert(text[first.len() as int] == 0x0au8);
        crate::text::lemma_find_from_unique(text, 0x0a, 0, first.len() as int);
        assert(text.subrange(0, first.len() as int) =~= first);
        assert(text.subrange(first.len() as int + 1, text.len() as int) =~= text_of(rest));
        assert(lines =~= seq![first] + rest);
    }
}

/// Whether `a` does not come after `b` in the order of lines.
pub fn line_le(a: &[u8], b: &[u8]) -> (r: bool)
    ensures
        r == lex_le(a@, b@),
{
    let mut i: usize = 0;
    proof {
        assert(a@.skip(0) =~= a@);
        assert(b@.skip(0) =~= b@);
    }
    while i < a.len() && i < b.len() && a[i] == b[i]
        invariant
            i <= a@.len(),
            i <= b@.len(),
            lex_le(a@, b@) == lex_le(a@.skip(i as int), b@.skip(i as int)),
        decreases a@.len() - i,
    {
        proof {
            assert(a@.skip(i as int).drop_first() =~= a@.skip(i + 1));
            assert(b@.skip(i as int).drop_first() =~= b@.skip(i + 1));
        }
        i += 1;
    }
    if i >= a.len() {
        true
    } else if i >= b.len() {
        false
    } else {
        a[i] < b[i]
    }
}

/// Puts the lines in order.
pub fn sort_lines(lines: Vec<String>) -> (r: Vec<String>)
    ensures
        texts(r@) == sort_of(texts(lines@)),
{
    let mut source = lines;
    let mut sorted: Vec<String> = Vec::new();
    let ghost all = texts(lines@);
    proof {
        assert(all.subrange(all.len() as int, all.len() as int) =~= Seq::<Seq<u8>>::empty());
        assert(texts(sorted@) =~= Seq::<Seq<u8>>::empty());
    }
    loop
        invariant
            all == texts(lines@),
            source@.len() <= all.len(),
            texts(source@) == all.subrange(0, source@.len() as int),
            texts(sorted@) == sort_of(all.subrange(source@.len() as int, all.len() as int)),
        decreases source@.len(),
    {
        let ghost before = source@;
        let ghost done = texts(sorted@);
        let line = match source.pop() {
            Some(line) => line,
            None => {
                assert(all.subrange(0, all.len() as int) =~= all);
                return sorted;
            },
        };
        let ghost k = source@.len() as int;
        proof {
            assert(texts(before)[k] == encode_utf8(line@));
            assert(texts(source@) =~= all.subrange(0, k));
            assert(all.subrange(k, all.len() as int).drop_first() =~= all.subrange(
                k + 1,
                all.len() as int,
            ));
        }
        let mut at: usize = 0;
        proof {
            assert(done.subrange(0, done.len() as int) =~= done);
            assert(done.subrange(0, 0) + inserted(done, encode_utf8(line@)) =~= inserted(
                done,
                encode_utf8(line@),
            ));
        }
        while at < sorted.len() && line_le(sorted[at].as_str().as_bytes(), line.as_str().as_bytes())
            invariant
                at <= sorted@.len(),
                texts(sorted@) == done,
                inserted(done, encode_utf8(line@)) == done.subrange(0, at as int) + inserted(
                    done.subrange(at as int, done.len() as int),
                    encode_utf8(line@),
                ),
            decreases sorted@.len() - at,
        {
            proof {
                let rest = done.subrange(at as int, done.len() as int);
                assert(rest[0] == texts(sorted@)[at as int]);
                assert(rest.drop_first() =~= done.subrange(at + 1, done.len() as int));
                assert(done.subrange(0, at as int) + (seq![rest[0]] + inserted(
                    rest.drop_first(),
                    encode_utf8(line@),
                )) =~= done.subrange(0, at + 1) + inserted(
                    rest.drop_first(),
                    encode_utf8(line@),
                ));
            }
            at += 1;
        }
        proof {
            let rest = done.subrange(at as int, done.len() as int);
            if at < sorted@.len() {
                assert(rest[0] == texts(sorted@)[at as int]);
            } else {
                assert(rest =~= Seq::<Seq<u8>>::empty());
            }
            assert(inserted(done, encode_utf8(line@)) =~= done.subrange(0, at as int) + seq![
                encode_utf8(line@),
            ] + rest);
        }
        sorted.insert(at, line);
        assert(texts(sorted@) =~= inserted(done, encode_utf8(line@)));
    }
}

/// The lines of a text.
pub fn split_lines(text: &str) -> (r: Vec<&str>)
    ensures
        slices(r@) == lines_of(text.spec_bytes()),
{
    let bytes = text.as_bytes();
    let n: usize = bytes.len();
    let mut lines: Vec<&str> = Vec::new();
    let mut from: usize = 0;
    proof {
        assert(bytes@.subrange(0, n as int) =~= bytes@);
        assert(slices(lines@) =~= Seq::<Seq<u8>>::empty());
    }
    while from < n
        invariant
            from <= n,
            n == bytes@.len(),
            bytes@ == text.spec_bytes(),
            cut_point(bytes@, from as int),
            lines_of(bytes@) == slices(lines@) + lines_of(bytes@.subrange(from as int, n as int)),
        decreases n - from,
    {
        let rest = vstd::slice::slice_subrange(bytes, from, n);
        let at: usize = find_byte(rest, 0x0a);
        let ghost before = slices(lines@);
        proof {
            lemma_find_from(rest@, 0x0a, 0);
        }
        if at >= rest.len() {
            lines.push(tail(text, from));
            proof {
                assert(slices(lines@) =~= before + seq![rest@]);
                assert(bytes@.subrange(n as int, n as int) =~= Seq::<u8>::empty());
                assert(before + seq![rest@] + Seq::<Seq<u8>>::empty() =~= before + seq![rest@]);
            }
            from = n;
        } else {
            let end: usize = if at > 0 && rest[at - 1] == 0x0d {
                from + at - 1
            } else {
                from + at
            };
            proof {
                assert(bytes@[from + at] == rest@[at as int]);
                lemma_cut_at_ascii(bytes@, from + at);
                if end != from + at {
                    assert(bytes@[end as int] == rest@[at - 1]);
                    lemma_cut_at_ascii(bytes@, end as int);
                }
            }
            lines.push(substr(text, from, end));
            proof {
                let line = chomped(rest@.subrange(0, at as int));
                assert(bytes@.subrange(from as int, end as int) =~= line);
                assert(slices(lines@) =~= before + seq![line]);
                assert(rest@.subrange(at + 1, rest@.len() as int) =~= bytes@.subrange(
                    from + at + 1,
                    n as int,
                ));
                assert(before + (seq![line] + lines_of(bytes@.subrange(from + at + 1, n as int)))
                    =~= before + seq![line] + lines_of(bytes@.subrange(from + at + 1, n as int)));
            }
            from = from + at + 1;
        }
    }
    proof {
        assert(bytes@.subrange(n as int, n as int) =~= Seq::<u8>::empty());
        assert(slices(lines@) + Seq::<Seq<u8>>::empty() =~= slices(lines@));
    }
    lines
}

/// The text that the lines make.
pub fn join_lines(lines: &Vec<String>) -> (r: String)
    ensures
        encode_utf8(r@) == text_of(texts(lines@)),
{
    let mut out = String::new();
    let mut i: usize = 0;
    proof {
        assert(encode_utf8(out@) =~= Seq::<u8>::empty());
        assert(texts(lines@).subrange(0, 0) =~= Seq::<Seq<u8>>::empty());
    }
    while i < lines.len()
        invariant
            i <= lines@.len(),
            encode_utf8(out@) == text_of(texts(lines@).subrange(0, i as int)),
        decreases lines@.len() - i,
    {
        let ghost before = encode_utf8(out@);
        push_str(&mut out, lines[i].as_str());
        push_ascii(&mut out, 0x0a);
        proof {
            let next = texts(lines@).subrange(0, i + 1);
            assert(next.drop_last() =~= texts(lines@).subrange(0, i as int));
            assert(next.last() == encode_utf8(lines@[i as int]@));
            assert(encode_utf8(out@) =~= before + next.last() + seq![0x0au8]);
        }
        i += 1;
    }
    assert(texts(lines@).subrange(0, i as int) =~= texts(lines@));
    out
}

} // verus!
