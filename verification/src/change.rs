//! The commands that change the task file: add, delete and modify. Each
//! gives the new content of the file, its lines in order, and what it did as
//! a transaction at the end of the undo log.

use crate::color::{Bg, Colors, Fg};
use crate::command::{
    announce, fresh, keep_line, log, record, sieves, wanted, with_record, Command, Output, Report,
};
use crate::error::Error;
use crate::field::Key;
use crate::filter::{is_date_key, key_texts, Filter, Sieve};
use crate::lines::{join_lines, lines_of, slices, sort_lines, sort_of, split_lines, text_of, texts};
use crate::list::choose_tasks;
use crate::modification::{edited, line_of, Edit, Modification, Outcome};
use crate::print::{with_bg, with_fg, Painted, Print};
use crate::task::{key_of, lemma_pair_parts, Task, TaskBuf};
use crate::taskiter::{lemma_scan_step, next_piece, piece_text, pieces, Piece};
use crate::text::{push_str, str_eq};
use crate::token::{Token, TokenKind};
use vstd::prelude::*;
use vstd::string::*;
use vstd::utf8::*;

verus! {

/// The changes as plain values.
pub open spec fn edits(mods: Seq<Modification>) -> Seq<Edit> {
    Seq::new(mods.len(), |i: int| mods[i]@)
}

/// The line that starts a transaction in the undo log.
pub open spec fn separator() -> Seq<u8> {
    "---\n".spec_bytes()
}

/// A change as `add` makes it: one that would replace the body adds to it,
/// so that words given one by one make one task.
pub open spec fn coerced(edit: Edit) -> Edit {
    match edit {
        Edit::SetBody(body) => Edit::Append(body),
        _ => edit,
    }
}

/// The line that the changes from position `from` on make of a line, when
/// no key holds dates.
pub open spec fn composed(changes: Seq<Edit>, line: Seq<u8>, from: int) -> Seq<u8>
    decreases changes.len() - from,
{
    if from < 0 || from >= changes.len() {
        line
    } else {
        composed(changes, edited(coerced(changes[from]), line, Seq::empty()).line, from + 1)
    }
}

/// What `add` gives: the task that the changes make of an empty line is
/// added to the tasks, and recorded as added. No confirmation is asked.
pub open spec fn addition(
    tasks: Seq<u8>,
    undo: Seq<u8>,
    changes: Seq<Edit>,
    color: bool,
) -> Report {
    let line = composed(changes, Seq::empty(), 0);
    Report::WriteFiles {
        stdout: with_bg(with_record(fresh(), true, line, color), Bg::Default, color).text,
        confirm: false,
        tasks: text_of(sort_of(lines_of(tasks).push(line))),
        undo: undo + separator() + record(true, line),
    }
}

/// The lines from position `from` on that the filters do not want.
pub open spec fn unwanted_lines(lines: Seq<Seq<u8>>, sieves: Seq<Sieve>, from: int) -> Seq<Seq<u8>>
    decreases lines.len() - from,
{
    if from < 0 || from >= lines.len() {
        Seq::empty()
    } else if wanted(sieves, lines[from], (from + 1) as nat) {
        unwanted_lines(lines, sieves, from + 1)
    } else {
        seq![lines[from]] + unwanted_lines(lines, sieves, from + 1)
    }
}

/// What deleting the wanted lines from position `from` on leaves behind: the
/// transcript, the records and how many lines went.
pub struct Deleted {
    pub out: Painted,
    pub undo: Seq<u8>,
    pub count: nat,
}

/// After `before`: the wanted lines from position `from` on are deleted.
pub open spec fn deleted(
    before: Deleted,
    lines: Seq<Seq<u8>>,
    sieves: Seq<Sieve>,
    from: int,
    color: bool,
) -> Deleted
    decreases lines.len() - from,
{
    if from < 0 || from >= lines.len() {
        before
    } else {
        deleted(
            if wanted(sieves, lines[from], (from + 1) as nat) {
                Deleted {
                    out: with_record(before.out, false, lines[from], color),
                    undo: before.undo + record(false, lines[from]),
                    count: before.count + 1,
                }
            } else {
                before
            },
            lines,
            sieves,
            from + 1,
            color,
        )
    }
}

/// What `delete` gives: the tasks that the filters want go, each recorded
/// as deleted, in the order of the file. A confirmation is asked where more
/// than one goes.
pub open spec fn removal(
    tasks: Seq<u8>,
    undo: Seq<u8>,
    sieves: Seq<Sieve>,
    color: bool,
) -> Report {
    let done = deleted(
        Deleted { out: fresh(), undo: undo + separator(), count: 0 },
        lines_of(tasks),
        sieves,
        0,
        color,
    );
    Report::WriteFiles {
        stdout: with_bg(with_fg(done.out, Fg::Default, color), Bg::Default, color).text,
        confirm: done.count > 1,
        tasks: text_of(sort_of(unwanted_lines(lines_of(tasks), sieves, 0))),
        undo: done.undo,
    }
}

/// What the changes from position `from` on make of what the changes before
/// them made: each change works on the line that the last one left; the
/// first task to add stays the task to add; one call for the earlier task to
/// go is enough.
pub open spec fn all_edited(
    changes: Seq<Edit>,
    so_far: Outcome,
    keys: Seq<Seq<u8>>,
    from: int,
) -> Outcome
    decreases changes.len() - from,
{
    if from < 0 || from >= changes.len() {
        so_far
    } else {
        let next = edited(changes[from], so_far.line, keys);
        all_edited(
            changes,
            Outcome {
                line: next.line,
                add: if so_far.add is Some {
                    so_far.add
                } else {
                    next.add
                },
                remove_similar: so_far.remove_similar || next.remove_similar,
            },
            keys,
            from + 1,
        )
    }
}

/// Whether two tokens, one of each line, may stand for each other in two
/// tasks that are twins: they are the same, or both are completion dates,
/// or both creation dates, or both pairs with the same key, which holds
/// dates.
pub open spec fn compatible(
    a: Seq<u8>,
    pa: Piece,
    b: Seq<u8>,
    pb: Piece,
    keys: Seq<Seq<u8>>,
) -> bool {
    ||| (pa.kind == pb.kind && piece_text(a, pa) == piece_text(b, pb))
    ||| (pa.kind == TokenKind::End && pb.kind == TokenKind::End)
    ||| (pa.kind == TokenKind::Entry && pb.kind == TokenKind::Entry)
    ||| (pa.kind == TokenKind::Pair && pb.kind == TokenKind::Pair && key_of(a, pa) == key_of(b, pb)
        && keys.contains(key_of(a, pa)))
}

/// Whether two lines are twins: they have as many tokens, and token by
/// token these may stand for each other.
pub open spec fn twins(a: Seq<u8>, b: Seq<u8>, keys: Seq<Seq<u8>>) -> bool {
    &&& pieces(a).len() == pieces(b).len()
    &&& forall|i: int|
        0 <= i < pieces(a).len() ==> compatible(a, #[trigger] pieces(a)[i], b, pieces(b)[i], keys)
}

/// The position of the first twin of a line among the lines from position
/// `from` on, or the number of lines if it has no twin there.
pub open spec fn first_twin(line: Seq<u8>, others: Seq<Seq<u8>>, keys: Seq<Seq<u8>>, from: int) -> int
    decreases others.len() - from,
{
    if from < 0 || from >= others.len() {
        others.len() as int
    } else if twins(line, others[from], keys) {
        from
    } else {
        first_twin(line, others, keys, from + 1)
    }
}

/// The state of `modify` between two tasks.
pub struct Work {
    /// The lines that the filters do not want, less the twins that went.
    pub retained: Seq<Seq<u8>>,
    /// The lines that came of the wanted tasks.
    pub added: Seq<Seq<u8>>,
    /// How many tasks were changed.
    pub changed: nat,
    /// The transcript.
    pub out: Painted,
    /// The undo log.
    pub undo: Seq<u8>,
}

/// The state with a record in the transcript and in the undo log.
pub open spec fn noted(work: Work, add: bool, line: Seq<u8>, color: bool) -> Work {
    Work {
        out: with_record(work.out, add, line, color),
        undo: work.undo + record(add, line),
        ..work
    }
}

/// The state after the twin of a changed line has gone, if it is to go and
/// there is one: the first twin among the retained lines, whose place the
/// last of them takes.
pub open spec fn twin_removed(
    work: Work,
    line: Seq<u8>,
    remove_similar: bool,
    keys: Seq<Seq<u8>>,
    color: bool,
) -> Work {
    let at = first_twin(line, work.retained, keys, 0);
    if remove_similar && at < work.retained.len() {
        let gone = noted(work, false, work.retained[at], color);
        Work { retained: work.retained.update(at, work.retained.last()).drop_last(), ..gone }
    } else {
        work
    }
}

/// The state after one wanted task. A task that the changes leave as it is
/// stays. Of a task that they change, the old line is recorded as deleted
/// and the new one as added; in between come the task to add, if there is
/// one, recorded as added, and the twin that goes.
pub open spec fn step(
    work: Work,
    line: Seq<u8>,
    changes: Seq<Edit>,
    keys: Seq<Seq<u8>>,
    color: bool,
) -> Work {
    let made = all_edited(changes, Outcome { line, add: None, remove_similar: false }, keys, 0);
    if made.line == line {
        Work { added: work.added.push(line), ..work }
    } else {
        let first = noted(
            Work { added: work.added.push(made.line), changed: work.changed + 1, ..work },
            false,
            line,
            color,
        );
        let second = match made.add {
            Some(task) => noted(Work { added: first.added.push(task), ..first }, true, task, color),
            None => first,
        };
        noted(
            twin_removed(second, made.line, made.remove_similar, keys, color),
            true,
            made.line,
            color,
        )
    }
}

/// The state after the wanted tasks from position `from` on.
pub open spec fn worked(
    work: Work,
    lines: Seq<Seq<u8>>,
    sieves: Seq<Sieve>,
    changes: Seq<Edit>,
    keys: Seq<Seq<u8>>,
    from: int,
    color: bool,
) -> Work
    decreases lines.len() - from,
{
    if from < 0 || from >= lines.len() {
        work
    } else {
        worked(
            if wanted(sieves, lines[from], (from + 1) as nat) {
                step(work, lines[from], changes, keys, color)
            } else {
                work
            },
            lines,
            sieves,
            changes,
            keys,
            from + 1,
            color,
        )
    }
}

/// What `modify` gives: the changes are made to every task that the filters
/// want, in the order of the file. A confirmation is asked where more than
/// one task changes.
pub open spec fn modification(
    tasks: Seq<u8>,
    undo: Seq<u8>,
    sieves: Seq<Sieve>,
    changes: Seq<Edit>,
    keys: Seq<Seq<u8>>,
    color: bool,
) -> Report {
    let done = worked(
        Work {
            retained: unwanted_lines(lines_of(tasks), sieves, 0),
            added: Seq::empty(),
            changed: 0,
            out: fresh(),
            undo: undo + separator(),
        },
        lines_of(tasks),
        sieves,
        changes,
        keys,
        0,
        color,
    );
    Report::WriteFiles {
        stdout: with_bg(done.out, Bg::Default, color).text,
        confirm: done.changed > 1,
        tasks: text_of(sort_of(done.retained + done.added)),
        undo: done.undo,
    }
}

/// The lines that the filters do not want.
fn retain(lines: &Vec<&str>, flags: &Vec<bool>, Ghost(ss): Ghost<Seq<Sieve>>) -> (r: Vec<String>)
    requires
        flags@.len() == lines@.len(),
        forall|j: int|
            0 <= j < flags@.len() ==> flags@[j] == wanted(
                ss,
                #[trigger] slices(lines@)[j],
                (j + 1) as nat,
            ),
    ensures
        texts(r@) == unwanted_lines(slices(lines@), ss, 0),
{
    let mut retained: Vec<String> = Vec::new();
    let ghost all = slices(lines@);
    let mut i: usize = 0;
    proof {
        assert(texts(retained@) =~= Seq::<Seq<u8>>::empty());
        assert(Seq::<Seq<u8>>::empty() + unwanted_lines(all, ss, 0) =~= unwanted_lines(all, ss, 0));
    }
    while i < lines.len()
        invariant
            i <= lines@.len(),
            flags@.len() == lines@.len(),
            all == slices(lines@),
            forall|j: int|
                0 <= j < flags@.len() ==> flags@[j] == wanted(ss, #[trigger] all[j], (j + 1) as nat),
            unwanted_lines(all, ss, 0) == texts(retained@) + unwanted_lines(all, ss, i as int),
        decreases lines@.len() - i,
    {
        if !flags[i] {
            let ghost had = texts(retained@);
            keep_line(&mut retained, lines[i]);
            proof {
                assert(all[i as int] == lines@[i as int].spec_bytes());
                assert(had + (seq![all[i as int]] + unwanted_lines(all, ss, i + 1)) =~= had.push(
                    all[i as int],
                ) + unwanted_lines(all, ss, i + 1));
            }
        }
        i += 1;
    }
    proof {
        assert(texts(retained@) + Seq::<Seq<u8>>::empty() =~= texts(retained@));
    }
    retained
}

/// Whether two tokens may stand for each other in twins.
fn stand_in(
    a: &Token,
    b: &Token,
    date_keys: &[Key],
    Ghost(la): Ghost<Seq<u8>>,
    Ghost(pa): Ghost<Piece>,
    Ghost(lb): Ghost<Seq<u8>>,
    Ghost(pb): Ghost<Piece>,
) -> (r: bool)
    requires
        a.kind() == pa.kind,
        a.text() == piece_text(la, pa),
        a.split_at_first(),
        b.kind() == pb.kind,
        b.text() == piece_text(lb, pb),
        b.split_at_first(),
    ensures
        r == compatible(la, pa, lb, pb, key_texts(date_keys@)),
{
    proof {
        if let Token::Pair(pair) = a {
            lemma_pair_parts(pair.key@, pair.value@);
        }
        if let Token::Pair(pair) = b {
            lemma_pair_parts(pair.key@, pair.value@);
        }
    }
    if a.same(b) {
        return true;
    }
    match (a, b) {
        (Token::End(_), Token::End(_)) => true,
        (Token::Entry(_), Token::Entry(_)) => true,
        (Token::Pair(x), Token::Pair(y)) => is_date_key(date_keys, &x.key) && x.key.same(&y.key),
        _ => false,
    }
}

/// Whether two lines are twins.
pub fn are_twins(a: &str, b: &str, date_keys: &[Key]) -> (r: bool)
    ensures
        r == twins(a.spec_bytes(), b.spec_bytes(), key_texts(date_keys@)),
{
    let mut left = Task::new(a).iter();
    let mut right = Task::new(b).iter();
    let ghost la = a.spec_bytes();
    let ghost lb = b.spec_bytes();
    let ghost keys = key_texts(date_keys@);
    let ghost mut seen: int = 0;
    proof {
        assert(pieces(la).skip(0) =~= pieces(la));
        assert(pieces(lb).skip(0) =~= pieces(lb));
    }
    loop
        invariant
            left.line() == la,
            right.line() == lb,
            la == a.spec_bytes(),
            lb == b.spec_bytes(),
            keys == key_texts(date_keys@),
            0 <= left.offset() <= la.len(),
            0 <= seen <= pieces(la).len(),
            seen <= pieces(lb).len(),
            left.remaining() == pieces(la).skip(seen),
            right.remaining() == pieces(lb).skip(seen),
            forall|i: int|
                0 <= i < seen ==> compatible(la, #[trigger] pieces(la)[i], lb, pieces(lb)[i], keys),
        decreases la.len() - left.offset(),
    {
        let ghost before_left = left.remaining();
        let ghost before_right = right.remaining();
        let ghost pa = next_piece(la, left.offset(), left.stage()).0;
        let ghost pb = next_piece(lb, right.offset(), right.stage()).0;
        let x = left.next();
        let y = right.next();
        proof {
            if x is Some {
                lemma_scan_step(pieces(la), seen, before_left, pa, left.remaining());
            } else {
                assert(before_left.len() == 0);
            }
            if y is Some {
                lemma_scan_step(pieces(lb), seen, before_right, pb, right.remaining());
            } else {
                assert(before_right.len() == 0);
            }
        }
        match (x, y) {
            (None, None) => {
                return true;
            },
            (Some((ta, _)), Some((tb, _))) => {
                if !stand_in(
                    &ta,
                    &tb,
                    date_keys,
                    Ghost(la),
                    Ghost(pieces(la)[seen]),
                    Ghost(lb),
                    Ghost(pieces(lb)[seen]),
                ) {
                    return false;
                }
                proof {
                    seen = seen + 1;
                }
            },
            _ => {
                return false;
            },
        }
    }
}

/// The position of the first twin of a line among some lines.
fn find_twin(line: &str, others: &Vec<String>, date_keys: &[Key]) -> (r: usize)
    ensures
        r == first_twin(line.spec_bytes(), texts(others@), key_texts(date_keys@), 0),
        r <= others@.len(),
{
    let mut i: usize = 0;
    while i < others.len()
        invariant
            i <= others@.len(),
            first_twin(line.spec_bytes(), texts(others@), key_texts(date_keys@), 0) == first_twin(
                line.spec_bytes(),
                texts(others@),
                key_texts(date_keys@),
                i as int,
            ),
        decreases others@.len() - i,
    {
        if are_twins(line, others[i].as_str(), date_keys) {
            return i;
        }
        i += 1;
    }
    i
}

/// What `modify` holds between two tasks.
struct Desk {
    retained: Vec<String>,
    added: Vec<String>,
    changed: usize,
    stdout: String,
    colors: Colors,
    undo: String,
}

impl Desk {
    spec fn view(&self) -> Work {
        Work {
            retained: texts(self.retained@),
            added: texts(self.added@),
            changed: self.changed as nat,
            out: Painted { text: encode_utf8(self.stdout@), colors: self.colors },
            undo: encode_utf8(self.undo@),
        }
    }

    fn note(&mut self, add: bool, line: &str, print_color: bool)
        ensures
            final(self).view() == noted(old(self).view(), add, line.spec_bytes(), print_color),
    {
        announce(&mut self.stdout, &mut self.colors, add, line, print_color);
        log(&mut self.undo, add, line);
    }

    fn remove_twin(&mut self, line: &str, remove_similar: bool, date_keys: &[Key], print_color: bool)
        ensures
            final(self).view() == twin_removed(
                old(self).view(),
                line.spec_bytes(),
                remove_similar,
                key_texts(date_keys@),
                print_color,
            ),
    {
        if !remove_similar {
            return ;
        }
        let at: usize = find_twin(line, &self.retained, date_keys);
        if at < self.retained.len() {
            let gone = self.retained.swap_remove(at);
            assert(texts(self.retained@) =~= texts(old(self).retained@).update(
                at as int,
                texts(old(self).retained@).last(),
            ).drop_last());
            self.note(false, gone.as_str(), print_color);
        }
    }

    fn work(
        &mut self,
        line: &str,
        mods: &[Modification],
        date_keys: &[Key],
        print_color: bool,
    )
        requires
            old(self).changed < usize::MAX,
        ensures
            final(self).view() == step(
                old(self).view(),
                line.spec_bytes(),
                edits(mods@),
                key_texts(date_keys@),
                print_color,
            ),
    {
        let mut buf = TaskBuf::new(line.to_owned());
        let mut add: Option<TaskBuf> = None;
        let mut remove_similar: bool = false;
        let ghost keys = key_texts(date_keys@);
        let ghost start = Outcome { line: line.spec_bytes(), add: None, remove_similar: false };
        let mut i: usize = 0;
        while i < mods.len()
            invariant
                i <= mods@.len(),
                keys == key_texts(date_keys@),
                all_edited(edits(mods@), start, keys, 0) == all_edited(
                    edits(mods@),
                    Outcome { line: buf@, add: line_of(add), remove_similar },
                    keys,
                    i as int,
                ),
            decreases mods@.len() - i,
        {
            let made = mods[i].apply(&mut buf, date_keys);
            assert(edits(mods@)[i as int] == mods@[i as int]@);
            if add.is_none() {
                add = made.add;
            }
            remove_similar = remove_similar || made.remove_similar;
            i += 1;
        }
        if str_eq(line, buf.as_str()) {
            keep_line(&mut self.added, line);
            return ;
        }
        keep_line(&mut self.added, buf.as_str());
        self.changed = self.changed + 1;
        self.note(false, line, print_color);
        if let Some(task) = add {
            keep_line(&mut self.added, task.as_str());
            self.note(true, task.as_str(), print_color);
        }
        self.remove_twin(buf.as_str(), remove_similar, date_keys, print_color);
        self.note(true, buf.as_str(), print_color);
    }
}

impl Command {
    /// Adds the task that the modifications make.
    pub fn add_tasks(tasks: String, undo: String, mods: &[Modification], print_color: bool) -> (r:
        Result<Output, Error>)
        ensures
            r is Ok,
            r->Ok_0@ == addition(
                encode_utf8(tasks@),
                encode_utf8(undo@),
                edits(mods@),
                print_color,
            ),
    {
        let lines = split_lines(tasks.as_str());
        let mut retained: Vec<String> = Vec::new();
        let mut i: usize = 0;
        assert(texts(retained@) =~= slices(lines@).subrange(0, 0));
        while i < lines.len()
            invariant
                i <= lines@.len(),
                texts(retained@) == slices(lines@).subrange(0, i as int),
            decreases lines@.len() - i,
        {
            keep_line(&mut retained, lines[i]);
            assert(slices(lines@).subrange(0, i as int).push(lines@[i as int].spec_bytes())
                =~= slices(lines@).subrange(0, i + 1));
            i += 1;
        }
        assert(slices(lines@).subrange(0, i as int) =~= slices(lines@));
        let mut buf = TaskBuf::new(String::new());
        assert(buf@ =~= Seq::<u8>::empty());
        let no_keys: Vec<Key> = Vec::new();
        assert(key_texts(no_keys@) =~= Seq::<Seq<u8>>::empty());
        let mut i: usize = 0;
        while i < mods.len()
            invariant
                i <= mods@.len(),
                key_texts(no_keys@) == Seq::<Seq<u8>>::empty(),
                composed(edits(mods@), Seq::empty(), 0) == composed(edits(mods@), buf@, i as int),
            decreases mods@.len() - i,
        {
            assert(edits(mods@)[i as int] == mods@[i as int]@);
            match &mods[i] {
                Modification::SetBody(body) => {
                    let _ = Modification::Append(body.clone()).apply(&mut buf, no_keys.as_slice());
                },
                other => {
                    let _ = other.apply(&mut buf, no_keys.as_slice());
                },
            }
            i += 1;
        }
        keep_line(&mut retained, buf.as_str());
        let mut undo = undo;
        push_str(&mut undo, "---\n");
        log(&mut undo, true, buf.as_str());
        let mut stdout = String::new();
        let mut colors = Colors::new();
        assert(encode_utf8(stdout@) =~= Seq::<u8>::empty());
        announce(&mut stdout, &mut colors, true, buf.as_str(), print_color);
        let sorted = sort_lines(retained);
        let tasks = join_lines(&sorted);
        Bg::Default.print(&mut stdout, &mut colors, print_color);
        Ok(Output::WriteFiles { stdout, confirm: false, tasks, undo })
    }

    /// Deletes the tasks that the filters want.
    pub fn remove_tasks(tasks: String, undo: String, filters: &[Filter], print_color: bool) -> (r:
        Result<Output, Error>)
        ensures
            r is Ok,
            r->Ok_0@ == removal(
                encode_utf8(tasks@),
                encode_utf8(undo@),
                sieves(filters@),
                print_color,
            ),
    {
        let lines = split_lines(tasks.as_str());
        let flags = choose_tasks(&lines, filters);
        let ghost all = lines_of(encode_utf8(tasks@));
        let ghost ss = sieves(filters@);
        let retained = retain(&lines, &flags, Ghost(ss));
        let mut undo = undo;
        push_str(&mut undo, "---\n");
        let mut stdout = String::new();
        let mut colors = Colors::new();
        assert(encode_utf8(stdout@) =~= Seq::<u8>::empty());
        let mut count: usize = 0;
        let ghost start = Deleted { out: fresh(), undo: encode_utf8(undo@), count: 0 };
        let mut i: usize = 0;
        while i < lines.len()
            invariant
                i <= lines@.len(),
                count <= i,
                flags@.len() == lines@.len(),
                all == slices(lines@),
                forall|j: int|
                    0 <= j < flags@.len() ==> flags@[j] == wanted(
                        ss,
                        #[trigger] all[j],
                        (j + 1) as nat,
                    ),
                deleted(start, all, ss, 0, print_color) == deleted(
                    Deleted {
                        out: Painted { text: encode_utf8(stdout@), colors },
                        undo: encode_utf8(undo@),
                        count: count as nat,
                    },
                    all,
                    ss,
                    i as int,
                    print_color,
                ),
            decreases lines@.len() - i,
        {
            if flags[i] {
                assert(all[i as int] == lines@[i as int].spec_bytes());
                announce(&mut stdout, &mut colors, false, lines[i], print_color);
                log(&mut undo, false, lines[i]);
                count += 1;
            }
            i += 1;
        }
        Fg::Default.print(&mut stdout, &mut colors, print_color);
        let sorted = sort_lines(retained);
        let tasks = join_lines(&sorted);
        Bg::Default.print(&mut stdout, &mut colors, print_color);
        Ok(Output::WriteFiles { stdout, confirm: count > 1, tasks, undo })
    }

    /// Makes the modifications to the tasks that the filters want.
    pub fn modify_tasks(
        tasks: String,
        undo: String,
        filters: &[Filter],
        mods: &[Modification],
        date_keys: &[Key],
        print_color: bool,
    ) -> (r: Result<Output, Error>)
        ensures
            r is Ok,
            r->Ok_0@ == modification(
                encode_utf8(tasks@),
                encode_utf8(undo@),
                sieves(filters@),
                edits(mods@),
                key_texts(date_keys@),
                print_color,
            ),
    {
        let lines = split_lines(tasks.as_str());
        let flags = choose_tasks(&lines, filters);
        let ghost all = lines_of(encode_utf8(tasks@));
        let ghost ss = sieves(filters@);
        let retained = retain(&lines, &flags, Ghost(ss));
        let mut undo = undo;
        push_str(&mut undo, "---\n");
        let mut desk = Desk {
            retained,
            added: Vec::new(),
            changed: 0,
            stdout: String::new(),
            colors: Colors::new(),
            undo,
        };
        let ghost start = desk.view();
        proof {
            assert(encode_utf8(desk.stdout@) =~= Seq::<u8>::empty());
            assert(texts(desk.added@) =~= Seq::<Seq<u8>>::empty());
        }
        let mut i: usize = 0;
        while i < lines.len()
            invariant
                i <= lines@.len(),
                desk.changed <= i,
                flags@.len() == lines@.len(),
                all == slices(lines@),
                forall|j: int|
                    0 <= j < flags@.len() ==> flags@[j] == wanted(
                        ss,
                        #[trigger] all[j],
                        (j + 1) as nat,
                    ),
                worked(
                    start,
                    all,
                    ss,
                    edits(mods@),
                    key_texts(date_keys@),
                    0,
                    print_color,
                ) == worked(
                    desk.view(),
                    all,
                    ss,
                    edits(mods@),
                    key_texts(date_keys@),
                    i as int,
                    print_color,
                ),
            decreases lines@.len() - i,
        {
            if flags[i] {
                assert(all[i as int] == lines@[i as int].spec_bytes());
                desk.work(lines[i], mods, date_keys, print_color);
            }
            i += 1;
        }
        let Desk { retained, added, changed, stdout, colors, undo } = desk;
        let mut retained = retained;
        let mut added = added;
        let mut stdout = stdout;
        let mut colors = colors;
        let ghost both = texts(retained@) + texts(added@);
        retained.append(&mut added);
        assert(texts(retained@) =~= both);
        let sorted = sort_lines(retained);
        let tasks = join_lines(&sorted);
        Bg::Default.print(&mut stdout, &mut colors, print_color);
        Ok(Output::WriteFiles { stdout, confirm: changed > 1, tasks, undo })
    }
}

} // verus!
