//! The command that takes back the last transaction of the undo log.

use crate::color::{Bg, Colors};
use crate::command::{announce, fresh, keep_line, with_record, Command, Output, Report};
use crate::error::{Error, Fault};
use crate::lines::{join_lines, lines_of, slices, sort_lines, sort_of, split_lines, text_of, texts};
use crate::print::{with_bg, Painted, Print};
use crate::text::{bytes_eq, lemma_cut_at_ascii, str_eq, tail};
use vstd::prelude::*;
use vstd::slice::slice_subrange;
use vstd::string::*;
use vstd::utf8::*;

verus! {

/// What a line of the undo log says.
pub enum Record {
    /// A transaction starts here.
    Separator,
    /// This line was added.
    Add(Seq<u8>),
    /// This line was deleted.
    Del(Seq<u8>),
    /// Nothing that an undo log says.
    Bad,
}

/// What a line of the undo log says. The line `---` starts a transaction.
/// A line that starts with `ADD ` or with `DEL ` names the line that
/// follows these four bytes. No other line is a record.
pub open spec fn record_of(line: Seq<u8>) -> Record {
    if line == "---".spec_bytes() {
        Record::Separator
    } else if line.len() >= 4 && line.subrange(0, 4) == "ADD ".spec_bytes() {
        Record::Add(line.subrange(4, line.len() as int))
    } else if line.len() >= 4 && line.subrange(0, 4) == "DEL ".spec_bytes() {
        Record::Del(line.subrange(4, line.len() as int))
    } else {
        Record::Bad
    }
}

/// The position of the first of the lines from position `from` on that is
/// the given line, or the number of lines if none is.
pub open spec fn position(lines: Seq<Seq<u8>>, line: Seq<u8>, from: int) -> int
    decreases lines.len() - from,
{
    if from < 0 || from >= lines.len() || lines[from] == line {
        from
    } else {
        position(lines, line, from + 1)
    }
}

/// The state of `undo` between two records.
pub struct Undone {
    /// The tasks.
    pub tasks: Seq<Seq<u8>>,
    /// The transcript.
    pub out: Painted,
    /// How many lines of the undo log stay.
    pub kept: int,
}

/// What taking back the records before position `upto`, the last first,
/// makes of the tasks. A line that was added goes again, and must be
/// there; a line that was deleted comes back. The line that starts the
/// transaction ends the work, and goes with the records.
pub open spec fn undone(
    tasks: Seq<Seq<u8>>,
    out: Painted,
    log: Seq<Seq<u8>>,
    upto: int,
    color: bool,
) -> Result<Undone, Fault>
    decreases upto,
{
    if upto <= 0 || upto > log.len() {
        Ok(Undone { tasks, out, kept: 0 })
    } else {
        match record_of(log[upto - 1]) {
            Record::Separator => Ok(Undone { tasks, out, kept: upto - 1 }),
            Record::Add(task) => if position(tasks, task, 0) < tasks.len() {
                undone(
                    tasks.remove(position(tasks, task, 0)),
                    with_record(out, false, task, color),
                    log,
                    upto - 1,
                    color,
                )
            } else {
                Err(Fault::UndoMismatch(task))
            },
            Record::Del(task) => undone(
                tasks.push(task),
                with_record(out, true, task, color),
                log,
                upto - 1,
                color,
            ),
            Record::Bad => Err(Fault::MalformedUndo(log[upto - 1])),
        }
    }
}

/// What `undo` gives: the tasks with the last transaction of the undo log
/// taken back, and the undo log without that transaction. A confirmation is
/// always asked.
pub open spec fn undoing(tasks: Seq<u8>, undo: Seq<u8>, color: bool) -> Result<Report, Fault> {
    match undone(lines_of(tasks), fresh(), lines_of(undo), lines_of(undo).len() as int, color) {
        Ok(done) => Ok(
            Report::WriteFiles {
                stdout: with_bg(done.out, Bg::Default, color).text,
                confirm: true,
                tasks: text_of(sort_of(done.tasks)),
                undo: text_of(lines_of(undo).subrange(0, done.kept)),
            },
        ),
        Err(fault) => Err(fault),
    }
}

/// One line of the undo log, read.
enum Entry<'a> {
    Separator,
    Add(&'a str),
    Del(&'a str),
    Bad,
}

impl<'a> Entry<'a> {
    spec fn view(&self) -> Record {
        match self {
            Entry::Separator => Record::Separator,
            Entry::Add(task) => Record::Add(task.spec_bytes()),
            Entry::Del(task) => Record::Del(task.spec_bytes()),
            Entry::Bad => Record::Bad,
        }
    }
}

fn read_record<'a>(line: &'a str) -> (r: Entry<'a>)
    ensures
        r.view() == record_of(line.spec_bytes()),
{
    let bytes = line.as_bytes();
    if bytes_eq(bytes, "---".as_bytes()) {
        return Entry::Separator;
    }
    if bytes.len() < 4 {
        return Entry::Bad;
    }
    let head = slice_subrange(bytes, 0, 4);
    let add: bool = bytes_eq(head, "ADD ".as_bytes());
    let del: bool = bytes_eq(head, "DEL ".as_bytes());
    if !(add || del) {
        return Entry::Bad;
    }
    proof {
        reveal_strlit("ADD ");
        reveal_strlit("DEL ");
        is_ascii_chars_encode_utf8("ADD "@);
        is_ascii_chars_encode_utf8("DEL "@);
        assert(bytes@[3] == head@[3]);
        lemma_cut_at_ascii(bytes@, 3);
    }
    let task = tail(line, 4);
    if add {
        Entry::Add(task)
    } else {
        Entry::Del(task)
    }
}

fn find_line(tasks: &Vec<String>, line: &str) -> (r: usize)
    ensures
        r == position(texts(tasks@), line.spec_bytes(), 0),
        r <= tasks@.len(),
{
    let mut i: usize = 0;
    while i < tasks.len()
        invariant
            i <= tasks@.len(),
            position(texts(tasks@), line.spec_bytes(), 0) == position(
                texts(tasks@),
                line.spec_bytes(),
                i as int,
            ),
        decreases tasks@.len() - i,
    {
        if str_eq(tasks[i].as_str(), line) {
            return i;
        }
        i += 1;
    }
    i
}

/// Takes back the records of the last transaction, the last first, and
/// says how many lines of the undo log stay.
fn take_back(
    list: &mut Vec<String>,
    stdout: &mut String,
    colors: &mut Colors,
    records: &Vec<&str>,
    print_color: bool,
) -> (r: Result<usize, Error>)
    ensures
        match undone(
            texts(old(list)@),
            Painted { text: encode_utf8(old(stdout)@), colors: *old(colors) },
            slices(records@),
            records@.len() as int,
            print_color,
        ) {
            Ok(done) => r is Ok && r->Ok_0 == done.kept && r->Ok_0 <= records@.len() && texts(
                final(list)@,
            ) == done.tasks && (Painted {
                text: encode_utf8(final(stdout)@),
                colors: *final(colors),
            }) == done.out,
            Err(fault) => r is Err && r->Err_0@ == fault,
        },
{
    let ghost log = slices(records@);
    let ghost goal = undone(
        texts(list@),
        Painted { text: encode_utf8(stdout@), colors: *colors },
        log,
        log.len() as int,
        print_color,
    );
    let mut upto: usize = records.len();
    while upto > 0
        invariant
            upto <= records@.len(),
            log == slices(records@),
            goal == undone(
                texts(old(list)@),
                Painted { text: encode_utf8(old(stdout)@), colors: *old(colors) },
                log,
                log.len() as int,
                print_color,
            ),
            goal == undone(
                texts(list@),
                Painted { text: encode_utf8(stdout@), colors: *colors },
                log,
                upto as int,
                print_color,
            ),
        decreases upto,
    {
        let line = records[upto - 1];
        assert(log[upto - 1] == line.spec_bytes());
        match read_record(line) {
            Entry::Separator => {
                return Ok(upto - 1);
            },
            Entry::Add(task) => {
                let at: usize = find_line(list, task);
                if at >= list.len() {
                    return Err(Error::UndoMismatch(task.to_owned()));
                }
                announce(stdout, colors, false, task, print_color);
                let ghost had = texts(list@);
                let _ = list.remove(at);
                assert(texts(list@) =~= had.remove(at as int));
            },
            Entry::Del(task) => {
                announce(stdout, colors, true, task, print_color);
                keep_line(list, task);
            },
            Entry::Bad => {
                return Err(Error::MalformedUndo(line.to_owned()));
            },
        }
        upto = upto - 1;
    }
    Ok(0)
}

impl Command {
    /// Takes back the last transaction of the undo log.
    pub fn undo(tasks: String, undo: String, print_color: bool) -> (r: Result<Output, Error>)
        ensures
            match undoing(encode_utf8(tasks@), encode_utf8(undo@), print_color) {
                Ok(report) => r is Ok && r->Ok_0@ == report,
                Err(fault) => r is Err && r->Err_0@ == fault,
            },
    {
        let lines = split_lines(tasks.as_str());
        let mut list: Vec<String> = Vec::new();
        let mut i: usize = 0;
        assert(texts(list@) =~= slices(lines@).subrange(0, 0));
        while i < lines.len()
            invariant
                i <= lines@.len(),
                texts(list@) == slices(lines@).subrange(0, i as int),
            decreases lines@.len() - i,
        {
            keep_line(&mut list, lines[i]);
            assert(slices(lines@).subrange(0, i as int).push(lines@[i as int].spec_bytes())
                =~= slices(lines@).subrange(0, i + 1));
            i += 1;
        }
        assert(slices(lines@).subrange(0, i as int) =~= slices(lines@));
        let records = split_lines(undo.as_str());
        let ghost log = lines_of(encode_utf8(undo@));
        let mut stdout = String::new();
        let mut colors = Colors::new();
        assert(encode_utf8(stdout@) =~= Seq::<u8>::empty());
        let upto: usize = match take_back(&mut list, &mut stdout, &mut colors, &records, print_color) {
            Ok(upto) => upto,
            Err(e) => return Err(e),
        };
        let sorted = sort_lines(list);
        let tasks = join_lines(&sorted);
        let mut kept: Vec<String> = Vec::new();
        let mut i: usize = 0;
        assert(texts(kept@) =~= log.subrange(0, 0));
        while i < upto
            invariant
                i <= upto <= records@.len(),
                log == slices(records@),
                texts(kept@) == log.subrange(0, i as int),
            decreases upto - i,
        {
            keep_line(&mut kept, records[i]);
            assert(log.subrange(0, i as int).push(records@[i as int].spec_bytes())
                =~= log.subrange(0, i + 1));
            i += 1;
        }
        let undo = join_lines(&kept);
        Bg::Default.print(&mut stdout, &mut colors, print_color);
        Ok(Output::WriteFiles { stdout, confirm: true, tasks, undo })
    }
}

} // verus!
