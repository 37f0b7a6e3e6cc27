//! The commands, and what they share: which tasks the filters want, and the
//! records of what a command added and deleted.

use crate::change::{
    addition, composed, edits, modification, removal, separator, unwanted_lines, worked, Work,
};
use crate::color::{Bg, Colors, Fg};
use crate::error::{Error, Fault};
use crate::field::{Key, Number};
use crate::filter::{keeps, key_texts, Filter, Sieve};
use crate::lines::{
    is_one_line, is_sorted, lemma_read_back, lemma_sort_keeps, lemma_sort_of, lines_of, sort_of,
    text_of, texts,
};
use crate::list::{task_list, token_list, TokenType};
use crate::modification::{Edit, Modification};
use crate::undo::{undoing, undone};
use crate::print::{blank, with_fg, with_task, with_text, Painted, Print};
use crate::task::Task;
use crate::text::{push_str, str_eq};
use vstd::prelude::*;
use vstd::string::*;
use vstd::utf8::*;

verus! {

/// What a command can be.
#[derive(Clone, Copy, Debug, PartialEq, Eq, Structural)]
pub enum Command {
    ListTasks,
    ListProjects,
    ListContexts,
    ListKeys,
    AddTask,
    RemoveTasks,
    ModifyTasks,
    Undo,
}

/// What a command gives back.
#[derive(Debug, PartialEq)]
pub enum Output {
    /// Something to print.
    JustPrint { stdout: String },
    /// Something to print, and the new content of the two files, to be
    /// written after a confirmation if one is asked for.
    WriteFiles { stdout: String, confirm: bool, tasks: String, undo: String },
}

/// What a command gives back, as a plain value.
pub enum Report {
    JustPrint { stdout: Seq<u8> },
    WriteFiles { stdout: Seq<u8>, confirm: bool, tasks: Seq<u8>, undo: Seq<u8> },
}

impl View for Output {
    type V = Report;

    open spec fn view(&self) -> Report {
        match self {
            Output::JustPrint { stdout } => Report::JustPrint { stdout: encode_utf8(stdout@) },
            Output::WriteFiles { stdout, confirm, tasks, undo } => Report::WriteFiles {
                stdout: encode_utf8(stdout@),
                confirm: *confirm,
                tasks: encode_utf8(tasks@),
                undo: encode_utf8(undo@),
            },
        }
    }
}

/// The filters as plain values.
pub open spec fn sieves(filters: Seq<Filter>) -> Seq<Sieve> {
    Seq::new(filters.len(), |i: int| filters[i]@)
}

/// Whether every filter keeps the task on a line with a number. No filter
/// at all keeps every task.
pub open spec fn wanted(sieves: Seq<Sieve>, line: Seq<u8>, nr: nat) -> bool {
    forall|i: int| 0 <= i < sieves.len() ==> keeps(#[trigger] sieves[i], line, nr)
}

/// The colors that the terminal is in when a command starts.
pub open spec fn fresh() -> Painted {
    blank(Colors { fg: Fg::Default, bg: Bg::Default })
}

/// The word that starts a record.
pub open spec fn verb(add: bool) -> Seq<u8> {
    if add {
        "ADD ".spec_bytes()
    } else {
        "DEL ".spec_bytes()
    }
}

/// A record of the undo log: `ADD ` or `DEL `, the line, and a line feed.
pub open spec fn record(add: bool, line: Seq<u8>) -> Seq<u8> {
    verb(add) + line + seq![0x0au8]
}

/// After `before`: the record of a line, an addition in green and a
/// deletion in red.
pub open spec fn with_record(before: Painted, add: bool, line: Seq<u8>, color: bool) -> Painted {
    with_text(
        with_task(
            with_text(
                with_fg(
                    before,
                    if add {
                        Fg::Green
                    } else {
                        Fg::Red
                    },
                    color,
                ),
                verb(add),
            ),
            line,
            color,
        ),
        seq![0x0au8],
    )
}

/// Whether every filter keeps the task.
pub fn select(filters: &[Filter], task: &Task, nr: Number) -> (r: bool)
    ensures
        r == wanted(sieves(filters@), task@, nr@),
{
    let mut i: usize = 0;
    while i < filters.len()
        invariant
            i <= filters@.len(),
            forall|j: int| 0 <= j < i ==> keeps(#[trigger] sieves(filters@)[j], task@, nr@),
        decreases filters@.len() - i,
    {
        if !filters[i].keep(task, nr) {
            assert(!keeps(sieves(filters@)[i as int], task@, nr@));
            return false;
        }
        i += 1;
    }
    true
}

/// Prints the record of a line.
pub fn announce(
    stdout: &mut String,
    colors: &mut Colors,
    add: bool,
    line: &str,
    print_color: bool,
)
    ensures
        (Painted { text: encode_utf8(final(stdout)@), colors: *final(colors) }) == with_record(
            Painted { text: encode_utf8(old(stdout)@), colors: *old(colors) },
            add,
            line.spec_bytes(),
            print_color,
        ),
{
    if add {
        Fg::Green.print(stdout, colors, print_color);
        push_str(stdout, "ADD ");
    } else {
        Fg::Red.print(stdout, colors, print_color);
        push_str(stdout, "DEL ");
    }
    Task::new(line).print(stdout, colors, print_color);
    push_str(stdout, "\n");
    proof {
        reveal_strlit("\n");
        is_ascii_chars_encode_utf8("\n"@);
        assert("\n".spec_bytes() =~= seq![0x0au8]);
    }
}

/// Writes the record of a line to the undo log.
pub fn log(undo: &mut String, add: bool, line: &str)
    ensures
        encode_utf8(final(undo)@) == encode_utf8(old(undo)@) + record(add, line.spec_bytes()),
{
    if add {
        push_str(undo, "ADD ");
    } else {
        push_str(undo, "DEL ");
    }
    push_str(undo, line);
    push_str(undo, "\n");
    proof {
        reveal_strlit("\n");
        is_ascii_chars_encode_utf8("\n"@);
        assert("\n".spec_bytes() =~= seq![0x0au8]);
        assert(encode_utf8(undo@) =~= encode_utf8(old(undo)@) + record(add, line.spec_bytes()));
    }
}

/// Adds a line to a list of lines.
pub fn keep_line(list: &mut Vec<String>, line: &str)
    ensures
        texts(final(list)@) == texts(old(list)@).push(line.spec_bytes()),
{
    list.push(line.to_owned());
    assert(texts(list@) =~= texts(old(list)@).push(line.spec_bytes()));
}

impl Command {
    /// The command that a word names.
    pub open spec fn named(word: Seq<u8>) -> Option<Command> {
        if word == "list".spec_bytes() {
            Some(Command::ListTasks)
        } else if word == "projects".spec_bytes() {
            Some(Command::ListProjects)
        } else if word == "contexts".spec_bytes() {
            Some(Command::ListContexts)
        } else if word == "keys".spec_bytes() {
            Some(Command::ListKeys)
        } else if word == "add".spec_bytes() {
            Some(Command::AddTask)
        } else if word == "delete".spec_bytes() {
            Some(Command::RemoveTasks)
        } else if word == "modify".spec_bytes() {
            Some(Command::ModifyTasks)
        } else if word == "undo".spec_bytes() {
            Some(Command::Undo)
        } else {
            None
        }
    }

    /// What the command gives for the content of the task file and of the
    /// undo log, the filters, the changes and the keys that hold dates. The
    /// commands that list, `delete` and `undo` take no changes.
    pub open spec fn outcome(
        self,
        tasks: Seq<u8>,
        undo: Seq<u8>,
        sieves: Seq<Sieve>,
        changes: Seq<Edit>,
        keys: Seq<Seq<u8>>,
        color: bool,
    ) -> Result<Report, Fault> {
        if changes.len() > 0 && self != Command::AddTask && self != Command::ModifyTasks {
            Err(Fault::CmdDisallowsMod)
        } else {
            match self {
                Command::ListTasks => Ok(
                    Report::JustPrint { stdout: task_list(lines_of(tasks), sieves, color) },
                ),
                Command::ListProjects => Ok(
                    Report::JustPrint {
                        stdout: token_list(lines_of(tasks), sieves, TokenType::Projects, color),
                    },
                ),
                Command::ListContexts => Ok(
                    Report::JustPrint {
                        stdout: token_list(lines_of(tasks), sieves, TokenType::Contexts, color),
                    },
                ),
                Command::ListKeys => Ok(
                    Report::JustPrint {
                        stdout: token_list(lines_of(tasks), sieves, TokenType::Keys, color),
                    },
                ),
                Command::AddTask => Ok(addition(tasks, undo, changes, color)),
                Command::RemoveTasks => Ok(removal(tasks, undo, sieves, color)),
                Command::ModifyTasks => Ok(modification(tasks, undo, sieves, changes, keys, color)),
                Command::Undo => undoing(tasks, undo, color),
            }
        }
    }

    /// Runs the command.
    pub fn run(
        &self,
        tasks: String,
        undo: String,
        filters: &[Filter],
        mods: &[Modification],
        date_keys: &[Key],
        print_color: bool,
    ) -> (r: Result<Output, Error>)
        ensures
            match self.outcome(
                encode_utf8(tasks@),
                encode_utf8(undo@),
                sieves(filters@),
                edits(mods@),
                key_texts(date_keys@),
                print_color,
            ) {
                Ok(report) => r is Ok && r->Ok_0@ == report,
                Err(fault) => r is Err && r->Err_0@ == fault,
            },
    {
        let reads: bool = match self {
            Command::AddTask => false,
            Command::ModifyTasks => false,
            _ => true,
        };
        if reads && mods.len() > 0 {
            return Err(Error::CmdDisallowsMod);
        }
        match self {
            Command::ListTasks => Command::list_tasks(tasks, filters, print_color),
            Command::ListProjects => Command::list_tokens(
                tasks,
                filters,
                TokenType::Projects,
                print_color,
            ),
            Command::ListContexts => Command::list_tokens(
                tasks,
                filters,
                TokenType::Contexts,
                print_color,
            ),
            Command::ListKeys => Command::list_tokens(tasks, filters, TokenType::Keys, print_color),
            Command::AddTask => Command::add_tasks(tasks, undo, mods, print_color),
            Command::RemoveTasks => Command::remove_tasks(tasks, undo, filters, print_color),
            Command::ModifyTasks => Command::modify_tasks(
                tasks,
                undo,
                filters,
                mods,
                date_keys,
                print_color,
            ),
            Command::Undo => Command::undo(tasks, undo, print_color),
        }
    }

    /// Reads the name of a command.
    pub fn new(str: &str) -> (r: Option<Self>)
        ensures
            r == Command::named(str.spec_bytes()),
    {
        if str_eq(str, "list") {
            Some(Command::ListTasks)
        } else if str_eq(str, "projects") {
            Some(Command::ListProjects)
        } else if str_eq(str, "contexts") {
            Some(Command::ListContexts)
        } else if str_eq(str, "keys") {
            Some(Command::ListKeys)
        } else if str_eq(str, "add") {
            Some(Command::AddTask)
        } else if str_eq(str, "delete") {
            Some(Command::RemoveTasks)
        } else if str_eq(str, "modify") {
            Some(Command::ModifyTasks)
        } else if str_eq(str, "undo") {
            Some(Command::Undo)
        } else {
            None
        }
    }
}

/// The lines that a command writes to the task file, before they are put in
/// order; none for a command that writes no file.
pub open spec fn written_lines(
    command: Command,
    tasks: Seq<u8>,
    undo: Seq<u8>,
    sieves: Seq<Sieve>,
    changes: Seq<Edit>,
    keys: Seq<Seq<u8>>,
    color: bool,
) -> Seq<Seq<u8>> {
    match command {
        Command::AddTask => lines_of(tasks).push(composed(changes, Seq::empty(), 0)),
        Command::RemoveTasks => unwanted_lines(lines_of(tasks), sieves, 0),
        Command::ModifyTasks => {
            let done = worked(
                Work {
                    retained: unwanted_lines(lines_of(tasks), sieves, 0),
                    added: Seq::empty(),
                    changed: 0,
                    out: fresh(),
                    undo: undo + separator(),
                },
                lines_of(tasks),
                sieves,
                changes,
                keys,
                0,
                color,
            );
            done.retained + done.added
        },
        Command::Undo => match undone(
            lines_of(tasks),
            fresh(),
            lines_of(undo),
            lines_of(undo).len() as int,
            color,
        ) {
            Ok(done) => done.tasks,
            Err(_) => Seq::empty(),
        },
        _ => Seq::empty(),
    }
}

/// Order: what a command writes to the task file is a list of lines in
/// order, byte by byte, each followed by a line feed.
pub proof fn lemma_written_in_order(
    command: Command,
    tasks: Seq<u8>,
    undo: Seq<u8>,
    sieves: Seq<Sieve>,
    changes: Seq<Edit>,
    keys: Seq<Seq<u8>>,
    color: bool,
)
    ensures
        match command.outcome(tasks, undo, sieves, changes, keys, color) {
            Ok(Report::WriteFiles { tasks: written, .. }) => {
                let lines = sort_of(
                    written_lines(command, tasks, undo, sieves, changes, keys, color),
                );
                is_sorted(lines) && written == text_of(lines)
            },
            _ => true,
        },
{
    lemma_sort_of(written_lines(command, tasks, undo, sieves, changes, keys, color));
}

/// Order, read back: where each line that a command writes can stand in a
/// file as one line, the file that it writes holds its lines in order.
pub proof fn lemma_written_reads_in_order(
    command: Command,
    tasks: Seq<u8>,
    undo: Seq<u8>,
    sieves: Seq<Sieve>,
    changes: Seq<Edit>,
    keys: Seq<Seq<u8>>,
    color: bool,
)
    requires
        forall|i: int|
            0 <= i < written_lines(command, tasks, undo, sieves, changes, keys, color).len()
                ==> is_one_line(
                #[trigger] written_lines(command, tasks, undo, sieves, changes, keys, color)[i],
            ),
    ensures
        match command.outcome(tasks, undo, sieves, changes, keys, color) {
            Ok(Report::WriteFiles { tasks: written, .. }) => is_sorted(lines_of(written)),
            _ => true,
        },
{
    let lines = written_lines(command, tasks, undo, sieves, changes, keys, color);
    lemma_sort_of(lines);
    assert forall|i: int| 0 <= i < sort_of(lines).len() implies is_one_line(
        #[trigger] sort_of(lines)[i],
    ) by {
        lemma_sort_keeps(lines, i);
        let j = choose|j: int| 0 <= j < lines.len() && lines[j] == sort_of(lines)[i];
        assert(is_one_line(lines[j]));
    }
    lemma_read_back(sort_of(lines));
}

} // verus!
