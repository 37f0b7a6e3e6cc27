//! A text-based task-list engine: a positional grammar for task lines, a date
//! engine, filters, modifications, and the commands that combine them.
//!
//! The library does no input or output. It is given the content of the task
//! file and of the undo log, and gives back what is to be printed and what
//! the two files are to hold.

pub mod args;
pub mod calendar;
pub mod change;
pub mod color;
pub mod command;
pub mod date;
pub mod error;
pub mod field;
pub mod filter;
pub mod lines;
pub mod list;
pub mod modification;
pub mod pattern;
pub mod print;
pub mod task;
pub mod taskiter;
pub mod text;
pub mod token;
pub mod undo;

pub use crate::command::Output;
pub use crate::error::Error;

use crate::args::{advance, files, flipped, ArgIter, ArgNext, ArgStage, Context, Item, Reader};
use crate::command::{sieves, Command, Report};
use crate::change::edits;
use crate::date::Date;
use crate::error::Fault;
use crate::field::Key;
use crate::filter::{clashes, key_texts, sieve_of, Filter, Sieve};
use crate::lines::{lines_of, slices, split_lines, texts};
use crate::modification::{Edit, Modification};
use crate::text::{lemma_cut_at_ascii, lemma_run_end, run_end, scan_run, substr};
use vstd::prelude::*;
use vstd::string::*;
use vstd::utf8::*;

verus! {

/// A file of the configuration: its name and what it holds.
#[derive(Clone, Debug)]
pub struct File {
    pub name: String,
    pub content: String,
}

/// All that a call is given.
#[derive(Clone, Debug)]
pub struct Config {
    /// The arguments.
    pub args: Vec<String>,
    /// The moment of the call.
    pub now: Date,
    /// The content of the task file, if there is one.
    pub tasks: Option<String>,
    /// The content of the undo log, if there is one.
    pub undo: Option<String>,
    /// The keys that hold dates, one on a line, with or without a `:` behind
    /// it.
    pub date_keys: Option<String>,
    /// The aliases for filters.
    pub filter_aliases: Vec<File>,
    /// The aliases for commands.
    pub command_aliases: Vec<File>,
    /// The aliases for modifications.
    pub modification_aliases: Vec<File>,
    /// The filters that hold where no filter about the same thing is given.
    pub default_filters: Vec<File>,
    /// Whether to print in color.
    pub print_color: bool,
}

/// The arguments, read.
pub struct Parsed {
    pub sieves: Seq<Sieve>,
    pub command: Command,
    pub edits: Seq<Edit>,
}

/// A line without the `:` that may end it.
pub open spec fn key_name(line: Seq<u8>) -> Seq<u8> {
    if line.len() > 0 && line.last() == 0x3a {
        line.drop_last()
    } else {
        line
    }
}

/// The keys that the lines name.
pub open spec fn key_names(lines: Seq<Seq<u8>>) -> Seq<Seq<u8>> {
    Seq::new(lines.len(), |i: int| key_name(lines[i]))
}

/// The text of an optional file; a file that is not there is empty.
pub open spec fn content(file: Option<String>) -> Seq<u8> {
    match file {
        Some(text) => encode_utf8(text@),
        None => Seq::empty(),
    }
}

/// What reading up to `fuel` more arguments adds to the arguments read so
/// far. The last command read is the command.
pub open spec fn read_items(reader: Reader, cx: Context, so_far: Parsed, fuel: nat) -> Result<
    Parsed,
    Fault,
>
    decreases fuel,
{
    if fuel == 0 {
        Ok(so_far)
    } else {
        let read = advance(reader, cx);
        match read.item {
            None => Ok(so_far),
            Some(Err(fault)) => Err(fault),
            Some(Ok(Item::Filter(sieve))) => read_items(
                read.reader,
                cx,
                Parsed { sieves: so_far.sieves.push(sieve), ..so_far },
                (fuel - 1) as nat,
            ),
            Some(Ok(Item::Command(command))) => read_items(
                read.reader,
                cx,
                Parsed { command, ..so_far },
                (fuel - 1) as nat,
            ),
            Some(Ok(Item::Modification(edit))) => read_items(
                read.reader,
                cx,
                Parsed { edits: so_far.edits.push(edit), ..so_far },
                (fuel - 1) as nat,
            ),
        }
    }
}

/// The words of a text from position `from` on: what stands between
/// whitespace.
pub open spec fn plain_words(s: Seq<u8>, from: int) -> Seq<Seq<u8>>
    decreases s.len() - from,
{
    let start = run_end(s, from, true);
    let end = run_end(s, start, false);
    if from < 0 || start < from || start >= s.len() || end <= start || end > s.len() {
        Seq::empty()
    } else {
        seq![s.subrange(start, end)] + plain_words(s, end)
    }
}

/// Whether one of the filters asks about the same thing as a rule.
pub open spec fn clashing(given: Seq<Sieve>, sieve: Sieve) -> bool {
    exists|i: int| 0 <= i < given.len() && clashes((#[trigger] given[i]).rule, sieve.rule)
}

/// The default filters that the words from position `from` on add to those
/// found so far: each word must be a filter, and holds unless one of the
/// filters given asks about the same thing.
pub open spec fn defaults_in(
    words: Seq<Seq<u8>>,
    given: Seq<Sieve>,
    so_far: Seq<Sieve>,
    now: Date,
    keys: Seq<Seq<u8>>,
    from: int,
) -> Result<Seq<Sieve>, Fault>
    decreases words.len() - from,
{
    if from < 0 || from >= words.len() {
        Ok(so_far)
    } else {
        match sieve_of(words[from], now, keys) {
            Err(fault) => Err(fault),
            Ok(None) => Err(Fault::InvalidDefaultFilter(words[from])),
            Ok(Some(sieve)) => defaults_in(
                words,
                given,
                if clashing(given, sieve) {
                    so_far
                } else {
                    so_far.push(sieve)
                },
                now,
                keys,
                from + 1,
            ),
        }
    }
}

/// The default filters that the files from position `from` on add to those
/// found so far.
pub open spec fn defaults(
    list: Seq<(Seq<u8>, Seq<u8>)>,
    given: Seq<Sieve>,
    so_far: Seq<Sieve>,
    now: Date,
    keys: Seq<Seq<u8>>,
    from: int,
) -> Result<Seq<Sieve>, Fault>
    decreases list.len() - from,
{
    if from < 0 || from >= list.len() {
        Ok(so_far)
    } else {
        match defaults_in(plain_words(list[from].1, 0), given, so_far, now, keys, 0) {
            Err(fault) => Err(fault),
            Ok(found) => defaults(list, given, found, now, keys, from + 1),
        }
    }
}

/// What a call gives: the arguments are read, the default filters that do
/// not clash with a filter given are added to the filters, and the command
/// is run; without a command, the tasks are listed.
pub open spec fn ran(config: Config) -> Result<Report, Fault> {
    let keys = key_names(lines_of(content(config.date_keys)));
    let cx = Context {
        now: config.now,
        keys,
        filter_aliases: files(config.filter_aliases@),
        command_aliases: files(config.command_aliases@),
        modification_aliases: files(config.modification_aliases@),
    };
    match read_items(
        Reader { stage: ArgStage::Filter, stack: flipped(texts(config.args@)), force_append: false },
        cx,
        Parsed { sieves: Seq::empty(), command: Command::ListTasks, edits: Seq::empty() },
        usize::MAX as nat,
    ) {
        Err(fault) => Err(fault),
        Ok(parsed) => match defaults(
            files(config.default_filters@),
            parsed.sieves,
            Seq::empty(),
            config.now,
            keys,
            0,
        ) {
            Err(fault) => Err(fault),
            Ok(more) => parsed.command.outcome(
                content(config.tasks),
                content(config.undo),
                parsed.sieves + more,
                parsed.edits,
                keys,
                config.print_color,
            ),
        },
    }
}

impl Config {
    /// A call at a moment, with nothing else given.
    pub fn new(now: Date) -> (r: Config)
        ensures
            r.now == now,
            r.args@.len() == 0,
            r.tasks is None,
            r.undo is None,
            r.date_keys is None,
            r.filter_aliases@.len() == 0,
            r.command_aliases@.len() == 0,
            r.modification_aliases@.len() == 0,
            r.default_filters@.len() == 0,
            !r.print_color,
    {
        Config {
            args: Vec::new(),
            now,
            tasks: None,
            undo: None,
            date_keys: None,
            filter_aliases: Vec::new(),
            command_aliases: Vec::new(),
            modification_aliases: Vec::new(),
            default_filters: Vec::new(),
            print_color: false,
        }
    }
}

/// The keys that the lines of a text name.
fn read_keys<'a>(text: &'a str) -> (r: Vec<Key<'a>>)
    ensures
        key_texts(r@) == key_names(lines_of(text.spec_bytes())),
{
    let lines = split_lines(text);
    let mut keys: Vec<Key<'a>> = Vec::new();
    let mut i: usize = 0;
    while i < lines.len()
        invariant
            i <= lines@.len(),
            keys@.len() == i,
            forall|j: int| 0 <= j < i ==> (#[trigger] keys@[j])@ == key_name(slices(lines@)[j]),
        decreases lines@.len() - i,
    {
        let line = lines[i];
        let bytes = line.as_bytes();
        let n: usize = bytes.len();
        let name = if n > 0 && bytes[n - 1] == 0x3a {
            proof {
                lemma_cut_at_ascii(bytes@, n - 1);
            }
            let name = substr(line, 0, n - 1);
            assert(name.spec_bytes() =~= bytes@.drop_last());
            name
        } else {
            line
        };
        assert(slices(lines@)[i as int] == line.spec_bytes());
        keys.push(Key::new(name));
        i += 1;
    }
    assert(key_texts(keys@) =~= key_names(slices(lines@)));
    keys
}

/// What the arguments hold.
struct Arguments<'a> {
    filters: Vec<Filter<'a>>,
    command: Command,
    mods: Vec<Modification<'a>>,
}

impl<'a> Arguments<'a> {
    spec fn view(&self) -> Parsed {
        Parsed { sieves: sieves(self.filters@), command: self.command, edits: edits(self.mods@) }
    }
}

/// Reads the arguments to their end.
fn read_args<'a>(args: &mut ArgIter<'a>) -> (r: Result<Arguments<'a>, Error>)
    ensures
        match read_items(
            old(args)@,
            old(args).context(),
            Parsed { sieves: Seq::empty(), command: Command::ListTasks, edits: Seq::empty() },
            usize::MAX as nat,
        ) {
            Ok(parsed) => r is Ok && r->Ok_0.view() == parsed,
            Err(fault) => r is Err && r->Err_0@ == fault,
        },
{
    let mut found = Arguments { filters: Vec::new(), command: Command::ListTasks, mods: Vec::new() };
    let ghost cx = args.context();
    let ghost goal = read_items(
        args@,
        cx,
        Parsed { sieves: Seq::empty(), command: Command::ListTasks, edits: Seq::empty() },
        usize::MAX as nat,
    );
    let mut fuel: usize = usize::MAX;
    proof {
        assert(sieves(found.filters@) =~= Seq::<Sieve>::empty());
        assert(edits(found.mods@) =~= Seq::<Edit>::empty());
    }
    while fuel > 0
        invariant
            args.context() == cx,
            cx == old(args).context(),
            goal == read_items(
                old(args)@,
                cx,
                Parsed { sieves: Seq::empty(), command: Command::ListTasks, edits: Seq::empty() },
                usize::MAX as nat,
            ),
            goal == read_items(args@, cx, found.view(), fuel as nat),
        decreases fuel,
    {
        let ghost had = found.view();
        let ghost read = advance(args@, cx);
        let next = args.next();
        proof {
            assert(read.reader == args@);
            assert(read.item == crate::args::item_of(next));
        }
        match next {
            None => {
                return Ok(found);
            },
            Some(Err(e)) => {
                return Err(e);
            },
            Some(Ok(ArgNext::Filter(filter))) => {
                found.filters.push(filter);
                assert(sieves(found.filters@) =~= had.sieves.push(filter@));
                assert(found.view() == (Parsed { sieves: had.sieves.push(filter@), ..had }));
            },
            Some(Ok(ArgNext::Command(command))) => {
                found.command = command;
                assert(found.view() == (Parsed { command, ..had }));
            },
            Some(Ok(ArgNext::Modification(modification))) => {
                found.mods.push(modification);
                assert(edits(found.mods@) =~= had.edits.push(modification@));
                assert(found.view() == (Parsed { edits: had.edits.push(modification@), ..had }));
            },
        }
        fuel = fuel - 1;
    }
    Ok(found)
}

/// Whether one of the filters asks about the same thing as another filter.
fn any_conflict(given: &Vec<Filter>, filter: &Filter) -> (r: bool)
    ensures
        r == clashing(sieves(given@), filter@),
{
    let mut i: usize = 0;
    while i < given.len()
        invariant
            i <= given@.len(),
            forall|j: int|
                0 <= j < i ==> !clashes((#[trigger] sieves(given@)[j]).rule, filter@.rule),
        decreases given@.len() - i,
    {
        if given[i].conflicts(filter) {
            assert(clashes(sieves(given@)[i as int].rule, filter@.rule));
            return true;
        }
        i += 1;
    }
    false
}

/// The words of a text.
fn split_words<'a>(text: &'a str) -> (r: Vec<&'a str>)
    ensures
        slices(r@) == plain_words(text.spec_bytes(), 0),
{
    let bytes = text.as_bytes();
    let mut words: Vec<&'a str> = Vec::new();
    let mut from: usize = 0;
    proof {
        assert(slices(words@) =~= Seq::<Seq<u8>>::empty());
        assert(slices(words@) + plain_words(bytes@, 0) =~= plain_words(bytes@, 0));
    }
    loop
        invariant
            from <= bytes@.len(),
            bytes@ == text.spec_bytes(),
            crate::text::cut_point(bytes@, from as int),
            plain_words(bytes@, 0) == slices(words@) + plain_words(bytes@, from as int),
        decreases bytes@.len() - from,
    {
        let start: usize = scan_run(bytes, from, true);
        if start >= bytes.len() {
            proof {
                assert(slices(words@) + Seq::<Seq<u8>>::empty() =~= slices(words@));
            }
            return words;
        }
        let end: usize = scan_run(bytes, start, false);
        proof {
            lemma_run_end(bytes@, from as int, true);
            lemma_run_end(bytes@, start as int, false);
            lemma_run_end(bytes@, start + 1, false);
            if start > from {
                lemma_cut_at_ascii(bytes@, start - 1);
            }
            if end < bytes@.len() {
                lemma_cut_at_ascii(bytes@, end as int);
            }
        }
        let ghost had = slices(words@);
        words.push(substr(text, start, end));
        proof {
            let word = bytes@.subrange(start as int, end as int);
            assert(slices(words@) =~= had.push(word));
            assert(had + (seq![word] + plain_words(bytes@, end as int)) =~= had.push(word)
                + plain_words(bytes@, end as int));
        }
        from = end;
    }
}

/// Reads the default filters of one file.
fn read_defaults_in<'a>(
    text: &'a str,
    given: &Vec<Filter<'a>>,
    found: &mut Vec<Filter<'a>>,
    now: &Date,
    date_keys: &[Key],
) -> (r: Result<(), Error>)
    ensures
        match defaults_in(
            plain_words(text.spec_bytes(), 0),
            sieves(given@),
            sieves(old(found)@),
            *now,
            key_texts(date_keys@),
            0,
        ) {
            Ok(all) => r is Ok && sieves(final(found)@) == all,
            Err(fault) => r is Err && r->Err_0@ == fault,
        },
{
    let words = split_words(text);
    let ghost list = slices(words@);
    let ghost goal = defaults_in(
        list,
        sieves(given@),
        sieves(found@),
        *now,
        key_texts(date_keys@),
        0,
    );
    let mut i: usize = 0;
    while i < words.len()
        invariant
            i <= words@.len(),
            list == slices(words@),
            list == plain_words(text.spec_bytes(), 0),
            goal == defaults_in(
                list,
                sieves(given@),
                sieves(old(found)@),
                *now,
                key_texts(date_keys@),
                0,
            ),
            goal == defaults_in(
                list,
                sieves(given@),
                sieves(found@),
                *now,
                key_texts(date_keys@),
                i as int,
            ),
        decreases words@.len() - i,
    {
        let word = words[i];
        assert(list[i as int] == word.spec_bytes());
        let filter = match Filter::new(word, now, date_keys) {
            Err(e) => return Err(e),
            Ok(None) => return Err(Error::InvalidDefaultFilter(word.to_owned())),
            Ok(Some(filter)) => filter,
        };
        if !any_conflict(given, &filter) {
            let ghost had = sieves(found@);
            found.push(filter);
            assert(sieves(found@) =~= had.push(filter@));
        }
        i += 1;
    }
    Ok(())
}

/// Reads the default filters.
fn read_defaults<'a>(
    list: &'a [File],
    given: &Vec<Filter<'a>>,
    now: &Date,
    date_keys: &[Key],
) -> (r: Result<Vec<Filter<'a>>, Error>)
    ensures
        match defaults(
            files(list@),
            sieves(given@),
            Seq::empty(),
            *now,
            key_texts(date_keys@),
            0,
        ) {
            Ok(all) => r is Ok && sieves(r->Ok_0@) == all,
            Err(fault) => r is Err && r->Err_0@ == fault,
        },
{
    let mut found: Vec<Filter<'a>> = Vec::new();
    let ghost goal = defaults(
        files(list@),
        sieves(given@),
        Seq::empty(),
        *now,
        key_texts(date_keys@),
        0,
    );
    let mut i: usize = 0;
    proof {
        assert(sieves(found@) =~= Seq::<Sieve>::empty());
    }
    while i < list.len()
        invariant
            i <= list@.len(),
            goal == defaults(
                files(list@),
                sieves(given@),
                Seq::empty(),
                *now,
                key_texts(date_keys@),
                0,
            ),
            goal == defaults(
                files(list@),
                sieves(given@),
                sieves(found@),
                *now,
                key_texts(date_keys@),
                i as int,
            ),
        decreases list@.len() - i,
    {
        assert(files(list@)[i as int].1 == encode_utf8(list@[i as int].content@));
        match read_defaults_in(list[i].content.as_str(), given, &mut found, now, date_keys) {
            Ok(()) => {},
            Err(e) => return Err(e),
        }
        i += 1;
    }
    Ok(found)
}

/// Runs a call.
pub fn run(config: Config) -> (r: Result<Output, Error>)
    ensures
        match ran(config) {
            Ok(report) => r is Ok && r->Ok_0@ == report,
            Err(fault) => r is Err && r->Err_0@ == fault,
        },
{
    let Config {
        args,
        now,
        tasks,
        undo,
        date_keys,
        filter_aliases,
        command_aliases,
        modification_aliases,
        default_filters,
        print_color,
    } = config;
    let key_text = match date_keys {
        Some(text) => text,
        None => {
            let text = String::new();
            assert(encode_utf8(text@) =~= Seq::<u8>::empty());
            text
        },
    };
    let keys = read_keys(key_text.as_str());
    let mut reader = ArgIter::new(
        args.as_slice(),
        &now,
        keys.as_slice(),
        filter_aliases.as_slice(),
        command_aliases.as_slice(),
        modification_aliases.as_slice(),
    );
    let found = match read_args(&mut reader) {
        Ok(found) => found,
        Err(e) => return Err(e),
    };
    let Arguments { filters, command, mods } = found;
    let mut filters = filters;
    let mut more = match read_defaults(default_filters.as_slice(), &filters, &now, keys.as_slice()) {
        Ok(more) => more,
        Err(e) => return Err(e),
    };
    let ghost both = sieves(filters@) + sieves(more@);
    filters.append(&mut more);
    assert(sieves(filters@) =~= both);
    let tasks = match tasks {
        Some(text) => text,
        None => {
            let text = String::new();
            assert(encode_utf8(text@) =~= Seq::<u8>::empty());
            text
        },
    };
    let undo = match undo {
        Some(text) => text,
        None => {
            let text = String::new();
            assert(encode_utf8(text@) =~= Seq::<u8>::empty());
            text
        },
    };
    command.run(tasks, undo, filters.as_slice(), mods.as_slice(), keys.as_slice(), print_color)
}

} // verus!
