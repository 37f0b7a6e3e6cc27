//! The arguments of a call: filters first, then a command, then
//! modifications. An argument that names an alias stands for the words of
//! the alias.

use crate::command::Command;
use crate::date::Date;
use crate::error::{Error, Fault};
use crate::field::Key;
use crate::filter::{key_texts, sieve_of, Filter, Sieve};
use crate::lines::slices;
use crate::modification::{edit_of, Edit, Modification};
use crate::text::{
    all_space, byte_is_space, is_all_space, is_space, lemma_cut_at_ascii, lemma_encode_concat,
    lemma_run_end, run_end, scan_run, str_eq, substr, tail,
};
use crate::File;
use vstd::prelude::*;
use vstd::string::*;
use vstd::utf8::*;

verus! {

/// Which kind of argument comes next.
#[derive(Clone, Copy, Debug, PartialEq, Eq, Structural)]
pub enum ArgStage {
    Filter,
    Command,
    Modification,
}

/// An argument, read.
pub enum ArgNext<'a> {
    Filter(Filter<'a>),
    Command(Command),
    Modification(Modification<'a>),
}

/// An argument as a plain value.
pub enum Item {
    Filter(Sieve),
    Command(Command),
    Modification(Edit),
}

impl<'a> View for ArgNext<'a> {
    type V = Item;

    open spec fn view(&self) -> Item {
        match self {
            ArgNext::Filter(filter) => Item::Filter(filter@),
            ArgNext::Command(command) => Item::Command(*command),
            ArgNext::Modification(modification) => Item::Modification(modification@),
        }
    }
}

/// The arguments that are yet to be read, and what of the ones read stays
/// in force.
pub struct Reader {
    /// The kind of argument that comes next.
    pub stage: ArgStage,
    /// The arguments, the next one last.
    pub stack: Seq<Seq<u8>>,
    /// Whether text for the body is added to it, not put in its place.
    pub force_append: bool,
}

/// What the arguments are read with.
pub struct Context {
    pub now: Date,
    pub keys: Seq<Seq<u8>>,
    pub filter_aliases: Seq<(Seq<u8>, Seq<u8>)>,
    pub command_aliases: Seq<(Seq<u8>, Seq<u8>)>,
    pub modification_aliases: Seq<(Seq<u8>, Seq<u8>)>,
}

/// Files as plain values: name and content.
pub open spec fn files(list: Seq<File>) -> Seq<(Seq<u8>, Seq<u8>)> {
    Seq::new(list.len(), |i: int| (encode_utf8(list[i].name@), encode_utf8(list[i].content@)))
}

/// Whitespace as Unicode has it.
pub open spec fn is_white(c: char) -> bool {
    ||| c == ' '
    ||| '\t' <= c <= '\r'
    ||| c == '\u{85}'
    ||| c == '\u{a0}'
    ||| c == '\u{1680}'
    ||| '\u{2000}' <= c <= '\u{200a}'
    ||| c == '\u{2028}'
    ||| c == '\u{2029}'
    ||| c == '\u{202f}'
    ||| c == '\u{205f}'
    ||| c == '\u{3000}'
}

/// A text without the whitespace at its end.
pub open spec fn trimmed(s: Seq<char>) -> Seq<char>
    decreases s.len(),
{
    if s.len() > 0 && is_white(s.last()) {
        trimmed(s.drop_last())
    } else {
        s
    }
}

/// `str::trim_end` gives the slice without the whitespace at its end, where
/// whitespace is what the Unicode property `White_Space` says.
#[verifier::external_body]
fn trim_end(s: &str) -> (r: &str)
    ensures
        r@ == trimmed(s@),
{
    s.trim_end()
}

/// The content of the first of the files that has the name.
pub open spec fn content_of(name: Seq<u8>, list: Seq<(Seq<u8>, Seq<u8>)>, from: int) -> Option<
    Seq<u8>,
>
    decreases list.len() - from,
{
    if from < 0 || from >= list.len() {
        None
    } else if list[from].0 == name {
        Some(list[from].1)
    } else {
        content_of(name, list, from + 1)
    }
}

/// The first word of a text, or the whitespace that it starts with, and the
/// rest; nothing for a text that is empty once the whitespace at its end is
/// taken off.
pub open spec fn split(s: Seq<u8>) -> Option<(Seq<u8>, Seq<u8>)> {
    let t = encode_utf8(trimmed(decode_utf8(s)));
    if t.len() == 0 {
        None
    } else {
        let end = run_end(t, 0, is_space(t[0]));
        Some((t.subrange(0, end), t.subrange(end, t.len() as int)))
    }
}

/// The words of a text and the whitespace between them, in order.
pub open spec fn words(s: Seq<u8>) -> Seq<Seq<u8>>
    decreases s.len(),
{
    match split(s) {
        Some((head, rest)) => if rest.len() < s.len() {
            seq![head] + words(rest)
        } else {
            seq![head]
        },
        None => Seq::empty(),
    }
}

/// A list, the last first.
pub open spec fn flipped(list: Seq<Seq<u8>>) -> Seq<Seq<u8>>
    decreases list.len(),
{
    if list.len() == 0 {
        Seq::empty()
    } else {
        seq![list.last()] + flipped(list.drop_last())
    }
}

/// The next argument and the arguments after it.
pub open spec fn popped(stack: Seq<Seq<u8>>) -> Option<(Seq<u8>, Seq<Seq<u8>>)> {
    if stack.len() == 0 {
        None
    } else {
        Some((stack.last(), stack.drop_last()))
    }
}

/// With an argument in hand: if it names an alias, the words of the alias
/// come before the other arguments, and the first of them is in hand.
pub open spec fn expanded(
    arg: Seq<u8>,
    stack: Seq<Seq<u8>>,
    aliases: Seq<(Seq<u8>, Seq<u8>)>,
) -> (Option<Seq<u8>>, Seq<Seq<u8>>) {
    match content_of(arg, aliases, 0) {
        Some(content) => unfolded(stack, content),
        None => (Some(arg), stack),
    }
}

/// The words of a text come before the arguments, and the first of them is
/// in hand.
pub open spec fn unfolded(stack: Seq<Seq<u8>>, text: Seq<u8>) -> (Option<Seq<u8>>, Seq<Seq<u8>>) {
    let all = stack + flipped(words(text));
    match popped(all) {
        Some((arg, rest)) => (Some(arg), rest),
        None => (None, all),
    }
}

/// With an argument in hand: arguments that are whitespace are passed over.
pub open spec fn unblanked(arg: Seq<u8>, stack: Seq<Seq<u8>>) -> (Option<Seq<u8>>, Seq<Seq<u8>>)
    decreases stack.len(),
{
    if all_space(arg) {
        match popped(stack) {
            Some((next, rest)) => unblanked(next, rest),
            None => (None, stack),
        }
    } else {
        (Some(arg), stack)
    }
}

/// Whether a text has whitespace in it and something else too.
pub open spec fn is_mixed(s: Seq<u8>) -> bool {
    (exists|i: int| 0 <= i < s.len() && is_space(#[trigger] s[i])) && (exists|i: int|
        0 <= i < s.len() && !is_space(#[trigger] s[i]))
}

/// What reading one argument gives, and what is left to read.
pub struct Read {
    pub item: Option<Result<Item, Fault>>,
    pub reader: Reader,
}

/// The end of the arguments.
pub open spec fn ended(stage: ArgStage, stack: Seq<Seq<u8>>, force_append: bool) -> Read {
    Read { item: None, reader: Reader { stage, stack, force_append } }
}

/// Reading the argument in hand as a modification. Where one was needed,
/// whitespace has been passed over. A text with whitespace in it falls into
/// its words. Text for the body replaces the body the first time, and is
/// added to it from then on.
pub open spec fn modification_read(
    arg: Seq<u8>,
    stack: Seq<Seq<u8>>,
    force_append: bool,
    cx: Context,
) -> Read {
    let (word, rest) = if is_mixed(arg) {
        unfolded(stack, arg)
    } else {
        (Some(arg), stack)
    };
    match word {
        None => ended(ArgStage::Modification, rest, force_append),
        Some(word) => match edit_of(word, cx.now, cx.keys) {
            Ok(Edit::Append(text)) => Read {
                item: Some(Ok(Item::Modification(Edit::Append(text)))),
                reader: Reader { stage: ArgStage::Modification, stack: rest, force_append: true },
            },
            Ok(Edit::SetBody(text)) => Read {
                item: Some(
                    Ok(
                        Item::Modification(
                            if force_append {
                                Edit::Append(text)
                            } else {
                                Edit::SetBody(text)
                            },
                        ),
                    ),
                ),
                reader: Reader { stage: ArgStage::Modification, stack: rest, force_append: true },
            },
            Ok(edit) => Read {
                item: Some(Ok(Item::Modification(edit))),
                reader: Reader { stage: ArgStage::Modification, stack: rest, force_append },
            },
            Err(fault) => Read {
                item: Some(Err(fault)),
                reader: Reader { stage: ArgStage::Modification, stack: rest, force_append },
            },
        },
    }
}

/// Reading the argument in hand where modifications are read.
pub open spec fn modification_stage(
    arg: Seq<u8>,
    stack: Seq<Seq<u8>>,
    force_append: bool,
    cx: Context,
) -> Read {
    match expanded(arg, stack, cx.modification_aliases) {
        (None, rest) => ended(ArgStage::Modification, rest, force_append),
        (Some(arg), rest) => {
            let (arg, rest) = if force_append {
                (Some(arg), rest)
            } else {
                unblanked(arg, rest)
            };
            match arg {
                None => ended(ArgStage::Modification, rest, force_append),
                Some(arg) => modification_read(arg, rest, force_append, cx),
            }
        },
    }
}

/// Reading the argument in hand where the command is read.
pub open spec fn command_stage(arg: Seq<u8>, stack: Seq<Seq<u8>>, force_append: bool, cx: Context) -> Read {
    match expanded(arg, stack, cx.command_aliases) {
        (None, rest) => ended(ArgStage::Command, rest, force_append),
        (Some(arg), rest) => Read {
            item: Some(
                match Command::named(arg) {
                    Some(command) => Ok(Item::Command(command)),
                    None => Err(Fault::NotAFilterOrCommand(arg)),
                },
            ),
            reader: Reader { stage: ArgStage::Modification, stack: rest, force_append },
        },
    }
}

/// Reading the argument in hand where filters are read. What is no filter
/// is read as the command.
pub open spec fn filter_stage(arg: Seq<u8>, stack: Seq<Seq<u8>>, force_append: bool, cx: Context) -> Read {
    match expanded(arg, stack, cx.filter_aliases) {
        (None, rest) => ended(ArgStage::Filter, rest, force_append),
        (Some(arg), rest) => match unblanked(arg, rest) {
            (None, rest) => ended(ArgStage::Filter, rest, force_append),
            (Some(arg), rest) => match sieve_of(arg, cx.now, cx.keys) {
                Err(fault) => Read {
                    item: Some(Err(fault)),
                    reader: Reader { stage: ArgStage::Filter, stack: rest, force_append },
                },
                Ok(Some(sieve)) => Read {
                    item: Some(Ok(Item::Filter(sieve))),
                    reader: Reader { stage: ArgStage::Filter, stack: rest, force_append },
                },
                Ok(None) => command_stage(arg, rest, force_append, cx),
            },
        },
    }
}

/// Reading one argument.
#[verifier::opaque]
pub open spec fn advance(reader: Reader, cx: Context) -> Read {
    match popped(reader.stack) {
        None => Read { item: None, reader },
        Some((arg, rest)) => match reader.stage {
            ArgStage::Filter => filter_stage(arg, rest, reader.force_append, cx),
            ArgStage::Command => command_stage(arg, rest, reader.force_append, cx),
            ArgStage::Modification => modification_stage(arg, rest, reader.force_append, cx),
        },
    }
}

/// The item of an optional result, as a plain value.
pub open spec fn item_of(next: Option<Result<ArgNext, Error>>) -> Option<Result<Item, Fault>> {
    match next {
        None => None,
        Some(Ok(arg)) => Some(Ok(arg@)),
        Some(Err(e)) => Some(Err(e@)),
    }
}

/// The whitespace at the end of a text is a part of the text.
proof fn lemma_trimmed(s: Seq<char>)
    ensures
        trimmed(s).len() <= s.len(),
        trimmed(s) == s.subrange(0, trimmed(s).len() as int),
        encode_utf8(trimmed(s)).len() <= encode_utf8(s).len(),
    decreases s.len(),
{
    if s.len() > 0 && is_white(s.last()) {
        lemma_trimmed(s.drop_last());
        let t = trimmed(s);
        assert(t =~= s.subrange(0, t.len() as int));
    } else {
        assert(s =~= s.subrange(0, s.len() as int));
    }
    let t = trimmed(s);
    let rest = s.subrange(t.len() as int, s.len() as int);
    assert(s =~= t + rest);
    lemma_encode_concat(t, rest);
}

/// The file with the name `n`.
pub fn find_name<'a>(n: &str, fs: &'a [File]) -> (r: Option<&'a File>)
    ensures
        match content_of(n.spec_bytes(), files(fs@), 0) {
            Some(content) => r is Some && encode_utf8(r.unwrap().content@) == content,
            None => r is None,
        },
{
    let mut i: usize = 0;
    while i < fs.len()
        invariant
            i <= fs@.len(),
            content_of(n.spec_bytes(), files(fs@), 0) == content_of(
                n.spec_bytes(),
                files(fs@),
                i as int,
            ),
        decreases fs@.len() - i,
    {
        assert(files(fs@)[i as int] == (encode_utf8(fs@[i as int].name@), encode_utf8(
            fs@[i as int].content@,
        )));
        if str_eq(fs[i].name.as_str(), n) {
            return Some(&fs[i]);
        }
        i += 1;
    }
    None
}

/// Whether a text is nothing but whitespace.
pub fn is_all_whitespace(str: &str) -> (r: bool)
    ensures
        r == all_space(str.spec_bytes()),
{
    is_all_space(str.as_bytes())
}

/// The first word of a text, or the whitespace that it starts with, and the
/// rest.
pub fn split_token(str: &str) -> (r: Option<(&str, &str)>)
    ensures
        match split(str.spec_bytes()) {
            Some((head, rest)) => r is Some && r.unwrap().0.spec_bytes() == head
                && r.unwrap().1.spec_bytes() == rest && rest.len() < str.spec_bytes().len(),
            None => r is None,
        },
{
    broadcast use encode_utf8_decode_utf8;

    let t = trim_end(str);
    proof {
        lemma_trimmed(str@);
    }
    let bytes = t.as_bytes();
    if bytes.len() == 0 {
        return None;
    }
    let end: usize = scan_run(bytes, 0, byte_is_space(bytes[0]));
    proof {
        lemma_run_end(bytes@, 1, is_space(bytes@[0]));
        if end < bytes@.len() {
            if is_space(bytes@[end as int]) {
                lemma_cut_at_ascii(bytes@, end as int);
            } else {
                lemma_cut_at_ascii(bytes@, end - 1);
            }
        }
    }
    Some((substr(t, 0, end), tail(t, end)))
}

/// Whether a text has whitespace in it and something else too.
fn mixed(str: &str) -> (r: bool)
    ensures
        r == is_mixed(str.spec_bytes()),
{
    let s = str.as_bytes();
    let space: usize = scan_run(s, 0, false);
    let other: usize = scan_run(s, 0, true);
    proof {
        lemma_run_end(s@, 0, false);
        lemma_run_end(s@, 0, true);
    }
    space < s.len() && other < s.len()
}

/// The arguments of a call, read one by one.
pub struct ArgIter<'a> {
    stage: ArgStage,
    stack: Vec<&'a str>,
    force_append: bool,
    now: &'a Date,
    date_keys: &'a [Key<'a>],
    filter_aliases: &'a [File],
    command_aliases: &'a [File],
    modification_aliases: &'a [File],
}

impl<'a> View for ArgIter<'a> {
    type V = Reader;

    closed spec fn view(&self) -> Reader {
        Reader { stage: self.stage, stack: slices(self.stack@), force_append: self.force_append }
    }
}

impl<'a> ArgIter<'a> {
    /// What the arguments are read with.
    pub closed spec fn context(&self) -> Context {
        Context {
            now: *self.now,
            keys: key_texts(self.date_keys@),
            filter_aliases: files(self.filter_aliases@),
            command_aliases: files(self.command_aliases@),
            modification_aliases: files(self.modification_aliases@),
        }
    }

    /// The arguments, ready to be read from the first on.
    pub fn new(
        args: &'a [String],
        now: &'a Date,
        date_keys: &'a [Key<'a>],
        filter_aliases: &'a [File],
        command_aliases: &'a [File],
        modification_aliases: &'a [File],
    ) -> (r: Self)
        ensures
            r@ == (Reader {
                stage: ArgStage::Filter,
                stack: flipped(crate::lines::texts(args@)),
                force_append: false,
            }),
            r.context() == (Context {
                now: *now,
                keys: key_texts(date_keys@),
                filter_aliases: files(filter_aliases@),
                command_aliases: files(command_aliases@),
                modification_aliases: files(modification_aliases@),
            }),
    {
        let mut stack: Vec<&'a str> = Vec::new();
        let ghost all = crate::lines::texts(args@);
        let mut i: usize = args.len();
        proof {
            assert(slices(stack@) =~= Seq::<Seq<u8>>::empty());
            assert(all.subrange(0, all.len() as int) =~= all);
            assert(slices(stack@) + flipped(all.subrange(0, i as int)) =~= flipped(all));
        }
        while i > 0
            invariant
                i <= args@.len(),
                all == crate::lines::texts(args@),
                slices(stack@) + flipped(all.subrange(0, i as int)) == flipped(all),
            decreases i,
        {
            let ghost had = slices(stack@);
            let ghost part = all.subrange(0, i as int);
            stack.push(args[i - 1].as_str());
            proof {
                assert(part.last() == all[i - 1]);
                assert(part.drop_last() =~= all.subrange(0, i - 1));
                assert(slices(stack@) =~= had.push(all[i - 1]));
                assert(had + (seq![part.last()] + flipped(part.drop_last())) =~= had.push(
                    all[i - 1],
                ) + flipped(all.subrange(0, i - 1)));
            }
            i -= 1;
        }
        proof {
            assert(all.subrange(0, 0) =~= Seq::<Seq<u8>>::empty());
            assert(slices(stack@) + Seq::<Seq<u8>>::empty() =~= slices(stack@));
        }
        ArgIter {
            stage: ArgStage::Filter,
            stack,
            force_append: false,
            now,
            date_keys,
            filter_aliases,
            command_aliases,
            modification_aliases,
        }
    }

    /// Puts the words of a text before the arguments, and takes the first.
    fn unfold(stack: &mut Vec<&'a str>, text: &'a str) -> (r: Option<&'a str>)
        ensures
            match r {
                Some(arg) => unfolded(slices(old(stack)@), text.spec_bytes()) == (
                    Some(arg.spec_bytes()),
                    slices(final(stack)@),
                ),
                None => unfolded(slices(old(stack)@), text.spec_bytes()) == (
                    None::<Seq<u8>>,
                    slices(final(stack)@),
                ),
            },
    {
        let at: usize = stack.len();
        let mut rest = text;
        let ghost base = slices(stack@);
        let ghost mut done: Seq<Seq<u8>> = Seq::empty();
        proof {
            assert(done + words(text.spec_bytes()) =~= words(text.spec_bytes()));
            assert(base + flipped(done) =~= base);
        }
        loop
            invariant
                at == base.len(),
                stack@.len() == at + done.len(),
                base == slices(old(stack)@),
                slices(stack@) == base + flipped(done),
                words(text.spec_bytes()) == done + words(rest.spec_bytes()),
            decreases rest.spec_bytes().len(),
        {
            match split_token(rest) {
                Some((head, more)) => {
                    let ghost had = slices(stack@);
                    stack.insert(at, head);
                    proof {
                        let longer = done.push(head.spec_bytes());
                        assert(longer.last() == head.spec_bytes());
                        assert(longer.drop_last() =~= done);
                        assert(flipped(longer) == seq![head.spec_bytes()] + flipped(done));
                        assert(had.len() == stack@.len() - 1);
                        assert(slices(stack@) =~= had.insert(at as int, head.spec_bytes()));
                        assert(slices(stack@) =~= base + flipped(longer));
                        assert(done + (seq![head.spec_bytes()] + words(more.spec_bytes()))
                            =~= longer + words(more.spec_bytes()));
                        done = longer;
                    }
                    rest = more;
                },
                None => {
                    let ghost all = slices(stack@);
                    proof {
                        assert(done + Seq::<Seq<u8>>::empty() =~= done);
                    }
                    return match stack.pop() {
                        Some(arg) => {
                            assert(slices(stack@) =~= all.drop_last());
                            assert(all.last() == arg.spec_bytes());
                            Some(arg)
                        },
                        None => None,
                    };
                },
            }
        }
    }

    /// If the argument names an alias, puts the words of the alias before
    /// the other arguments and takes the first.
    fn expand(stack: &mut Vec<&'a str>, arg: &'a str, aliases: &'a [File]) -> (r: Option<&'a str>)
        ensures
            match r {
                Some(next) => expanded(arg.spec_bytes(), slices(old(stack)@), files(aliases@)) == (
                    Some(next.spec_bytes()),
                    slices(final(stack)@),
                ),
                None => expanded(arg.spec_bytes(), slices(old(stack)@), files(aliases@)) == (
                    None::<Seq<u8>>,
                    slices(final(stack)@),
                ),
            },
    {
        match find_name(arg, aliases) {
            Some(file) => ArgIter::unfold(stack, file.content.as_str()),
            None => Some(arg),
        }
    }

    /// Passes over arguments that are whitespace.
    fn skip_blank(stack: &mut Vec<&'a str>, arg: &'a str) -> (r: Option<&'a str>)
        ensures
            match r {
                Some(next) => unblanked(arg.spec_bytes(), slices(old(stack)@)) == (
                    Some(next.spec_bytes()),
                    slices(final(stack)@),
                ),
                None => unblanked(arg.spec_bytes(), slices(old(stack)@)) == (
                    None::<Seq<u8>>,
                    slices(final(stack)@),
                ),
            },
    {
        let mut current = arg;
        while is_all_whitespace(current)
            invariant
                unblanked(arg.spec_bytes(), slices(old(stack)@)) == unblanked(
                    current.spec_bytes(),
                    slices(stack@),
                ),
            decreases stack@.len(),
        {
            let ghost had = slices(stack@);
            current = match stack.pop() {
                Some(next) => {
                    assert(slices(stack@) =~= had.drop_last());
                    assert(had.last() == next.spec_bytes());
                    next
                },
                None => return None,
            };
        }
        Some(current)
    }

    /// Reads the argument in hand as a modification.
    fn read_modification(&mut self, arg: &'a str) -> (r: Option<Result<ArgNext<'a>, Error>>)
        ensures
            final(self).context() == old(self).context(),
            (Read { item: item_of(r), reader: final(self)@ }) == modification_stage(
                arg.spec_bytes(),
                old(self)@.stack,
                old(self)@.force_append,
                old(self).context(),
            ),
    {
        let arg = match ArgIter::expand(&mut self.stack, arg, self.modification_aliases) {
            Some(arg) => arg,
            None => {
                self.stage = ArgStage::Modification;
                return None;
            },
        };
        self.stage = ArgStage::Modification;
        let arg = if self.force_append {
            arg
        } else {
            match ArgIter::skip_blank(&mut self.stack, arg) {
                Some(arg) => arg,
                None => return None,
            }
        };
        let arg = if mixed(arg) {
            match ArgIter::unfold(&mut self.stack, arg) {
                Some(arg) => arg,
                None => return None,
            }
        } else {
            arg
        };
        Some(
            match Modification::new(arg, self.now, self.date_keys) {
                Ok(Modification::Append(text)) => {
                    self.force_append = true;
                    Ok(ArgNext::Modification(Modification::Append(text)))
                },
                Ok(Modification::SetBody(text)) => {
                    let was: bool = self.force_append;
                    self.force_append = true;
                    if was {
                        Ok(ArgNext::Modification(Modification::Append(text)))
                    } else {
                        Ok(ArgNext::Modification(Modification::SetBody(text)))
                    }
                },
                Ok(modification) => Ok(ArgNext::Modification(modification)),
                Err(e) => Err(e),
            },
        )
    }

    /// Reads the argument in hand as the command.
    fn read_command(&mut self, arg: &'a str) -> (r: Option<Result<ArgNext<'a>, Error>>)
        ensures
            final(self).context() == old(self).context(),
            (Read { item: item_of(r), reader: final(self)@ }) == command_stage(
                arg.spec_bytes(),
                old(self)@.stack,
                old(self)@.force_append,
                old(self).context(),
            ),
    {
        self.stage = ArgStage::Command;
        let arg = match ArgIter::expand(&mut self.stack, arg, self.command_aliases) {
            Some(arg) => arg,
            None => return None,
        };
        self.stage = ArgStage::Modification;
        match Command::new(arg) {
            Some(command) => Some(Ok(ArgNext::Command(command))),
            None => Some(Err(Error::NotAFilterOrCommand(arg.to_owned()))),
        }
    }

    /// Reads the argument in hand as a filter, or else as the command.
    fn read_filter(&mut self, arg: &'a str) -> (r: Option<Result<ArgNext<'a>, Error>>)
        ensures
            final(self).context() == old(self).context(),
            (Read { item: item_of(r), reader: final(self)@ }) == filter_stage(
                arg.spec_bytes(),
                old(self)@.stack,
                old(self)@.force_append,
                old(self).context(),
            ),
    {
        self.stage = ArgStage::Filter;
        let arg = match ArgIter::expand(&mut self.stack, arg, self.filter_aliases) {
            Some(arg) => arg,
            None => return None,
        };
        let arg = match ArgIter::skip_blank(&mut self.stack, arg) {
            Some(arg) => arg,
            None => return None,
        };
        match Filter::new(arg, self.now, self.date_keys) {
            Err(e) => Some(Err(e)),
            Ok(Some(filter)) => Some(Ok(ArgNext::Filter(filter))),
            Ok(None) => self.read_command(arg),
        }
    }

    /// Reads the next argument; `None` at the end of the arguments.
    pub fn next(&mut self) -> (r: Option<Result<ArgNext<'a>, Error>>)
        ensures
            final(self).context() == old(self).context(),
            (Read { item: item_of(r), reader: final(self)@ }) == advance(
                old(self)@,
                old(self).context(),
            ),
    {
        reveal(advance);
        let ghost had = slices(self.stack@);
        let arg = match self.stack.pop() {
            Some(arg) => arg,
            None => return None,
        };
        assert(slices(self.stack@) =~= had.drop_last());
        match self.stage {
            ArgStage::Filter => self.read_filter(arg),
            ArgStage::Command => self.read_command(arg),
            ArgStage::Modification => self.read_modification(arg),
        }
    }
}

} // verus!
