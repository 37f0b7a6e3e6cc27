//! Modifications: what a modification text changes in a task, and the
//! change itself.

use crate::date::{abs_of, Date};
use crate::error::{Error, Fault};
use crate::field::{
    is_date_shape, is_yyyy_mm_dd, starts_with, Context, End, Entry, Key, Priority, Project, Value,
};
use crate::filter::{is_date_key, is_letter, key_texts, unsigned};
use crate::task::{
    appended, cleared, completed, end_set, entry_of, entry_set, holds, marked, pair_of, pending,
    priority_set, removed, value_of, value_set, Query, TaskBuf,
};
use crate::taskiter::piece_text;
use crate::text::{find, find_byte, lemma_cut_at_ascii, lemma_find_from, str_eq, substr, tail};
use crate::token::{Token, TokenKind};
use vstd::prelude::*;
use vstd::string::*;
use vstd::utf8::*;

verus! {

/// A change to one field of a task.
pub enum ModPair<'a> {
    SetEnd(String),
    SetPriority(Priority),
    SetEntry(String),
    SetValue(Key<'a>, String),
    RemoveEnd,
    RemovePriority,
    RemoveEntry,
    RemoveKey(Key<'a>),
}

/// A change to a task.
pub enum Modification<'a> {
    SetPending,
    SetCompleted,
    AddProject(Project<'a>),
    RemoveProject(Project<'a>),
    AddContext(Context<'a>),
    RemoveContext(Context<'a>),
    SetPair(ModPair<'a>),
    Append(String),
    SetBody(String),
}

/// What a change brought besides the changed task.
pub struct ModOutput {
    /// A task to add: the next occurrence of a recurring task that was
    /// completed.
    pub add: Option<TaskBuf>,
    /// Whether an earlier task that is like the changed one is to go.
    pub remove_similar: bool,
}

/// A change to one field as a plain value.
pub enum FieldEdit {
    SetEnd(Seq<u8>),
    SetPriority(u8),
    SetEntry(Seq<u8>),
    SetValue(Seq<u8>, Seq<u8>),
    RemoveEnd,
    RemovePriority,
    RemoveEntry,
    RemoveKey(Seq<u8>),
}

/// A change as a plain value.
pub enum Edit {
    SetPending,
    SetCompleted,
    AddProject(Seq<u8>),
    RemoveProject(Seq<u8>),
    AddContext(Seq<u8>),
    RemoveContext(Seq<u8>),
    SetPair(FieldEdit),
    Append(Seq<u8>),
    SetBody(Seq<u8>),
}

impl<'a> View for ModPair<'a> {
    type V = FieldEdit;

    open spec fn view(&self) -> FieldEdit {
        match self {
            ModPair::SetEnd(v) => FieldEdit::SetEnd(encode_utf8(v@)),
            ModPair::SetPriority(p) => FieldEdit::SetPriority(p@),
            ModPair::SetEntry(v) => FieldEdit::SetEntry(encode_utf8(v@)),
            ModPair::SetValue(k, v) => FieldEdit::SetValue(k@, encode_utf8(v@)),
            ModPair::RemoveEnd => FieldEdit::RemoveEnd,
            ModPair::RemovePriority => FieldEdit::RemovePriority,
            ModPair::RemoveEntry => FieldEdit::RemoveEntry,
            ModPair::RemoveKey(k) => FieldEdit::RemoveKey(k@),
        }
    }
}

impl<'a> View for Modification<'a> {
    type V = Edit;

    open spec fn view(&self) -> Edit {
        match self {
            Modification::SetPending => Edit::SetPending,
            Modification::SetCompleted => Edit::SetCompleted,
            Modification::AddProject(p) => Edit::AddProject(p@),
            Modification::RemoveProject(p) => Edit::RemoveProject(p@),
            Modification::AddContext(c) => Edit::AddContext(c@),
            Modification::RemoveContext(c) => Edit::RemoveContext(c@),
            Modification::SetPair(pair) => Edit::SetPair(pair@),
            Modification::Append(v) => Edit::Append(encode_utf8(v@)),
            Modification::SetBody(v) => Edit::SetBody(encode_utf8(v@)),
        }
    }
}

/// The day that a value means at `now`, written out as `YYYY-MM-DD`; none
/// where the value is no date, or is a date of another resolution than a
/// day.
pub open spec fn day_of(value: Seq<u8>, now: Date) -> Option<Seq<u8>> {
    match Date::date_of(value, now) {
        Some(date) => if is_date_shape(date.text()) {
            Some(date.text())
        } else {
            None
        },
        None => None,
    }
}

/// The change that a date field takes from a value. A completion or
/// creation date takes a date of one day, and anything else is an invalid
/// completion or creation date. A key that holds dates takes the date that
/// the value means at `now`, written out, and must be given a date.
pub open spec fn dated_edit(
    s: Seq<u8>,
    key: Seq<u8>,
    value: Seq<u8>,
    now: Date,
) -> Result<FieldEdit, Fault> {
    if key == "end".spec_bytes() {
        match day_of(value, now) {
            Some(day) => Ok(FieldEdit::SetEnd(day)),
            None => Err(Fault::InvalidEnd(s)),
        }
    } else if key == "entry".spec_bytes() {
        match day_of(value, now) {
            Some(day) => Ok(FieldEdit::SetEntry(day)),
            None => Err(Fault::InvalidEntry(s)),
        }
    } else {
        match Date::date_of(value, now) {
            Some(date) => Ok(FieldEdit::SetValue(key, date.text())),
            None => Err(Fault::KeyExpectsDateValue(s)),
        }
    }
}

/// The change that takes a field away.
pub open spec fn removal(key: Seq<u8>) -> FieldEdit {
    if key == "end".spec_bytes() {
        FieldEdit::RemoveEnd
    } else if key == "pri".spec_bytes() {
        FieldEdit::RemovePriority
    } else if key == "entry".spec_bytes() {
        FieldEdit::RemoveEntry
    } else {
        FieldEdit::RemoveKey(key)
    }
}

/// What `key:value` changes: nothing, if there is no `:` in it. Without a
/// value the field goes, except that a key which holds no dates and is not
/// negated gets the empty value. With a value the field is set, and a
/// negation is an error.
pub open spec fn field_edit_of(
    s: Seq<u8>,
    negate: bool,
    now: Date,
    keys: Seq<Seq<u8>>,
) -> Result<Option<FieldEdit>, Fault> {
    let colon = find(s, 0x3a);
    let key = s.subrange(0, colon);
    let value = s.subrange(colon + 1, s.len() as int);
    let special = key == "end".spec_bytes() || key == "pri".spec_bytes() || key
        == "entry".spec_bytes();
    if colon >= s.len() {
        Ok(None)
    } else if value.len() == 0 {
        if negate || special || keys.contains(key) {
            Ok(Some(removal(key)))
        } else {
            Ok(Some(FieldEdit::SetValue(key, value)))
        }
    } else if negate {
        Err(Fault::CannotModNegateKeyValue(s))
    } else if key == "pri".spec_bytes() {
        if is_letter(value) {
            Ok(Some(FieldEdit::SetPriority(value[0])))
        } else {
            Err(Fault::InvalidPriority(s))
        }
    } else if special || keys.contains(key) {
        match dated_edit(s, key, value, now) {
            Ok(edit) => Ok(Some(edit)),
            Err(fault) => Err(fault),
        }
    } else {
        Ok(Some(FieldEdit::SetValue(key, value)))
    }
}

/// Whether a text starts with `>>`.
pub open spec fn is_addition(s: Seq<u8>) -> bool {
    s.len() >= 2 && s[0] == 0x3e && s[1] == 0x3e
}

/// The change that a modification text writes, read at `now` with the keys
/// that hold dates.
pub open spec fn edit_of(s: Seq<u8>, now: Date, keys: Seq<Seq<u8>>) -> Result<Edit, Fault> {
    let (body, negate) = unsigned(s);
    if body == "+done".spec_bytes() {
        if negate {
            Ok(Edit::SetPending)
        } else {
            Ok(Edit::SetCompleted)
        }
    } else if starts_with(body, 0x2b) {
        if negate {
            Ok(Edit::RemoveProject(body))
        } else {
            Ok(Edit::AddProject(body))
        }
    } else if starts_with(body, 0x40) {
        if negate {
            Ok(Edit::RemoveContext(body))
        } else {
            Ok(Edit::AddContext(body))
        }
    } else {
        match field_edit_of(body, negate, now, keys) {
            Err(fault) => Err(fault),
            Ok(Some(edit)) => Ok(Edit::SetPair(edit)),
            Ok(None) => if is_addition(s) {
                Ok(Edit::Append(s.subrange(2, s.len() as int)))
            } else {
                Ok(Edit::SetBody(s))
            },
        }
    }
}

/// The date that lies an offset after the date that a field holds, written
/// out; none where the field holds no absolute date or the offset is none.
pub open spec fn moved(field: Option<Seq<u8>>, offset: Seq<u8>) -> Option<Seq<u8>> {
    match field {
        Some(text) => match abs_of(text) {
            Some(date) => match Date::rel_of(offset, date) {
                Some(next) => Some(next.text()),
                None => None,
            },
            None => None,
        },
        None => None,
    }
}

/// The value that the line has for a key.
pub open spec fn value_in(line: Seq<u8>, key: Seq<u8>) -> Option<Seq<u8>> {
    match pair_of(line, key) {
        Some(piece) => Some(value_of(line, piece)),
        None => None,
    }
}

/// The creation date that the line has.
pub open spec fn entry_in(line: Seq<u8>) -> Option<Seq<u8>> {
    match entry_of(line) {
        Some(piece) => Some(piece_text(line, piece)),
        None => None,
    }
}

/// The line `next` with the values of the keys from position `from` on
/// moved: each by the offset from the value that `line` has for it.
pub open spec fn keys_moved(
    line: Seq<u8>,
    next: Seq<u8>,
    offset: Seq<u8>,
    keys: Seq<Seq<u8>>,
    from: int,
) -> Seq<u8>
    decreases keys.len() - from,
{
    if from < 0 || from >= keys.len() {
        next
    } else {
        keys_moved(
            line,
            match moved(value_in(line, keys[from]), offset) {
                Some(text) => value_set(next, keys[from], text),
                None => next,
            },
            offset,
            keys,
            from + 1,
        )
    }
}

/// The next occurrence of a recurring task: the task with its creation date
/// and the values of its date keys moved by the offset, each from its own
/// value.
pub open spec fn recurrence(line: Seq<u8>, offset: Seq<u8>, keys: Seq<Seq<u8>>) -> Seq<u8> {
    keys_moved(
        line,
        match moved(entry_in(line), offset) {
            Some(text) => entry_set(line, Some(text)),
            None => line,
        },
        offset,
        keys,
        0,
    )
}

/// What a change makes of a line.
pub struct Outcome {
    /// The line after the change.
    pub line: Seq<u8>,
    /// The line to add, if there is one.
    pub add: Option<Seq<u8>>,
    /// Whether an earlier task that is like the changed one is to go.
    pub remove_similar: bool,
}

/// The line after a change to one field.
pub open spec fn field_edited(edit: FieldEdit, line: Seq<u8>) -> Seq<u8> {
    match edit {
        FieldEdit::SetEnd(v) => end_set(line, Some(v)),
        FieldEdit::SetPriority(p) => priority_set(line, Some(seq![0x28u8, p, 0x29u8])),
        FieldEdit::SetEntry(v) => entry_set(line, Some(v)),
        FieldEdit::SetValue(k, v) => value_set(line, k, v),
        FieldEdit::RemoveEnd => end_set(line, None),
        FieldEdit::RemovePriority => priority_set(line, None),
        FieldEdit::RemoveEntry => entry_set(line, None),
        FieldEdit::RemoveKey(k) => removed(line, Query::Keyed(k)),
    }
}

/// What a change makes of a line.
///
/// Completing a pending task that has a `recur` key brings its next
/// occurrence as a task to add; completing a pending task that has the
/// project `+update` asks for the earlier task like it to go. A project or context
/// that the task has is not added again.
pub open spec fn edited(edit: Edit, line: Seq<u8>, keys: Seq<Seq<u8>>) -> Outcome {
    match edit {
        Edit::SetPending => Outcome {
            line: pending(end_set(line, None)),
            add: None,
            remove_similar: false,
        },
        Edit::SetCompleted => if completed(line) {
            Outcome { line, add: None, remove_similar: false }
        } else {
            Outcome {
                line: marked(line),
                add: match value_in(line, "recur".spec_bytes()) {
                    Some(offset) => Some(recurrence(line, offset, keys)),
                    None => None,
                },
                remove_similar: first_like(line, TokenKind::Project, "+update".spec_bytes()),
            }
        },
        Edit::AddProject(p) => Outcome {
            line: if first_like(line, TokenKind::Project, p) {
                line
            } else {
                appended(line, p)
            },
            add: None,
            remove_similar: false,
        },
        Edit::RemoveProject(p) => Outcome {
            line: removed(line, Query::Like(TokenKind::Project, p)),
            add: None,
            remove_similar: false,
        },
        Edit::AddContext(c) => Outcome {
            line: if first_like(line, TokenKind::Context, c) {
                line
            } else {
                appended(line, c)
            },
            add: None,
            remove_similar: false,
        },
        Edit::RemoveContext(c) => Outcome {
            line: removed(line, Query::Like(TokenKind::Context, c)),
            add: None,
            remove_similar: false,
        },
        Edit::SetPair(pair) => Outcome {
            line: field_edited(pair, line),
            add: None,
            remove_similar: false,
        },
        Edit::Append(v) => Outcome { line: appended(line, v), add: None, remove_similar: false },
        Edit::SetBody(v) => Outcome {
            line: appended(cleared(line), v),
            add: None,
            remove_similar: false,
        },
    }
}

/// Whether the line has a token of a kind that reads like a text.
pub open spec fn first_like(line: Seq<u8>, kind: TokenKind, text: Seq<u8>) -> bool {
    crate::task::first_any(line, Query::Like(kind, text)) is Some
}

/// The line of an optional task.
pub open spec fn line_of(task: Option<TaskBuf>) -> Option<Seq<u8>> {
    match task {
        Some(task) => Some(task@),
        None => None,
    }
}

impl<'a> ModPair<'a> {
    /// Reads `key:value` as a change to a field.
    pub fn new(str: &'a str, negate: bool, now: &Date, date_keys: &[Key]) -> (r: Result<
        Option<Self>,
        Error,
    >)
        ensures
            match field_edit_of(str.spec_bytes(), negate, *now, key_texts(date_keys@)) {
                Ok(Some(edit)) => r is Ok && r->Ok_0 is Some && r->Ok_0.unwrap()@ == edit,
                Ok(None) => r is Ok && r->Ok_0 is None,
                Err(fault) => r is Err && r->Err_0@ == fault,
            },
    {
        let s = str.as_bytes();
        let colon: usize = find_byte(s, 0x3a);
        if colon >= s.len() {
            return Ok(None);
        }
        proof {
            lemma_find_from(s@, 0x3a, 0);
            lemma_cut_at_ascii(s@, colon as int);
        }
        let key = substr(str, 0, colon);
        let value = tail(str, colon + 1);
        let is_end: bool = str_eq(key, "end");
        let is_pri: bool = str_eq(key, "pri");
        let is_entry: bool = str_eq(key, "entry");
        let dated: bool = is_date_key(date_keys, &Key::new(key));
        if value.as_bytes().len() == 0 {
            return Ok(
                Some(
                    if is_end {
                        ModPair::RemoveEnd
                    } else if is_pri {
                        ModPair::RemovePriority
                    } else if is_entry {
                        ModPair::RemoveEntry
                    } else if negate || dated {
                        ModPair::RemoveKey(Key::new(key))
                    } else {
                        ModPair::SetValue(Key::new(key), value.to_owned())
                    },
                ),
            );
        }
        if negate {
            return Err(Error::CannotModNegateKeyValue(str.to_owned()));
        }
        if is_pri {
            let v = value.as_bytes();
            if v.len() == 1 && 0x41 <= v[0] && v[0] <= 0x5a {
                return match Priority::from_char(v[0] as char) {
                    Some(pri) => Ok(Some(ModPair::SetPriority(pri))),
                    None => Err(Error::InvalidPriority(str.to_owned())),
                };
            }
            return Err(Error::InvalidPriority(str.to_owned()));
        }
        if !(is_end || is_entry || dated) {
            return Ok(Some(ModPair::SetValue(Key::new(key), value.to_owned())));
        }
        let date = match Date::new(value, now) {
            Some(date) => Some(date.to_string()),
            None => None,
        };
        if is_end {
            match date {
                Some(day) if is_yyyy_mm_dd(day.as_str()) => Ok(Some(ModPair::SetEnd(day))),
                _ => Err(Error::InvalidEnd(str.to_owned())),
            }
        } else if is_entry {
            match date {
                Some(day) if is_yyyy_mm_dd(day.as_str()) => Ok(Some(ModPair::SetEntry(day))),
                _ => Err(Error::InvalidEntry(str.to_owned())),
            }
        } else {
            match date {
                Some(date) => Ok(Some(ModPair::SetValue(Key::new(key), date))),
                None => Err(Error::KeyExpectsDateValue(str.to_owned())),
            }
        }
    }
}

impl<'a> ModPair<'a> {
    /// Makes the change to `task`.
    pub fn apply(&self, task: &mut TaskBuf)
        ensures
            final(task)@ == field_edited(self@, old(task)@),
    {
        match self {
            ModPair::SetEnd(v) => task.set_end(Some(End(v.as_str()))),
            ModPair::SetPriority(p) => task.set_priority(Some(*p)),
            ModPair::SetEntry(v) => task.set_entry(Some(Entry(v.as_str()))),
            ModPair::SetValue(k, v) => task.set_value(k, &Value::new(v.as_str())),
            ModPair::RemoveEnd => task.set_end(None),
            ModPair::RemovePriority => task.set_priority(None),
            ModPair::RemoveEntry => task.set_entry(None),
            ModPair::RemoveKey(k) => task.remove_pair(k),
        }
    }
}

/// The text of the date that lies an offset after the date that a field
/// holds.
fn move_date(field: Option<&str>, offset: &str) -> (r: Option<String>)
    ensures
        match moved(
            match field {
                Some(text) => Some(text.spec_bytes()),
                None => None,
            },
            offset.spec_bytes(),
        ) {
            Some(text) => r is Some && encode_utf8(r.unwrap()@) == text,
            None => r is None,
        },
{
    let text = match field {
        Some(text) => text,
        None => return None,
    };
    let date = match Date::from_abs(text) {
        Some(date) => date,
        None => return None,
    };
    match Date::from_rel(offset, &date) {
        Some(next) => Some(next.to_string()),
        None => None,
    }
}

impl<'a> Modification<'a> {
    /// Reads a modification.
    pub fn new(str: &'a str, now: &Date, date_keys: &[Key]) -> (r: Result<Self, Error>)
        ensures
            match edit_of(str.spec_bytes(), *now, key_texts(date_keys@)) {
                Ok(edit) => r is Ok && r->Ok_0@ == edit,
                Err(fault) => r is Err && r->Err_0@ == fault,
            },
    {
        let s = str.as_bytes();
        let negate: bool = s.len() > 0 && (s[0] == 0x2d || s[0] == 0x21);
        let body = if negate {
            proof {
                lemma_cut_at_ascii(s@, 0);
            }
            tail(str, 1)
        } else {
            str
        };
        if str_eq(body, "+done") {
            return Ok(
                if negate {
                    Modification::SetPending
                } else {
                    Modification::SetCompleted
                },
            );
        }
        if let Some(project) = Project::new(body) {
            return Ok(
                if negate {
                    Modification::RemoveProject(project)
                } else {
                    Modification::AddProject(project)
                },
            );
        }
        if let Some(context) = Context::new(body) {
            return Ok(
                if negate {
                    Modification::RemoveContext(context)
                } else {
                    Modification::AddContext(context)
                },
            );
        }
        match ModPair::new(body, negate, now, date_keys) {
            Err(e) => Err(e),
            Ok(Some(pair)) => Ok(Modification::SetPair(pair)),
            Ok(None) => {
                if s.len() >= 2 && s[0] == 0x3e && s[1] == 0x3e {
                    proof {
                        lemma_cut_at_ascii(s@, 1);
                    }
                    Ok(Modification::Append(tail(str, 2).to_owned()))
                } else {
                    Ok(Modification::SetBody(str.to_owned()))
                }
            },
        }
    }

    /// The next occurrence of the recurring task in `task`.
    fn respawn(task: &TaskBuf, offset: &str, date_keys: &[Key]) -> (r: TaskBuf)
        ensures
            r@ == recurrence(task@, offset.spec_bytes(), key_texts(date_keys@)),
    {
        let mut next = task.clone();
        let line = task.as_task();
        let entry = match line.get_entry() {
            Some(entry) => Some(entry.as_str()),
            None => None,
        };
        if let Some(text) = move_date(entry, offset) {
            next.set_entry(Some(Entry(text.as_str())));
        }
        let mut i: usize = 0;
        while i < date_keys.len()
            invariant
                i <= date_keys@.len(),
                line@ == task@,
                recurrence(task@, offset.spec_bytes(), key_texts(date_keys@)) == keys_moved(
                    task@,
                    next@,
                    offset.spec_bytes(),
                    key_texts(date_keys@),
                    i as int,
                ),
            decreases date_keys@.len() - i,
        {
            let key = &date_keys[i];
            assert(key_texts(date_keys@)[i as int] == key@);
            let value = match line.get_value(key) {
                Some(value) => Some(value.as_str()),
                None => None,
            };
            if let Some(text) = move_date(value, offset) {
                next.set_value(key, &Value::new(text.as_str()));
            }
            i += 1;
        }
        next
    }

    /// Completes a pending task.
    fn complete(task: &mut TaskBuf, date_keys: &[Key]) -> (r: ModOutput)
        requires
            !completed(old(task)@),
        ensures
            final(task)@ == edited(Edit::SetCompleted, old(task)@, key_texts(date_keys@)).line,
            line_of(r.add) == edited(Edit::SetCompleted, old(task)@, key_texts(date_keys@)).add,
            r.remove_similar == edited(
                Edit::SetCompleted,
                old(task)@,
                key_texts(date_keys@),
            ).remove_similar,
    {
        let recur = Key::new("recur");
        let add = match task.as_task().get_value(&recur) {
            Some(offset) => Some(Modification::respawn(task, offset.as_str(), date_keys)),
            None => None,
        };
        proof {
            reveal_strlit("+update");
            is_ascii_chars_encode_utf8("+update"@);
        }
        let remove_similar: bool = match Project::new("+update") {
            Some(update) => task.as_task().has_token(&Token::Project(update)),
            None => false,
        };
        task.set_completed();
        ModOutput { add, remove_similar }
    }

    /// Makes the change to `task`.
    pub fn apply(&self, task: &mut TaskBuf, date_keys: &[Key]) -> (r: ModOutput)
        ensures
            final(task)@ == edited(self@, old(task)@, key_texts(date_keys@)).line,
            line_of(r.add) == edited(self@, old(task)@, key_texts(date_keys@)).add,
            r.remove_similar == edited(self@, old(task)@, key_texts(date_keys@)).remove_similar,
    {
        match self {
            Modification::SetPending => {
                task.set_end(None);
                task.set_pending();
            },
            Modification::SetCompleted => {
                if !task.as_task().is_completed() {
                    return Modification::complete(task, date_keys);
                }
            },
            Modification::AddProject(project) => {
                if !task.as_task().has_token(&Token::Project(project.clone())) {
                    task.append_text(project.as_str());
                }
            },
            Modification::RemoveProject(project) => {
                task.remove_token(&Token::Project(project.clone()));
            },
            Modification::AddContext(context) => {
                if !task.as_task().has_token(&Token::Context(context.clone())) {
                    task.append_text(context.as_str());
                }
            },
            Modification::RemoveContext(context) => {
                task.remove_token(&Token::Context(context.clone()));
            },
            Modification::SetPair(pair) => {
                pair.apply(task);
            },
            Modification::Append(v) => task.append_text(v.as_str()),
            Modification::SetBody(v) => {
                task.clear_body();
                task.append_text(v.as_str());
            },
        }
        ModOutput { add: None, remove_similar: false }
    }
}

} // verus!
