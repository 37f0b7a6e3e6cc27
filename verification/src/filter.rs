//! Filters: what a filter text asks of a task, and whether a task answers
//! it.

use crate::date::{abs_of, Date};
use crate::error::{Error, Fault};
use crate::field::{
    is_priority_range_shape, is_priority_shape, number_list_of, number_range_of, numbers,
    starts_with, Context, Key, Number, Priority, Project, Stage,
};
use crate::pattern::{between_slashes, compiles, has_match, slashed, Pattern};
use crate::task::{
    completed, end_of, entry_of, first_any, pair_of, priority_of, value_of, Query, Task,
};
use crate::taskiter::piece_text;
use crate::text::{find, find_byte, lemma_cut_at_ascii, lemma_find_from, str_eq, substr, tail};
use crate::token::{Token, TokenKind};
use vstd::prelude::*;
use vstd::string::*;
use vstd::utf8::*;

verus! {

/// The field of a task that a test is about.
pub enum Subject<'a> {
    End,
    Priority,
    Entry,
    Key(Key<'a>),
}

/// What is asked of a field.
pub enum Test {
    /// That it reads like this.
    Is(String),
    /// That there is one.
    Any,
    /// That there is none.
    Absent,
    /// That it is a date whose span ends before this one starts.
    Before(Date),
    /// That it is a date whose span starts after this one has ended.
    After(Date),
    /// That it is a date whose span lies within this one.
    In(Date),
}

/// A test on one field of a task.
pub struct FilterPair<'a> {
    pub subject: Subject<'a>,
    pub test: Test,
}

/// What a filter asks.
pub enum Kind<'a> {
    All,
    IsCompleted,
    HasProject(Project<'a>),
    HasContext(Context<'a>),
    HasPair(FilterPair<'a>),
    MatchesRegex(Pattern),
    WithinPriorityRange(Priority, Priority),
    WithinNumberRange(Number, Number),
    WithinNumberList(Vec<Number>),
}

/// A filter: a question, and whether the tasks wanted are those that answer
/// it with no.
pub struct Filter<'a> {
    kind: Kind<'a>,
    negate: bool,
}

/// A subject as a plain value.
pub enum Topic {
    End,
    Priority,
    Entry,
    Key(Seq<u8>),
}

/// A test as a plain value.
pub enum Check {
    Is(Seq<u8>),
    Any,
    Absent,
    Before(Date),
    After(Date),
    In(Date),
}

/// What a filter asks, as a plain value.
pub enum Rule {
    All,
    IsCompleted,
    HasProject(Seq<u8>),
    HasContext(Seq<u8>),
    HasPair(Topic, Check),
    MatchesRegex(Seq<char>),
    WithinPriorityRange(u8, u8),
    WithinNumberRange(nat, nat),
    WithinNumberList(Seq<nat>),
}

/// A filter as a plain value.
pub struct Sieve {
    pub rule: Rule,
    pub negate: bool,
}

impl<'a> View for Subject<'a> {
    type V = Topic;

    open spec fn view(&self) -> Topic {
        match self {
            Subject::End => Topic::End,
            Subject::Priority => Topic::Priority,
            Subject::Entry => Topic::Entry,
            Subject::Key(key) => Topic::Key(key@),
        }
    }
}

impl View for Test {
    type V = Check;

    open spec fn view(&self) -> Check {
        match self {
            Test::Is(value) => Check::Is(encode_utf8(value@)),
            Test::Any => Check::Any,
            Test::Absent => Check::Absent,
            Test::Before(date) => Check::Before(*date),
            Test::After(date) => Check::After(*date),
            Test::In(date) => Check::In(*date),
        }
    }
}

impl<'a> View for Kind<'a> {
    type V = Rule;

    open spec fn view(&self) -> Rule {
        match self {
            Kind::All => Rule::All,
            Kind::IsCompleted => Rule::IsCompleted,
            Kind::HasProject(project) => Rule::HasProject(project@),
            Kind::HasContext(context) => Rule::HasContext(context@),
            Kind::HasPair(pair) => Rule::HasPair(pair.subject@, pair.test@),
            Kind::MatchesRegex(pattern) => Rule::MatchesRegex(pattern.pattern()),
            Kind::WithinPriorityRange(low, high) => Rule::WithinPriorityRange(low@, high@),
            Kind::WithinNumberRange(low, high) => Rule::WithinNumberRange(low@, high@),
            Kind::WithinNumberList(list) => Rule::WithinNumberList(numbers(list@)),
        }
    }
}

impl<'a> View for Filter<'a> {
    type V = Sieve;

    closed spec fn view(&self) -> Sieve {
        Sieve { rule: self.kind@, negate: self.negate }
    }
}

/// The keys that hold dates, as plain values.
pub open spec fn key_texts(keys: Seq<Key>) -> Seq<Seq<u8>> {
    Seq::new(keys.len(), |i: int| keys[i]@)
}

/// What a task has in the field that a topic names. Of a priority this is
/// its letter.
pub open spec fn field_of(line: Seq<u8>, topic: Topic) -> Option<Seq<u8>> {
    match topic {
        Topic::End => match end_of(line) {
            Some(piece) => Some(piece_text(line, piece)),
            None => None,
        },
        Topic::Priority => match priority_of(line) {
            Some(piece) => Some(seq![piece_text(line, piece)[1]]),
            None => None,
        },
        Topic::Entry => match entry_of(line) {
            Some(piece) => Some(piece_text(line, piece)),
            None => None,
        },
        Topic::Key(key) => match pair_of(line, key) {
            Some(piece) => Some(value_of(line, piece)),
            None => None,
        },
    }
}

/// Whether a field stands the test. The tests on dates ask for a field that
/// is an absolute date.
pub open spec fn passes(field: Option<Seq<u8>>, check: Check) -> bool {
    match check {
        Check::Is(value) => field == Some(value),
        Check::Any => field is Some,
        Check::Absent => field is None,
        Check::Before(date) => field is Some && abs_of(field.unwrap()) is Some && abs_of(
            field.unwrap(),
        ).unwrap().is_before(date),
        Check::After(date) => field is Some && abs_of(field.unwrap()) is Some && abs_of(
            field.unwrap(),
        ).unwrap().is_after(date),
        Check::In(date) => field is Some && abs_of(field.unwrap()) is Some && abs_of(
            field.unwrap(),
        ).unwrap().is_within(date),
    }
}

/// Whether the task on a line with a number answers what a rule asks.
pub open spec fn selects(rule: Rule, line: Seq<u8>, nr: nat) -> bool {
    match rule {
        Rule::All => true,
        Rule::IsCompleted => completed(line),
        Rule::HasProject(text) => first_any(line, Query::Like(TokenKind::Project, text)) is Some,
        Rule::HasContext(text) => first_any(line, Query::Like(TokenKind::Context, text)) is Some,
        Rule::HasPair(topic, check) => passes(field_of(line, topic), check),
        Rule::MatchesRegex(pattern) => has_match(pattern, decode_utf8(line)),
        Rule::WithinPriorityRange(low, high) => match priority_of(line) {
            Some(piece) => low <= piece_text(line, piece)[1] <= high,
            None => false,
        },
        Rule::WithinNumberRange(low, high) => low <= nr <= high,
        Rule::WithinNumberList(list) => list.contains(nr),
    }
}

/// Whether a filter keeps a task: whether the task answers its rule, or,
/// for a negated filter, does not.
pub open spec fn keeps(sieve: Sieve, line: Seq<u8>, nr: nat) -> bool {
    selects(sieve.rule, line, nr) != sieve.negate
}

/// The filter that keeps what this one drops.
pub open spec fn negated(sieve: Sieve) -> Sieve {
    Sieve { rule: sieve.rule, negate: !sieve.negate }
}

/// Negation: the negated filter keeps a task exactly when the filter does
/// not.
pub proof fn lemma_negation(sieve: Sieve, line: Seq<u8>, nr: nat)
    ensures
        keeps(negated(sieve), line, nr) == !keeps(sieve, line, nr),
{
}

/// The name under which a topic is written.
pub open spec fn topic_name(topic: Topic) -> Seq<u8> {
    match topic {
        Topic::End => "end".spec_bytes(),
        Topic::Priority => "pri".spec_bytes(),
        Topic::Entry => "entry".spec_bytes(),
        Topic::Key(key) => key,
    }
}

/// Whether two rules ask about the same thing, so that one given by default
/// gives way to one given expressly.
pub open spec fn clashes(a: Rule, b: Rule) -> bool {
    match (a, b) {
        (Rule::All, _) => true,
        (_, Rule::All) => true,
        (Rule::IsCompleted, Rule::IsCompleted) => true,
        (Rule::HasProject(x), Rule::HasProject(y)) => x == y,
        (Rule::HasContext(x), Rule::HasContext(y)) => x == y,
        (Rule::HasPair(x, _), Rule::HasPair(y, _)) => topic_name(x) == topic_name(y),
        (Rule::MatchesRegex(_), Rule::MatchesRegex(_)) => true,
        (Rule::WithinPriorityRange(_, _), Rule::WithinPriorityRange(_, _)) => true,
        (Rule::WithinNumberRange(_, _), Rule::WithinNumberRange(_, _)) => true,
        (Rule::WithinNumberList(_), _) => true,
        (_, Rule::WithinNumberList(_)) => true,
        _ => false,
    }
}

/// A text without the `-` or `!` that may stand in front of it, and whether
/// one did.
pub open spec fn unsigned(s: Seq<u8>) -> (Seq<u8>, bool) {
    if starts_with(s, 0x2d) || starts_with(s, 0x21) {
        (s.subrange(1, s.len() as int), true)
    } else {
        (s, false)
    }
}

/// The topic that a key names.
pub open spec fn topic_of(key: Seq<u8>) -> Topic {
    if key == "end".spec_bytes() {
        Topic::End
    } else if key == "pri".spec_bytes() {
        Topic::Priority
    } else if key == "entry".spec_bytes() {
        Topic::Entry
    } else {
        Topic::Key(key)
    }
}

/// The test on dates that a word names, on a date.
pub open spec fn date_check(word: Seq<u8>, date: Date) -> Option<Check> {
    if word == "before".spec_bytes() {
        Some(Check::Before(date))
    } else if word == "after".spec_bytes() {
        Some(Check::After(date))
    } else if word == "in".spec_bytes() {
        Some(Check::In(date))
    } else {
        None
    }
}

/// The parts of `key[.test]:value`: the key, the test if one is named, and
/// the value. The value starts after the first `:`, the test after the
/// first `.` before that.
pub open spec fn pair_parts(s: Seq<u8>) -> (Seq<u8>, Option<Seq<u8>>, Seq<u8>) {
    let colon = find(s, 0x3a);
    let head = s.subrange(0, colon);
    let value = s.subrange(colon + 1, s.len() as int);
    let dot = find(head, 0x2e);
    if dot < head.len() {
        (head.subrange(0, dot), Some(head.subrange(dot + 1, head.len() as int)), value)
    } else {
        (head, None, value)
    }
}

/// Whether a text is one letter from `A` to `Z`.
pub open spec fn is_letter(s: Seq<u8>) -> bool {
    s.len() == 1 && 0x41 <= s[0] <= 0x5a
}

/// What `key[.test]:value` asks: nothing, if there is no `:` in it. A test
/// on dates is only for the two dates of a task and the keys that hold
/// dates, and takes a date, read at `now`.
pub open spec fn pair_rule_of(s: Seq<u8>, now: Date, keys: Seq<Seq<u8>>) -> Result<
    Option<(Topic, Check)>,
    Fault,
> {
    let (key, test, value) = pair_parts(s);
    let topic = topic_of(key);
    if find(s, 0x3a) >= s.len() {
        Ok(None)
    } else {
        match test {
            None => if topic is Priority && !is_letter(value) {
                Err(Fault::InvalidPriority(s))
            } else {
                Ok(Some((topic, Check::Is(value))))
            },
            Some(word) => if word == "any".spec_bytes() {
                Ok(Some((topic, Check::Any)))
            } else if word == "none".spec_bytes() {
                Ok(Some((topic, Check::Absent)))
            } else if date_check(word, now) is None {
                Err(Fault::InvalidMod(s))
            } else if topic is Priority || (topic is Key && !keys.contains(key)) {
                Err(Fault::ModExpectsDateKey(s))
            } else {
                match Date::date_of(value, now) {
                    Some(date) => Ok(Some((topic, date_check(word, date).unwrap()))),
                    None => Err(Fault::ModExpectsDateValue(s)),
                }
            },
        }
    }
}

/// What a filter text without its sign asks. The forms are tried in a fixed
/// order, and the first that fits decides.
pub open spec fn rule_of(s: Seq<u8>, now: Date, keys: Seq<Seq<u8>>) -> Result<Option<Rule>, Fault> {
    if s == "all".spec_bytes() {
        Ok(Some(Rule::All))
    } else if s == "+done".spec_bytes() {
        Ok(Some(Rule::IsCompleted))
    } else if starts_with(s, 0x2b) {
        Ok(Some(Rule::HasProject(s)))
    } else if starts_with(s, 0x40) {
        Ok(Some(Rule::HasContext(s)))
    } else if slashed(s) {
        if compiles(between_slashes(s)) {
            Ok(Some(Rule::MatchesRegex(between_slashes(s))))
        } else {
            Err(Fault::InvalidRegex(s))
        }
    } else if is_priority_shape(s) {
        Ok(Some(Rule::WithinPriorityRange(s[1], s[1])))
    } else if is_priority_range_shape(s) {
        if s[1] <= s[3] {
            Ok(Some(Rule::WithinPriorityRange(s[1], s[3])))
        } else {
            Ok(Some(Rule::WithinPriorityRange(s[3], s[1])))
        }
    } else if number_list_of(s, usize::MAX as nat) is Some {
        Ok(Some(Rule::WithinNumberList(number_list_of(s, usize::MAX as nat).unwrap())))
    } else if number_range_of(s, usize::MAX as nat) is Some {
        Ok(
            Some(
                Rule::WithinNumberRange(
                    number_range_of(s, usize::MAX as nat).unwrap().0,
                    number_range_of(s, usize::MAX as nat).unwrap().1,
                ),
            ),
        )
    } else {
        match pair_rule_of(s, now, keys) {
            Ok(Some((topic, check))) => Ok(Some(Rule::HasPair(topic, check))),
            Ok(None) => Ok(None),
            Err(fault) => Err(fault),
        }
    }
}

/// The filter that a text writes, read at `now` with the keys that hold
/// dates: none if the text is no filter, and an error if it looks like one
/// and is wrong.
pub open spec fn sieve_of(s: Seq<u8>, now: Date, keys: Seq<Seq<u8>>) -> Result<
    Option<Sieve>,
    Fault,
> {
    match rule_of(unsigned(s).0, now, keys) {
        Ok(Some(rule)) => Ok(Some(Sieve { rule, negate: unsigned(s).1 })),
        Ok(None) => Ok(None),
        Err(fault) => Err(fault),
    }
}

/// A `-` in front of a filter text negates the filter.
pub proof fn lemma_sign_negates(s: Seq<u8>, now: Date, keys: Seq<Seq<u8>>)
    requires
        !starts_with(s, 0x2d),
        !starts_with(s, 0x21),
    ensures
        match sieve_of(s, now, keys) {
            Ok(Some(sieve)) => sieve_of(seq![0x2du8] + s, now, keys) == Ok::<
                Option<Sieve>,
                Fault,
            >(Some(negated(sieve))),
            Ok(None) => sieve_of(seq![0x2du8] + s, now, keys) == Ok::<Option<Sieve>, Fault>(None),
            Err(fault) => sieve_of(seq![0x2du8] + s, now, keys) == Err::<Option<Sieve>, Fault>(
                fault,
            ),
        },
{
    let signed = seq![0x2du8] + s;
    assert(signed.subrange(1, signed.len() as int) =~= s);
}

/// Whether a key is among the keys that hold dates.
pub fn is_date_key(date_keys: &[Key], key: &Key) -> (r: bool)
    ensures
        r == key_texts(date_keys@).contains(key@),
{
    let mut i: usize = 0;
    while i < date_keys.len()
        invariant
            i <= date_keys@.len(),
            forall|j: int| 0 <= j < i ==> key_texts(date_keys@)[j] != key@,
        decreases date_keys@.len() - i,
    {
        if date_keys[i].same(key) {
            assert(key_texts(date_keys@)[i as int] == key@);
            return true;
        }
        i += 1;
    }
    false
}

/// What a task was found to have in a field.
enum Found<'t> {
    Text(&'t str),
    Letter(u8),
    Nothing,
}

impl<'t> Found<'t> {
    spec fn view(&self) -> Option<Seq<u8>> {
        match self {
            Found::Text(text) => Some(text.spec_bytes()),
            Found::Letter(letter) => Some(seq![*letter]),
            Found::Nothing => None,
        }
    }

    fn date(&self) -> (r: Option<Date>)
        ensures
            r == match self.view() {
                Some(text) => abs_of(text),
                None => None,
            },
    {
        match self {
            Found::Text(text) => Date::from_abs(text),
            _ => None,
        }
    }
}

impl<'a> FilterPair<'a> {
    /// Reads `key[.test]:value`.
    pub fn new(str: &'a str, now: &Date, date_keys: &[Key]) -> (r: Result<Option<Self>, Error>)
        ensures
            match pair_rule_of(str.spec_bytes(), *now, key_texts(date_keys@)) {
                Ok(Some((topic, check))) => r is Ok && r->Ok_0 is Some && r->Ok_0.unwrap().subject@
                    == topic && r->Ok_0.unwrap().test@ == check,
                Ok(None) => r is Ok && r->Ok_0 is None,
                Err(fault) => r is Err && r->Err_0@ == fault,
            },
    {
        let s = str.as_bytes();
        let colon: usize = find_byte(s, 0x3a);
        if colon >= s.len() {
            return Ok(None);
        }
        proof {
            lemma_find_from(s@, 0x3a, 0);
            lemma_cut_at_ascii(s@, colon as int);
        }
        let head = substr(str, 0, colon);
        let value = tail(str, colon + 1);
        let dot: usize = find_byte(head.as_bytes(), 0x2e);
        let (key, test) = if dot < head.as_bytes().len() {
            proof {
                lemma_find_from(head.spec_bytes(), 0x2e, 0);
                lemma_cut_at_ascii(head.spec_bytes(), dot as int);
            }
            (substr(head, 0, dot), Some(tail(head, dot + 1)))
        } else {
            (head, None)
        };
        let subject = if str_eq(key, "end") {
            Subject::End
        } else if str_eq(key, "pri") {
            Subject::Priority
        } else if str_eq(key, "entry") {
            Subject::Entry
        } else {
            Subject::Key(Key::new(key))
        };
        let word = match test {
            None => {
                if let Subject::Priority = subject {
                    let v = value.as_bytes();
                    if !(v.len() == 1 && 0x41 <= v[0] && v[0] <= 0x5a) {
                        return Err(Error::InvalidPriority(str.to_owned()));
                    }
                }
                return Ok(Some(FilterPair { subject, test: Test::Is(value.to_owned()) }));
            },
            Some(word) => word,
        };
        if str_eq(word, "any") {
            return Ok(Some(FilterPair { subject, test: Test::Any }));
        }
        if str_eq(word, "none") {
            return Ok(Some(FilterPair { subject, test: Test::Absent }));
        }
        let before: bool = str_eq(word, "before");
        let after: bool = str_eq(word, "after");
        if !(before || after || str_eq(word, "in")) {
            return Err(Error::InvalidMod(str.to_owned()));
        }
        let dated: bool = match &subject {
            Subject::End => true,
            Subject::Entry => true,
            Subject::Priority => false,
            Subject::Key(key) => is_date_key(date_keys, key),
        };
        if !dated {
            return Err(Error::ModExpectsDateKey(str.to_owned()));
        }
        match Date::new(value, now) {
            Some(date) => {
                let test = if before {
                    Test::Before(date)
                } else if after {
                    Test::After(date)
                } else {
                    Test::In(date)
                };
                Ok(Some(FilterPair { subject, test }))
            },
            None => Err(Error::ModExpectsDateValue(str.to_owned())),
        }
    }

    /// What the task has in the field that the test is about.
    fn find<'t>(&self, task: &Task<'t>) -> (r: Found<'t>)
        ensures
            r.view() == field_of(task@, self.subject@),
    {
        match &self.subject {
            Subject::End => match task.get_end() {
                Some(end) => Found::Text(end.as_str()),
                None => Found::Nothing,
            },
            Subject::Priority => match task.get_priority() {
                Some(pri) => {
                    assert(pri.text()[1] == pri@);
                    Found::Letter(pri.as_u8())
                },
                None => Found::Nothing,
            },
            Subject::Entry => match task.get_entry() {
                Some(entry) => Found::Text(entry.as_str()),
                None => Found::Nothing,
            },
            Subject::Key(key) => match task.get_value(key) {
                Some(value) => Found::Text(value.as_str()),
                None => Found::Nothing,
            },
        }
    }

    /// Whether the task stands the test.
    pub fn holds_of(&self, task: &Task) -> (r: bool)
        ensures
            r == passes(field_of(task@, self.subject@), self.test@),
    {
        let found = self.find(task);
        match &self.test {
            Test::Is(value) => match found {
                Found::Text(text) => str_eq(text, value.as_str()),
                Found::Letter(letter) => {
                    let v = value.as_str().as_bytes();
                    let same: bool = v.len() == 1 && v[0] == letter;
                    assert(same == (seq![letter] =~= v@));
                    same
                },
                Found::Nothing => false,
            },
            Test::Any => match found {
                Found::Nothing => false,
                _ => true,
            },
            Test::Absent => match found {
                Found::Nothing => true,
                _ => false,
            },
            Test::Before(date) => match found.date() {
                Some(d) => d.before(date),
                None => false,
            },
            Test::After(date) => match found.date() {
                Some(d) => d.after(date),
                None => false,
            },
            Test::In(date) => match found.date() {
                Some(d) => d.within(date),
                None => false,
            },
        }
    }

    /// Whether the two tests are about fields of the same name.
    fn same_subject(&self, other: &FilterPair) -> (r: bool)
        ensures
            r == (topic_name(self.subject@) == topic_name(other.subject@)),
    {
        str_eq(self.name(), other.name())
    }

    fn name(&self) -> (r: &str)
        ensures
            r.spec_bytes() == topic_name(self.subject@),
    {
        match &self.subject {
            Subject::End => "end",
            Subject::Priority => "pri",
            Subject::Entry => "entry",
            Subject::Key(key) => key.as_str(),
        }
    }
}

impl<'a> Filter<'a> {
    /// Reads a filter. A text that is no filter gives `None`; one that looks
    /// like a filter and is wrong gives an error.
    pub fn new(str: &'a str, now: &Date, date_keys: &[Key]) -> (r: Result<Option<Self>, Error>)
        ensures
            match sieve_of(str.spec_bytes(), *now, key_texts(date_keys@)) {
                Ok(Some(sieve)) => r is Ok && r->Ok_0 is Some && r->Ok_0.unwrap()@ == sieve,
                Ok(None) => r is Ok && r->Ok_0 is None,
                Err(fault) => r is Err && r->Err_0@ == fault,
            },
    {
        let s = str.as_bytes();
        let negate: bool = s.len() > 0 && (s[0] == 0x2d || s[0] == 0x21);
        let body = if negate {
            proof {
                lemma_cut_at_ascii(s@, 0);
            }
            tail(str, 1)
        } else {
            str
        };
        let kind = if str_eq(body, "all") {
            Kind::All
        } else if str_eq(body, "+done") {
            Kind::IsCompleted
        } else if let Some(project) = Project::new(body) {
            Kind::HasProject(project)
        } else if let Some(context) = Context::new(body) {
            Kind::HasContext(context)
        } else {
            match Pattern::new(body) {
                Err(e) => return Err(e),
                Ok(Some(pattern)) => Kind::MatchesRegex(pattern),
                Ok(None) => {
                    if let Some(pri) = Priority::new(body, Stage::Priority) {
                        assert(pri.text()[1] == pri@);
                        Kind::WithinPriorityRange(pri, pri)
                    } else if let Some((low, high)) = Priority::new_range(body) {
                        Kind::WithinPriorityRange(low, high)
                    } else if let Some(list) = Number::new_list(body) {
                        Kind::WithinNumberList(list)
                    } else if let Some((low, high)) = Number::new_range(body) {
                        Kind::WithinNumberRange(low, high)
                    } else {
                        match FilterPair::new(body, now, date_keys) {
                            Err(e) => return Err(e),
                            Ok(Some(pair)) => Kind::HasPair(pair),
                            Ok(None) => return Ok(None),
                        }
                    }
                },
            }
        };
        Ok(Some(Filter { kind, negate }))
    }

    /// Whether the filter keeps the task on the line with number `nr`.
    pub fn keep(&self, task: &Task, nr: Number) -> (r: bool)
        ensures
            r == keeps(self@, task@, nr@),
    {
        broadcast use encode_utf8_decode_utf8;

        let result: bool = match &self.kind {
            Kind::All => true,
            Kind::IsCompleted => task.is_completed(),
            Kind::HasProject(project) => task.has_token(&Token::Project(project.clone())),
            Kind::HasContext(context) => task.has_token(&Token::Context(context.clone())),
            Kind::HasPair(pair) => pair.holds_of(task),
            Kind::MatchesRegex(pattern) => pattern.is_match(task.as_str()),
            Kind::WithinPriorityRange(low, high) => match task.get_priority() {
                Some(pri) => {
                    assert(pri.text()[1] == pri@);
                    low.as_u8() <= pri.as_u8() && pri.as_u8() <= high.as_u8()
                },
                None => false,
            },
            Kind::WithinNumberRange(low, high) => low.as_usize() <= nr.as_usize() && nr.as_usize()
                <= high.as_usize(),
            Kind::WithinNumberList(list) => {
                let mut found: bool = false;
                let mut i: usize = 0;
                while i < list.len()
                    invariant
                        i <= list@.len(),
                        found == exists|j: int| 0 <= j < i && numbers(list@)[j] == nr@,
                    decreases list@.len() - i,
                {
                    if list[i].as_usize() == nr.as_usize() {
                        assert(numbers(list@)[i as int] == nr@);
                        found = true;
                    }
                    i += 1;
                }
                found
            },
        };
        result != self.negate
    }

    /// Whether two filters ask about the same thing.
    pub fn conflicts(&self, other: &Filter) -> (r: bool)
        ensures
            r == clashes(self@.rule, other@.rule),
    {
        match (&self.kind, &other.kind) {
            (Kind::All, _) => true,
            (_, Kind::All) => true,
            (Kind::IsCompleted, Kind::IsCompleted) => true,
            (Kind::HasProject(a), Kind::HasProject(b)) => str_eq(a.as_str(), b.as_str()),
            (Kind::HasContext(a), Kind::HasContext(b)) => str_eq(a.as_str(), b.as_str()),
            (Kind::HasPair(a), Kind::HasPair(b)) => a.same_subject(b),
            (Kind::MatchesRegex(_), Kind::MatchesRegex(_)) => true,
            (Kind::WithinPriorityRange(_, _), Kind::WithinPriorityRange(_, _)) => true,
            (Kind::WithinNumberRange(_, _), Kind::WithinNumberRange(_, _)) => true,
            (Kind::WithinNumberList(_), _) => true,
            (_, Kind::WithinNumberList(_)) => true,
            _ => false,
        }
    }
}

} // verus!
