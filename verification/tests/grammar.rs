use chore::field::{
    is_yyyy_mm_dd, Annotation, Context, End, Entry, Key, Marker, Number, Pair, Priority, Project,
    Space, Stage, Value,
};
use chore::task::{Task, TaskBuf};
use chore::taskiter::TaskIter;
use chore::token::Token;

fn kinds(line: &str) -> Vec<&'static str> {
    Task::new(line)
        .tokens()
        .iter()
        .map(|(token, _)| match token {
            Token::Annotation(_) => "annotation",
            Token::Context(_) => "context",
            Token::End(_) => "end",
            Token::Entry(_) => "entry",
            Token::Key(_) => "key",
            Token::Marker(_) => "marker",
            Token::Normal(_) => "normal",
            Token::Pair(_) => "pair",
            Token::Priority(_) => "priority",
            Token::Project(_) => "project",
            Token::Space(_) => "space",
        })
        .collect()
}

#[test]
fn tokens_cover_the_line_in_order() {
    for line in &[
        "",
        " ",
        "x",
        "x 2001-02-03 (H) 2001-01-02 @work issue:123",
        "(M) 2001-02-03 @home +chore add tests",
        "  leading and trailing\t \t",
        "päivä: ärger | naïve   +café",
        "a:b:c  x (A) 2001-02-03",
    ] {
        let tokens = Task::new(line).tokens();
        let mut joined = String::new();
        let mut at = 0;
        for (token, range) in &tokens {
            assert_eq!(range.start, at);
            assert!(range.start < range.end);
            assert_eq!(token.len(), range.end - range.start);
            joined.push_str(&line[range.clone()]);
            at = range.end;
        }
        assert_eq!(at, line.len());
        assert_eq!(&joined, line);
    }
}

#[test]
fn scan_can_be_started_again() {
    let task = Task::new("x 2001-02-03 done");
    let mut first = task.iter();
    let mut count = 0;
    while first.next().is_some() {
        count += 1;
    }
    assert_eq!(count, 5);
    assert!(first.next().is_none());
    let mut second = TaskIter::new("x 2001-02-03 done");
    assert!(matches!(second.next(), Some((Token::Marker(_), _))));
    assert_eq!(task.into_iter().next().map(|(_, r)| r), Some(0..1));
}

#[test]
fn leading_fields_are_recognised_in_their_place() {
    assert_eq!(
        kinds("x 2001-02-03 (H) 2001-01-02 @work issue:123 | note"),
        vec![
            "marker", "space", "end", "space", "priority", "space", "entry", "space", "context",
            "space", "pair", "space", "annotation", "space", "normal"
        ]
    );
    assert_eq!(
        kinds("(M) 2001-02-03 +chore"),
        vec!["priority", "space", "entry", "space", "project"]
    );
    assert_eq!(kinds("2001-02-03 word"), vec!["entry", "space", "normal"]);
}

#[test]
fn fields_after_the_body_has_begun_are_plain_words() {
    assert_eq!(
        kinds("word (A) 2001-02-03 x"),
        vec!["normal", "space", "normal", "space", "normal", "space", "normal"]
    );
    assert_eq!(kinds("(A) (B)"), vec!["priority", "space", "normal"]);
    assert_eq!(
        kinds("2001-02-03 2001-02-04"),
        vec!["entry", "space", "normal"]
    );
}

#[test]
fn marker_must_be_the_first_token() {
    assert_eq!(kinds(" x"), vec!["space", "normal"]);
    assert!(!Task::new(" x rest").is_completed());
    assert!(Task::new("x rest").is_completed());
    assert!(!Task::new("xx rest").is_completed());
    // After whitespace a date is a completion date, with or without marker.
    assert_eq!(kinds(" 2001-02-03"), vec!["space", "end"]);
}

#[test]
fn date_shape_is_not_checked_against_the_calendar() {
    assert!(is_yyyy_mm_dd("2001-02-03"));
    assert!(is_yyyy_mm_dd("2001-19-39"));
    assert!(is_yyyy_mm_dd("0000-00-00"));
    assert!(!is_yyyy_mm_dd("2001-20-03"));
    assert!(!is_yyyy_mm_dd("2001-02-43"));
    assert!(!is_yyyy_mm_dd("2001-02-3"));
    assert!(!is_yyyy_mm_dd("2001-02-031"));
    assert!(!is_yyyy_mm_dd("2001/02/03"));
    assert!(!is_yyyy_mm_dd("２001-02-03"));
    assert!(!is_yyyy_mm_dd(""));
}

#[test]
fn fields_are_recognised_by_their_form() {
    assert!(Annotation::new("|").is_some());
    assert!(Annotation::new("||").is_none());
    assert_eq!(Annotation::new("|").unwrap().len(), 1);
    assert_eq!(Context::new("@home").unwrap().as_str(), "@home");
    assert_eq!(Context::new("@home").unwrap().len(), 5);
    assert!(Context::new("home").is_none());
    assert!(Context::new("").is_none());
    assert_eq!(Project::new("+chore").unwrap().as_str(), "+chore");
    assert_eq!(Project::new("+chöre").unwrap().len(), 7);
    assert!(Project::new("chore+").is_none());
    assert!(Marker::new("x", Stage::Marker).is_some());
    assert!(Marker::new("x", Stage::End).is_none());
    assert!(Marker::new("X", Stage::Marker).is_none());
    assert_eq!(Marker::new("x", Stage::new()).unwrap().len(), 1);
    assert_eq!(End::new("2001-02-03", Stage::End).unwrap().as_str(), "2001-02-03");
    assert!(End::new("2001-02-03", Stage::Marker).is_none());
    assert!(End::new("2001-02-03", Stage::Priority).is_none());
    assert_eq!(End::new("2001-02-03", Stage::End).unwrap().len(), 10);
    assert!(Entry::new("2001-02-03", Stage::Marker).is_some());
    assert!(Entry::new("2001-02-03", Stage::Entry).is_some());
    assert!(Entry::new("2001-02-03", Stage::Body).is_none());
    assert_eq!(Entry::new("2001-02-03", Stage::Entry).unwrap().len(), 10);
    assert!(Space::new(" \t\r\n\x0c").is_some());
    assert!(Space::new("").is_some());
    assert!(Space::new(" a ").is_none());
    assert!(Space::new("\x0b").is_none());
    assert_eq!(Space::new("  ").unwrap().as_str(), "  ");
    assert_eq!(Space::new("  ").unwrap().len(), 2);
    assert_eq!(Key::new("due").as_str(), "due");
    assert_eq!(Key::new("due").len(), 3);
    assert_eq!(Value::new("123").as_str(), "123");
    assert_eq!(Value::new("").len(), 0);
    assert!(Stage::Marker < Stage::Body);
}

#[test]
fn pair_splits_at_the_first_colon() {
    let pair = Pair::new("a:b:c").unwrap();
    assert_eq!(pair.key.as_str(), "a");
    assert_eq!(pair.value.as_str(), "b:c");
    assert_eq!(pair.len(), 5);
    let pair = Pair::new(":").unwrap();
    assert_eq!(pair.key.as_str(), "");
    assert_eq!(pair.value.as_str(), "");
    assert_eq!(pair.len(), 1);
    assert!(Pair::new("abc").is_none());
}

#[test]
fn priority_is_one_capital_letter() {
    assert_eq!(Priority::new("(A)", Stage::Marker).unwrap().as_u8(), b'A');
    assert_eq!(Priority::new("(Z)", Stage::Priority).unwrap().as_u8(), b'Z');
    assert!(Priority::new("(A)", Stage::Entry).is_none());
    assert!(Priority::new("(a)", Stage::Marker).is_none());
    assert!(Priority::new("(AB)", Stage::Marker).is_none());
    assert!(Priority::new("()", Stage::Marker).is_none());
    assert!(Priority::new("(É)", Stage::Marker).is_none());
    assert!(Priority::new("A", Stage::Marker).is_none());
    assert_eq!(Priority::new("(A)", Stage::Marker).unwrap().len(), 3);
    assert_eq!(Priority::from_char('M').unwrap().as_u8(), b'M');
    assert!(Priority::from_char('m').is_none());
    assert!(Priority::from_char('[').is_none());
    assert!(Priority::from_char('@').is_none());
}

#[test]
fn priority_range_is_swapped_into_order() {
    let (low, high) = Priority::new_range("(B-Y)").unwrap();
    assert_eq!((low.as_u8(), high.as_u8()), (b'B', b'Y'));
    let (low, high) = Priority::new_range("(Y-B)").unwrap();
    assert_eq!((low.as_u8(), high.as_u8()), (b'B', b'Y'));
    let (low, high) = Priority::new_range("(C-C)").unwrap();
    assert_eq!((low.as_u8(), high.as_u8()), (b'C', b'C'));
    assert!(Priority::new_range("(B Y)").is_none());
    assert!(Priority::new_range("(b-y)").is_none());
    assert!(Priority::new_range("(B-Y").is_none());
    assert!(Priority::new_range("(B)").is_none());
}

#[test]
fn numbers_are_read_and_counted() {
    assert_eq!(Number::from_str("12").unwrap().as_usize(), 12);
    assert_eq!(Number::from_str("+12").unwrap().as_usize(), 12);
    assert_eq!(Number::from_str("007").unwrap().as_usize(), 7);
    assert!(Number::from_str("").is_none());
    assert!(Number::from_str("+").is_none());
    assert!(Number::from_str("-1").is_none());
    assert!(Number::from_str("1 ").is_none());
    assert!(Number::from_str("12a").is_none());
    assert_eq!(
        Number::from_str(&usize::MAX.to_string()).unwrap().as_usize(),
        usize::MAX
    );
    assert!(Number::from_str("99999999999999999999999999").is_none());
    assert_eq!(Number::from_enumerate(0).as_usize(), 1);
    assert_eq!(Number::from_usize(5).as_usize(), 5);
    assert_eq!(Number::from_usize(0).digits(), 0);
    assert_eq!(Number::from_usize(9).digits(), 1);
    assert_eq!(Number::from_usize(10).digits(), 2);
    assert_eq!(Number::from_usize(12345).digits(), 5);
    assert_eq!(Number::from_usize(usize::MAX).digits(), usize::MAX.to_string().len());
}

#[test]
fn number_range_is_swapped_into_order() {
    let (low, high) = Number::new_range("2-10").unwrap();
    assert_eq!((low.as_usize(), high.as_usize()), (2, 10));
    let (low, high) = Number::new_range("10-2").unwrap();
    assert_eq!((low.as_usize(), high.as_usize()), (2, 10));
    assert!(Number::new_range("2").is_none());
    assert!(Number::new_range("2-").is_none());
    assert!(Number::new_range("-2").is_none());
    assert!(Number::new_range("1-2-3").is_none());
}

#[test]
fn number_list_takes_every_item() {
    let list: Vec<usize> = Number::new_list("3,1,2")
        .unwrap()
        .iter()
        .map(|n| n.as_usize())
        .collect();
    assert_eq!(list, vec![3, 1, 2]);
    let list: Vec<usize> = Number::new_list("7")
        .unwrap()
        .iter()
        .map(|n| n.as_usize())
        .collect();
    assert_eq!(list, vec![7]);
    assert!(Number::new_list("").is_none());
    assert!(Number::new_list("1,").is_none());
    assert!(Number::new_list(",1").is_none());
    assert!(Number::new_list("1,a").is_none());
}

#[test]
fn task_lookups_find_the_leading_fields() {
    let task = Task::new("x 2001-02-03 (H) 2001-01-02 @work issue:123 due:tomorrow issue:456");
    assert!(task.is_completed());
    assert_eq!(task.get_end().unwrap().as_str(), "2001-02-03");
    assert_eq!(task.get_priority().unwrap().as_u8(), b'H');
    assert_eq!(task.get_entry().unwrap().as_str(), "2001-01-02");
    assert_eq!(task.get_value(&Key::new("issue")).unwrap().as_str(), "123");
    assert_eq!(task.get_value(&Key::new("due")).unwrap().as_str(), "tomorrow");
    assert!(task.get_value(&Key::new("wait")).is_none());
    assert!(task.has_token(&Token::Context(Context::new("@work").unwrap())));
    assert!(!task.has_token(&Token::Context(Context::new("@home").unwrap())));
    assert!(task.has_token(&Token::Pair(Pair::new("issue:456").unwrap())));
    assert!(!task.has_token(&Token::Pair(Pair::new("issue:789").unwrap())));
    assert_eq!(task.find_marker(), Some(0..1));
    assert_eq!(task.find_end().map(|(_, r)| r), Some(2..12));
    assert_eq!(task.find_priority().map(|(_, r)| r), Some(13..16));
    assert_eq!(task.find_entry().map(|(_, r)| r), Some(17..27));
    assert_eq!(task.find_pair(&Key::new("issue")).map(|(_, r)| r), Some(34..43));
    assert_eq!(task.find_body_start(), 28);
    assert_eq!(task.as_str(), task.into_str());

    let task = Task::new("plain words");
    assert!(!task.is_completed());
    assert!(task.get_end().is_none());
    assert!(task.get_priority().is_none());
    assert!(task.get_entry().is_none());
    assert_eq!(task.find_body_start(), 0);
    assert_eq!(Task::new("(A) ").find_body_start(), 4);
    assert_eq!(Task::new("").find_body_start(), 0);
}

fn edit(line: &str, change: impl Fn(&mut TaskBuf)) -> String {
    let mut buf = TaskBuf::new(line.to_owned());
    change(&mut buf);
    assert_eq!(buf.as_str(), buf.as_task().as_str());
    buf.into_string()
}

#[test]
fn appended_text_is_set_off_by_one_space() {
    assert_eq!(edit("", |b| b.append_text("word")), "word");
    assert_eq!(edit("a", |b| b.append_text("word")), "a word");
    assert_eq!(edit("a ", |b| b.append_text("word")), "a word");
    assert_eq!(edit("a", |b| b.append_text(" word")), "a word");
    assert_eq!(edit("a ", |b| b.append_text(" word")), "a  word");
    assert_eq!(edit("a ", |b| b.append_text("  ")), "a ");
    assert_eq!(edit("a ", |b| b.append_text("")), "a ");
    assert_eq!(edit("a", |b| b.append_text("  ")), "a  ");
    assert_eq!(edit("a", |b| b.append_text("")), "a");
    assert_eq!(edit("é", |b| b.append_text("ü")), "é ü");
}

#[test]
fn fields_are_set_at_their_place() {
    assert_eq!(edit("do it", |b| b.set_completed()), "x do it");
    assert_eq!(edit("", |b| b.set_completed()), "x");
    assert_eq!(edit(" do it", |b| b.set_completed()), "x do it");
    assert_eq!(edit("x do it", |b| b.set_completed()), "x do it");
    assert_eq!(edit("x do it", |b| b.set_pending()), "do it");
    assert_eq!(edit("x", |b| b.set_pending()), "");
    assert_eq!(edit("do it", |b| b.set_pending()), "do it");

    let date = |s: &'static str| move |b: &mut TaskBuf| b.set_end(Some(End(s)));
    assert_eq!(edit("x do it", date("2001-02-03")), "x 2001-02-03 do it");
    assert_eq!(edit("x 2000-01-01 do it", date("2001-02-03")), "x 2001-02-03 do it");
    assert_eq!(edit("do it", date("2001-02-03")), "do it");
    assert_eq!(edit("x 2001-02-03 do it", |b| b.set_end(None)), "x do it");
    assert_eq!(edit("x do it", |b| b.set_end(None)), "x do it");

    let pri = |c: char| move |b: &mut TaskBuf| b.set_priority(Priority::from_char(c));
    assert_eq!(edit("do it", pri('A')), "(A) do it");
    assert_eq!(edit("(B) do it", pri('A')), "(A) do it");
    assert_eq!(edit("2001-02-03 do it", pri('A')), "(A) 2001-02-03 do it");
    assert_eq!(edit("x 2001-02-03 do it", pri('A')), "x 2001-02-03 (A) do it");
    assert_eq!(edit("x", pri('A')), "x(A)");
    assert_eq!(edit("", pri('A')), "(A)");
    assert_eq!(edit("(B) do it", |b| b.set_priority(None)), "do it");
    assert_eq!(edit("do it", |b| b.set_priority(None)), "do it");

    let entry = |s: &'static str| move |b: &mut TaskBuf| b.set_entry(Some(Entry(s)));
    assert_eq!(edit("do it", entry("2001-02-03")), "2001-02-03 do it");
    assert_eq!(edit("(A) do it", entry("2001-02-03")), "(A) 2001-02-03 do it");
    assert_eq!(edit("(A) 2000-01-01 do it", entry("2001-02-03")), "(A) 2001-02-03 do it");
    assert_eq!(edit("(A)", entry("2001-02-03")), "(A)2001-02-03");
    assert_eq!(edit("(A) 2000-01-01 do it", |b| b.set_entry(None)), "(A) do it");
}

#[test]
fn pairs_are_set_and_removed() {
    let set = |k: &'static str, v: &'static str| {
        move |b: &mut TaskBuf| b.set_value(&Key::new(k), &Value::new(v))
    };
    assert_eq!(edit("do it", set("due", "2001")), "do it due:2001");
    assert_eq!(edit("do it ", set("due", "2001")), "do it due:2001");
    assert_eq!(edit("", set("due", "2001")), "due:2001");
    assert_eq!(edit("do due:2000 it", set("due", "2001")), "do due:2001 it");
    assert_eq!(edit("do due:2000 it due:1999", set("due", "")), "do due: it due:1999");
    assert_eq!(edit("do due:2000 it", |b| b.remove_pair(&Key::new("due"))), "do it");
    assert_eq!(edit("do it due:2000", |b| b.remove_pair(&Key::new("due"))), "do it");
    assert_eq!(edit("do it", |b| b.remove_pair(&Key::new("due"))), "do it");
}

#[test]
fn removing_takes_one_run_of_whitespace_along() {
    let project = |s: &'static str| {
        move |b: &mut TaskBuf| b.remove_token(&Token::Project(Project::new(s).unwrap()))
    };
    assert_eq!(edit("a +p b", project("+p")), "a b");
    assert_eq!(edit("a  +p   b", project("+p")), "a  b");
    assert_eq!(edit("a +p", project("+p")), "a");
    assert_eq!(edit("+p", project("+p")), "");
    assert_eq!(edit("+p +p", project("+p")), "+p");
    assert_eq!(edit("a +q b", project("+p")), "a +q b");
    assert_eq!(edit("abcdef", |b| b.remove_range_with_whitespace(2, 4)), "abef");
    assert_eq!(edit("ab  cd  ef", |b| b.remove_range_with_whitespace(4, 6)), "ab  ef");
    assert_eq!(edit("ab  cd", |b| b.remove_range_with_whitespace(4, 6)), "ab");
}

#[test]
fn body_is_cleared_and_task_is_replaced() {
    assert_eq!(edit("x 2001-02-03 (A) 2001-01-02 do it", |b| b.clear_body()), "x 2001-02-03 (A) 2001-01-02 ");
    assert_eq!(edit("do it", |b| b.clear_body()), "");
    assert_eq!(edit("(A)", |b| b.clear_body()), "(A)");
    assert_eq!(edit("old", |b| b.set_to(&Task::new("new line"))), "new line");
    let buf = TaskBuf::new("copy me".to_owned());
    assert_eq!(buf.clone().into_string(), "copy me");
}
