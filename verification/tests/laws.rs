use chore::date::{Date, Duration};
use chore::field::Number;
use chore::filter::Filter;
use chore::task::Task;
use chore::{run, Config, Output};

fn now() -> Date {
    Date::from_fields(2001, 2, 3, 4, 5, 6, Duration::Seconds(1)).unwrap()
}

const TASKS: &str = "(M) 2001-02-03 @home +chore add tests\nadd task due:2002-03-04T05:06:07\nx 2001-02-03 (H) 2001-01-02 @work issue:123\n";

fn call(args: &[&str], tasks: &str, undo: &str) -> Output {
    run(Config {
        args: args.iter().map(|s| s.to_string()).collect(),
        tasks: Some(tasks.to_owned()),
        undo: Some(undo.to_owned()),
        date_keys: Some("due:\nwait\n".to_owned()),
        ..Config::new(now())
    })
    .unwrap()
}

#[test]
fn round_trip_joins_ranges_to_the_line() {
    for line in TASKS.lines().chain(["  \t x (A)  (B) a:b | @c +d  ", "ünïcödé wörds: (Á) +ß"]) {
        let joined: String = Task::new(line)
            .tokens()
            .iter()
            .map(|(_, range)| &line[range.clone()])
            .collect();
        assert_eq!(joined, line);
    }
}

#[test]
fn written_tasks_are_in_byte_order() {
    let unsorted = "zebra\n(B) beta\nälter\nx done\nZulu\n  indented\n";
    for args in [
        vec!["add", "new", "task"],
        vec!["/beta/", "delete"],
        vec!["all", "modify", "+tag"],
        vec!["undo"],
    ] {
        match call(&args, unsorted, "") {
            Output::WriteFiles { tasks, .. } => {
                let lines: Vec<&str> = tasks.lines().collect();
                let mut sorted = lines.clone();
                sorted.sort_unstable();
                assert_eq!(lines, sorted, "{:?}", args);
                assert!(tasks.ends_with('\n'));
            }
            _ => panic!("expected WriteFiles"),
        }
    }
}

#[test]
fn a_second_run_on_its_own_output_changes_nothing() {
    let first = match call(&["add", "new"], TASKS, "") {
        Output::WriteFiles { tasks, .. } => tasks,
        _ => panic!("expected WriteFiles"),
    };
    let listed = call(&["list"], &first, "");
    assert_eq!(listed, call(&["list"], &first, ""));
    // A command that changes no task writes the sorted file back as it is.
    match call(&["/no such task/", "modify", "+tag"], &first, "") {
        Output::WriteFiles { tasks, confirm, .. } => {
            assert_eq!(tasks, first);
            assert!(!confirm);
        }
        _ => panic!("expected WriteFiles"),
    }
}

#[test]
fn negated_filter_keeps_what_the_filter_drops() {
    let now = now();
    for text in [
        "all", "+done", "+chore", "@work", "/task/", "(M)", "(A-L)", "2", "1,3", "2-3",
        "issue:123", "pri:H", "end.any:", "entry.none:", "due.any:", "end.before:2002",
        "entry.after:2001-01", "entry.in:2001-02",
    ] {
        let plain = Filter::new(text, &now, &[]).unwrap().unwrap();
        let minus = format!("-{}", text);
        let bang = format!("!{}", text);
        let negated = Filter::new(&minus, &now, &[]).unwrap().unwrap();
        let banged = Filter::new(&bang, &now, &[]).unwrap().unwrap();
        for (nr, line) in TASKS.lines().enumerate() {
            let task = Task::new(line);
            let nr = Number::from_enumerate(nr);
            assert_eq!(negated.keep(&task, nr), !plain.keep(&task, nr), "{}", text);
            assert_eq!(banged.keep(&task, nr), !plain.keep(&task, nr), "{}", text);
        }
    }
}

#[test]
fn finer_date_lies_within_the_date_it_starts_with() {
    let full = "2004-02-29T23:59:59";
    for coarse in [4, 7, 10, 13, 16, 19] {
        for fine in [4, 7, 10, 13, 16, 19] {
            let outer = Date::from_abs(&full[..coarse]).unwrap();
            let inner = Date::from_abs(&full[..fine]).unwrap();
            assert_eq!(inner.within(&outer), coarse <= fine, "{} {}", coarse, fine);
        }
    }
    for text in ["2001-12-31T23:59:59", "2001-01-01T00:00:00", "1999-12-31T22", "0001-01-01"] {
        for cut in [4, 7, 10, 13, 16, 19] {
            if cut <= text.len() {
                let outer = Date::from_abs(&text[..cut]).unwrap();
                assert!(Date::from_abs(text).unwrap().within(&outer));
            }
        }
    }
}

#[test]
fn spans_are_half_open() {
    let day = Date::from_abs("2001-02-03").unwrap();
    let next = Date::from_abs("2001-02-04").unwrap();
    let last_second = Date::from_abs("2001-02-03T23:59:59").unwrap();
    let midnight = Date::from_abs("2001-02-04T00:00:00").unwrap();
    assert!(day.before(&next));
    assert!(next.after(&day));
    assert!(!day.before(&day));
    assert!(!day.after(&day));
    assert!(last_second.within(&day));
    assert!(!midnight.within(&day));
    assert!(day.before(&midnight));
    assert!(!day.before(&last_second));
    let month = Date::from_abs("2000-02").unwrap();
    assert!(Date::from_abs("2000-02-29").unwrap().within(&month));
    assert!(!Date::from_abs("2000-03-01").unwrap().within(&month));
    assert!(month.before(&Date::from_abs("2000-03-01").unwrap()));
    let year = Date::from_abs("2000").unwrap();
    assert!(Date::from_abs("2000-12-31T23:59:59").unwrap().within(&year));
    assert!(year.before(&Date::from_abs("2001").unwrap()));
    assert!(!year.before(&Date::from_abs("2000-12").unwrap()));
}
