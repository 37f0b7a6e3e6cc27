use chore::date::{Date, Duration};
use chore::{run, Config, Error, File, Output};

fn now() -> Date {
    Date::from_fields(2001, 2, 3, 4, 5, 6, Duration::Seconds(1)).unwrap()
}

#[test]
fn filter_general() -> Result<(), Error> {
    for (args, expect) in &[
        (
            vec![],
            "1 (M) 2001-02-03 @home +chore add tests\n2 add task due:2002-03-04T05:06:07\n3 x 2001-02-03 (H) 2001-01-02 @work issue:123\n",
        ),
        (
            vec!["all"],
            "1 (M) 2001-02-03 @home +chore add tests\n2 add task due:2002-03-04T05:06:07\n3 x 2001-02-03 (H) 2001-01-02 @work issue:123\n",
        ),
        (
            vec!["-all"],
            "",
        ),
        (
            vec!["+done"],
            "3 x 2001-02-03 (H) 2001-01-02 @work issue:123\n",
        ),
        (
            vec!["-+done"],
            "1 (M) 2001-02-03 @home +chore add tests\n2 add task due:2002-03-04T05:06:07\n",
        ),
        (
            vec!["+chore"],
            "1 (M) 2001-02-03 @home +chore add tests\n",
        ),
        (
            vec!["-+chore"],
            "2 add task due:2002-03-04T05:06:07\n3 x 2001-02-03 (H) 2001-01-02 @work issue:123\n",
        ),
        (
            vec!["@work"],
            "3 x 2001-02-03 (H) 2001-01-02 @work issue:123\n",
        ),
        (
            vec!["-@work"],
            "1 (M) 2001-02-03 @home +chore add tests\n2 add task due:2002-03-04T05:06:07\n",
        ),
        (
            vec!["issue:123"],
            "3 x 2001-02-03 (H) 2001-01-02 @work issue:123\n",
        ),
        (
            vec!["-issue:123"],
            "1 (M) 2001-02-03 @home +chore add tests\n2 add task due:2002-03-04T05:06:07\n",
        ),
        (
            vec!["/task/"],
            "2 add task due:2002-03-04T05:06:07\n",
        ),
        (
            vec!["!/task/"],
            "1 (M) 2001-02-03 @home +chore add tests\n3 x 2001-02-03 (H) 2001-01-02 @work issue:123\n",
        ),
        (
            vec!["/due:/"],
            "2 add task due:2002-03-04T05:06:07\n",
        ),
        (
            vec!["pri:M"],
            "1 (M) 2001-02-03 @home +chore add tests\n",
        ),
        (
            vec!["-pri:M"],
            "2 add task due:2002-03-04T05:06:07\n3 x 2001-02-03 (H) 2001-01-02 @work issue:123\n",
        ),
        (
            vec!["(M)"],
            "1 (M) 2001-02-03 @home +chore add tests\n",
        ),
        (
            vec!["-(M)"],
            "2 add task due:2002-03-04T05:06:07\n3 x 2001-02-03 (H) 2001-01-02 @work issue:123\n",
        ),
        (
            vec!["(L-N)"],
            "1 (M) 2001-02-03 @home +chore add tests\n",
        ),
        (
            vec!["-(L-N)"],
            "2 add task due:2002-03-04T05:06:07\n3 x 2001-02-03 (H) 2001-01-02 @work issue:123\n",
        ),
        (
            vec!["1"],
            "1 (M) 2001-02-03 @home +chore add tests\n",
        ),
        (
            vec!["1,3"],
            "1 (M) 2001-02-03 @home +chore add tests\n3 x 2001-02-03 (H) 2001-01-02 @work issue:123\n",
        ),
        (
            vec!["2-3"],
            "2 add task due:2002-03-04T05:06:07\n3 x 2001-02-03 (H) 2001-01-02 @work issue:123\n",
        ),
        (
            vec!["list"], // test passing an argument that is not a filter
            "1 (M) 2001-02-03 @home +chore add tests\n2 add task due:2002-03-04T05:06:07\n3 x 2001-02-03 (H) 2001-01-02 @work issue:123\n",
        ),
        (
            vec!["end:2001-02-03"],
            "3 x 2001-02-03 (H) 2001-01-02 @work issue:123\n",
        ),
        (
            vec!["entry:2001-02-03"],
            "1 (M) 2001-02-03 @home +chore add tests\n",
        ),
        (
            vec!["end.any:"],
            "3 x 2001-02-03 (H) 2001-01-02 @work issue:123\n",
        ),
        (
            vec!["pri.any:"],
            "1 (M) 2001-02-03 @home +chore add tests\n3 x 2001-02-03 (H) 2001-01-02 @work issue:123\n",
        ),
        (
            vec!["entry.any:"],
            "1 (M) 2001-02-03 @home +chore add tests\n3 x 2001-02-03 (H) 2001-01-02 @work issue:123\n",
        ),
        (
            vec!["due.any:"],
            "2 add task due:2002-03-04T05:06:07\n",
        ),
        (
            vec!["end.none:"],
            "1 (M) 2001-02-03 @home +chore add tests\n2 add task due:2002-03-04T05:06:07\n",
        ),
        (
            vec!["pri.none:"],
            "2 add task due:2002-03-04T05:06:07\n",
        ),
        (
            vec!["entry.none:"],
            "2 add task due:2002-03-04T05:06:07\n",
        ),
        (
            vec!["due.none:"],
            "1 (M) 2001-02-03 @home +chore add tests\n3 x 2001-02-03 (H) 2001-01-02 @work issue:123\n",
        ),
        (
            vec!["end.before:2001-02-04"],
            "3 x 2001-02-03 (H) 2001-01-02 @work issue:123\n",
        ),
        (
            vec!["end.before:2001-02-03"],
            "",
        ),
        (
            vec!["entry.before:2001-02-03"],
            "3 x 2001-02-03 (H) 2001-01-02 @work issue:123\n",
        ),
        (
            vec!["entry.before:2001-02-04"],
            "1 (M) 2001-02-03 @home +chore add tests\n3 x 2001-02-03 (H) 2001-01-02 @work issue:123\n",
        ),
        (
            vec!["due.before:2002-03-04T05:06:08"],
            "2 add task due:2002-03-04T05:06:07\n",
        ),
        (
            vec!["end.after:2001-02-02"],
            "3 x 2001-02-03 (H) 2001-01-02 @work issue:123\n",
        ),
        (
            vec!["end.after:2001-02-03"],
            "",
        ),
        (
           vec!["entry.after:2001-01-01"],
           "1 (M) 2001-02-03 @home +chore add tests\n3 x 2001-02-03 (H) 2001-01-02 @work issue:123\n",
        ),
        (
           vec!["entry.after:2001-02-02"],
           "1 (M) 2001-02-03 @home +chore add tests\n",
        ),
        (
           vec!["entry.after:2001-02-03"],
           "",
        ),
        (
            vec!["due.after:2002-03-03"],
            "2 add task due:2002-03-04T05:06:07\n",
        ),
        (
            vec!["due.after:2002-03-04"],
            "",
        ),
        (
            vec!["end.in:2001-02"],
            "3 x 2001-02-03 (H) 2001-01-02 @work issue:123\n",
        ),
        (
            vec!["end.in:2001"],
            "3 x 2001-02-03 (H) 2001-01-02 @work issue:123\n",
        ),
        (
            vec!["end.in:2002"],
            "",
        ),
        (
            vec!["entry.in:2001-02"],
            "1 (M) 2001-02-03 @home +chore add tests\n",
        ),
        (
            vec!["entry.in:2001"],
            "1 (M) 2001-02-03 @home +chore add tests\n3 x 2001-02-03 (H) 2001-01-02 @work issue:123\n",
        ),
        (
            vec!["entry.in:2002"],
            "",
        ),
        (
            vec!["due.in:2002"],
            "2 add task due:2002-03-04T05:06:07\n",
        ),
        (
            vec!["due.in:2003"],
            "",
        ),
    ] {
        let config = Config {
            now: now(),
            args: args.iter().map(|s| s.to_string()).collect(),
            tasks: Some(
                "(M) 2001-02-03 @home +chore add tests\nadd task due:2002-03-04T05:06:07\nx 2001-02-03 (H) 2001-01-02 @work issue:123\n"
                .to_owned(),
            ),
            date_keys: Some("due:\nscheduled:\nwait:\nuntil:\n".to_owned()),
            ..Config::new(now())
        };

        match run(config)? {
            Output::JustPrint { stdout } => {
                assert_eq!(&stdout, expect)
            }
            _ => panic!("expected JustPrint"),
        }
    }
    Ok(())
}

#[test]
fn conflicts() -> Result<(), Error> {
    for (args, defaults, expect) in &[
        (
            vec!["all"],
            "-+done -+hide -until.before:now -wait.after:now",
            "1 (M) 2001-02-03 @home +chore add tests\n2 add task due:2002-03-04T05:06:07\n3 x 2001-02-03 (H) 2001-01-02 @work issue:123\n",
        ),
        (
            vec!["-+done"],
            "all",
            "1 (M) 2001-02-03 @home +chore add tests\n2 add task due:2002-03-04T05:06:07\n",
        ),
        (
            vec!["+done"],
            "-+done -+hide -until.before:now -wait.after:now",
            "3 x 2001-02-03 (H) 2001-01-02 @work issue:123\n",
        ),
        (
            vec!["+chore"],
            "-+chore",
            "1 (M) 2001-02-03 @home +chore add tests\n",
        ),
        (
            vec!["-+chore"],
            "+chore",
            "2 add task due:2002-03-04T05:06:07\n3 x 2001-02-03 (H) 2001-01-02 @work issue:123\n",
        ),
        (
            vec!["@home"],
            "-@home",
            "1 (M) 2001-02-03 @home +chore add tests\n",
        ),
        (
            vec!["-@home"],
            "@home",
            "2 add task due:2002-03-04T05:06:07\n3 x 2001-02-03 (H) 2001-01-02 @work issue:123\n",
        ),
        (
            vec!["/tests/"],
            "/tasks/",
            "1 (M) 2001-02-03 @home +chore add tests\n",
        ),
        (
            vec!["(A-M)"],
            "(Z)",
            "1 (M) 2001-02-03 @home +chore add tests\n3 x 2001-02-03 (H) 2001-01-02 @work issue:123\n",
        ),
        (
            vec!["2-3"],
            "1-2",
            "2 add task due:2002-03-04T05:06:07\n3 x 2001-02-03 (H) 2001-01-02 @work issue:123\n",
        ),
        (
            vec!["1,3"],
            "2",
            "1 (M) 2001-02-03 @home +chore add tests\n3 x 2001-02-03 (H) 2001-01-02 @work issue:123\n",
        ),
        (
            vec!["end.any:"],
            "!end:today",
            "3 x 2001-02-03 (H) 2001-01-02 @work issue:123\n",
        ),
        (
            vec!["end.none:"],
            "!end:today",
            "1 (M) 2001-02-03 @home +chore add tests\n2 add task due:2002-03-04T05:06:07\n",
        ),
        (
            vec!["end.before:2002"],
            "end:2001-01-01",
            "3 x 2001-02-03 (H) 2001-01-02 @work issue:123\n",
        ),
        (
            vec!["end.after:2000"],
            "end:2001-01-01",
            "3 x 2001-02-03 (H) 2001-01-02 @work issue:123\n",
        ),
        (
            vec!["end.in:2001"],
            "end:2001-01-01",
            "3 x 2001-02-03 (H) 2001-01-02 @work issue:123\n",
        ),
        (
            vec!["pri:M"],
            "pri:Z",
            "1 (M) 2001-02-03 @home +chore add tests\n",
        ),
        (
            vec!["pri.any:"],
            "pri:Z",
            "1 (M) 2001-02-03 @home +chore add tests\n3 x 2001-02-03 (H) 2001-01-02 @work issue:123\n",
        ),
        (
            vec!["pri.none:"],
            "pri:Z",
            "2 add task due:2002-03-04T05:06:07\n",
        ),
        (
            vec!["entry:2001-02-03"],
            "entry:2001-01-01",
            "1 (M) 2001-02-03 @home +chore add tests\n",
        ),
        (
            vec!["entry.any:"],
            "entry:2001-01-01",
            "1 (M) 2001-02-03 @home +chore add tests\n3 x 2001-02-03 (H) 2001-01-02 @work issue:123\n",
        ),
        (
            vec!["entry.none:"],
            "entry:2001-01-01",
            "2 add task due:2002-03-04T05:06:07\n",
        ),
        (
            vec!["entry.before:2001-02"],
            "entry:2001-01-01",
            "3 x 2001-02-03 (H) 2001-01-02 @work issue:123\n",
        ),
        (
            vec!["entry.after:2001-01"],
            "entry:2001-01-01",
            "1 (M) 2001-02-03 @home +chore add tests\n",
        ),
        (
            vec!["entry.in:2001"],
            "entry:2001-01-01",
            "1 (M) 2001-02-03 @home +chore add tests\n3 x 2001-02-03 (H) 2001-01-02 @work issue:123\n",
        ),
        (
            vec!["due:2002-03-04T05:06:07"],
            "due:2001-02-03",
            "2 add task due:2002-03-04T05:06:07\n",
        ),
        (
            vec!["due.any:"],
            "due:2001-02-03",
            "2 add task due:2002-03-04T05:06:07\n",
        ),
        (
            vec!["due.none:"],
            "due:2001-02-03",
            "1 (M) 2001-02-03 @home +chore add tests\n3 x 2001-02-03 (H) 2001-01-02 @work issue:123\n",
        ),
        (
            vec!["due.after:2001"],
            "due:2001-02-03",
            "2 add task due:2002-03-04T05:06:07\n",
        ),
        (
            vec!["due.before:2003"],
            "due:2001-02-03",
            "2 add task due:2002-03-04T05:06:07\n",
        ),
        (
            vec!["due.in:2002"],
            "due:2001-02-03",
            "2 add task due:2002-03-04T05:06:07\n",
        ),
    ] {
        let config = Config {
            now: now(),
            args: args.iter().map(|s| s.to_string()).collect(),
            tasks: Some(
                "(M) 2001-02-03 @home +chore add tests\nadd task due:2002-03-04T05:06:07\nx 2001-02-03 (H) 2001-01-02 @work issue:123\n"
                .to_owned(),
            ),
            default_filters: vec![File{name: "test".to_owned(), content: defaults.to_string()}],
            date_keys: Some("due:\nscheduled:\nwait:\nuntil:\n".to_owned()),
            ..Config::new(now())
        };

        match run(config)? {
            Output::JustPrint { stdout } => {
                assert_eq!(&stdout, expect)
            }
            _ => panic!("expected JustPrint"),
        }
    }
    Ok(())
}

#[test]
fn filter_invalid() -> Result<(), Error> {
    for (args, expect) in &[
        (
            vec!["pri:1"],
            Error::InvalidPriority("pri:1".to_owned()),
        ),
        (
            vec!["end.before:x"],
            Error::ModExpectsDateValue("end.before:x".to_owned()),
        ),
        (
            vec!["pri.before:now"],
            Error::ModExpectsDateKey("pri.before:now".to_owned()),
        ),
        (
            vec!["entry.before:x"],
            Error::ModExpectsDateValue("entry.before:x".to_owned()),
        ),
        (
            vec!["issue.before:now"],
            Error::ModExpectsDateKey("issue.before:now".to_owned()),
        ),
        (
            vec!["due.before:x"],
            Error::ModExpectsDateValue("due.before:x".to_owned()),
        ),
        (
            vec!["end.after:x"],
            Error::ModExpectsDateValue("end.after:x".to_owned()),
        ),
        (
            vec!["pri.after:now"],
            Error::ModExpectsDateKey("pri.after:now".to_owned()),
        ),
        (
            vec!["entry.after:x"],
            Error::ModExpectsDateValue("entry.after:x".to_owned()),
        ),
        (
            vec!["issue.after:now"],
            Error::ModExpectsDateKey("issue.after:now".to_owned()),
        ),
        (
            vec!["due.after:x"],
            Error::ModExpectsDateValue("due.after:x".to_owned()),
        ),
        (
            vec!["end.in:x"],
            Error::ModExpectsDateValue("end.in:x".to_owned()),
        ),
        (
            vec!["pri.in:now"],
            Error::ModExpectsDateKey("pri.in:now".to_owned()),
        ),
        (
            vec!["entry.in:x"],
            Error::ModExpectsDateValue("entry.in:x".to_owned()),
        ),
        (
            vec!["issue.in:now"],
            Error::ModExpectsDateKey("issue.in:now".to_owned()),
        ),
        (
            vec!["due.in:x"],
            Error::ModExpectsDateValue("due.in:x".to_owned()),
        ),
        (
            vec!["due.foo:bar"],
            Error::InvalidMod("due.foo:bar".to_owned()),
        ),
        (
            vec!["/[foo/"],
            Error::InvalidRegex("/[foo/".to_owned()),
        ),
    ] {
        let config = Config {
            now: now(),
            args: args.iter().map(|s| s.to_string()).collect(),
            tasks: Some(
                "(M) 2001-02-03 @home +chore add tests\nadd task due:2002-03-04T05:06:07\nx 2001-02-03 (H) 2001-01-02 @work issue:123\n"
                .to_owned(),
            ),
            date_keys: Some("due:\nscheduled:\nwait:\nuntil:\n".to_owned()),
            ..Config::new(now())
        };

        let actual = match run(config) {
            Ok(_) => panic!("expected error"),
            Err(e) => e,
        };
        assert_eq!(format!("{:?}", actual), format!("{:?}", expect));
    }
    Ok(())
}

#[test]
fn defaults() -> Result<(), Error> {
    for (defaults, expect) in &[
        (
            "-+done",
            "1 (M) 2001-02-03 @home +chore add tests\n2 add task due:2002-03-04T05:06:07\n",
        ),
        (
            "due.any:",
            "2 add task due:2002-03-04T05:06:07\n",
        ),
        (
            "-+done due.any:",
            "2 add task due:2002-03-04T05:06:07\n",
        ),
    ] {
        let config = Config {
            now: now(),
            args: vec![],
            tasks: Some(
                "(M) 2001-02-03 @home +chore add tests\nadd task due:2002-03-04T05:06:07\nx 2001-02-03 (H) 2001-01-02 @work issue:123\n"
                .to_owned(),
            ),
            default_filters: vec![File{name: "test".to_owned(), content: defaults.to_string()}],
            date_keys: Some("due:\nscheduled:\nwait:\nuntil:\n".to_owned()),
            ..Config::new(now())
        };

        match run(config)? {
            Output::JustPrint { stdout } => {
                assert_eq!(&stdout, expect)
            }
            _ => panic!("expected JustPrint"),
        }
    }
    Ok(())
}
