use chore::date::{Date, Duration};
use chore::{run, Config, Error, Output};

fn now() -> Date {
    Date::from_fields(2001, 2, 3, 4, 5, 6, Duration::Seconds(1)).unwrap()
}

#[test]
fn command_general() -> Result<(), Error> {
    for (tasks, args, undo, expect) in &[
        (
            "(M) 2001-02-03 @home +chore add tests\nadd task due:2002-03-04T05:06:07\nx 2001-02-03 (H) 2001-01-02 @work issue:123\n",
            vec![],
            None,
            Output::JustPrint {
                stdout: "1 (M) 2001-02-03 @home +chore add tests\n2 add task due:2002-03-04T05:06:07\n3 x 2001-02-03 (H) 2001-01-02 @work issue:123\n"
                .to_string(),
            },
        ),
        (
            "(M) 2001-02-03 @home +chore add tests\nadd task due:2002-03-04T05:06:07\nx 2001-02-03 (H) 2001-01-02 @work issue:123\n",
            vec!["list"],
            None,
            Output::JustPrint {
                stdout: "1 (M) 2001-02-03 @home +chore add tests\n2 add task due:2002-03-04T05:06:07\n3 x 2001-02-03 (H) 2001-01-02 @work issue:123\n"
                .to_string(),
            },
        ),
        (
            "a\nb\nc\nd\ne\nf\ng\nh\ni\nj\nk\nl\n",
            vec!["list"],
            None,
            Output::JustPrint {
                stdout: " 1 a\n 2 b\n 3 c\n 4 d\n 5 e\n 6 f\n 7 g\n 8 h\n 9 i\n10 j\n11 k\n12 l\n"
                .to_string(),
            },
        ),
        (
            "(M) 2001-02-03 @home +chore add tests\nadd task due:2002-03-04T05:06:07\nx 2001-02-03 (H) 2001-01-02 @work issue:123\n",
            vec!["projects"],
            None,
            Output::JustPrint {
                stdout: "+chore\n".to_string(),
            },
        ),
        (
            "(M) 2001-02-03 @home +chore add tests\nadd task due:2002-03-04T05:06:07\nx 2001-02-03 (H) 2001-01-02 @work issue:123\n",
            vec!["contexts"],
            None,
            Output::JustPrint {
                stdout: "@home\n@work\n".to_string(),
            },
        ),
        (
            "(M) 2001-02-03 @home +chore add tests\nadd task due:2002-03-04T05:06:07\nx 2001-02-03 (H) 2001-01-02 @work issue:123\n",
            vec!["keys"],
            None,
            Output::JustPrint {
                stdout: "due:\nissue:\n".to_string(),
            },
        ),
        (
            "(M) 2001-02-03 @home +chore add tests\nadd task due:2002-03-04T05:06:07\nx 2001-02-03 (H) 2001-01-02 @work issue:123\n",
            vec!["add", "pri:Z", "foo", "bar"],
            None,
            Output::WriteFiles {
                stdout: "ADD (Z) foo bar\n".to_string(),
                confirm: false,
                tasks: "(M) 2001-02-03 @home +chore add tests\n(Z) foo bar\nadd task due:2002-03-04T05:06:07\nx 2001-02-03 (H) 2001-01-02 @work issue:123\n"
                .to_string(),
                undo: "---\nADD (Z) foo bar\n".to_string(),
            },
        ),
        (
            "(M) 2001-02-03 @home +chore add tests\nadd task due:2002-03-04T05:06:07\nx 2001-02-03 (H) 2001-01-02 @work issue:123\n",
            vec!["+chore", "delete"],
            None,
            Output::WriteFiles {
                stdout: "DEL (M) 2001-02-03 @home +chore add tests\n".to_string(),
                confirm: false,
                tasks: "add task due:2002-03-04T05:06:07\nx 2001-02-03 (H) 2001-01-02 @work issue:123\n"
                .to_string(),
                undo: "---\nDEL (M) 2001-02-03 @home +chore add tests\n".to_string(),
            },
        ),
        (
            "(M) 2001-02-03 @home +chore add tests\nadd task due:2002-03-04T05:06:07\nx 2001-02-03 (H) 2001-01-02 @work issue:123\n",
            vec!["due.any:", "delete"],
            None,
            Output::WriteFiles {
                stdout: "DEL add task due:2002-03-04T05:06:07\n".to_string(),
                confirm: false,
                tasks: "(M) 2001-02-03 @home +chore add tests\nx 2001-02-03 (H) 2001-01-02 @work issue:123\n"
                .to_string(),
                undo: "---\nDEL add task due:2002-03-04T05:06:07\n".to_string(),
            },
        ),
        (
            "(M) 2001-02-03 @home +chore add tests\nadd task due:2002-03-04T05:06:07\nx 2001-02-03 (H) 2001-01-02 @work issue:123\n",
            vec!["+done", "delete"],
            None,
            Output::WriteFiles {
                stdout: "DEL x 2001-02-03 (H) 2001-01-02 @work issue:123\n".to_string(),
                confirm: false,
                tasks: "(M) 2001-02-03 @home +chore add tests\nadd task due:2002-03-04T05:06:07\n"
                .to_string(),
                undo: "---\nDEL x 2001-02-03 (H) 2001-01-02 @work issue:123\n".to_string(),
            },
        ),
        (
            "(M) 2001-02-03 @home +chore add tests\nadd task due:2002-03-04T05:06:07\nx 2001-02-03 (H) 2001-01-02 @work issue:123\n",
            vec!["/add/", "delete"],
            None,
            Output::WriteFiles {
                stdout: "DEL (M) 2001-02-03 @home +chore add tests\nDEL add task due:2002-03-04T05:06:07\n"
                .to_string(),
                confirm: true,
                tasks: "x 2001-02-03 (H) 2001-01-02 @work issue:123\n".to_string(),
                undo: "---\nDEL (M) 2001-02-03 @home +chore add tests\nDEL add task due:2002-03-04T05:06:07\n"
                .to_string(),
            },
        ),
        (
            "(M) 2001-02-03 @home +chore add tests\nadd task due:2002-03-04T05:06:07\nx 2001-02-03 (H) 2001-01-02 @work issue:123\n",
            vec!["delete"],
            None,
            Output::WriteFiles {
                stdout: "DEL (M) 2001-02-03 @home +chore add tests\nDEL add task due:2002-03-04T05:06:07\nDEL x 2001-02-03 (H) 2001-01-02 @work issue:123\n"
                .to_string(),
                confirm: true,
                tasks: "".to_string(),
                undo: "---\nDEL (M) 2001-02-03 @home +chore add tests\nDEL add task due:2002-03-04T05:06:07\nDEL x 2001-02-03 (H) 2001-01-02 @work issue:123\n"
                .to_string(),
            },
        ),
        (
            "add task due:2002-03-04T05:06:07\nx 2001-02-03 (H) 2001-01-02 @work issue:123\n",
            vec!["undo"],
            Some("---\nDEL (M) 2001-02-03 @home +chore add tests\n".to_string()),
            Output::WriteFiles {
                stdout: "ADD (M) 2001-02-03 @home +chore add tests\n".to_string(),
                confirm: true,
                tasks: "(M) 2001-02-03 @home +chore add tests\nadd task due:2002-03-04T05:06:07\nx 2001-02-03 (H) 2001-01-02 @work issue:123\n"
                .to_string(),
                undo: "".to_string(),
            },
        ),
        (
            "x 2001-02-03 (H) 2001-01-02 @work issue:123\n",
            vec!["undo"],
            Some("---\nDEL add task due:2002-03-04T05:06:07\n".to_string()),
            Output::WriteFiles {
                stdout: "ADD add task due:2002-03-04T05:06:07\n".to_string(),
                confirm: true,
                tasks: "add task due:2002-03-04T05:06:07\nx 2001-02-03 (H) 2001-01-02 @work issue:123\n"
                .to_string(),
                undo: "".to_string(),
            },
        ),
        (
            "(Z) foo bar\nadd task due:2002-03-04T05:06:07\nx 2001-02-03 (H) 2001-01-02 @work issue:123\n",
            vec!["undo"],
            Some("---\nDEL (M) 2001-02-03 @home +chore add tests\n---\nADD (Z) foo bar\n".to_string()),
            Output::WriteFiles {
                stdout: "DEL (Z) foo bar\n".to_string(),
                confirm: true,
                tasks: "add task due:2002-03-04T05:06:07\nx 2001-02-03 (H) 2001-01-02 @work issue:123\n"
                .to_string(),
                undo: "---\nDEL (M) 2001-02-03 @home +chore add tests\n".to_string(),
            },
        ),
    ] {
        let config = Config {
            now: now(),
            args: args.iter().map(|s| s.to_string()).collect(),
            tasks: Some(tasks.to_string()),
            date_keys: Some("due:\nscheduled:\nwait:\nuntil:\n".to_owned()),
            undo: undo.clone(),
            ..Config::new(now())
        };

        let actual = run(config)?;
        assert_eq!(actual, *expect);
    }
    Ok(())
}
#[test]
fn command_invalid() -> Result<(), Error> {
    for (tasks, args, undo, expect) in &[
        (
            "",
            vec!["not-a-command"],
            None,
            Error::NotAFilterOrCommand("not-a-command".to_owned()),
        ),
        (
            "",
            vec!["list", "+done"],
            None,
            Error::CmdDisallowsMod,
        ),
        (
            "",
            vec!["projects", "+done"],
            None,
            Error::CmdDisallowsMod,
        ),
        (
            "",
            vec!["contexts", "+done"],
            None,
            Error::CmdDisallowsMod,
        ),
        (
            "",
            vec!["keys", "+done"],
            None,
            Error::CmdDisallowsMod,
        ),
        (
            "",
            vec!["delete", "+done"],
            None,
            Error::CmdDisallowsMod,
        ),
        (
            "",
            vec!["undo", "+done"],
            None,
            Error::CmdDisallowsMod,
        ),
        (
            "",
            vec!["undo"],
            Some("---\nADD (Z) foo bar\n".to_string()),
            Error::UndoMismatch("(Z) foo bar".to_string()),
        ),
        (
            "",
            vec!["undo"],
            Some("---\nMOD (Z) foo bar\n".to_string()),
            Error::MalformedUndo("MOD (Z) foo bar".to_string()),
        ),
    ] {
        let config = Config {
            now: now(),
            args: args.iter().map(|s| s.to_string()).collect(),
            tasks: Some(tasks.to_string()),
            date_keys: Some("due:\nscheduled:\nwait:\nuntil:\n".to_owned()),
            undo: undo.clone(),
            ..Config::new(now())
        };

        let actual = match run(config) {
            Ok(_) => panic!("expected error"),
            Err(e) => e,
        };
        assert_eq!(format!("{:?}", actual), format!("{:?}", expect));
    }
    Ok(())
}
