use chore::date::{Date, Duration};
use chore::{run, Config, Error, File, Output};

fn now() -> Date {
    Date::from_fields(2001, 2, 3, 4, 5, 6, Duration::Seconds(1)).unwrap()
}

#[test]
fn args_general() -> Result<(), Error> {
    for (config, expect) in &[
        (
            Config {
                now: now(),
                args: vec!["completed".to_owned(), "  ".to_owned()],
                tasks: Some(
                    "(M) 2001-02-03 @home +chore add tests\nadd task due:2002-03-04T05:06:07\nx 2001-02-03 (H) 2001-01-02 @work issue:123\n"
                    .to_string(),
                ),
                filter_aliases: vec![File {
                    name: "completed".to_string(),
                    content: "+done".to_string(),
                }],
                ..Config::new(now())
            },
            Output::JustPrint {
                stdout: "3 x 2001-02-03 (H) 2001-01-02 @work issue:123\n".to_string(),
            },
        ),
        (
            Config {
                now: now(),
                args: vec!["pri:M".to_owned(), "done".to_owned()],
                tasks: Some(
                    "(M) 2001-02-03 @home +chore add tests\nadd task due:2002-03-04T05:06:07\nx 2001-02-03 (H) 2001-01-02 @work issue:123\n"
                    .to_string(),
                ),
                command_aliases: vec![File {
                    name: "done".to_string(),
                    content: "modify +done end:today".to_string(),
                }],
                ..Config::new(now())
            },
            Output::WriteFiles {
                stdout: "DEL (M) 2001-02-03 @home +chore add tests\nADD x 2001-02-03 (M) 2001-02-03 @home +chore add tests\n"
                .to_string(),
                confirm: false,
                tasks: "add task due:2002-03-04T05:06:07\nx 2001-02-03 (H) 2001-01-02 @work issue:123\nx 2001-02-03 (M) 2001-02-03 @home +chore add tests\n"
                .to_string(),
                undo: "---\nDEL (M) 2001-02-03 @home +chore add tests\nADD x 2001-02-03 (M) 2001-02-03 @home +chore add tests\n"
                .to_string(),
            },
        ),
        (
            Config {
                now: now(),
                args: vec!["+done".to_owned(), "modify".to_owned(), "reopen".to_owned()],
                tasks: Some(
                    "(M) 2001-02-03 @home +chore add tests\nadd task due:2002-03-04T05:06:07\nx 2001-02-03 (H) 2001-01-02 @work issue:123\n"
                    .to_string(),
                ),
                modification_aliases: vec![File {
                    name: "reopen".to_string(),
                    content: "-+done -end:".to_string(),
                }],
                ..Config::new(now())
            },
            Output::WriteFiles {
                stdout: "DEL x 2001-02-03 (H) 2001-01-02 @work issue:123\nADD (H) 2001-01-02 @work issue:123\n"
                .to_string(),
                confirm: false,
                tasks: "(H) 2001-01-02 @work issue:123\n(M) 2001-02-03 @home +chore add tests\nadd task due:2002-03-04T05:06:07\n"
                .to_string(),
                undo: "---\nDEL x 2001-02-03 (H) 2001-01-02 @work issue:123\nADD (H) 2001-01-02 @work issue:123\n"
                .to_string(),
            },
        ),
        (
            Config {
                now: now(),
                args: vec![],
                tasks: Some(
                    "(M) 2001-02-03 @home +chore add tests\nadd task due:2002-03-04T05:06:07\nx 2001-02-03 (H) 2001-01-02 @work issue:123\n"
                    .to_string(),
                ),
                default_filters: vec![File {
                    name: "pending".to_string(),
                    content: "-+done".to_string(),
                }],
                ..Config::new(now())
            },
            Output::JustPrint {
                stdout: "1 (M) 2001-02-03 @home +chore add tests\n2 add task due:2002-03-04T05:06:07\n"
                .to_string(),
            },
        ),
        (
            Config {
                now: now(),
                args: vec![
                    " ".to_owned(),
                    "-pri:M".to_owned(),
                    "  ".to_owned(),
                    "-+done".to_owned(),
                    "  ".to_owned(),
                ],
                tasks: Some(
                    "(M) 2001-02-03 @home +chore add tests\nadd task due:2002-03-04T05:06:07\nx 2001-02-03 (H) 2001-01-02 @work issue:123\n"
                    .to_string(),
                ),
                ..Config::new(now())
            },
            Output::JustPrint {
                stdout: "2 add task due:2002-03-04T05:06:07\n".to_string(),
            },
        ),
        (
            Config {
                now: now(),
                args: vec![
                    "/add tests/".to_owned(),
                    "modify".to_owned(),
                    "pri:Z +done".to_owned(),
                ],
                tasks: Some(
                    "(M) 2001-02-03 @home +chore add tests\nadd task due:2002-03-04T05:06:07\nx 2001-02-03 (H) 2001-01-02 @work issue:123\n"
                    .to_string(),
                ),
                command_aliases: vec![File {
                    name: "done".to_string(),
                    content: "modify +done end:today".to_string(),
                }],
                ..Config::new(now())
            },
            Output::WriteFiles {
                stdout: "DEL (M) 2001-02-03 @home +chore add tests\nADD x (Z) 2001-02-03 @home +chore add tests\n"
                .to_string(),
                confirm: false,
                tasks: "add task due:2002-03-04T05:06:07\nx (Z) 2001-02-03 @home +chore add tests\nx 2001-02-03 (H) 2001-01-02 @work issue:123\n"
                .to_string(),
                undo: "---\nDEL (M) 2001-02-03 @home +chore add tests\nADD x (Z) 2001-02-03 @home +chore add tests\n"
                .to_string(),
            },
        ),
    ] {
        let actual = run(config.clone())?;
        assert_eq!(actual, *expect);
    }

    Ok(())
}
