use chore::date::{Date, Duration};
use chore::{run, Config, Error, Output};

fn now() -> Date {
    Date::from_fields(2001, 2, 3, 4, 5, 6, Duration::Seconds(1)).unwrap()
}
use regex::Regex;

#[test]
fn print_general() -> Result<(), Error> {
    let ansii_color = Regex::new("\x1b\\[[0-9;]*m").unwrap();

    for (args, tasks, expect) in &[
        (
        vec!["list"],
        "(M) 2001-02-03 @home +chore add tests\n(Z) foo | bar\nadd task due:2002-03-04T05:06:07\nx 2001-02-03 (H) 2001-01-02 @work issue:123\n",
        "1 (M) 2001-02-03 @home +chore add tests\n2 (Z) foo | bar\n3 add task due:2002-03-04T05:06:07\n4 x 2001-02-03 (H) 2001-01-02 @work issue:123\n",
    ),
        (
        vec!["modify", "pri:A"],
        "(M) 2001-02-03 @home +chore add tests\n",
        "DEL (M) 2001-02-03 @home +chore add tests\nADD (A) 2001-02-03 @home +chore add tests\n",
    ),
        (
        vec!["delete"],
        "(M) 2001-02-03 @home +chore add tests\n",
        "DEL (M) 2001-02-03 @home +chore add tests\n",
    ),
    ] {
        let config = Config {
            now: now(),
            args: args.iter().map(|s| s.to_string()).collect(),
            tasks: Some(tasks.to_string()),
            date_keys: Some("due:\nscheduled:\nwait:\nuntil:\n".to_owned()),
            print_color: true,
            ..Config::new(now())
        };

        match run(config)? {
            Output::JustPrint { stdout } => {
                let stdout = ansii_color.split(&stdout).collect::<Vec<_>>().join("");
                assert_eq!(&stdout, expect)
            }
            Output::WriteFiles { stdout, .. } => {
                let stdout = ansii_color.split(&stdout).collect::<Vec<_>>().join("");
                assert_eq!(&stdout, expect)
            }
        }
    }
    Ok(())
}
