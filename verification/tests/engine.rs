use chore::args::{find_name, is_all_whitespace, split_token};
use chore::change::are_twins;
use chore::color::{Bg, Colors, Fg};
use chore::command::Command;
use chore::date::{Date, Duration};
use chore::field::{Key, Number};
use chore::filter::Filter;
use chore::lines::{join_lines, line_le, sort_lines, split_lines};
use chore::modification::{ModPair, Modification};
use chore::print::Print;
use chore::task::{Task, TaskBuf};
use chore::{run, Config, Error, File, Output};

fn now() -> Date {
    Date::from_fields(2001, 2, 3, 4, 5, 6, Duration::Seconds(1)).unwrap()
}

fn config(args: &[&str], tasks: &str) -> Config {
    Config {
        args: args.iter().map(|s| s.to_string()).collect(),
        tasks: Some(tasks.to_owned()),
        date_keys: Some("due:\nwait\n".to_owned()),
        ..Config::new(now())
    }
}

fn printed(args: &[&str], tasks: &str) -> String {
    match run(config(args, tasks)).unwrap() {
        Output::JustPrint { stdout } => stdout,
        _ => panic!("expected JustPrint"),
    }
}

fn failure(config: Config) -> Error {
    match run(config) {
        Err(e) => e,
        Ok(_) => panic!("expected error"),
    }
}

#[test]
fn lines_split_at_line_feeds() {
    assert_eq!(split_lines(""), Vec::<&str>::new());
    assert_eq!(split_lines("a"), vec!["a"]);
    assert_eq!(split_lines("a\n"), vec!["a"]);
    assert_eq!(split_lines("a\n\nb"), vec!["a", "", "b"]);
    assert_eq!(split_lines("\n"), vec![""]);
    assert_eq!(split_lines("a\r\nb\r"), vec!["a", "b\r"]);
    assert_eq!(split_lines("a\r\r\n"), vec!["a\r"]);
    for text in ["", "a", "a\nb\n", "\r\n\r\nä\r\nb", "x\n\n\n"] {
        assert_eq!(split_lines(text), text.lines().collect::<Vec<_>>());
    }
}

#[test]
fn lines_are_joined_with_a_line_feed_after_each() {
    assert_eq!(join_lines(&vec![]), "");
    assert_eq!(join_lines(&vec!["a".to_owned()]), "a\n");
    assert_eq!(join_lines(&vec!["a".to_owned(), "".to_owned(), "b".to_owned()]), "a\n\nb\n");
}

#[test]
fn lines_are_ordered_byte_by_byte() {
    assert!(line_le(b"", b""));
    assert!(line_le(b"", b"a"));
    assert!(!line_le(b"a", b""));
    assert!(line_le(b"a", b"ab"));
    assert!(!line_le(b"ab", b"a"));
    assert!(line_le(b"Z", b"a"));
    assert!(line_le("z".as_bytes(), "ä".as_bytes()));
    let lines = vec!["b", "ä", "", "a", "B", "ab", "a", " a"];
    let sorted = sort_lines(lines.iter().map(|s| s.to_string()).collect());
    let mut expect = lines.clone();
    expect.sort_unstable();
    assert_eq!(sorted, expect);
    assert_eq!(sort_lines(vec![]), Vec::<String>::new());
}

#[test]
fn list_pads_numbers_to_the_widest() {
    let tasks = "a\nb\nc\nd\ne\nf\ng\nh\ni\nj\n";
    assert_eq!(printed(&["list"], tasks), " 1 a\n 2 b\n 3 c\n 4 d\n 5 e\n 6 f\n 7 g\n 8 h\n 9 i\n10 j\n");
    assert_eq!(printed(&["1-9"], tasks), "1 a\n2 b\n3 c\n4 d\n5 e\n6 f\n7 g\n8 h\n9 i\n");
    assert_eq!(printed(&["9,10"], tasks), " 9 i\n10 j\n");
    assert_eq!(printed(&["/nothing/"], tasks), "");
    assert_eq!(printed(&[], ""), "");
    assert_eq!(printed(&[], tasks), printed(&["list"], tasks));
}

#[test]
fn token_lists_are_sorted_and_name_each_once() {
    let tasks = "+b @x k:1 +a\n+a @y @x j:2 k:3\nx +c done @z\n";
    assert_eq!(printed(&["projects"], tasks), "+a\n+b\n+c\n");
    assert_eq!(printed(&["contexts"], tasks), "@x\n@y\n@z\n");
    assert_eq!(printed(&["keys"], tasks), "j:\nk:\n");
    assert_eq!(printed(&["-+done", "projects"], tasks), "+a\n+b\n");
    assert_eq!(printed(&["+done", "keys"], tasks), "");
}

#[test]
fn colors_are_sent_when_they_change() {
    let colored = |tasks: &str| match run(Config {
        print_color: true,
        ..config(&["list"], tasks)
    })
    .unwrap()
    {
        Output::JustPrint { stdout } => stdout,
        _ => panic!("expected JustPrint"),
    };
    assert_eq!(colored("a\n"), "\x1b[38;5;246m1 \x1b[38;5;255ma\n");
    assert_eq!(
        colored("(A) a\n"),
        "\x1b[38;5;246m1 \x1b[48;5;1m\x1b[38;5;255m(A)\x1b[0m a\n"
    );
    assert_eq!(
        colored("(Z) +p k:v\n"),
        "\x1b[38;5;246m1 \x1b[48;5;0m\x1b[38;5;255m(Z)\x1b[0m \x1b[38;5;092m+p \x1b[38;5;2mk\x1b[38;5;246m:\x1b[38;5;6mv\n"
    );
    assert_eq!(colored(""), "");
}

#[test]
fn printing_threads_the_colors() {
    let mut out = String::new();
    let mut colors = Colors::new();
    assert_eq!(Fg::get(&colors), Fg::Default);
    assert_eq!(Bg::get(&colors), Bg::Default);
    Fg::Red.print(&mut out, &mut colors, true);
    Fg::Red.print(&mut out, &mut colors, true);
    Bg::Custom(12).print(&mut out, &mut colors, true);
    Bg::Default.print(&mut out, &mut colors, false);
    assert_eq!(out, "\x1b[38;5;196m\x1b[48;5;12m");
    assert_eq!(Fg::get(&colors), Fg::Red);
    assert_eq!(Bg::get(&colors), Bg::Custom(12));
    Fg::Blue.set(&mut colors);
    Bg::Default.set(&mut colors);
    assert_eq!(colors, Colors { fg: Fg::Blue, bg: Bg::Default });
    let mut plain = String::new();
    Task::new("x 2001-02-03 (A) @c +p k:v | w").print(&mut plain, &mut colors, false);
    Number::from_usize(0).print(&mut plain, &mut colors, false);
    Key::new("k").print(&mut plain, &mut colors, false);
    assert_eq!(plain, "x 2001-02-03 (A) @c +p k:v | w0k:");
}

#[test]
fn commands_are_named() {
    assert_eq!(Command::new("list"), Some(Command::ListTasks));
    assert_eq!(Command::new("projects"), Some(Command::ListProjects));
    assert_eq!(Command::new("contexts"), Some(Command::ListContexts));
    assert_eq!(Command::new("keys"), Some(Command::ListKeys));
    assert_eq!(Command::new("add"), Some(Command::AddTask));
    assert_eq!(Command::new("delete"), Some(Command::RemoveTasks));
    assert_eq!(Command::new("modify"), Some(Command::ModifyTasks));
    assert_eq!(Command::new("undo"), Some(Command::Undo));
    assert_eq!(Command::new("List"), None);
    assert_eq!(Command::new(""), None);
}

#[test]
fn reading_commands_take_no_modifications() {
    for command in ["list", "projects", "contexts", "keys", "delete", "undo"] {
        assert!(matches!(failure(config(&[command, "+tag"], "a\n")), Error::CmdDisallowsMod));
    }
    assert!(matches!(
        failure(config(&["nonsense"], "a\n")),
        Error::NotAFilterOrCommand(arg) if arg == "nonsense"
    ));
}

#[test]
fn add_joins_words_into_one_task() {
    assert_eq!(
        run(config(&["add", "buy", "milk", "+shop", "pri:B", "due:tomorrow"], "b\na\n")).unwrap(),
        Output::WriteFiles {
            stdout: "ADD (B) buy milk +shop due:2001-02-04\n".to_owned(),
            confirm: false,
            tasks: "(B) buy milk +shop due:2001-02-04\na\nb\n".to_owned(),
            undo: "---\nADD (B) buy milk +shop due:2001-02-04\n".to_owned(),
        }
    );
    assert_eq!(
        Command::add_tasks("".to_owned(), "old\n".to_owned(), &[], false).unwrap(),
        Output::WriteFiles {
            stdout: "ADD \n".to_owned(),
            confirm: false,
            tasks: "\n".to_owned(),
            undo: "old\n---\nADD \n".to_owned(),
        }
    );
}

#[test]
fn delete_asks_before_more_than_one_goes() {
    assert_eq!(
        run(config(&["/a/", "delete"], "ab\nc\nba\n")).unwrap(),
        Output::WriteFiles {
            stdout: "DEL ab\nDEL ba\n".to_owned(),
            confirm: true,
            tasks: "c\n".to_owned(),
            undo: "---\nDEL ab\nDEL ba\n".to_owned(),
        }
    );
    assert_eq!(
        run(config(&["2", "delete"], "ab\nc\nba\n")).unwrap(),
        Output::WriteFiles {
            stdout: "DEL c\n".to_owned(),
            confirm: false,
            tasks: "ab\nba\n".to_owned(),
            undo: "---\nDEL c\n".to_owned(),
        }
    );
    assert_eq!(
        run(config(&["delete"], "b\na\n")).unwrap(),
        Output::WriteFiles {
            stdout: "DEL b\nDEL a\n".to_owned(),
            confirm: true,
            tasks: "".to_owned(),
            undo: "---\nDEL b\nDEL a\n".to_owned(),
        }
    );
}

#[test]
fn modify_leaves_unchanged_tasks_alone() {
    assert_eq!(
        run(config(&["modify", "+p"], "b +p\na\nc\n")).unwrap(),
        Output::WriteFiles {
            stdout: "DEL a\nADD a +p\nDEL c\nADD c +p\n".to_owned(),
            confirm: true,
            tasks: "a +p\nb +p\nc +p\n".to_owned(),
            undo: "---\nDEL a\nADD a +p\nDEL c\nADD c +p\n".to_owned(),
        }
    );
}

#[test]
fn twins_differ_only_in_their_dates() {
    let keys = [Key::new("due")];
    assert!(are_twins("", "", &keys));
    assert!(are_twins("a b", "a b", &keys));
    assert!(are_twins("x 2001-01-01 a", "x 2002-02-02 a", &keys));
    assert!(are_twins("(A) 2001-01-01 a", "(A) 2002-02-02 a", &keys));
    assert!(are_twins("a due:2001", "a due:tomorrow", &keys));
    assert!(!are_twins("a wait:2001", "a wait:2002", &keys));
    assert!(!are_twins("a due:2001", "a wait:2001", &keys));
    assert!(!are_twins("a b", "a b c", &keys));
    assert!(!are_twins("a b c", "a b", &keys));
    assert!(!are_twins("a  b", "a b", &keys));
    assert!(!are_twins("x 2001-01-01 a", "2001-01-01 a", &keys));
    assert!(!are_twins("a", "", &keys));
}

#[test]
fn aliases_stand_for_their_words() {
    let alias = |name: &str, content: &str| File { name: name.to_owned(), content: content.to_owned() };
    let tasks = "x a +p\nb +p\nc\n";
    let out = run(Config {
        filter_aliases: vec![alias("open", "-+done\u{a0}\u{2003} \n")],
        command_aliases: vec![alias("tag", "modify +q  @r \n\n")],
        modification_aliases: vec![alias("soon", "due:tomorrow   pri:A")],
        ..config(&["open", "+p", "tag", "soon"], tasks)
    })
    .unwrap();
    assert_eq!(
        out,
        Output::WriteFiles {
            stdout: "DEL b +p\nADD (A) b +p +q @r due:2001-02-04\n".to_owned(),
            confirm: false,
            tasks: "(A) b +p +q @r due:2001-02-04\nc\nx a +p\n".to_owned(),
            undo: "---\nDEL b +p\nADD (A) b +p +q @r due:2001-02-04\n".to_owned(),
        }
    );
    let files = vec![alias("a", "1"), alias("b", "2"), alias("a", "3")];
    assert_eq!(find_name("a", &files).unwrap().content, "1");
    assert_eq!(find_name("b", &files).unwrap().content, "2");
    assert!(find_name("c", &files).is_none());
}

#[test]
fn text_falls_into_words_and_whitespace() {
    assert_eq!(split_token(""), None);
    assert_eq!(split_token(" \t\u{2003}\u{a0}"), None);
    assert_eq!(split_token("word"), Some(("word", "")));
    assert_eq!(split_token("two words  "), Some(("two", " words")));
    assert_eq!(split_token("  lead"), Some(("  ", "lead")));
    assert_eq!(split_token("a\u{a0}b \u{3000}"), Some(("a\u{a0}b", "")));
    assert_eq!(split_token("a\x0b"), Some(("a", "")));
    assert!(is_all_whitespace(""));
    assert!(is_all_whitespace(" \t\r\n\x0c"));
    assert!(!is_all_whitespace(" a "));
    assert!(!is_all_whitespace("\u{a0}"));
}

#[test]
fn words_for_the_body_are_kept_apart_from_fields() {
    assert_eq!(
        run(config(&["modify", "new body", "+p", "more"], "(A) old\n")).unwrap(),
        Output::WriteFiles {
            stdout: "DEL (A) old\nADD (A) new body +p more\n".to_owned(),
            confirm: false,
            tasks: "(A) new body +p more\n".to_owned(),
            undo: "---\nDEL (A) old\nADD (A) new body +p more\n".to_owned(),
        }
    );
    assert_eq!(
        run(config(&["modify", ">>more", "words"], "(A) old\n")).unwrap(),
        Output::WriteFiles {
            stdout: "DEL (A) old\nADD (A) old more words\n".to_owned(),
            confirm: false,
            tasks: "(A) old more words\n".to_owned(),
            undo: "---\nDEL (A) old\nADD (A) old more words\n".to_owned(),
        }
    );
}

#[test]
fn default_filters_give_way_to_filters_given() {
    let defaults = vec![File { name: "d".to_owned(), content: "-+done \n due.any:".to_owned() }];
    let tasks = "x a due:1\nb due:2\nc\n";
    let with = |args: &[&str]| match run(Config {
        default_filters: defaults.clone(),
        ..config(args, tasks)
    })
    .unwrap()
    {
        Output::JustPrint { stdout } => stdout,
        _ => panic!("expected JustPrint"),
    };
    assert_eq!(with(&[]), "2 b due:2\n");
    assert_eq!(with(&["+done"]), "1 x a due:1\n");
    assert_eq!(with(&["due.none:"]), "3 c\n");
    assert_eq!(with(&["all"]), "1 x a due:1\n2 b due:2\n3 c\n");
    let bad = |content: &str| failure(Config {
        default_filters: vec![File { name: "d".to_owned(), content: content.to_owned() }],
        ..config(&[], tasks)
    });
    assert!(matches!(bad("-+done nonsense"), Error::InvalidDefaultFilter(word) if word == "nonsense"));
    assert!(matches!(bad("/(/"), Error::InvalidRegex(word) if word == "/(/"));
}

#[test]
fn filters_conflict_when_they_ask_about_the_same_thing() {
    let now = now();
    let keys = [Key::new("due")];
    let filter = |text: &'static str| Filter::new(text, &now, &keys).unwrap().unwrap();
    let conflicts = |a: &'static str, b: &'static str| filter(a).conflicts(&filter(b));
    assert!(conflicts("all", "+p"));
    assert!(conflicts("+p", "all"));
    assert!(conflicts("+done", "-+done"));
    assert!(conflicts("+p", "-+p"));
    assert!(!conflicts("+p", "+q"));
    assert!(conflicts("@c", "@c"));
    assert!(!conflicts("@c", "+c"));
    assert!(conflicts("/a/", "/b/"));
    assert!(conflicts("(A)", "(B-C)"));
    assert!(conflicts("1-2", "3-4"));
    assert!(conflicts("1,2", "+p"));
    assert!(conflicts("+p", "7"));
    assert!(conflicts("end:2001-02-03", "end.any:"));
    assert!(conflicts("pri:A", "pri.none:"));
    assert!(conflicts("due.before:2002", "due:x"));
    assert!(!conflicts("due:x", "wait:x"));
    assert!(!conflicts("end.any:", "entry.any:"));
    assert!(!conflicts("+done", "/done/"));
    assert!(!conflicts("(A)", "pri:A"));
}

#[test]
fn filters_say_what_is_wrong_with_them() {
    let now = now();
    let keys = [Key::new("due")];
    let error = |text: &str| match Filter::new(text, &now, &keys) {
        Err(e) => e,
        Ok(_) => panic!("expected error"),
    };
    assert!(matches!(error("pri:AB"), Error::InvalidPriority(s) if s == "pri:AB"));
    assert!(matches!(error("-pri:a"), Error::InvalidPriority(s) if s == "pri:a"));
    assert!(matches!(error("/[/"), Error::InvalidRegex(s) if s == "/[/"));
    assert!(matches!(error("due.soon:x"), Error::InvalidMod(s) if s == "due.soon:x"));
    assert!(matches!(error("wait.in:2001"), Error::ModExpectsDateKey(s) if s == "wait.in:2001"));
    assert!(matches!(error("pri.after:2001"), Error::ModExpectsDateKey(s) if s == "pri.after:2001"));
    assert!(matches!(error("due.in:never"), Error::ModExpectsDateValue(s) if s == "due.in:never"));
    assert!(matches!(error("end.before:"), Error::ModExpectsDateValue(s) if s == "end.before:"));
    assert!(Filter::new("plain", &now, &keys).unwrap().is_none());
    assert!(Filter::new("", &now, &keys).unwrap().is_none());
    assert!(Filter::new("-", &now, &keys).unwrap().is_none());
    assert!(Filter::new("/", &now, &keys).unwrap().is_none());
    assert!(Filter::new("//", &now, &keys).unwrap().is_some());
}

#[test]
fn modifications_say_what_is_wrong_with_them() {
    let now = now();
    let keys = [Key::new("due")];
    let error = |text: &str| match Modification::new(text, &now, &keys) {
        Err(e) => e,
        Ok(_) => panic!("expected error"),
    };
    assert!(matches!(error("end:2001-02"), Error::InvalidEnd(s) if s == "end:2001-02"));
    assert!(matches!(error("end:now"), Error::InvalidEnd(s) if s == "end:now"));
    assert!(matches!(error("entry:12:00"), Error::InvalidEntry(s) if s == "entry:12:00"));
    assert!(matches!(error("end:never"), Error::InvalidEnd(s) if s == "end:never"));
    assert!(matches!(error("entry:never"), Error::InvalidEntry(s) if s == "entry:never"));
    assert!(matches!(error("entry:2001"), Error::InvalidEntry(s) if s == "entry:2001"));
    assert!(matches!(error("due:never"), Error::KeyExpectsDateValue(s) if s == "due:never"));
    assert!(matches!(error("pri:1"), Error::InvalidPriority(s) if s == "pri:1"));
    assert!(matches!(error("-due:2001"), Error::CannotModNegateKeyValue(s) if s == "due:2001"));
    assert!(matches!(error("!k:v"), Error::CannotModNegateKeyValue(s) if s == "k:v"));
}

#[test]
fn modifications_are_read_by_their_form() {
    let now = now();
    let keys = [Key::new("due")];
    let read = |text: &'static str| Modification::new(text, &now, &keys).unwrap();
    assert!(matches!(read("+done"), Modification::SetCompleted));
    assert!(matches!(read("-+done"), Modification::SetPending));
    assert!(matches!(read("+p"), Modification::AddProject(p) if p.as_str() == "+p"));
    assert!(matches!(read("!+p"), Modification::RemoveProject(p) if p.as_str() == "+p"));
    assert!(matches!(read("@c"), Modification::AddContext(c) if c.as_str() == "@c"));
    assert!(matches!(read("-@c"), Modification::RemoveContext(c) if c.as_str() == "@c"));
    assert!(matches!(read(">>more"), Modification::Append(t) if t == "more"));
    assert!(matches!(read("body"), Modification::SetBody(t) if t == "body"));
    assert!(matches!(read("-body"), Modification::SetBody(t) if t == "-body"));
    assert!(matches!(read("end:today"), Modification::SetPair(ModPair::SetEnd(d)) if d == "2001-02-03"));
    assert!(matches!(read("entry:tom"), Modification::SetPair(ModPair::SetEntry(d)) if d == "2001-02-04"));
    assert!(matches!(read("pri:C"), Modification::SetPair(ModPair::SetPriority(p)) if p.as_u8() == b'C'));
    assert!(matches!(read("due:mon"), Modification::SetPair(ModPair::SetValue(k, v)) if k.as_str() == "due" && v == "2001-02-05"));
    assert!(matches!(read("k:mon"), Modification::SetPair(ModPair::SetValue(k, v)) if k.as_str() == "k" && v == "mon"));
    assert!(matches!(read("k:"), Modification::SetPair(ModPair::SetValue(k, v)) if k.as_str() == "k" && v.is_empty()));
    assert!(matches!(read("due:"), Modification::SetPair(ModPair::RemoveKey(k)) if k.as_str() == "due"));
    assert!(matches!(read("-k:"), Modification::SetPair(ModPair::RemoveKey(k)) if k.as_str() == "k"));
    assert!(matches!(read("end:"), Modification::SetPair(ModPair::RemoveEnd)));
    assert!(matches!(read("-pri:"), Modification::SetPair(ModPair::RemovePriority)));
    assert!(matches!(read("entry:"), Modification::SetPair(ModPair::RemoveEntry)));
    let mut task = TaskBuf::new("(A) 2001-01-01 a k:v".to_owned());
    read("k:").apply(&mut task, &keys);
    read("-pri:").apply(&mut task, &keys);
    read("entry:").apply(&mut task, &keys);
    assert_eq!(task.as_str(), "a k:");
}

#[test]
fn errors_say_what_went_wrong() {
    let text = |e: Error| e.message();
    assert_eq!(text(Error::CmdDisallowsMod), "specified command cannot take modifications\n");
    assert_eq!(text(Error::ConfPromptDeniedErr), "confirmation denied, aborting without changes\n");
    assert_eq!(text(Error::EmptyUndo), "undo file is empty or non-existent; cannot undo further\n");
    assert_eq!(
        text(Error::InvalidPriority("pri:1".to_owned())),
        "\"pri:1\" is not a valid priority A-Z\n"
    );
    assert_eq!(
        text(Error::InvalidRegex("/\"\t[/".to_owned())),
        "\"/\\\"\\t[/\" starts with a '/' but is not valid regex\n"
    );
    assert_eq!(
        text(Error::CannotModNegateKeyValue("k:v".to_owned())),
        "\"k:v\" cannot modify negated key:value; try -key:\n"
    );
    assert_eq!(
        text(Error::InvalidDefaultFilter("x".to_owned())),
        "\"x\" is an invalid default filter\n"
    );
    assert_eq!(
        text(Error::InvalidEnd("end:x".to_owned())),
        "\"end:x\" is an invalid end date; expects one-day resolution\n"
    );
    assert_eq!(
        text(Error::InvalidEntry("entry:x".to_owned())),
        "\"entry:x\" is an invalid entry date; expects one-day resolution\n"
    );
    assert_eq!(text(Error::InvalidMod("a.b:c".to_owned())), "\"a.b:c\" has an invalid .mod:\n");
    assert_eq!(
        text(Error::KeyExpectsDateValue("due:x".to_owned())),
        "\"due:x\" contains date key but non-date value\n"
    );
    assert_eq!(
        text(Error::ModExpectsDateKey("k.in:x".to_owned())),
        "\"k.in:x\" contains non-date key, conflicting with .mod:\n"
    );
    assert_eq!(
        text(Error::ModExpectsDateValue("due.in:x".to_owned())),
        "\"due.in:x\" contains non-date value, conflicting with .mod:\n"
    );
    assert_eq!(
        text(Error::NotAFilterOrCommand("x".to_owned())),
        "\"x\" is not a valid filter or command\n"
    );
    assert_eq!(
        text(Error::MalformedUndo("MOD \"a\"".to_owned())),
        "undo file contains non-undo line: `MOD \"a\"`\n"
    );
    assert_eq!(
        text(Error::UndoMismatch("a".to_owned())),
        "unable to find `a` in task file to undo\n"
    );
}
