use skid::classes::Classes;
use skid::date::Date;
use skid::error::{Error, Quantity, Subject};
use skid::help::{find_topic, help_entries, overview, topic_help};
use skid::input::{to_int, Args};
use skid::session::{
    add_assignment_due, command_of, create_class_under, handler, sorting_of, Command, Reply, Session,
};
use skid::sorting::SortingMethod;

fn se_text(s: &str) -> String {
    String::from(s)
}

fn se_day(year: i32, month: u32, day: u32) -> Date {
    Date::from_ymd(year, month, day).unwrap()
}

fn se_run(session: &mut Session, line: &str) -> Reply {
    let args = Args::read(line);
    handler(session, Some(&args))
}

fn se_started() -> Session {
    let mut s = Session::new(Classes::new());
    assert_eq!(se_run(&mut s, "create cs101 3 Intro to CS"), Reply::Done(se_text("created class 'cs101'")));
    assert_eq!(se_run(&mut s, "create Math 10 Calculus"), Reply::Done(se_text("created class 'math'")));
    s
}

#[test]
fn read_takes_a_line_apart() {
    let a = Args::read("add cs101 1-1-2025 homework 1");
    assert_eq!(a.command, "add");
    assert_eq!(a.list, vec![se_text("cs101"), se_text("1-1-2025"), se_text("homework"), se_text("1")]);
    assert_eq!(a.input, "cs101 1-1-2025 homework 1");
}

#[test]
fn read_splits_at_any_white_space() {
    let a = Args::read("  list   name  \n");
    assert_eq!(a.command, "list");
    assert_eq!(a.list, vec![se_text("name")]);
    assert_eq!(a.input, "name");
    let b = Args::read("");
    assert_eq!(b, Args { command: se_text(""), list: vec![], input: se_text("") });
    let c = Args::read("   ");
    assert_eq!(c, Args { command: se_text(""), list: vec![], input: se_text("") });
    let d = Args::read("a\tb c");
    assert_eq!(d.command, "a");
    assert_eq!(d.list, vec![se_text("b"), se_text("c")]);
    assert_eq!(d.input, "b c");
    let e = Args::read("\tadd\u{a0}cs101\n1-1-2025 \t hw\u{3000}1\r\n");
    assert_eq!(e.command, "add");
    assert_eq!(e.list, vec![se_text("cs101"), se_text("1-1-2025"), se_text("hw"), se_text("1")]);
    assert_eq!(e.input, "cs101 1-1-2025 hw 1");
}

#[test]
fn read_agrees_with_split_whitespace() {
    for line in ["", " ", "a", " a ", "a  b", "a\tb", "a\u{2003}b\u{85}c", "list\tname", "x \n y\r\nz"] {
        let want: Vec<String> = line.split_whitespace().map(String::from).collect();
        let got = Args::read(line);
        if want.is_empty() {
            assert_eq!(got, Args { command: se_text(""), list: vec![], input: se_text("") });
        } else {
            assert_eq!(got.command, want[0]);
            assert_eq!(got.list, want[1..].to_vec());
            assert_eq!(got.input, want[1..].join(" "));
        }
    }
}

#[test]
fn args_list_shows_arguments() {
    assert_eq!(Args::read("x a b c").list(), "(args: a, b, c)");
    assert_eq!(Args::read("x").list(), "(args: )");
}

#[test]
fn args_check_counts_arguments() {
    let a = Args::read("x a b");
    assert_eq!(a.check(0, true), Ok(true));
    assert_eq!(a.check(2, true), Ok(true));
    assert_eq!(a.check(2, false), Ok(true));
    assert_eq!(a.check(3, false), Ok(false));
    assert_eq!(a.check(3, true), Err(Error::MissingArguments { expected: 3, provided: 2 }));
}

#[test]
fn args_input_from_joins_the_rest() {
    let a = Args::read("add cs101 1-1-2025 homework   1");
    assert_eq!(a.input_from(0), "cs101 1-1-2025 homework 1");
    assert_eq!(a.input_from(2), "homework 1");
    assert_eq!(a.input_from(3), "1");
    assert_eq!(a.input_from(4), "");
}

#[test]
fn to_int_reads_numbers() {
    assert_eq!(to_int(&se_text("12"), Quantity::Index), Ok(12));
    assert_eq!(
        to_int(&se_text("x"), Quantity::Hours),
        Err(Error::InvalidValue { quantity: Quantity::Hours, text: se_text("x") })
    );
}

#[test]
fn command_of_knows_names_and_aliases() {
    let table = [
        ("add", Command::Add), ("a", Command::Add), ("all", Command::All), ("clean", Command::Clean),
        ("complete", Command::Complete), ("c", Command::Complete), ("create", Command::Create),
        ("delete", Command::Delete), ("encode", Command::Encode), ("help", Command::Help),
        ("h", Command::Help), ("info", Command::Info), ("i", Command::Info), ("klog", Command::Klog),
        ("list", Command::List), ("ls", Command::List), ("l", Command::List),
        ("modify", Command::Modify), ("mod", Command::Modify), ("m", Command::Modify),
        ("panic", Command::Panic), ("quit", Command::Quit), ("q", Command::Quit),
        ("remove", Command::Remove), ("r", Command::Remove), ("write", Command::Write),
        ("w", Command::Write),
    ];
    for (name, command) in table.iter() {
        assert_eq!(command_of(name), Some(*command), "{}", name);
    }
    for name in ["", "Add", "ADD", "del", "exit", "adds", " add"] {
        assert_eq!(command_of(name), None, "{:?}", name);
    }
}

#[test]
fn sorting_of_ignores_case() {
    assert_eq!(sorting_of("id"), Some(SortingMethod::ID));
    assert_eq!(sorting_of("NAME"), Some(SortingMethod::Name));
    assert_eq!(sorting_of("Period"), Some(SortingMethod::Period));
    assert_eq!(sorting_of("date"), None);
    assert_eq!(sorting_of(""), None);
}

#[test]
fn scenario_create_add_info_complete() {
    let mut s = Session::new(Classes::new());
    assert_eq!(se_run(&mut s, "create cs101 3 Intro to CS"), Reply::Done(se_text("created class 'cs101'")));
    let added = se_run(&mut s, "add cs101 1-1-2025 homework 1");
    let c = &s.classes.entries[0];
    assert_eq!(c.id, "cs101");
    assert_eq!(c.name, "Intro to CS");
    assert_eq!(c.period, 3);
    assert_eq!(c.assignments.len(), 1);
    assert_eq!(c.assignments[0].name, "homework 1");
    assert_eq!(c.assignments[0].due_date, se_day(2025, 1, 1));
    assert!(c.completed.is_empty());
    assert_eq!(added, Reply::Show(c.display_info()));
    let info = se_run(&mut s, "info cs101");
    let text = match info {
        Reply::Show(t) => t,
        other => panic!("{:?}", other),
    };
    assert!(text.contains("\u{1b}[34mPeriod\u{1b}[0m: \u{1b}[1;33m3\u{1b}[0m"));
    assert!(text.contains("\u{1b}[1;32mhomework 1\u{1b}[0m - \u{1b}[32mJan  1 2025\u{1b}[0m"));
    assert!(text.ends_with("\u{1b}[34mCompleted\u{1b}[0m: None"));
    let completed = se_run(&mut s, "complete cs101 1");
    let c = &s.classes.entries[0];
    assert!(c.assignments.is_empty());
    assert_eq!(c.completed, vec![se_text("homework 1")]);
    assert_eq!(completed, Reply::Show(c.display_info()));
    let text = match se_run(&mut s, "info cs101") {
        Reply::Show(t) => t,
        other => panic!("{:?}", other),
    };
    assert!(text.contains("\u{1b}[34mAssignments\u{1b}[0m: None"));
    assert!(text.ends_with("\u{1b}[34mCompleted\u{1b}[0m: \n  \u{1b}[1;30m-\u{1b}[0m \u{1b}[1;32mhomework 1\u{1b}[0m"));
    assert!(s.will_write && s.running);
}

#[test]
fn scenario_list_period_puts_ten_before_two() {
    let mut s = Session::new(Classes::new());
    se_run(&mut s, "create two 2 Second");
    se_run(&mut s, "create ten 10 Tenth");
    let want = Reply::Show(se_text(
        "\u{1b}[34mten\u{1b}[0m: \u{1b}[1;32mTenth\u{1b}[0m\n\u{1b}[34mtwo\u{1b}[0m: \u{1b}[1;32mSecond\u{1b}[0m",
    ));
    assert_eq!(se_run(&mut s, "list period"), want);
    assert_eq!(se_run(&mut s, "list"), want);
    assert_eq!(se_run(&mut s, "ls PERIOD"), want);
    assert_eq!(se_run(&mut s, "l id"), want);
}

#[test]
fn scenario_klog_shows_or_exports() {
    let mut s = Session::new(Classes::new());
    se_run(&mut s, "create cs101 3 Intro to CS");
    se_run(&mut s, "add cs101 1-1-2025 hw1");
    assert_eq!(se_run(&mut s, "klog 2"), Reply::Show(se_text("2025-01-01\n  2h hw1 #cs101")));
    assert_eq!(
        se_run(&mut s, "klog 2 out/log"),
        Reply::Export { path: se_text("out/log"), data: se_text("2025-01-01\n  2h hw1 #cs101") }
    );
    assert_eq!(
        se_run(&mut s, "klog two"),
        Reply::Failed(Error::InvalidValue { quantity: Quantity::Hours, text: se_text("two") })
    );
    assert_eq!(se_run(&mut s, "klog"), Reply::Failed(Error::MissingArguments { expected: 1, provided: 0 }));
}

#[test]
fn create_lowers_the_id_and_refuses_a_taken_one() {
    let mut s = se_started();
    assert_eq!(s.classes.entries[1].id, "math");
    assert_eq!(s.classes.entries[1].name, "Calculus");
    assert_eq!(s.classes.entries[1].period, 10);
    assert_eq!(
        se_run(&mut s, "create MATH 1 Again"),
        Reply::Failed(Error::AlreadyExists { id: se_text("math") })
    );
    assert_eq!(
        se_run(&mut s, "create ÉCOLE x Name"),
        Reply::Failed(Error::InvalidValue { quantity: Quantity::Period, text: se_text("x") })
    );
    assert_eq!(se_run(&mut s, "create ÉCOLE 4 Name"), Reply::Done(se_text("created class 'école'")));
    assert_eq!(s.classes.entries.len(), 3);
    assert_eq!(se_run(&mut s, "create a 1"), Reply::Failed(Error::MissingArguments { expected: 3, provided: 2 }));
    assert_eq!(s.classes.entries.len(), 3);
}

#[test]
fn add_validates_before_changing() {
    let mut s = se_started();
    assert_eq!(se_run(&mut s, "add cs101 1-1-2025"), Reply::Failed(Error::MissingArguments { expected: 3, provided: 2 }));
    assert_eq!(
        se_run(&mut s, "a nope 1-1-2025 x"),
        Reply::Failed(Error::NotFound { subject: Subject::Class, name: se_text("nope") })
    );
    match se_run(&mut s, "add cs101 tomorrow x") {
        Reply::Failed(Error::InvalidFormat { text, .. }) => assert_eq!(text, "tomorrow"),
        other => panic!("{:?}", other),
    }
    assert!(s.classes.entries[0].assignments.is_empty());
    match se_run(&mut s, "a cs101 31-1-2021 read   chapter 2") {
        Reply::Show(_) => {}
        other => panic!("{:?}", other),
    }
    assert_eq!(s.classes.entries[0].assignments[0].name, "read chapter 2");
    assert_eq!(s.classes.entries[0].assignments[0].due_date, se_day(2021, 1, 31));
}

#[test]
fn complete_and_remove_check_the_index() {
    let mut s = se_started();
    se_run(&mut s, "add cs101 1-1-2025 one");
    se_run(&mut s, "add cs101 2-1-2025 two");
    for command in ["complete", "c", "remove", "r"] {
        assert_eq!(
            se_run(&mut s, format!("{} cs101 0", command).as_str()),
            Reply::Failed(Error::OutOfRange { index: 0, len: 2 })
        );
        assert_eq!(
            se_run(&mut s, format!("{} cs101 3", command).as_str()),
            Reply::Failed(Error::OutOfRange { index: 3, len: 2 })
        );
        assert_eq!(
            se_run(&mut s, format!("{} cs101 x", command).as_str()),
            Reply::Failed(Error::InvalidValue { quantity: Quantity::Index, text: se_text("x") })
        );
        assert_eq!(
            se_run(&mut s, format!("{} cs101", command).as_str()),
            Reply::Failed(Error::MissingArguments { expected: 2, provided: 1 })
        );
        assert_eq!(
            se_run(&mut s, format!("{} zz 1", command).as_str()),
            Reply::Failed(Error::NotFound { subject: Subject::Class, name: se_text("zz") })
        );
    }
    assert_eq!(s.classes.entries[0].assignments.len(), 2);
    se_run(&mut s, "remove cs101 1");
    assert_eq!(s.classes.entries[0].assignments.len(), 1);
    assert_eq!(s.classes.entries[0].assignments[0].name, "two");
    assert!(s.classes.entries[0].completed.is_empty());
    se_run(&mut s, "c cs101 1");
    assert_eq!(s.classes.entries[0].completed, vec![se_text("two")]);
    se_run(&mut s, "clean cs101");
    assert!(s.classes.entries[0].completed.is_empty());
    assert_eq!(se_run(&mut s, "clean"), Reply::Failed(Error::MissingArguments { expected: 1, provided: 0 }));
}

#[test]
fn modify_changes_one_property() {
    let mut s = se_started();
    assert_eq!(se_run(&mut s, "modify cs101 name Computer Science"), Reply::Done(se_text("modified 'Computer Science'")));
    assert_eq!(s.classes.entries[0].name, "Computer Science");
    assert_eq!(se_run(&mut s, "mod cs101 PERIOD 12"), Reply::Done(se_text("modified 'Computer Science'")));
    assert_eq!(s.classes.entries[0].period, 12);
    assert_eq!(
        se_run(&mut s, "m cs101 period abc"),
        Reply::Failed(Error::InvalidValue { quantity: Quantity::Period, text: se_text("abc") })
    );
    assert_eq!(s.classes.entries[0].period, 12);
    assert_eq!(
        se_run(&mut s, "m cs101 id other"),
        Reply::Failed(Error::UnknownProperty { name: se_text("id") })
    );
    assert_eq!(s.classes.entries[0].id, "cs101");
    assert_eq!(se_run(&mut s, "m cs101 name"), Reply::Failed(Error::MissingArguments { expected: 3, provided: 2 }));
}

#[test]
fn delete_removes_the_class() {
    let mut s = se_started();
    assert_eq!(se_run(&mut s, "delete cs101"), Reply::Done(se_text("deleted class 'Intro to CS'")));
    assert_eq!(s.classes.entries.len(), 1);
    assert_eq!(
        se_run(&mut s, "delete cs101"),
        Reply::Failed(Error::NotFound { subject: Subject::Class, name: se_text("cs101") })
    );
    assert_eq!(se_run(&mut s, "delete"), Reply::Failed(Error::MissingArguments { expected: 1, provided: 0 }));
}

#[test]
fn queries_leave_the_session_alone() {
    let mut s = se_started();
    se_run(&mut s, "add math 5-5-2025 sheet");
    let before = s.classes.encode();
    assert_eq!(se_run(&mut s, "encode"), Reply::Show(before.clone()));
    assert_eq!(se_run(&mut s, "all"), Reply::Show(s.classes.display_all_combined()));
    assert_eq!(se_run(&mut s, "info"), Reply::Show(s.classes.display_all_info()));
    assert_eq!(se_run(&mut s, "i math"), Reply::Show(s.classes.entries[1].display_info()));
    assert_eq!(
        se_run(&mut s, "info nope"),
        Reply::Failed(Error::NotFound { subject: Subject::Class, name: se_text("nope") })
    );
    assert_eq!(
        se_run(&mut s, "list colour"),
        Reply::Failed(Error::InvalidValue { quantity: Quantity::Sorting, text: se_text("colour") })
    );
    assert_eq!(se_run(&mut s, "write"), Reply::Persist);
    assert_eq!(se_run(&mut s, "w"), Reply::Persist);
    assert_eq!(s.classes.encode(), before);
    assert!(s.will_write && s.running);
}

#[test]
fn unknown_command_is_reported() {
    let mut s = se_started();
    assert_eq!(
        se_run(&mut s, "frobnicate now"),
        Reply::Failed(Error::NotFound { subject: Subject::Command, name: se_text("frobnicate") })
    );
    assert_eq!(
        se_run(&mut s, ""),
        Reply::Failed(Error::NotFound { subject: Subject::Command, name: se_text("") })
    );
    assert!(s.running);
}

#[test]
fn panic_disables_writing_for_the_rest_of_the_session() {
    let mut s = se_started();
    match se_run(&mut s, "panic") {
        Reply::Done(note) => assert!(note.starts_with("prevented write on shutdown.")),
        other => panic!("{:?}", other),
    }
    assert!(!s.will_write);
    assert!(s.running);
    se_run(&mut s, "create x 1 X");
    assert!(!s.will_write);
    assert_eq!(se_run(&mut s, "quit"), Reply::Quit);
    assert!(!s.will_write);
    assert!(!s.running);
}

#[test]
fn quit_and_end_of_input_end_the_session() {
    let mut s = se_started();
    assert_eq!(se_run(&mut s, "q"), Reply::Quit);
    assert!(!s.running && s.will_write);
    let mut t = se_started();
    assert_eq!(handler(&mut t, None), Reply::Quit);
    assert!(!t.running && t.will_write);
}

#[test]
fn ended_session_stays_as_it_is() {
    let mut s = se_started();
    se_run(&mut s, "quit");
    assert_eq!(se_run(&mut s, "create late 1 Late"), Reply::Quit);
    assert_eq!(s.classes.entries.len(), 2);
    assert_eq!(handler(&mut s, None), Reply::Quit);
}

#[test]
fn help_describes_one_command() {
    let mut s = Session::new(Classes::new());
    assert_eq!(
        se_run(&mut s, "help quit"),
        Reply::Show(se_text(
            "\u{1b}[34mSyntax\u{1b}[0m: \u{1b}[1;32mquit \u{1b}[0m\n\nExits the program.\n\n\u{1b}[34mAliases\u{1b}[0m: \u{1b}[1;32mq\u{1b}[0m"
        ))
    );
    assert_eq!(
        se_run(&mut s, "h delete"),
        Reply::Show(se_text(
            "\u{1b}[34mSyntax\u{1b}[0m: \u{1b}[1;32mdelete <id>\u{1b}[0m\n\nDeletes a class, including all of its assignments."
        ))
    );
    assert_eq!(
        se_run(&mut s, "help q"),
        Reply::Failed(Error::NotFound { subject: Subject::Topic, name: se_text("q") })
    );
}

#[test]
fn help_lists_all_commands() {
    let mut s = Session::new(Classes::new());
    let text = match se_run(&mut s, "help") {
        Reply::Show(t) => t,
        other => panic!("{:?}", other),
    };
    let lines: Vec<&str> = text.split('\n').collect();
    assert_eq!(lines.len(), 16);
    assert_eq!(lines[0], "\u{1b}[34madd\u{1b}[0m: \u{1b}[1;32mAdds a dated assignment to a class.\u{1b}[0m");
    assert_eq!(lines[9], "\u{1b}[34mklog\u{1b}[0m: \u{1b}[1;32mDisplays assignment data in klog format.\u{1b}[0m");
    assert_eq!(lines[15], "\u{1b}[34mwrite\u{1b}[0m: \u{1b}[1;32mWrites encoded classes to the config file.\u{1b}[0m");
    assert_eq!(text, overview(&help_entries()));
}

#[test]
fn help_table_is_sorted_and_complete() {
    let table = help_entries();
    let names: Vec<&str> = table.iter().map(|h| h.name).collect();
    let mut sorted = names.clone();
    sorted.sort();
    assert_eq!(names, sorted);
    assert_eq!(names.len(), 16);
    for h in table.iter() {
        assert!(command_of(h.name).is_some());
        assert_eq!(find_topic(&table, h.name), Some(*h));
        if let Some(aliases) = h.aliases {
            for alias in aliases.split(", ") {
                assert_eq!(command_of(alias), command_of(h.name));
            }
        }
        assert!(topic_help(h).contains(h.description));
    }
    assert_eq!(find_topic(&table, "nothing"), None);
}

#[test]
fn greeting_tells_of_late_assignments() {
    let mut s = se_started();
    assert_eq!(s.greeting_on(&se_day(2030, 1, 1)), None);
    se_run(&mut s, "add cs101 1-1-2025 hw1");
    se_run(&mut s, "add math 2-1-2025 sheet");
    assert_eq!(s.greeting_on(&se_day(2025, 1, 1)), None);
    let late = s.classes.late_on(&se_day(2025, 1, 2));
    assert_eq!(late.len(), 1);
    assert_eq!(
        s.greeting_on(&se_day(2025, 1, 2)),
        Some(format!("You have some late assignments!\n\n{}\n", late[0]))
    );
    let both = s.classes.late_on(&se_day(2025, 1, 3));
    assert_eq!(
        s.greeting_on(&se_day(2025, 1, 3)),
        Some(format!("You have some late assignments!\n\n{}\n{}\n", both[0], both[1]))
    );
    assert!(s.greeting().is_some());
}

#[test]
fn error_messages_name_the_offence() {
    let cases = [
        (Error::NotFound { subject: Subject::Class, name: se_text("x") }, "Class 'x' not found"),
        (
            Error::NotFound { subject: Subject::Command, name: se_text("x") },
            "Unrecognized command 'x'. Run 'help' for a list of commands.",
        ),
        (Error::NotFound { subject: Subject::Topic, name: se_text("x") }, "Command 'x' not found"),
        (Error::AlreadyExists { id: se_text("x") }, "Class ID 'x' already exists"),
        (Error::OutOfRange { index: 4, len: 3 }, "No assignment at index 4"),
        (Error::InvalidValue { quantity: Quantity::Period, text: se_text("abc") }, "Invalid period 'abc'"),
        (Error::InvalidValue { quantity: Quantity::Index, text: se_text("abc") }, "Invalid index 'abc'"),
        (Error::InvalidValue { quantity: Quantity::Hours, text: se_text("abc") }, "Invalid hours 'abc'"),
        (
            Error::InvalidValue { quantity: Quantity::Sorting, text: se_text("abc") },
            "Invalid sorting method 'abc'",
        ),
        (
            Error::InvalidFormat { text: se_text("x"), reason: se_text("input contains invalid characters") },
            "Failed to parse date 'x': input contains invalid characters",
        ),
        (
            Error::Malformed { text: se_text("x"), shape: se_text("id,name,period") },
            "Malformed entry 'x': expected id,name,period",
        ),
        (Error::UnknownProperty { name: se_text("id") }, "Invalid property 'id'"),
        (Error::MissingArguments { expected: 3, provided: 1 }, "Expected 3 arguments (1 provided)"),
        (Error::MissingArguments { expected: 1, provided: 0 }, "Expected 1 argument (0 provided)"),
        (Error::MissingArguments { expected: 0, provided: 0 }, "Expected 0 arguments (0 provided)"),
    ];
    for (e, text) in cases.iter() {
        assert_eq!(e.message(), *text);
    }
}

#[test]
fn create_class_under_uses_the_given_id() {
    let mut classes = Classes::new();
    let args = Args::read("create WHATEVER 3 Intro to CS");
    assert_eq!(
        create_class_under(&mut classes, &args, se_text("cs101")),
        Reply::Done(se_text("created class 'cs101'"))
    );
    assert_eq!(classes.entries.len(), 1);
    assert_eq!(classes.entries[0].id, "cs101");
    assert_eq!(classes.entries[0].name, "Intro to CS");
    assert_eq!(classes.entries[0].period, 3);
    assert_eq!(
        create_class_under(&mut classes, &args, se_text("cs101")),
        Reply::Failed(Error::AlreadyExists { id: se_text("cs101") })
    );
    assert_eq!(
        create_class_under(&mut classes, &Args::read("create x y Z"), se_text("x")),
        Reply::Failed(Error::InvalidValue { quantity: Quantity::Period, text: se_text("y") })
    );
    assert_eq!(
        create_class_under(&mut classes, &Args::read("create x 1"), se_text("x")),
        Reply::Failed(Error::MissingArguments { expected: 3, provided: 2 })
    );
    assert_eq!(classes.entries.len(), 1);
}

#[test]
fn add_assignment_due_uses_the_given_date() {
    let mut classes = Classes::new();
    classes.add_class_data(se_text("cs101"), se_text("Intro to CS"), 3);
    let args = Args::read("add cs101 whenever homework 1");
    let reply = add_assignment_due(&mut classes, &args, Ok(se_day(2025, 1, 1)));
    assert_eq!(reply, Reply::Show(classes.entries[0].display_info()));
    assert_eq!(classes.entries[0].assignments[0].name, "homework 1");
    assert_eq!(classes.entries[0].assignments[0].due_date, se_day(2025, 1, 1));
    let refused = Error::InvalidFormat { text: se_text("whenever"), reason: se_text("no date") };
    assert_eq!(
        add_assignment_due(&mut classes, &args, Err(Error::InvalidFormat { text: se_text("whenever"), reason: se_text("no date") })),
        Reply::Failed(refused)
    );
    assert_eq!(
        add_assignment_due(&mut classes, &Args::read("add nope x y"), Ok(se_day(2025, 1, 1))),
        Reply::Failed(Error::NotFound { subject: Subject::Class, name: se_text("nope") })
    );
    assert_eq!(
        add_assignment_due(&mut classes, &Args::read("add cs101 x"), Ok(se_day(2025, 1, 1))),
        Reply::Failed(Error::MissingArguments { expected: 3, provided: 2 })
    );
    assert_eq!(classes.entries[0].assignments.len(), 1);
}

#[test]
fn create_folds_ascii_capitals_of_the_id() {
    let mut s = Session::new(Classes::new());
    assert_eq!(se_run(&mut s, "create CS-101_b 3 Intro"), Reply::Done(se_text("created class 'cs-101_b'")));
    assert_eq!(s.classes.entries[0].id, "cs-101_b");
    match se_run(&mut s, "add cs-101_b 1-1-2025 hw") {
        Reply::Show(_) => {}
        other => panic!("{:?}", other),
    }
}
