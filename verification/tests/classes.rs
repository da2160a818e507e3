use skid::class::Class;
use skid::classes::Classes;
use skid::date::Date;
use skid::error::{Error, Quantity, Subject};
use skid::klog::{file_entry, DateGroup};
use skid::sorting::SortingMethod;

fn st_day(year: i32, month: u32, day: u32) -> Date {
    Date::from_ymd(year, month, day).unwrap()
}

fn st_text(s: &str) -> String {
    String::from(s)
}

fn st_ids(v: &Vec<Class>) -> Vec<&str> {
    v.iter().map(|c| c.id.as_str()).collect()
}

fn st_sample() -> Classes {
    let mut s = Classes::new();
    s.add_class_data(st_text("math"), st_text("Calculus"), 2);
    s.add_class_data(st_text("cs101"), st_text("Intro to CS"), 10);
    s.add_class_data(st_text("art"), st_text("Drawing"), 1);
    s.get_class("math").unwrap().add_assignment(st_text("sheet 1"), st_day(2025, 1, 10));
    s.get_class("cs101").unwrap().add_assignment(st_text("hw1"), st_day(2025, 1, 1));
    s.get_class("cs101").unwrap().add_assignment(st_text("hw2"), st_day(2025, 1, 10));
    s.get_class("art").unwrap().add_assignment(st_text("sketch"), st_day(2025, 1, 1));
    s.get_class("art").unwrap().completed.push(st_text("colour wheel"));
    s
}

fn st_purple(s: &str) -> String {
    format!("\u{1b}[1;35m{}\u{1b}[0m", s)
}

#[test]
fn new_store_is_empty() {
    let s = Classes::new();
    assert!(s.entries.is_empty());
    assert!(s.is_well_formed());
    assert!(!s.contains("x"));
    assert_eq!(s.find("x"), None);
}

#[test]
fn add_class_inserts_by_id() {
    let mut s = Classes::new();
    s.add_class(Class::new(st_text("a"), st_text("A"), 1));
    s.add_class(Class::new(st_text("b"), st_text("B"), 2));
    assert_eq!(st_ids(&s.entries), vec!["a", "b"]);
    assert!(s.contains("a"));
    assert!(s.contains("b"));
    assert!(!s.contains("c"));
    assert_eq!(s.find("b"), Some(1));
    assert!(s.is_well_formed());
}

#[test]
fn add_class_overwrites_same_id() {
    let mut s = Classes::new();
    s.add_class_data(st_text("a"), st_text("A"), 1);
    s.add_class_data(st_text("b"), st_text("B"), 2);
    s.get_class("a").unwrap().add_assignment(st_text("x"), st_day(2025, 1, 1));
    s.add_class(Class::new(st_text("a"), st_text("Again"), 7));
    assert_eq!(st_ids(&s.entries), vec!["a", "b"]);
    assert_eq!(s.entries[0], Class::new(st_text("a"), st_text("Again"), 7));
    assert!(s.is_well_formed());
}

#[test]
fn is_well_formed_sees_double_ids() {
    let mut s = st_sample();
    assert!(s.is_well_formed());
    s.entries.push(Class::new(st_text("math"), st_text("Twice"), 0));
    assert!(!s.is_well_formed());
}

#[test]
fn get_class_finds_or_fails() {
    let mut s = st_sample();
    assert_eq!(s.get_class("cs101").unwrap().name, "Intro to CS");
    assert_eq!(
        s.get_class("CS101"),
        Err(Error::NotFound { subject: Subject::Class, name: st_text("CS101") })
    );
    assert_eq!(s.get_class(""), Err(Error::NotFound { subject: Subject::Class, name: st_text("") }));
    assert_eq!(s, st_sample());
}

#[test]
fn get_class_lets_the_class_change() {
    let mut s = st_sample();
    s.get_class("math").unwrap().name = st_text("Algebra");
    assert_eq!(s.entries[0].name, "Algebra");
    assert_eq!(st_ids(&s.entries), vec!["math", "cs101", "art"]);
}

#[test]
fn remove_class_takes_everything() {
    let mut s = st_sample();
    let gone = s.remove_class(&st_text("cs101")).unwrap();
    assert_eq!(gone.id, "cs101");
    assert_eq!(gone.assignments.len(), 2);
    assert_eq!(st_ids(&s.entries), vec!["math", "art"]);
    assert!(!s.contains("cs101"));
    assert_eq!(
        s.remove_class(&st_text("cs101")),
        Err(Error::NotFound { subject: Subject::Class, name: st_text("cs101") })
    );
    assert_eq!(st_ids(&s.entries), vec!["math", "art"]);
}

#[test]
fn sorted_by_period_is_by_text() {
    let s = st_sample();
    assert_eq!(st_ids(&s.sorted(SortingMethod::Period)), vec!["art", "cs101", "math"]);
    let mut two = Classes::new();
    two.add_class_data(st_text("b"), st_text("B"), 2);
    two.add_class_data(st_text("a"), st_text("A"), 10);
    assert_eq!(st_ids(&two.sorted(SortingMethod::Period)), vec!["a", "b"]);
}

#[test]
fn sorted_by_id_and_name() {
    let s = st_sample();
    assert_eq!(st_ids(&s.sorted(SortingMethod::ID)), vec!["art", "cs101", "math"]);
    assert_eq!(st_ids(&s.sorted(SortingMethod::Name)), vec!["math", "art", "cs101"]);
    assert_eq!(st_ids(&s.entries), vec!["math", "cs101", "art"]);
}

#[test]
fn sorted_is_stable_and_copies() {
    let mut s = Classes::new();
    for (id, period) in [("d", 5usize), ("c", 3), ("b", 5), ("a", 3), ("e", 5)] {
        s.add_class_data(st_text(id), st_text("same"), period);
    }
    assert_eq!(st_ids(&s.sorted(SortingMethod::Period)), vec!["c", "a", "d", "b", "e"]);
    assert_eq!(st_ids(&s.sorted(SortingMethod::Name)), vec!["d", "c", "b", "a", "e"]);
    let copies = s.sorted(SortingMethod::ID);
    assert_eq!(copies[0], s.entries[3]);
    assert_eq!(copies.len(), 5);
    assert!(Classes::new().sorted(SortingMethod::ID).is_empty());
}

#[test]
fn sorted_agrees_with_std_sort() {
    let mut s = Classes::new();
    let periods = [21usize, 3, 100, 20, 1, 3, 10, 2, 0, 11];
    for (i, p) in periods.iter().enumerate() {
        s.add_class_data(format!("c{}", i), format!("n{}", (i * 7) % 10), *p);
    }
    for (method, number) in [(SortingMethod::ID, 0), (SortingMethod::Name, 1), (SortingMethod::Period, 2)] {
        let mut want: Vec<Class> = s.entries.clone();
        want.sort_by_key(|c| match number {
            0 => c.id.clone(),
            1 => c.name.clone(),
            _ => c.period.to_string(),
        });
        assert_eq!(s.sorted(method), want);
    }
}

#[test]
fn attach_class_appends_id() {
    assert_eq!(
        Classes::attach_class(&st_text("entry"), &st_text("cs101")),
        format!("entry {}", st_purple("(cs101)"))
    );
    assert_eq!(Classes::attach_class_tag(&st_text("hw1"), &st_text("cs101")), "hw1 #cs101");
    let c = Class::new(st_text("m"), st_text("M"), 1);
    assert_eq!(
        Classes::attach_class_items(vec![st_text("a"), st_text("b")], &c),
        vec![format!("a {}", st_purple("(m)")), format!("b {}", st_purple("(m)"))]
    );
}

#[test]
fn late_on_goes_through_classes_by_period() {
    let s = st_sample();
    let line = |name: &str, id: &str| {
        format!("\u{1b}[1;30m-\u{1b}[0m \u{1b}[1;32m{}\u{1b}[0m {}", name, st_purple(format!("({})", id).as_str()))
    };
    assert_eq!(s.late_on(&st_day(2025, 1, 1)), Vec::<String>::new());
    assert_eq!(
        s.late_on(&st_day(2025, 1, 5)),
        vec![line("sketch", "art"), line("hw1", "cs101")]
    );
    assert_eq!(
        s.late_on(&st_day(2025, 1, 11)),
        vec![line("sketch", "art"), line("hw1", "cs101"), line("hw2", "cs101"), line("sheet 1", "math")]
    );
}

#[test]
fn store_late_uses_the_clock() {
    let mut s = Classes::new();
    s.add_class_data(st_text("a"), st_text("A"), 1);
    s.get_class("a").unwrap().add_assignment(st_text("old"), st_day(1500, 1, 1));
    s.get_class("a").unwrap().add_assignment(st_text("new"), st_day(9500, 1, 1));
    assert_eq!(s.late().len(), 1);
}

#[test]
fn all_assignments_and_completed_are_tagged() {
    let s = st_sample();
    let all = s.all_assignments();
    assert_eq!(all.len(), 4);
    assert!(all[0].contains("sketch") && all[0].ends_with(st_purple("(art)").as_str()));
    assert!(all[1].contains("hw1") && all[1].starts_with("\u{1b}[1;33m1\u{1b}[0m"));
    assert!(all[2].contains("hw2") && all[2].starts_with("\u{1b}[1;33m2\u{1b}[0m"));
    assert!(all[3].contains("sheet 1") && all[3].ends_with(st_purple("(math)").as_str()));
    assert_eq!(
        s.all_completed(),
        vec![format!("\u{1b}[1;30m-\u{1b}[0m \u{1b}[1;32mcolour wheel\u{1b}[0m {}", st_purple("(art)"))]
    );
}

#[test]
fn display_list_has_one_line_per_class() {
    let s = st_sample();
    let line = |id: &str, name: &str| format!("\u{1b}[34m{}\u{1b}[0m: \u{1b}[1;32m{}\u{1b}[0m", id, name);
    assert_eq!(
        s.display_list(SortingMethod::Period),
        format!("{}\n{}\n{}", line("art", "Drawing"), line("cs101", "Intro to CS"), line("math", "Calculus"))
    );
    assert_eq!(
        s.display_list(SortingMethod::Name),
        format!("{}\n{}\n{}", line("math", "Calculus"), line("art", "Drawing"), line("cs101", "Intro to CS"))
    );
    assert_eq!(Classes::new().display_list(SortingMethod::ID), "");
}

#[test]
fn display_all_info_separates_classes_by_empty_lines() {
    let s = st_sample();
    let blocks: Vec<String> = s.sorted(SortingMethod::Period).iter().map(|c| c.display_info_properties()).collect();
    assert_eq!(s.display_all_info(), blocks.join("\n\n"));
    assert_eq!(Classes::new().display_all_info(), "");
}

#[test]
fn display_all_combined_lists_everything() {
    let mut s = Classes::new();
    assert_eq!(
        s.display_all_combined(),
        "\u{1b}[34mAssignments\u{1b}[0m: None\n\n\u{1b}[34mCompleted\u{1b}[0m: None"
    );
    s.add_class_data(st_text("a"), st_text("A"), 1);
    s.get_class("a").unwrap().completed.push(st_text("done"));
    assert_eq!(
        s.display_all_combined(),
        format!(
            "\u{1b}[34mAssignments\u{1b}[0m: None\n\n\u{1b}[34mCompleted\u{1b}[0m: \n  \u{1b}[1;30m-\u{1b}[0m \u{1b}[1;32mdone\u{1b}[0m {}",
            st_purple("(a)")
        )
    );
}

#[test]
fn file_groups_by_date_in_order_of_first_use() {
    let mut groups: Vec<DateGroup> = Vec::new();
    file_entry(&mut groups, st_text("2025-02-01"), st_text("a"));
    file_entry(&mut groups, st_text("2025-01-01"), st_text("b"));
    file_entry(&mut groups, st_text("2025-02-01"), st_text("c"));
    assert_eq!(
        groups,
        vec![
            DateGroup { date: st_text("2025-02-01"), entries: vec![st_text("a"), st_text("c")] },
            DateGroup { date: st_text("2025-01-01"), entries: vec![st_text("b")] },
        ]
    );
}

#[test]
fn assignments_by_date_groups_across_classes() {
    let s = st_sample();
    assert_eq!(
        s.assignments_by_date(),
        vec![
            DateGroup {
                date: st_text("2025-01-01"),
                entries: vec![st_text("sketch #art"), st_text("hw1 #cs101")],
            },
            DateGroup {
                date: st_text("2025-01-10"),
                entries: vec![st_text("hw2 #cs101"), st_text("sheet 1 #math")],
            },
        ]
    );
    assert!(Classes::new().assignments_by_date().is_empty());
}

#[test]
fn klog_of_one_assignment() {
    let mut s = Classes::new();
    s.add_class_data(st_text("cs101"), st_text("Intro to CS"), 3);
    s.get_class("cs101").unwrap().add_assignment(st_text("hw1"), st_day(2025, 1, 1));
    assert_eq!(s.klog(2), "2025-01-01\n  2h hw1 #cs101");
}

#[test]
fn klog_separates_blocks_by_empty_lines() {
    let s = st_sample();
    assert_eq!(
        s.klog(10),
        "2025-01-01\n  10h sketch #art\n  10h hw1 #cs101\n\n2025-01-10\n  10h hw2 #cs101\n  10h sheet 1 #math"
    );
    assert_eq!(Classes::new().klog(1), "");
}

#[test]
fn document_encode_writes_one_line_per_class() {
    let s = st_sample();
    assert_eq!(
        s.encode(),
        "art,Drawing,1,[sketch;01-01-2025],colour wheel\ncs101,Intro to CS,10,[hw1;01-01-2025],[hw2;10-01-2025]\nmath,Calculus,2,[sheet 1;10-01-2025]"
    );
    assert_eq!(Classes::new().encode(), "");
}

#[test]
fn document_round_trip() {
    let s = st_sample();
    let back = Classes::parse_on(s.encode(), st_day(2000, 1, 1)).unwrap();
    assert!(back.is_well_formed());
    assert_eq!(back.entries.len(), s.entries.len());
    for c in s.entries.iter() {
        let i = back.find(c.id.as_str()).unwrap();
        assert_eq!(&back.entries[i], c);
    }
    assert_eq!(back.entries, s.sorted(SortingMethod::Period));
    assert_eq!(back.encode(), s.encode());
}

#[test]
fn empty_document_round_trip() {
    let s = Classes::new();
    assert_eq!(Classes::parse_on(s.encode(), st_day(2000, 1, 1)), Ok(Classes::new()));
}

#[test]
fn document_parse_drops_empty_lines() {
    let s = Classes::parse_on(st_text("\n\na,A,1\n\nb,B,2\n"), st_day(2000, 1, 1)).unwrap();
    assert_eq!(st_ids(&s.entries), vec!["a", "b"]);
}

#[test]
fn document_parse_lets_the_last_line_of_an_id_win() {
    let s = Classes::parse_on(st_text("a,First,1\nb,B,2\na,Second,3,done"), st_day(2000, 1, 1)).unwrap();
    assert_eq!(st_ids(&s.entries), vec!["a", "b"]);
    assert_eq!(s.entries[0].name, "Second");
    assert_eq!(s.entries[0].period, 3);
    assert_eq!(s.entries[0].completed, vec![st_text("done")]);
    assert!(s.is_well_formed());
}

#[test]
fn document_parse_fails_on_first_bad_line() {
    assert_eq!(
        Classes::parse_on(st_text("a,A,1\nbroken\nc,C,x"), st_day(2000, 1, 1)),
        Err(Error::Malformed { text: st_text("broken"), shape: st_text("id,name,period") })
    );
    assert_eq!(
        Classes::parse_on(st_text("a,A,1\nc,C,x\nbroken"), st_day(2000, 1, 1)),
        Err(Error::InvalidValue { quantity: Quantity::Period, text: st_text("x") })
    );
}

#[test]
fn document_parse_uses_today_for_bad_dates() {
    let s = Classes::parse(st_text("a,A,1,[x;01-01-2025],[y;bad]")).unwrap();
    assert_eq!(s.entries[0].assignments.len(), 2);
    assert_eq!(s.entries[0].assignments[0].due_date, st_day(2025, 1, 1));
}

#[test]
fn name_with_line_break_does_not_round_trip() {
    let mut s = Classes::new();
    s.add_class_data(st_text("a"), st_text("two\nlines"), 1);
    assert!(Classes::parse_on(s.encode(), st_day(2000, 1, 1)).is_err());
}

#[test]
fn name_with_comma_does_not_round_trip() {
    let mut s = Classes::new();
    s.add_class_data(st_text("a"), st_text("Data, Structures"), 1);
    assert_eq!(s.encode(), "a,Data, Structures,1");
    assert_eq!(
        Classes::parse_on(s.encode(), st_day(2000, 1, 1)),
        Err(Error::InvalidValue { quantity: Quantity::Period, text: st_text(" Structures") })
    );
}

#[test]
fn completed_name_with_leading_bracket_does_not_round_trip() {
    let mut s = Classes::new();
    s.add_class_data(st_text("a"), st_text("A"), 1);
    s.get_class("a").unwrap().completed.push(st_text("[draft]"));
    assert!(Classes::parse_on(s.encode(), st_day(2000, 1, 1)).is_err());
}

#[test]
fn year_beyond_four_digits_does_not_round_trip() {
    let mut s = Classes::new();
    s.add_class_data(st_text("a"), st_text("A"), 1);
    s.get_class("a").unwrap().add_assignment(st_text("far"), st_day(10000, 1, 1));
    let back = Classes::parse_on(s.encode(), st_day(2000, 1, 1)).unwrap();
    assert_eq!(back.entries[0].assignments[0].due_date, st_day(2000, 1, 1));
}

#[test]
fn assignments_by_date_keeps_order_of_first_occurrence() {
    let mut s = Classes::new();
    s.add_class_data(st_text("a"), st_text("A"), 1);
    s.get_class("a").unwrap().add_assignment(st_text("later"), st_day(2025, 6, 1));
    s.get_class("a").unwrap().add_assignment(st_text("sooner"), st_day(2025, 1, 1));
    s.get_class("a").unwrap().add_assignment(st_text("later too"), st_day(2025, 6, 1));
    assert_eq!(
        s.assignments_by_date(),
        vec![
            DateGroup {
                date: st_text("2025-06-01"),
                entries: vec![st_text("later #a"), st_text("later too #a")],
            },
            DateGroup { date: st_text("2025-01-01"), entries: vec![st_text("sooner #a")] },
        ]
    );
    assert_eq!(s.klog(1), "2025-06-01\n  1h later #a\n  1h later too #a\n\n2025-01-01\n  1h sooner #a");
}

#[test]
fn sorted_puts_earlier_class_first_among_equal_keys() {
    let mut s = Classes::new();
    s.add_class_data(st_text("z"), st_text("Same"), 4);
    s.add_class_data(st_text("y"), st_text("Same"), 4);
    s.add_class_data(st_text("x"), st_text("Same"), 4);
    assert_eq!(st_ids(&s.sorted(SortingMethod::Period)), vec!["z", "y", "x"]);
    assert_eq!(st_ids(&s.sorted(SortingMethod::Name)), vec!["z", "y", "x"]);
    assert_eq!(st_ids(&s.sorted(SortingMethod::ID)), vec!["x", "y", "z"]);
}

#[test]
fn document_parse_noting_on_gathers_complaints_over_lines() {
    let text = st_text("a,A,1,[x;bad]\n\nb,B,2,[y;1-1-2025]\nc,C,3,[z;worse],[w;worst]");
    let (store, notes) = Classes::parse_noting_on(text.clone(), st_day(2000, 1, 1)).unwrap();
    assert_eq!(Ok(store), Classes::parse_on(text, st_day(2000, 1, 1)));
    let texts: Vec<String> = notes
        .iter()
        .map(|e| match e {
            Error::InvalidFormat { text, .. } => text.clone(),
            other => panic!("{:?}", other),
        })
        .collect();
    assert_eq!(texts, vec![st_text("bad"), st_text("worse"), st_text("worst")]);
    for e in notes.iter() {
        assert!(e.message().starts_with("Failed to parse date '"));
    }
}

#[test]
fn document_parse_noting_has_no_complaint_about_what_was_encoded() {
    let s = st_sample();
    let (back, notes) = Classes::parse_noting(s.encode()).unwrap();
    assert!(notes.is_empty());
    assert_eq!(back.entries, s.sorted(SortingMethod::Period));
    assert_eq!(Classes::parse_noting(st_text("a,A,1,[x;bad]")).unwrap().1.len(), 1);
    assert!(Classes::parse_noting(st_text("a,A")).is_err());
}

#[test]
fn document_with_blank_after_comma_is_read() {
    let s = Classes::parse_on(st_text("a,A,1, [x;01-01-2025], done"), st_day(2000, 1, 1)).unwrap();
    assert_eq!(s.entries[0].assignments.len(), 1);
    assert_eq!(s.entries[0].assignments[0].name, "x");
    assert_eq!(s.entries[0].assignments[0].due_date, st_day(2025, 1, 1));
    assert_eq!(s.entries[0].completed, vec![st_text(" done")]);
}

#[test]
fn groups_have_distinct_days_and_hold_what_is_due_on_them() {
    let s = st_sample();
    let groups = s.assignments_by_date();
    for (i, g) in groups.iter().enumerate() {
        assert!(!g.entries.is_empty());
        for h in groups[i + 1..].iter() {
            assert_ne!(g.date, h.date);
        }
        let mut want: Vec<String> = Vec::new();
        for c in s.sorted(SortingMethod::Period).iter() {
            for a in c.assignments.iter() {
                if a.due_date.iso() == g.date {
                    want.push(format!("{} #{}", a.name, c.id));
                }
            }
        }
        assert_eq!(g.entries, want);
    }
    let total: usize = groups.iter().map(|g| g.entries.len()).sum();
    assert_eq!(total, 4);
}
