//! The session: what each command does to the store, and what is said in
//! reply. Reading the lines and writing the files is left to the caller.

use crate::assignment::{date_read, date_view, Assignment, AssignmentView};
use crate::class::{completed, modified, removed, Class, ClassView};
use crate::classes::{distinct_ids, has_id, lemma_position, position, Classes};
use crate::date::{is_calendar_date, today, Date, Ymd};
use crate::document::encode_document;
use crate::error::{Error, ErrorView, Quantity, Subject};
use crate::help::{
    find_topic, help_entries, help_table, overview, overview_text, topic, topic_help, topic_text,
};
use crate::indent::indented;
use crate::input::{as_number, to_int, Args, ArgsView};
use crate::klog::{filed_classes, log_text};
use crate::listing::{finished_lines, late_lines, lines_of, pending_lines, properties_of};
use crate::report::{class_info, lists_text};
use crate::sorting::{sorted_by, SortingMethod};
use crate::text::{ascii_lower, join, join_texts, lower_ascii, lower_case, lowercase, same, texts};
use vstd::prelude::*;
use vstd::string::StringExecFns;

verus! {

/// The commands.
#[derive(Clone, Copy, Debug, PartialEq, Eq, Structural)]
pub enum Command {
    Add,
    All,
    Clean,
    Complete,
    Create,
    Delete,
    Encode,
    Help,
    Info,
    Klog,
    List,
    Modify,
    Panic,
    Quit,
    Remove,
    Write,
}

/// What the caller is to do in reply to a command.
#[derive(Debug, PartialEq, Eq)]
pub enum Reply {
    /// Show this text.
    Show(String),
    /// Tell the user that this was done.
    Done(String),
    /// Tell the user of this error. Nothing was changed.
    Failed(Error),
    /// Write the store to its file now.
    Persist,
    /// Write `data` to the file at `path`, with the extension of a log.
    Export { path: String, data: String },
    /// End the session.
    Quit,
}

/// A reply as plain values.
pub enum ReplyView {
    Show(Seq<char>),
    Done(Seq<char>),
    Failed(ErrorView),
    Persist,
    Export { path: Seq<char>, data: Seq<char> },
    Quit,
}

impl View for Reply {
    type V = ReplyView;

    open spec fn view(&self) -> ReplyView {
        match *self {
            Reply::Show(text) => ReplyView::Show(text@),
            Reply::Done(text) => ReplyView::Done(text@),
            Reply::Failed(e) => ReplyView::Failed(e@),
            Reply::Persist => ReplyView::Persist,
            Reply::Export { path, data } => ReplyView::Export { path: path@, data: data@ },
            Reply::Quit => ReplyView::Quit,
        }
    }
}

/// A session: the store, whether it is to be written when the session ends,
/// and whether the session is still running.
#[derive(Debug, PartialEq, Eq)]
pub struct Session {
    pub classes: Classes,
    pub will_write: bool,
    pub running: bool,
}

/// A session as plain values.
pub struct SessionView {
    pub list: Seq<ClassView>,
    pub will_write: bool,
    pub running: bool,
}

impl View for Session {
    type V = SessionView;

    open spec fn view(&self) -> SessionView {
        SessionView {
            list: self.classes.list(),
            will_write: self.will_write,
            running: self.running,
        }
    }
}

/// The command that a word names, by its name or by an alias.
pub open spec fn command_named(name: Seq<char>) -> Option<Command> {
    if name == "add"@ || name == "a"@ {
        Some(Command::Add)
    } else if name == "all"@ {
        Some(Command::All)
    } else if name == "clean"@ {
        Some(Command::Clean)
    } else if name == "complete"@ || name == "c"@ {
        Some(Command::Complete)
    } else if name == "create"@ {
        Some(Command::Create)
    } else if name == "delete"@ {
        Some(Command::Delete)
    } else if name == "encode"@ {
        Some(Command::Encode)
    } else if name == "help"@ || name == "h"@ {
        Some(Command::Help)
    } else if name == "info"@ || name == "i"@ {
        Some(Command::Info)
    } else if name == "klog"@ {
        Some(Command::Klog)
    } else if name == "list"@ || name == "ls"@ || name == "l"@ {
        Some(Command::List)
    } else if name == "modify"@ || name == "mod"@ || name == "m"@ {
        Some(Command::Modify)
    } else if name == "panic"@ {
        Some(Command::Panic)
    } else if name == "quit"@ || name == "q"@ {
        Some(Command::Quit)
    } else if name == "remove"@ || name == "r"@ {
        Some(Command::Remove)
    } else if name == "write"@ || name == "w"@ {
        Some(Command::Write)
    } else {
        None
    }
}

/// The way of sorting that a word names, without regard to case.
pub open spec fn sorting_named(word: Seq<char>) -> Option<SortingMethod> {
    if ascii_lower(word) == "id"@ {
        Some(SortingMethod::ID)
    } else if ascii_lower(word) == "name"@ {
        Some(SortingMethod::Name)
    } else if ascii_lower(word) == "period"@ {
        Some(SortingMethod::Period)
    } else {
        None
    }
}

/// The class that a command is about: the one whose id is the first
/// argument. There must be at least `min` arguments, and such a class.
pub open spec fn target(list: Seq<ClassView>, a: Seq<Seq<char>>, min: usize) -> Result<
    int,
    ErrorView,
> {
    if a.len() < min {
        Err(ErrorView::MissingArguments { expected: min, provided: a.len() as usize })
    } else if !has_id(list, a[0]) {
        Err(ErrorView::NotFound { subject: Subject::Class, name: a[0] })
    } else {
        Ok(position(list, a[0]))
    }
}

/// The arguments from index `k` on, as one text.
pub open spec fn rest_from(a: Seq<Seq<char>>, k: int) -> Seq<char> {
    join(a.skip(k), seq![' '])
}

/// `add`, given what reading the date gave: a new assignment at the end of
/// the class, due on that date. Too few arguments and an unknown class are
/// reported before a date that cannot be read.
pub open spec fn add_reply_due(
    list: Seq<ClassView>,
    a: Seq<Seq<char>>,
    due: Result<Ymd, ErrorView>,
) -> (Seq<ClassView>, ReplyView) {
    match target(list, a, 3) {
        Err(e) => (list, ReplyView::Failed(e)),
        Ok(p) => match due {
            Err(e) => (list, ReplyView::Failed(e)),
            Ok(day) => {
                let c = ClassView {
                    assignments: list[p].assignments.push(
                        AssignmentView { name: rest_from(a, 2), due: day },
                    ),
                    ..list[p]
                };
                (list.update(p, c), ReplyView::Show(class_info(c)))
            },
        },
    }
}

/// `add <class> <date> <name...>`: a new assignment at the end of the class,
/// due on the date that the second argument denotes.
pub open spec fn add_reply(list: Seq<ClassView>, a: Seq<Seq<char>>) -> (Seq<ClassView>, ReplyView) {
    add_reply_due(list, a, date_read(a[1]))
}

/// `clean <class>`: the completed names of the class are forgotten.
pub open spec fn clean_reply(list: Seq<ClassView>, a: Seq<Seq<char>>) -> (
    Seq<ClassView>,
    ReplyView,
) {
    match target(list, a, 1) {
        Err(e) => (list, ReplyView::Failed(e)),
        Ok(p) => {
            let c = ClassView { completed: Seq::<Seq<char>>::empty(), ..list[p] };
            (list.update(p, c), ReplyView::Show(class_info(c)))
        },
    }
}

/// `complete <class> <index>`: the assignment moves to the completed names.
pub open spec fn complete_reply(list: Seq<ClassView>, a: Seq<Seq<char>>) -> (
    Seq<ClassView>,
    ReplyView,
) {
    match target(list, a, 2) {
        Err(e) => (list, ReplyView::Failed(e)),
        Ok(p) => match as_number(a[1], Quantity::Index) {
            Err(e) => (list, ReplyView::Failed(e)),
            Ok(n) => match completed(list[p], n) {
                Err(e) => (list, ReplyView::Failed(e)),
                Ok(c) => (list.update(p, c), ReplyView::Show(class_info(c))),
            },
        },
    }
}

/// `remove <class> <index>`: the assignment is dropped.
pub open spec fn remove_reply(list: Seq<ClassView>, a: Seq<Seq<char>>) -> (
    Seq<ClassView>,
    ReplyView,
) {
    match target(list, a, 2) {
        Err(e) => (list, ReplyView::Failed(e)),
        Ok(p) => match as_number(a[1], Quantity::Index) {
            Err(e) => (list, ReplyView::Failed(e)),
            Ok(n) => match removed(list[p], n) {
                Err(e) => (list, ReplyView::Failed(e)),
                Ok((c, _)) => (list.update(p, c), ReplyView::Show(class_info(c))),
            },
        },
    }
}

/// `modify <id> <property> <value...>`: the name or the period changes.
pub open spec fn modify_reply(list: Seq<ClassView>, a: Seq<Seq<char>>) -> (
    Seq<ClassView>,
    ReplyView,
) {
    match target(list, a, 3) {
        Err(e) => (list, ReplyView::Failed(e)),
        Ok(p) => match modified(list[p], a[1], rest_from(a, 2)) {
            Err(e) => (list, ReplyView::Failed(e)),
            Ok(c) => (list.update(p, c), ReplyView::Done("modified '"@ + c.name + "'"@)),
        },
    }
}

/// `create`, given the id that the class is to have: a new class of that
/// id, with the period and the name of the arguments. An id that is taken is
/// refused.
pub open spec fn create_reply_under(list: Seq<ClassView>, a: Seq<Seq<char>>, id: Seq<char>) -> (
    Seq<ClassView>,
    ReplyView,
) {
    if a.len() < 3 {
        (
            list,
            ReplyView::Failed(
                ErrorView::MissingArguments { expected: 3, provided: a.len() as usize },
            ),
        )
    } else if has_id(list, id) {
        (list, ReplyView::Failed(ErrorView::AlreadyExists { id }))
    } else {
        match as_number(a[1], Quantity::Period) {
            Err(e) => (list, ReplyView::Failed(e)),
            Ok(n) => (
                list.push(
                    ClassView {
                        id,
                        name: rest_from(a, 2),
                        period: n as nat,
                        assignments: Seq::empty(),
                        completed: Seq::empty(),
                    },
                ),
                ReplyView::Done("created class '"@ + id + "'"@),
            ),
        }
    }
}

/// `create <id> <period> <name...>`: a new class under the first argument in
/// lower case.
pub open spec fn create_reply(list: Seq<ClassView>, a: Seq<Seq<char>>) -> (
    Seq<ClassView>,
    ReplyView,
) {
    create_reply_under(list, a, lower_case(a[0]))
}

/// `delete <id>`: the class goes, with all that it holds.
pub open spec fn delete_reply(list: Seq<ClassView>, a: Seq<Seq<char>>) -> (
    Seq<ClassView>,
    ReplyView,
) {
    match target(list, a, 1) {
        Err(e) => (list, ReplyView::Failed(e)),
        Ok(p) => (list.remove(p), ReplyView::Done("deleted class '"@ + list[p].name + "'"@)),
    }
}

/// The assignments and the completed names of all classes, under their
/// headings.
pub open spec fn all_text(list: Seq<ClassView>) -> Seq<char> {
    lists_text(
        join(indented(pending_lines(sorted_by(list, SortingMethod::Period)), 2), seq!['\n']),
        join(indented(finished_lines(sorted_by(list, SortingMethod::Period)), 2), seq!['\n']),
    )
}

/// `help (<command>)`: what is known of one command, or of all.
pub open spec fn help_reply(a: Seq<Seq<char>>) -> ReplyView {
    if a.len() >= 1 {
        match topic(help_table(), a[0]) {
            Some(h) => ReplyView::Show(topic_text(h)),
            None => ReplyView::Failed(ErrorView::NotFound { subject: Subject::Topic, name: a[0] }),
        }
    } else {
        ReplyView::Show(overview_text(help_table()))
    }
}

/// `info (<id>)`: everything about one class, or the properties of all.
pub open spec fn info_reply(list: Seq<ClassView>, a: Seq<Seq<char>>) -> ReplyView {
    if a.len() >= 1 {
        if has_id(list, a[0]) {
            ReplyView::Show(class_info(list[position(list, a[0])]))
        } else {
            ReplyView::Failed(ErrorView::NotFound { subject: Subject::Class, name: a[0] })
        }
    } else {
        ReplyView::Show(join(properties_of(sorted_by(list, SortingMethod::Period)), "\n\n"@))
    }
}

/// `klog <avg> (<path>)`: the log, shown or written to a file.
pub open spec fn klog_reply(list: Seq<ClassView>, a: Seq<Seq<char>>) -> ReplyView {
    if a.len() < 1 {
        ReplyView::Failed(ErrorView::MissingArguments { expected: 1, provided: a.len() as usize })
    } else {
        match as_number(a[0], Quantity::Hours) {
            Err(e) => ReplyView::Failed(e),
            Ok(n) => {
                let data = log_text(filed_classes(sorted_by(list, SortingMethod::Period)), n);
                if a.len() >= 2 {
                    ReplyView::Export { path: a[1], data }
                } else {
                    ReplyView::Show(data)
                }
            },
        }
    }
}

/// `list (<sort>)`: the classes, sorted as asked, or by period.
pub open spec fn list_reply(list: Seq<ClassView>, a: Seq<Seq<char>>) -> ReplyView {
    if a.len() >= 1 {
        match sorting_named(a[0]) {
            Some(m) => ReplyView::Show(join(lines_of(sorted_by(list, m)), seq!['\n'])),
            None => ReplyView::Failed(
                ErrorView::InvalidValue { quantity: Quantity::Sorting, text: a[0] },
            ),
        }
    } else {
        ReplyView::Show(join(lines_of(sorted_by(list, SortingMethod::Period)), seq!['\n']))
    }
}

/// What is said after `panic`.
pub open spec fn panic_note() -> Seq<char> {
    "prevented write on shutdown. None of the changes made during this session will be saved.\nTo view the encoded version of the changes you've made, run 'encode'."@
}

/// What a command does to a running session, and the reply to it.
pub open spec fn respond(s: SessionView, a: ArgsView) -> (SessionView, ReplyView) {
    match command_named(a.command) {
        None => (
            s,
            ReplyView::Failed(ErrorView::NotFound { subject: Subject::Command, name: a.command }),
        ),
        Some(Command::Add) => with_list(s, add_reply(s.list, a.list)),
        Some(Command::All) => (s, ReplyView::Show(all_text(s.list))),
        Some(Command::Clean) => with_list(s, clean_reply(s.list, a.list)),
        Some(Command::Complete) => with_list(s, complete_reply(s.list, a.list)),
        Some(Command::Create) => with_list(s, create_reply(s.list, a.list)),
        Some(Command::Delete) => with_list(s, delete_reply(s.list, a.list)),
        Some(Command::Encode) => (s, ReplyView::Show(encode_document(s.list))),
        Some(Command::Help) => (s, help_reply(a.list)),
        Some(Command::Info) => (s, info_reply(s.list, a.list)),
        Some(Command::Klog) => (s, klog_reply(s.list, a.list)),
        Some(Command::List) => (s, list_reply(s.list, a.list)),
        Some(Command::Modify) => with_list(s, modify_reply(s.list, a.list)),
        Some(Command::Panic) => (
            SessionView { will_write: false, ..s },
            ReplyView::Done(panic_note()),
        ),
        Some(Command::Quit) => (SessionView { running: false, ..s }, ReplyView::Quit),
        Some(Command::Remove) => with_list(s, remove_reply(s.list, a.list)),
        Some(Command::Write) => (s, ReplyView::Persist),
    }
}

/// The session with another list of classes.
pub open spec fn with_list(s: SessionView, r: (Seq<ClassView>, ReplyView)) -> (
    SessionView,
    ReplyView,
) {
    (SessionView { list: r.0, ..s }, r.1)
}

/// What an event does to a session, and the reply to it. The end of the
/// input ends the session, as `quit` does. A session that has ended stays as
/// it is.
pub open spec fn next(s: SessionView, event: Option<ArgsView>) -> (SessionView, ReplyView) {
    if !s.running {
        (s, ReplyView::Quit)
    } else {
        match event {
            None => (SessionView { running: false, ..s }, ReplyView::Quit),
            Some(a) => respond(s, a),
        }
    }
}

/// What is said at the start about late assignments, if there are any.
pub open spec fn late_notice(list: Seq<ClassView>, today: Ymd) -> Option<Seq<char>> {
    let late = late_lines(sorted_by(list, SortingMethod::Period), today);
    if late.len() > 0 {
        Some("You have some late assignments!\n\n"@ + join(late, seq!['\n']) + "\n"@)
    } else {
        None
    }
}

/// A command that fails changes nothing: where the reply is an error, the
/// session is as it was.
pub proof fn lemma_failure_changes_nothing(s: SessionView, event: Option<ArgsView>)
    requires
        next(s, event).1 is Failed,
    ensures
        next(s, event).0 == s,
{
}

/// Once writing is disabled it stays disabled, and a session that has ended
/// does not start again.
pub proof fn lemma_flags_only_fall(s: SessionView, event: Option<ArgsView>)
    ensures
        next(s, event).0.will_write ==> s.will_write,
        next(s, event).0.running ==> s.running,
        !next(s, event).0.running <==> next(s, event).1 is Quit,
{
}

/// No command brings two classes of one id into the store.
pub proof fn lemma_ids_stay_distinct(s: SessionView, event: Option<ArgsView>)
    requires
        distinct_ids(s.list),
    ensures
        distinct_ids(next(s, event).0.list),
{
    let list = s.list;
    let after = next(s, event).0.list;
    if s.running && after != list {
        let a = event->0;
        let args = a.list;
        match command_named(a.command) {
            Some(Command::Create) => {
                lemma_position(list, lower_case(args[0]));
                assert forall|i: int, j: int| 0 <= i < j < after.len() implies (#[trigger] after[i]).id
                    != (#[trigger] after[j]).id by {
                    assert(after[i] == list[i]);
                    if j < list.len() {
                        assert(after[j] == list[j]);
                    }
                }
            },
            Some(Command::Delete) => {
                lemma_position(list, args[0]);
                crate::classes::lemma_remove(list, position(list, args[0]));
            },
            _ => {
                let p = position(list, args[0]);
                lemma_position(list, args[0]);
                lemma_update_keeps_ids(list, p, after[p]);
                assert(after =~= list.update(p, after[p]));
            },
        }
    }
}

/// Changing a class and keeping its id keeps the ids distinct.
pub proof fn lemma_update_keeps_ids(list: Seq<ClassView>, p: int, c: ClassView)
    requires
        distinct_ids(list),
        0 <= p < list.len(),
        c.id == list[p].id,
    ensures
        distinct_ids(list.update(p, c)),
{
    let after = list.update(p, c);
    assert forall|i: int, j: int| 0 <= i < j < after.len() implies (#[trigger] after[i]).id != (
    #[trigger] after[j]).id by {
        assert(after[i].id == list[i].id);
        assert(after[j].id == list[j].id);
    }
}


/// Finds the command that a word names.
pub fn command_of(name: &str) -> (r: Option<Command>)
    ensures
        r == command_named(name@),
{
    if same(name, "add") || same(name, "a") {
        Some(Command::Add)
    } else if same(name, "all") {
        Some(Command::All)
    } else if same(name, "clean") {
        Some(Command::Clean)
    } else if same(name, "complete") || same(name, "c") {
        Some(Command::Complete)
    } else if same(name, "create") {
        Some(Command::Create)
    } else if same(name, "delete") {
        Some(Command::Delete)
    } else if same(name, "encode") {
        Some(Command::Encode)
    } else if same(name, "help") || same(name, "h") {
        Some(Command::Help)
    } else if same(name, "info") || same(name, "i") {
        Some(Command::Info)
    } else if same(name, "klog") {
        Some(Command::Klog)
    } else if same(name, "list") || same(name, "ls") || same(name, "l") {
        Some(Command::List)
    } else if same(name, "modify") || same(name, "mod") || same(name, "m") {
        Some(Command::Modify)
    } else if same(name, "panic") {
        Some(Command::Panic)
    } else if same(name, "quit") || same(name, "q") {
        Some(Command::Quit)
    } else if same(name, "remove") || same(name, "r") {
        Some(Command::Remove)
    } else if same(name, "write") || same(name, "w") {
        Some(Command::Write)
    } else {
        None
    }
}

/// Finds the way of sorting that a word names.
pub fn sorting_of(word: &str) -> (r: Option<SortingMethod>)
    ensures
        r == sorting_named(word@),
{
    let folded = lower_ascii(word);
    if same(folded.as_str(), "id") {
        Some(SortingMethod::ID)
    } else if same(folded.as_str(), "name") {
        Some(SortingMethod::Name)
    } else if same(folded.as_str(), "period") {
        Some(SortingMethod::Period)
    } else {
        None
    }
}

/// The class that a command is about, to read or to change.
pub fn target_class<'a>(classes: &'a mut Classes, args: &Args, min: usize) -> (r: Result<
    &'a mut Class,
    Error,
>)
    requires
        min >= 1,
    ensures
        match target(old(classes).list(), args@.list, min) {
            Ok(p) => r matches Ok(c) && 0 <= p < old(classes).list().len() && c@ == old(
                classes,
            ).list()[p] && final(classes).list() == old(classes).list().update(p, final(c)@),
            Err(e) => r matches Err(x) && x@ == e && final(classes).list() == old(classes).list(),
        },
{
    match args.check(min, true) {
        Err(e) => {
            return Err(e);
        },
        Ok(_) => {},
    }
    proof {
        assert(texts(args.list@)[0] == args.list@[0]@);
        lemma_position(classes.list(), args.list@[0]@);
    }
    classes.get_class(args.list[0].as_str())
}

/// Does `add`, given what reading the date gave.
pub fn add_assignment_due(classes: &mut Classes, args: &Args, due: Result<Date, Error>) -> (r:
    Reply)
    requires
        old(classes).wf(),
    ensures
        final(classes).wf(),
        (final(classes).list(), r@) == add_reply_due(
            old(classes).list(),
            args@.list,
            date_view(due),
        ),
{
    let ghost list = classes.list();
    match target_class(classes, args, 3) {
        Err(e) => Reply::Failed(e),
        Ok(c) => {
            let ghost p = position(list, args@.list[0]);
            let ghost was = c@;
            match due {
                Err(e) => {
                    proof {
                        assert(list.update(p, was) =~= list);
                    }
                    Reply::Failed(e)
                },
                Ok(day) => {
                    c.add_assignment(args.input_from(2), day);
                    proof {
                        lemma_update_keeps_ids(list, p, c@);
                    }
                    Reply::Show(c.display_info())
                },
            }
        },
    }
}

/// Does `add`.
pub fn add_assignment(classes: &mut Classes, args: &Args) -> (r: Reply)
    requires
        old(classes).wf(),
    ensures
        final(classes).wf(),
        (final(classes).list(), r@) == add_reply(old(classes).list(), args@.list),
{
    match args.check(3, true) {
        Err(e) => {
            return Reply::Failed(e);
        },
        Ok(_) => {},
    }
    proof {
        assert(texts(args.list@)[1] == args.list@[1]@);
    }
    let due = Assignment::parse_date(args.list[1].as_str());
    add_assignment_due(classes, args, due)
}

/// Does `clean`.
pub fn clean_class(classes: &mut Classes, args: &Args) -> (r: Reply)
    requires
        old(classes).wf(),
    ensures
        final(classes).wf(),
        (final(classes).list(), r@) == clean_reply(old(classes).list(), args@.list),
{
    let ghost list = classes.list();
    match target_class(classes, args, 1) {
        Err(e) => Reply::Failed(e),
        Ok(c) => {
            let ghost p = position(list, args@.list[0]);
            c.clean();
            proof {
                lemma_update_keeps_ids(list, p, c@);
            }
            Reply::Show(c.display_info())
        },
    }
}

/// Does `complete`.
pub fn complete_assignment(classes: &mut Classes, args: &Args) -> (r: Reply)
    requires
        old(classes).wf(),
    ensures
        final(classes).wf(),
        (final(classes).list(), r@) == complete_reply(old(classes).list(), args@.list),
{
    let ghost list = classes.list();
    match target_class(classes, args, 2) {
        Err(e) => Reply::Failed(e),
        Ok(c) => {
            let ghost p = position(list, args@.list[0]);
            let ghost was = c@;
            proof {
                assert(texts(args.list@)[1] == args.list@[1]@);
                assert(list.update(p, was) =~= list);
            }
            match to_int(&args.list[1], Quantity::Index) {
                Err(e) => Reply::Failed(e),
                Ok(n) => match c.complete_assignment(n) {
                    Err(e) => Reply::Failed(e),
                    Ok(_) => {
                        proof {
                            lemma_update_keeps_ids(list, p, c@);
                        }
                        Reply::Show(c.display_info())
                    },
                },
            }
        },
    }
}

/// Does `remove`.
pub fn remove_assignment(classes: &mut Classes, args: &Args) -> (r: Reply)
    requires
        old(classes).wf(),
    ensures
        final(classes).wf(),
        (final(classes).list(), r@) == remove_reply(old(classes).list(), args@.list),
{
    let ghost list = classes.list();
    match target_class(classes, args, 2) {
        Err(e) => Reply::Failed(e),
        Ok(c) => {
            let ghost p = position(list, args@.list[0]);
            let ghost was = c@;
            proof {
                assert(texts(args.list@)[1] == args.list@[1]@);
                assert(list.update(p, was) =~= list);
            }
            match to_int(&args.list[1], Quantity::Index) {
                Err(e) => Reply::Failed(e),
                Ok(n) => match c.remove_assignment(n) {
                    Err(e) => Reply::Failed(e),
                    Ok(_) => {
                        proof {
                            lemma_update_keeps_ids(list, p, c@);
                        }
                        Reply::Show(c.display_info())
                    },
                },
            }
        },
    }
}

/// Does `modify`.
pub fn modify_class(classes: &mut Classes, args: &Args) -> (r: Reply)
    requires
        old(classes).wf(),
    ensures
        final(classes).wf(),
        (final(classes).list(), r@) == modify_reply(old(classes).list(), args@.list),
{
    let ghost list = classes.list();
    match target_class(classes, args, 3) {
        Err(e) => Reply::Failed(e),
        Ok(c) => {
            let ghost p = position(list, args@.list[0]);
            let ghost was = c@;
            proof {
                assert(texts(args.list@)[1] == args.list@[1]@);
                assert(list.update(p, was) =~= list);
            }
            match c.modify(args.list[1].clone(), args.input_from(2)) {
                Err(e) => Reply::Failed(e),
                Ok(_) => {
                    proof {
                        lemma_update_keeps_ids(list, p, c@);
                    }
                    let mut note = "modified '".to_owned();
                    note.append(c.name.as_str());
                    note.append("'");
                    Reply::Done(note)
                },
            }
        },
    }
}

/// Does `create`, given the id that the class is to have.
pub fn create_class_under(classes: &mut Classes, args: &Args, id: String) -> (r: Reply)
    requires
        old(classes).wf(),
    ensures
        final(classes).wf(),
        (final(classes).list(), r@) == create_reply_under(old(classes).list(), args@.list, id@),
{
    match args.check(3, true) {
        Err(e) => {
            return Reply::Failed(e);
        },
        Ok(_) => {},
    }
    proof {
        assert(texts(args.list@)[1] == args.list@[1]@);
    }
    if classes.contains(id.as_str()) {
        return Reply::Failed(Error::AlreadyExists { id });
    }
    match to_int(&args.list[1], Quantity::Period) {
        Err(e) => Reply::Failed(e),
        Ok(n) => {
            let mut note = "created class '".to_owned();
            note.append(id.as_str());
            note.append("'");
            classes.add_class_data(id, args.input_from(2), n);
            Reply::Done(note)
        },
    }
}

/// Does `create`.
pub fn create_class(classes: &mut Classes, args: &Args) -> (r: Reply)
    requires
        old(classes).wf(),
    ensures
        final(classes).wf(),
        (final(classes).list(), r@) == create_reply(old(classes).list(), args@.list),
{
    match args.check(3, true) {
        Err(e) => {
            return Reply::Failed(e);
        },
        Ok(_) => {},
    }
    proof {
        assert(texts(args.list@)[0] == args.list@[0]@);
    }
    let id = lowercase(args.list[0].as_str());
    create_class_under(classes, args, id)
}

/// Does `delete`.
pub fn delete_class(classes: &mut Classes, args: &Args) -> (r: Reply)
    requires
        old(classes).wf(),
    ensures
        final(classes).wf(),
        (final(classes).list(), r@) == delete_reply(old(classes).list(), args@.list),
{
    match args.check(1, true) {
        Err(e) => {
            return Reply::Failed(e);
        },
        Ok(_) => {},
    }
    proof {
        assert(texts(args.list@)[0] == args.list@[0]@);
    }
    match classes.remove_class(&args.list[0]) {
        Err(e) => Reply::Failed(e),
        Ok(c) => {
            let mut note = "deleted class '".to_owned();
            note.append(c.name.as_str());
            note.append("'");
            Reply::Done(note)
        },
    }
}

/// Does `help`.
pub fn show_help(args: &Args) -> (r: Reply)
    ensures
        r@ == help_reply(args@.list),
{
    let table = help_entries();
    if args.list.len() >= 1 {
        proof {
            assert(texts(args.list@)[0] == args.list@[0]@);
        }
        match find_topic(&table, args.list[0].as_str()) {
            Some(h) => Reply::Show(topic_help(&h)),
            None => Reply::Failed(
                Error::NotFound { subject: Subject::Topic, name: args.list[0].clone() },
            ),
        }
    } else {
        Reply::Show(overview(&table))
    }
}

/// Does `info`.
pub fn show_info(classes: &Classes, args: &Args) -> (r: Reply)
    ensures
        r@ == info_reply(classes.list(), args@.list),
{
    if args.list.len() >= 1 {
        proof {
            assert(texts(args.list@)[0] == args.list@[0]@);
        }
        match classes.find(args.list[0].as_str()) {
            Some(i) => Reply::Show(classes.entries[i].display_info()),
            None => Reply::Failed(
                Error::NotFound { subject: Subject::Class, name: args.list[0].clone() },
            ),
        }
    } else {
        Reply::Show(classes.display_all_info())
    }
}

/// Does `klog`.
pub fn show_klog(classes: &Classes, args: &Args) -> (r: Reply)
    ensures
        r@ == klog_reply(classes.list(), args@.list),
{
    match args.check(1, true) {
        Err(e) => {
            return Reply::Failed(e);
        },
        Ok(_) => {},
    }
    proof {
        assert(texts(args.list@)[0] == args.list@[0]@);
    }
    match to_int(&args.list[0], Quantity::Hours) {
        Err(e) => Reply::Failed(e),
        Ok(n) => {
            let data = classes.klog(n);
            if args.list.len() >= 2 {
                proof {
                    assert(texts(args.list@)[1] == args.list@[1]@);
                }
                Reply::Export { path: args.list[1].clone(), data }
            } else {
                Reply::Show(data)
            }
        },
    }
}

/// Does `list`.
pub fn show_list(classes: &Classes, args: &Args) -> (r: Reply)
    ensures
        r@ == list_reply(classes.list(), args@.list),
{
    if args.list.len() >= 1 {
        proof {
            assert(texts(args.list@)[0] == args.list@[0]@);
        }
        match sorting_of(args.list[0].as_str()) {
            Some(m) => Reply::Show(classes.display_list(m)),
            None => Reply::Failed(
                Error::InvalidValue { quantity: Quantity::Sorting, text: args.list[0].clone() },
            ),
        }
    } else {
        Reply::Show(classes.display_list(SortingMethod::Period))
    }
}

/// Takes one event of a session: a command with its arguments, or the end of
/// the input. Changes the session as the command says and returns what the
/// caller is to do in reply. A command that fails changes nothing.
pub fn handler(session: &mut Session, event: Option<&Args>) -> (r: Reply)
    requires
        old(session).classes.wf(),
    ensures
        final(session).classes.wf(),
        (final(session)@, r@) == next(
            old(session)@,
            match event {
                Some(a) => Some(a@),
                None => None,
            },
        ),
{
    if !session.running {
        return Reply::Quit;
    }
    let args = match event {
        None => {
            session.running = false;
            return Reply::Quit;
        },
        Some(a) => a,
    };
    match command_of(args.command.as_str()) {
        None => Reply::Failed(
            Error::NotFound { subject: Subject::Command, name: args.command.clone() },
        ),
        Some(Command::Add) => add_assignment(&mut session.classes, args),
        Some(Command::All) => Reply::Show(session.classes.display_all_combined()),
        Some(Command::Clean) => clean_class(&mut session.classes, args),
        Some(Command::Complete) => complete_assignment(&mut session.classes, args),
        Some(Command::Create) => create_class(&mut session.classes, args),
        Some(Command::Delete) => delete_class(&mut session.classes, args),
        Some(Command::Encode) => Reply::Show(session.classes.encode()),
        Some(Command::Help) => show_help(args),
        Some(Command::Info) => show_info(&session.classes, args),
        Some(Command::Klog) => show_klog(&session.classes, args),
        Some(Command::List) => show_list(&session.classes, args),
        Some(Command::Modify) => modify_class(&mut session.classes, args),
        Some(Command::Panic) => {
            session.will_write = false;
            Reply::Done(
                "prevented write on shutdown. None of the changes made during this session will be saved.\nTo view the encoded version of the changes you've made, run 'encode'.".to_owned(),
            )
        },
        Some(Command::Quit) => {
            session.running = false;
            Reply::Quit
        },
        Some(Command::Remove) => remove_assignment(&mut session.classes, args),
        Some(Command::Write) => Reply::Persist,
    }
}

impl Session {
    /// A running session on the given store. The store will be written when
    /// the session ends, unless `panic` is called.
    pub fn new(classes: Classes) -> (s: Session)
        ensures
            s@ == (SessionView { list: classes.list(), will_write: true, running: true }),
    {
        Session { classes, will_write: true, running: true }
    }

    /// What is said at the start about the assignments that were due before
    /// `today`.
    pub fn greeting_on(&self, today: &Date) -> (r: Option<String>)
        ensures
            match late_notice(self@.list, today@) {
                Some(text) => r matches Some(t) && t@ == text,
                None => r is None,
            },
    {
        let late = self.classes.late_on(today);
        if late.len() > 0 {
            let mut out = "You have some late assignments!\n\n".to_owned();
            out.append(join_texts(&late, "\n").as_str());
            out.append("\n");
            proof {
                reveal_strlit("\n");
                assert("\n"@ =~= seq!['\n']);
            }
            Some(out)
        } else {
            None
        }
    }

    /// What is said at the start about the assignments that were due before
    /// today, by the local clock.
    pub fn greeting(&self) -> (r: Option<String>)
        ensures
            exists|now: Ymd|
                is_calendar_date(now) && match #[trigger] late_notice(self@.list, now) {
                    Some(text) => r matches Some(t) && t@ == text,
                    None => r is None,
                },
    {
        let now = today();
        self.greeting_on(&now)
    }
}

} // verus!
