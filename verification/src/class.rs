//! A class: its id, name and period, the assignments still to do, and the
//! names of those that are done. Stored as one comma-delimited line.

use crate::assignment::{
    assignment_views, date_complaint, decode_assignment, encode_assignment, Assignment,
    AssignmentView,
};
use crate::date::{earlier, is_calendar_date, today, Date, Ymd};
use crate::decimal::{decimal, numeral, parse_index, parse_usize};
use crate::error::{error_views, Error, ErrorView, Quantity};
use crate::text::{
    ascii_lower, first_visible, join, join_texts, leading_char, lower_ascii, same, split, split_on,
    texts, trim, trimmed,
};
use vstd::prelude::*;

verus! {

/// A course with its assignments.
#[derive(Debug, PartialEq, Eq)]
pub struct Class {
    pub id: String,
    pub name: String,
    pub period: usize,
    pub assignments: Vec<Assignment>,
    pub completed: Vec<String>,
}

/// A class as plain values.
pub struct ClassView {
    pub id: Seq<char>,
    pub name: Seq<char>,
    pub period: nat,
    pub assignments: Seq<AssignmentView>,
    pub completed: Seq<Seq<char>>,
}

impl View for Class {
    type V = ClassView;

    open spec fn view(&self) -> ClassView {
        ClassView {
            id: self.id@,
            name: self.name@,
            period: self.period as nat,
            assignments: assignment_views(self.assignments@),
            completed: texts(self.completed@),
        }
    }
}

/// The class without its assignment at position `index`, counted from 1, and
/// the name of that assignment. There must be such a position.
pub open spec fn removed(c: ClassView, index: usize) -> Result<(ClassView, Seq<char>), ErrorView> {
    if 1 <= index <= c.assignments.len() {
        Ok(
            (
                ClassView { assignments: c.assignments.remove(index - 1), ..c },
                c.assignments[index - 1].name,
            ),
        )
    } else {
        Err(ErrorView::OutOfRange { index, len: c.assignments.len() as usize })
    }
}

/// The class with its assignment at position `index`, counted from 1, moved
/// to the end of the completed names. There must be such a position.
pub open spec fn completed(c: ClassView, index: usize) -> Result<ClassView, ErrorView> {
    if 1 <= index <= c.assignments.len() {
        Ok(
            ClassView {
                assignments: c.assignments.remove(index - 1),
                completed: c.completed.push(c.assignments[index - 1].name),
                ..c
            },
        )
    } else {
        Err(ErrorView::OutOfRange { index, len: c.assignments.len() as usize })
    }
}

/// Completing an assignment is removing it and then appending its name to the
/// completed names: one assignment fewer, one completed name more. Where the
/// one fails, so does the other, with the same error.
pub proof fn lemma_complete_is_remove_then_append(c: ClassView, index: usize)
    ensures
        completed(c, index) == match removed(c, index) {
            Ok((rest, name)) => Ok::<ClassView, ErrorView>(
                ClassView { completed: rest.completed.push(name), ..rest },
            ),
            Err(e) => Err(e),
        },
        completed(c, index) matches Ok(done) ==> done.assignments.len() == c.assignments.len() - 1
            && done.completed.len() == c.completed.len() + 1,
{
}

/// A position that is 0 or beyond the last assignment is refused, by removal
/// and by completion alike.
pub proof fn lemma_position_out_of_range(c: ClassView, index: usize)
    requires
        index == 0 || index > c.assignments.len(),
    ensures
        removed(c, index) == Err::<(ClassView, Seq<char>), ErrorView>(
            ErrorView::OutOfRange { index, len: c.assignments.len() as usize },
        ),
        completed(c, index) == Err::<ClassView, ErrorView>(
            ErrorView::OutOfRange { index, len: c.assignments.len() as usize },
        ),
{
}

/// The class after a change of one property. The property's name is matched
/// without regard to the case of its letters: `name` takes any text, `period`
/// a number. No other property can be changed.
pub open spec fn modified(c: ClassView, property: Seq<char>, value: Seq<char>) -> Result<
    ClassView,
    ErrorView,
> {
    if ascii_lower(property) == "name"@ {
        Ok(ClassView { name: value, ..c })
    } else if ascii_lower(property) == "period"@ {
        match parse_index(value) {
            Some(n) => Ok(ClassView { period: n as nat, ..c }),
            None => Err(ErrorView::InvalidValue { quantity: Quantity::Period, text: value }),
        }
    } else {
        Err(ErrorView::UnknownProperty { name: property })
    }
}

/// The assignments that are due strictly before `today`, in their order.
pub open spec fn late_ones(assignments: Seq<AssignmentView>, today: Ymd) -> Seq<AssignmentView> {
    assignments.filter(|a: AssignmentView| earlier(a.due, today))
}

/// The names of the assignments that are due strictly before `today`, in
/// their order.
pub open spec fn late_names(assignments: Seq<AssignmentView>, today: Ymd) -> Seq<Seq<char>> {
    late_ones(assignments, today).map_values(|a: AssignmentView| a.name)
}

/// The late assignments are exactly those that are due before today; one
/// that is due today is not among them.
pub proof fn lemma_late_ones(assignments: Seq<AssignmentView>, today: Ymd)
    ensures
        forall|a: AssignmentView| #[trigger]
            late_ones(assignments, today).contains(a) <==> assignments.contains(a) && earlier(
                a.due,
                today,
            ),
        forall|a: AssignmentView|
            a.due == today ==> !(#[trigger] late_ones(assignments, today).contains(a)),
        late_names(assignments, today).len() == late_ones(assignments, today).len(),
{
    let pred = |a: AssignmentView| earlier(a.due, today);
    let kept = late_ones(assignments, today);
    assert forall|a: AssignmentView| #[trigger] kept.contains(a) implies assignments.contains(a)
        && earlier(a.due, today) by {
        let i = choose|i: int| 0 <= i < kept.len() && kept[i] == a;
        assignments.lemma_filter_pred(pred, i);
        assignments.lemma_filter_contains_rev(pred, a);
    }
    assert forall|a: AssignmentView| assignments.contains(a) && earlier(a.due, today) implies #[trigger]
        kept.contains(a) by {
        let k = choose|k: int| 0 <= k < assignments.len() && assignments[k] == a;
        assignments.lemma_filter_contains(pred, k);
    }
}


impl Clone for Class {
    fn clone(&self) -> (r: Self)
        ensures
            r@ == self@,
    {
        let mut assignments: Vec<Assignment> = Vec::new();
        let mut i: usize = 0;
        while i < self.assignments.len()
            invariant
                i <= self.assignments.len(),
                assignment_views(assignments@) == assignment_views(self.assignments@).take(
                    i as int,
                ),
            decreases self.assignments.len() - i,
        {
            let ghost before = assignment_views(assignments@);
            assignments.push(self.assignments[i].clone());
            proof {
                assert(assignment_views(assignments@) =~= before.push(self.assignments@[i as int]@));
                assert(assignment_views(assignments@) =~= assignment_views(
                    self.assignments@,
                ).take(i + 1));
            }
            i += 1;
        }
        let mut completed: Vec<String> = Vec::new();
        let mut j: usize = 0;
        while j < self.completed.len()
            invariant
                j <= self.completed.len(),
                texts(completed@) == texts(self.completed@).take(j as int),
            decreases self.completed.len() - j,
        {
            let ghost before = texts(completed@);
            completed.push(self.completed[j].clone());
            proof {
                assert(texts(completed@) =~= before.push(self.completed@[j as int]@));
                assert(texts(completed@) =~= texts(self.completed@).take(j + 1));
            }
            j += 1;
        }
        proof {
            assert(assignment_views(assignments@) =~= assignment_views(self.assignments@));
            assert(texts(completed@) =~= texts(self.completed@));
        }
        Class {
            id: self.id.clone(),
            name: self.name.clone(),
            period: self.period,
            assignments,
            completed,
        }
    }
}

impl Class {
    /// A class without assignments.
    pub fn new(id: String, name: String, period: usize) -> (c: Self)
        ensures
            c@ == (ClassView {
                id: id@,
                name: name@,
                period: period as nat,
                assignments: Seq::<AssignmentView>::empty(),
                completed: Seq::<Seq<char>>::empty(),
            }),
    {
        let c = Class { id, name, period, assignments: Vec::new(), completed: Vec::new() };
        proof {
            assert(assignment_views(c.assignments@) =~= Seq::<AssignmentView>::empty());
            assert(texts(c.completed@) =~= Seq::<Seq<char>>::empty());
        }
        c
    }

    /// Appends an assignment. Nothing is sorted, and a name may occur twice.
    pub fn add_assignment(&mut self, name: String, due_date: Date)
        ensures
            final(self)@ == (ClassView {
                assignments: old(self)@.assignments.push(
                    AssignmentView { name: name@, due: due_date@ },
                ),
                ..old(self)@
            }),
    {
        let ghost before = assignment_views(self.assignments@);
        self.assignments.push(Assignment::new(name, due_date));
        proof {
            assert(assignment_views(self.assignments@) =~= before.push(
                AssignmentView { name: name@, due: due_date@ },
            ));
        }
    }

    /// Removes the assignment at position `index`, counted from 1, and
    /// returns its name. Fails with `OutOfRange`, and changes nothing, where
    /// `index` is 0 or beyond the last assignment.
    pub fn remove_assignment(&mut self, index: usize) -> (r: Result<String, Error>)
        ensures
            match removed(old(self)@, index) {
                Ok((rest, name)) => r matches Ok(n) && n@ == name && final(self)@ == rest,
                Err(e) => r matches Err(x) && x@ == e && final(self)@ == old(self)@,
            },
    {
        if index >= 1 && index <= self.assignments.len() {
            let ghost before = assignment_views(self.assignments@);
            let gone = self.assignments.remove(index - 1);
            proof {
                assert(assignment_views(self.assignments@) =~= before.remove(index - 1));
            }
            Ok(gone.name)
        } else {
            Err(Error::OutOfRange { index, len: self.assignments.len() })
        }
    }

    /// Moves the assignment at position `index`, counted from 1, to the end
    /// of the completed names; its date is dropped. Fails with `OutOfRange`,
    /// and changes nothing, where `index` is 0 or beyond the last assignment.
    pub fn complete_assignment(&mut self, index: usize) -> (r: Result<(), Error>)
        ensures
            match completed(old(self)@, index) {
                Ok(done) => r is Ok && final(self)@ == done,
                Err(e) => r matches Err(x) && x@ == e && final(self)@ == old(self)@,
            },
    {
        match self.remove_assignment(index) {
            Ok(name) => {
                let ghost before = texts(self.completed@);
                self.completed.push(name);
                proof {
                    assert(texts(self.completed@) =~= before.push(name@));
                }
                Ok(())
            },
            Err(e) => Err(e),
        }
    }

    /// Forgets the completed names.
    pub fn clean(&mut self)
        ensures
            final(self)@ == (ClassView { completed: Seq::<Seq<char>>::empty(), ..old(self)@ }),
    {
        self.completed.clear();
        proof {
            assert(texts(self.completed@) =~= Seq::<Seq<char>>::empty());
        }
    }

    /// Changes the name or the period. The property is matched without regard
    /// to case. A period that is no number fails with `InvalidValue`, any
    /// other property with `UnknownProperty`; a failure changes nothing.
    pub fn modify(&mut self, property: String, value: String) -> (r: Result<(), Error>)
        ensures
            match modified(old(self)@, property@, value@) {
                Ok(changed) => r is Ok && final(self)@ == changed,
                Err(e) => r matches Err(x) && x@ == e && final(self)@ == old(self)@,
            },
    {
        let folded = lower_ascii(property.as_str());
        if same(folded.as_str(), "name") {
            self.name = value;
            Ok(())
        } else if same(folded.as_str(), "period") {
            match parse_usize(value.as_str()) {
                Some(n) => {
                    self.period = n;
                    Ok(())
                },
                None => Err(Error::InvalidValue { quantity: Quantity::Period, text: value }),
            }
        } else {
            Err(Error::UnknownProperty { name: property })
        }
    }

    /// The names of the assignments that are due strictly before `today`.
    pub fn late_on(&self, today: &Date) -> (names: Vec<String>)
        ensures
            texts(names@) == late_names(self@.assignments, today@),
    {
        let mut names: Vec<String> = Vec::new();
        let mut i: usize = 0;
        let ghost all = assignment_views(self.assignments@);
        let ghost pred = |a: AssignmentView| earlier(a.due, today@);
        let ghost name_of = |a: AssignmentView| a.name;
        proof {
            assert(all.take(0) =~= Seq::<AssignmentView>::empty());
            assert(all.take(0).filter(pred) =~= Seq::<AssignmentView>::empty()) by {
                reveal(Seq::filter);
            }
            assert(texts(names@) =~= all.take(0).filter(pred).map_values(name_of));
        }
        while i < self.assignments.len()
            invariant
                i <= self.assignments.len(),
                all == assignment_views(self.assignments@),
                pred == |a: AssignmentView| earlier(a.due, today@),
                name_of == |a: AssignmentView| a.name,
                texts(names@) == all.take(i as int).filter(pred).map_values(name_of),
            decreases self.assignments.len() - i,
        {
            let a = &self.assignments[i];
            let ghost before = texts(names@);
            proof {
                assert(all.take(i + 1) =~= all.take(i as int).push(a@));
                all.take(i as int).lemma_filter_push(a@, pred);
            }
            if a.due_date.before(today) {
                names.push(a.name.clone());
                proof {
                    assert(texts(names@) =~= before.push(a.name@));
                    assert(texts(names@) =~= all.take(i + 1).filter(pred).map_values(name_of));
                }
            }
            i += 1;
        }
        proof {
            assert(all.take(self.assignments@.len() as int) =~= all);
        }
        names
    }

    /// The names of the assignments that were due before today, by the local
    /// clock.
    pub fn late(&self) -> (names: Vec<String>)
        ensures
            exists|now: Ymd|
                is_calendar_date(now) && texts(names@) == #[trigger] late_names(
                    self@.assignments,
                    now,
                ),
    {
        let now = today();
        self.late_on(&now)
    }
}


/// The stored forms of a list of assignments.
pub open spec fn encoded_assignments(assignments: Seq<AssignmentView>) -> Seq<Seq<char>> {
    assignments.map_values(|a: AssignmentView| encode_assignment(a))
}

/// The fields of the line that stores a class: id, name and period, then the
/// assignments, then the completed names.
pub open spec fn class_fields(c: ClassView) -> Seq<Seq<char>> {
    seq![c.id, c.name, decimal(c.period)] + encoded_assignments(c.assignments) + c.completed
}

/// The line that stores a class: its fields with commas between them.
pub open spec fn encode_class(c: ClassView) -> Seq<char> {
    join(class_fields(c), seq![','])
}

/// A field stands for an assignment if its first character that is not white
/// space is `[`; any other field is a completed name.
pub open spec fn is_token(field: Seq<char>) -> bool {
    first_visible(field) == Some('[')
}

/// The assignments and the completed names that a run of fields holds, each
/// kind in the order of the fields. A field that stands for an assignment
/// is decoded without the white space at its ends; a completed name is taken
/// as it is. The first field that stands for an assignment and cannot be
/// decoded makes the whole run fail.
pub open spec fn decode_entries(fields: Seq<Seq<char>>, fallback: Ymd) -> Result<
    (Seq<AssignmentView>, Seq<Seq<char>>),
    ErrorView,
>
    decreases fields.len(),
{
    if fields.len() == 0 {
        Ok((Seq::<AssignmentView>::empty(), Seq::<Seq<char>>::empty()))
    } else {
        match decode_entries(fields.drop_last(), fallback) {
            Err(e) => Err(e),
            Ok((assignments, completed)) => if is_token(fields.last()) {
                match decode_assignment(trim(fields.last()), fallback) {
                    Ok(a) => Ok((assignments.push(a), completed)),
                    Err(e) => Err(e),
                }
            } else {
                Ok((assignments, completed.push(fields.last())))
            },
        }
    }
}

/// The complaints about the dates in a run of fields, in the order of the
/// fields.
pub open spec fn entry_complaints(fields: Seq<Seq<char>>) -> Seq<ErrorView>
    decreases fields.len(),
{
    if fields.len() == 0 {
        Seq::<ErrorView>::empty()
    } else {
        let rest = entry_complaints(fields.drop_last());
        if is_token(fields.last()) {
            match date_complaint(trim(fields.last())) {
                Some(e) => rest.push(e),
                None => rest,
            }
        } else {
            rest
        }
    }
}

/// The complaints about the dates in a stored line.
pub open spec fn class_complaints(line: Seq<char>) -> Seq<ErrorView> {
    let fields = split_on(line, ',');
    if fields.len() < 3 {
        Seq::<ErrorView>::empty()
    } else {
        entry_complaints(fields.skip(3))
    }
}

/// The shape that a stored class must have.
pub open spec fn line_shape() -> Seq<char> {
    "id,name,period"@
}

/// What a stored line denotes. The line is split at its commas. The first
/// three fields are the id, the name and the period, which must be a number;
/// the others are assignments and completed names.
pub open spec fn decode_class(line: Seq<char>, fallback: Ymd) -> Result<ClassView, ErrorView> {
    let fields = split_on(line, ',');
    if fields.len() < 3 {
        Err(ErrorView::Malformed { text: line, shape: line_shape() })
    } else {
        match parse_index(fields[2]) {
            None => Err(ErrorView::InvalidValue { quantity: Quantity::Period, text: fields[2] }),
            Some(period) => match decode_entries(fields.skip(3), fallback) {
                Err(e) => Err(e),
                Ok((assignments, completed)) => Ok(
                    ClassView {
                        id: fields[0],
                        name: fields[1],
                        period: period as nat,
                        assignments,
                        completed,
                    },
                ),
            },
        }
    }
}

/// A failure among the first fields is the failure of the whole run.
pub proof fn lemma_decode_entries_fails(fields: Seq<Seq<char>>, k: int, fallback: Ymd)
    requires
        0 <= k <= fields.len(),
        decode_entries(fields.take(k), fallback) is Err,
    ensures
        decode_entries(fields, fallback) == decode_entries(fields.take(k), fallback),
    decreases fields.len() - k,
{
    if k < fields.len() {
        assert(fields.take(k + 1).drop_last() =~= fields.take(k));
        lemma_decode_entries_fails(fields, k + 1, fallback);
    } else {
        assert(fields.take(k) =~= fields);
    }
}

/// The result of decoding a class, as plain values.
pub open spec fn decoded_class(r: Result<Class, Error>) -> Result<ClassView, ErrorView> {
    match r {
        Ok(c) => Ok(c@),
        Err(e) => Err(e@),
    }
}

impl Class {
    /// The line that stores this class. Names are written as they are.
    pub fn encode(&self) -> (out: String)
        ensures
            out@ == encode_class(self@),
    {
        let mut fields: Vec<String> = Vec::new();
        fields.push(self.id.clone());
        fields.push(self.name.clone());
        fields.push(numeral(self.period));
        let ghost head = seq![self@.id, self@.name, decimal(self@.period)];
        let ghost tokens = encoded_assignments(self@.assignments);
        proof {
            assert(texts(fields@) =~= head + tokens.take(0));
        }
        let mut i: usize = 0;
        while i < self.assignments.len()
            invariant
                i <= self.assignments.len(),
                head == seq![self@.id, self@.name, decimal(self@.period)],
                tokens == encoded_assignments(self@.assignments),
                texts(fields@) == head + tokens.take(i as int),
            decreases self.assignments.len() - i,
        {
            let ghost before = texts(fields@);
            fields.push(self.assignments[i].encode());
            proof {
                assert(texts(fields@) =~= before.push(encode_assignment(self.assignments@[i as int]@)));
                assert(tokens[i as int] == encode_assignment(self.assignments@[i as int]@));
                assert(texts(fields@) =~= head + tokens.take(i + 1));
            }
            i += 1;
        }
        proof {
            assert(tokens.take(tokens.len() as int) =~= tokens);
            assert(texts(fields@) =~= head + tokens + self@.completed.take(0));
        }
        let mut j: usize = 0;
        while j < self.completed.len()
            invariant
                j <= self.completed.len(),
                head == seq![self@.id, self@.name, decimal(self@.period)],
                tokens == encoded_assignments(self@.assignments),
                texts(fields@) == head + tokens + self@.completed.take(j as int),
            decreases self.completed.len() - j,
        {
            let ghost before = texts(fields@);
            fields.push(self.completed[j].clone());
            proof {
                assert(texts(fields@) =~= before.push(self.completed@[j as int]@));
                assert(texts(fields@) =~= head + tokens + self@.completed.take(j + 1));
            }
            j += 1;
        }
        proof {
            assert(self@.completed.take(self@.completed.len() as int) =~= self@.completed);
            reveal_strlit(",");
            assert(","@ =~= seq![',']);
        }
        join_texts(&fields, ",")
    }

    /// Decodes a stored line. An assignment whose date cannot be read is due
    /// on `fallback`, and the complaints about such dates come back beside
    /// the class. Fails with `Malformed` on a line of fewer than three fields
    /// or an assignment of the wrong shape, and with `InvalidValue` on a
    /// period that is no number.
    pub fn parse_noting_on(s: &str, fallback: Date) -> (r: Result<(Class, Vec<Error>), Error>)
        ensures
            match decode_class(s@, fallback@) {
                Ok(c) => r matches Ok((x, notes)) && x@ == c && error_views(notes@)
                    == class_complaints(s@),
                Err(e) => r matches Err(x) && x@ == e,
            },
    {
        let fields = split(s, ',');
        let ghost all = texts(fields@);
        if fields.len() < 3 {
            return Err(Error::Malformed { text: s.to_owned(), shape: "id,name,period".to_owned() });
        }
        proof {
            assert(all[0] == fields@[0]@);
            assert(all[1] == fields@[1]@);
            assert(all[2] == fields@[2]@);
        }
        let period = match parse_usize(fields[2].as_str()) {
            Some(n) => n,
            None => {
                return Err(
                    Error::InvalidValue { quantity: Quantity::Period, text: fields[2].clone() },
                );
            },
        };
        let ghost rest = all.skip(3);
        let mut assignments: Vec<Assignment> = Vec::new();
        let mut completed: Vec<String> = Vec::new();
        let mut notes: Vec<Error> = Vec::new();
        let mut i: usize = 3;
        proof {
            assert(rest.take(0) =~= Seq::<Seq<char>>::empty());
            assert(assignment_views(assignments@) =~= Seq::<AssignmentView>::empty());
            assert(texts(completed@) =~= Seq::<Seq<char>>::empty());
            assert(error_views(notes@) =~= Seq::<ErrorView>::empty());
        }
        while i < fields.len()
            invariant
                3 <= i <= fields.len(),
                all == texts(fields@),
                all == split_on(s@, ','),
                parse_index(all[2]) == Some(period),
                rest == all.skip(3),
                decode_entries(rest.take(i - 3), fallback@) == Ok::<
                    (Seq<AssignmentView>, Seq<Seq<char>>),
                    ErrorView,
                >((assignment_views(assignments@), texts(completed@))),
                error_views(notes@) == entry_complaints(rest.take(i - 3)),
            decreases fields.len() - i,
        {
            let field = &fields[i];
            proof {
                assert(rest.take(i - 3 + 1).drop_last() =~= rest.take(i - 3));
                assert(rest.take(i - 3 + 1).last() == field@);
            }
            let token = match leading_char(field.as_str()) {
                Some(c) => c == '[',
                None => false,
            };
            if token {
                match Assignment::parse_noting_on(trimmed(field.as_str()).as_str(), fallback) {
                    Ok((a, note)) => {
                        let ghost before = assignment_views(assignments@);
                        assignments.push(a);
                        proof {
                            assert(assignment_views(assignments@) =~= before.push(a@));
                        }
                        match note {
                            Some(e) => {
                                let ghost noted = error_views(notes@);
                                notes.push(e);
                                proof {
                                    assert(error_views(notes@) =~= noted.push(e@));
                                }
                            },
                            None => {},
                        }
                    },
                    Err(e) => {
                        proof {
                            lemma_decode_entries_fails(rest, i - 3 + 1, fallback@);
                        }
                        return Err(e);
                    },
                }
            } else {
                let ghost before = texts(completed@);
                completed.push(field.clone());
                proof {
                    assert(texts(completed@) =~= before.push(field@));
                }
            }
            i += 1;
        }
        proof {
            assert(rest.take(fields@.len() - 3) =~= rest);
        }
        Ok(
            (
                Class {
                    id: fields[0].clone(),
                    name: fields[1].clone(),
                    period,
                    assignments,
                    completed,
                },
                notes,
            ),
        )
    }

    /// Decodes a stored line; an assignment whose date cannot be read is due
    /// on `fallback`.
    pub fn parse_on(s: &str, fallback: Date) -> (r: Result<Class, Error>)
        ensures
            decoded_class(r) == decode_class(s@, fallback@),
    {
        match Class::parse_noting_on(s, fallback) {
            Ok((c, _)) => Ok(c),
            Err(e) => Err(e),
        }
    }

    /// Decodes a stored line. An assignment whose date cannot be read is due
    /// today, and the complaints about such dates come back beside the class.
    pub fn parse_noting(s: &str) -> (r: Result<(Class, Vec<Error>), Error>)
        ensures
            exists|fallback: Ymd|
                is_calendar_date(fallback) && match #[trigger] decode_class(s@, fallback) {
                    Ok(c) => r matches Ok((x, notes)) && x@ == c && error_views(notes@)
                        == class_complaints(s@),
                    Err(e) => r matches Err(x) && x@ == e,
                },
    {
        let now = today();
        Class::parse_noting_on(s, now)
    }

    /// Decodes a stored line; an assignment whose date cannot be read is due
    /// today.
    pub fn parse(s: &str) -> (r: Result<Class, Error>)
        ensures
            exists|fallback: Ymd|
                is_calendar_date(fallback) && decoded_class(r) == #[trigger] decode_class(
                    s@,
                    fallback,
                ),
    {
        let now = today();
        Class::parse_on(s, now)
    }
}

} // verus!
