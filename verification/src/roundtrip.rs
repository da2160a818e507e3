//! What can be stored and read back unchanged: the stored document does not
//! escape its delimiters, so names must keep clear of them.

use crate::assignment::{
    date_complaint, encode_assignment, lemma_decode_encode, AssignmentView,
};
use crate::class::{
    class_complaints, class_fields, decode_class, decode_entries, encode_class,
    encoded_assignments, entry_complaints, is_token, ClassView,
};
use crate::date::{day_month_year, is_calendar_date, lemma_day_month_year_chars, Ymd};
use crate::decimal::{decimal, is_digit, lemma_decimal, lemma_parse_decimal};
use crate::error::ErrorView;
use crate::text::{free_of, is_space, lemma_split_join, trim, trim_end, trim_start};
use vstd::prelude::*;

verus! {

/// A text that can stand in a field of a stored line: it holds neither a
/// comma nor a line break.
pub open spec fn storable_text(s: Seq<char>) -> bool {
    !s.contains(',') && !s.contains('\n')
}

/// An assignment that can be stored: its name is a storable text without
/// `;`, and its due date has a year from 0 to 9999.
pub open spec fn storable_assignment(a: AssignmentView) -> bool {
    &&& storable_text(a.name)
    &&& !a.name.contains(';')
    &&& is_calendar_date(a.due)
    &&& 0 <= a.due.year <= 9999
}

/// A class that can be stored: its texts are storable, its period fits a
/// machine integer, and no completed name looks like an assignment.
pub open spec fn storable_class(c: ClassView) -> bool {
    &&& storable_text(c.id)
    &&& storable_text(c.name)
    &&& c.period <= usize::MAX
    &&& forall|i: int| 0 <= i < c.assignments.len() ==> storable_assignment(#[trigger] c.assignments[i])
    &&& forall|i: int|
        0 <= i < c.completed.len() ==> storable_text(#[trigger] c.completed[i]) && !is_token(
            c.completed[i],
        )
}

/// The stored form of a storable assignment is a storable text, is taken for
/// an assignment when read, and has no white space at its ends.
pub proof fn lemma_token(a: AssignmentView)
    requires
        storable_assignment(a),
    ensures
        storable_text(encode_assignment(a)),
        is_token(encode_assignment(a)),
        trim(encode_assignment(a)) == encode_assignment(a),
{
    let t = encode_assignment(a);
    let date = day_month_year(a.due);
    lemma_day_month_year_chars(a.due);
    assert forall|i: int| 0 <= i < t.len() implies t[i] != ',' && t[i] != '\n' by {
        if 1 <= i < 1 + a.name.len() {
            assert(t[i] == a.name[i - 1]);
        } else if 2 + a.name.len() <= i < 2 + a.name.len() + date.len() {
            assert(t[i] == date[i - 2 - a.name.len()]);
        }
    }
    assert(t[0] == '[');
    assert(!is_space('['));
    assert(trim_start(t) == t);
    assert(t.last() == ']');
    assert(!is_space(']'));
    assert(trim_end(t) == t);
}

/// A run of stored assignments followed by completed names that do not look
/// like assignments is read back as those assignments and those names.
pub proof fn lemma_decode_entries(
    assignments: Seq<AssignmentView>,
    completed: Seq<Seq<char>>,
    fallback: Ymd,
)
    requires
        forall|i: int| 0 <= i < assignments.len() ==> storable_assignment(#[trigger] assignments[i]),
        forall|i: int| 0 <= i < completed.len() ==> !is_token(#[trigger] completed[i]),
    ensures
        decode_entries(encoded_assignments(assignments) + completed, fallback) == Ok::<
            (Seq<AssignmentView>, Seq<Seq<char>>),
            ErrorView,
        >((assignments, completed)),
    decreases completed.len(), assignments.len(),
{
    let fields = encoded_assignments(assignments) + completed;
    if completed.len() > 0 {
        lemma_decode_entries(assignments, completed.drop_last(), fallback);
        assert(fields.drop_last() =~= encoded_assignments(assignments) + completed.drop_last());
        assert(fields.last() == completed.last());
        assert(completed.drop_last().push(completed.last()) =~= completed);
    } else if assignments.len() > 0 {
        let a = assignments.last();
        lemma_decode_entries(assignments.drop_last(), completed, fallback);
        assert(fields.drop_last() =~= encoded_assignments(assignments.drop_last()) + completed);
        assert(fields.last() == encode_assignment(a));
        lemma_token(a);
        lemma_decode_encode(a, fallback);
        assert(assignments.drop_last().push(a) =~= assignments);
    } else {
        assert(fields =~= Seq::<Seq<char>>::empty());
        assert(assignments =~= Seq::<AssignmentView>::empty());
        assert(completed =~= Seq::<Seq<char>>::empty());
    }
}

/// There is no complaint about the date of a storable assignment as it is
/// stored.
pub proof fn lemma_no_date_complaint(a: AssignmentView)
    requires
        storable_assignment(a),
    ensures
        date_complaint(encode_assignment(a)) is None,
{
    let date = day_month_year(a.due);
    let token = encode_assignment(a);
    let inner = a.name + seq![';'] + date;
    assert(token.subrange(1, token.len() - 1) =~= inner);
    lemma_day_month_year_chars(a.due);
    crate::date::lemma_read_day_month_year(a.due);
    assert(!date.contains(';'));
    let parts = seq![a.name, date];
    assert(free_of(parts, ';'));
    assert(crate::text::join(parts.drop_last(), seq![';']) == a.name);
    assert(crate::text::join(parts, seq![';']) =~= inner);
    lemma_split_join(parts, ';');
}

/// There is no complaint about a run of stored storable assignments
/// followed by completed names that do not look like assignments.
pub proof fn lemma_no_entry_complaints(
    assignments: Seq<AssignmentView>,
    completed: Seq<Seq<char>>,
)
    requires
        forall|i: int| 0 <= i < assignments.len() ==> storable_assignment(#[trigger] assignments[i]),
        forall|i: int| 0 <= i < completed.len() ==> !is_token(#[trigger] completed[i]),
    ensures
        entry_complaints(encoded_assignments(assignments) + completed) == Seq::<ErrorView>::empty(),
    decreases completed.len(), assignments.len(),
{
    let fields = encoded_assignments(assignments) + completed;
    if completed.len() > 0 {
        lemma_no_entry_complaints(assignments, completed.drop_last());
        assert(fields.drop_last() =~= encoded_assignments(assignments) + completed.drop_last());
        assert(fields.last() == completed.last());
    } else if assignments.len() > 0 {
        let a = assignments.last();
        lemma_no_entry_complaints(assignments.drop_last(), completed);
        assert(fields.drop_last() =~= encoded_assignments(assignments.drop_last()) + completed);
        assert(fields.last() == encode_assignment(a));
        lemma_token(a);
        lemma_no_date_complaint(a);
    } else {
        assert(fields =~= Seq::<Seq<char>>::empty());
    }
}

/// There is no complaint about the stored line of a storable class.
pub proof fn lemma_no_class_complaints(c: ClassView)
    requires
        storable_class(c),
    ensures
        class_complaints(encode_class(c)) == Seq::<ErrorView>::empty(),
{
    let fields = class_fields(c);
    lemma_class_fields(c);
    lemma_split_join(fields, ',');
    assert(fields.skip(3) =~= encoded_assignments(c.assignments) + c.completed);
    lemma_no_entry_complaints(c.assignments, c.completed);
}

/// No field of the stored line of a storable class holds a comma or a line
/// break.
pub proof fn lemma_class_fields(c: ClassView)
    requires
        storable_class(c),
    ensures
        free_of(class_fields(c), ','),
        free_of(class_fields(c), '\n'),
        class_fields(c).len() == 3 + c.assignments.len() + c.completed.len(),
{
    let fields = class_fields(c);
    lemma_decimal(c.period);
    assert forall|i: int| 0 <= i < fields.len() implies storable_text(#[trigger] fields[i]) by {
        if i == 2 {
            let d = decimal(c.period);
            assert(fields[2] == d);
            if d.contains(',') {
                let k = choose|k: int| 0 <= k < d.len() && d[k] == ',';
                assert(is_digit(d[k]));
            }
            if d.contains('\n') {
                let k = choose|k: int| 0 <= k < d.len() && d[k] == '\n';
                assert(is_digit(d[k]));
            }
        } else if 3 <= i < 3 + c.assignments.len() {
            assert(fields[i] == encode_assignment(c.assignments[i - 3]));
            lemma_token(c.assignments[i - 3]);
        } else if i >= 3 + c.assignments.len() {
            assert(fields[i] == c.completed[i - 3 - c.assignments.len()]);
        }
    }
}

/// Decoding undoes encoding: a storable class comes back from its stored
/// line unchanged, whatever the fallback date is.
pub proof fn lemma_decode_encode_class(c: ClassView, fallback: Ymd)
    requires
        storable_class(c),
    ensures
        decode_class(encode_class(c), fallback) == Ok::<ClassView, ErrorView>(c),
{
    let fields = class_fields(c);
    lemma_class_fields(c);
    lemma_split_join(fields, ',');
    lemma_parse_decimal(c.period);
    assert(fields.skip(3) =~= encoded_assignments(c.assignments) + c.completed);
    lemma_decode_entries(c.assignments, c.completed, fallback);
}

} // verus!
