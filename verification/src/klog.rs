//! The assignments grouped by the day they are due, and their export as a
//! time-tracking log.

use crate::assignment::AssignmentView;
use crate::class::ClassView;
use crate::classes::{class_views, Classes};
use crate::date::iso_form;
use crate::decimal::{decimal, numeral};
use crate::indent::{indent_endl, indented};
use crate::listing::with_class_tag;
use crate::sorting::{sorted_by, SortingMethod};
use crate::text::{join, join_texts, same, texts};
use vstd::prelude::*;
use vstd::string::StringExecFns;

verus! {

/// The assignments that are due on one day.
#[derive(Debug, PartialEq, Eq)]
pub struct DateGroup {
    /// The day, as `YYYY-MM-DD`.
    pub date: String,
    /// The assignments, each with the tag of its class.
    pub entries: Vec<String>,
}

/// A group as plain values.
pub struct DateGroupView {
    pub date: Seq<char>,
    pub entries: Seq<Seq<char>>,
}

impl View for DateGroup {
    type V = DateGroupView;

    open spec fn view(&self) -> DateGroupView {
        DateGroupView { date: self.date@, entries: texts(self.entries@) }
    }
}

/// The views of a list of groups.
pub open spec fn group_views(v: Seq<DateGroup>) -> Seq<DateGroupView> {
    v.map_values(|g: DateGroup| g@)
}

/// The index of the first group of the given day; the length of the list if
/// there is none.
pub open spec fn group_position(groups: Seq<DateGroupView>, date: Seq<char>) -> int
    decreases groups.len(),
{
    if groups.len() == 0 {
        0
    } else if group_position(groups.drop_last(), date) < groups.len() - 1 {
        group_position(groups.drop_last(), date)
    } else if groups.last().date == date {
        groups.len() - 1
    } else {
        groups.len() as int
    }
}

/// The groups after an entry was filed under a day: at the end of that day's
/// group, or in a new group at the end of the list.
pub open spec fn filed(groups: Seq<DateGroupView>, date: Seq<char>, entry: Seq<char>) -> Seq<
    DateGroupView,
> {
    let p = group_position(groups, date);
    if p < groups.len() {
        groups.update(p, DateGroupView { date: groups[p].date, entries: groups[p].entries.push(entry) })
    } else {
        groups.push(DateGroupView { date, entries: seq![entry] })
    }
}

/// The groups after the assignments of one class were filed, in their order.
pub open spec fn filed_assignments(
    groups: Seq<DateGroupView>,
    assignments: Seq<AssignmentView>,
    id: Seq<char>,
) -> Seq<DateGroupView>
    decreases assignments.len(),
{
    if assignments.len() == 0 {
        groups
    } else {
        filed(
            filed_assignments(groups, assignments.drop_last(), id),
            iso_form(assignments.last().due),
            with_class_tag(assignments.last().name, id),
        )
    }
}

/// The groups that the assignments of the classes make, class after class. A
/// day's group stands where the day first occurred.
pub open spec fn filed_classes(classes: Seq<ClassView>) -> Seq<DateGroupView>
    decreases classes.len(),
{
    if classes.len() == 0 {
        Seq::<DateGroupView>::empty()
    } else {
        filed_assignments(
            filed_classes(classes.drop_last()),
            classes.last().assignments,
            classes.last().id,
        )
    }
}

/// The estimate of hours in front of every entry of the log.
pub open spec fn hours_text(avg: usize) -> Seq<char> {
    decimal(avg as nat) + "h"@
}

/// The entries of a group as lines of the log: the hours, a blank, the entry.
pub open spec fn log_lines(entries: Seq<Seq<char>>, avg: usize) -> Seq<Seq<char>> {
    entries.map_values(|e: Seq<char>| hours_text(avg) + " "@ + e)
}

/// The block of a group in the log: the day, and under it the entries,
/// indented by two blanks.
pub open spec fn log_block(g: DateGroupView, avg: usize) -> Seq<char> {
    g.date + "\n"@ + join(indented(log_lines(g.entries, avg), 2), seq!['\n'])
}

/// The blocks of the groups.
pub open spec fn log_blocks(groups: Seq<DateGroupView>, avg: usize) -> Seq<Seq<char>> {
    groups.map_values(|g: DateGroupView| log_block(g, avg))
}

/// The log: the blocks of the groups with an empty line between them.
pub open spec fn log_text(groups: Seq<DateGroupView>, avg: usize) -> Seq<char> {
    join(log_blocks(groups, avg), "\n\n"@)
}

/// The tagged names of the assignments of one class that are due on the day
/// written as `date`, in their order.
pub open spec fn tagged_due(assignments: Seq<AssignmentView>, id: Seq<char>, date: Seq<char>) -> Seq<
    Seq<char>,
> {
    assignments.filter(|a: AssignmentView| iso_form(a.due) == date).map_values(
        |a: AssignmentView| with_class_tag(a.name, id),
    )
}

/// The tagged names of all assignments that are due on the day written as
/// `date`: class after class, and within a class in the order of its
/// assignments.
pub open spec fn due_on(classes: Seq<ClassView>, date: Seq<char>) -> Seq<Seq<char>>
    decreases classes.len(),
{
    if classes.len() == 0 {
        Seq::<Seq<char>>::empty()
    } else {
        due_on(classes.drop_last(), date) + tagged_due(
            classes.last().assignments,
            classes.last().id,
            date,
        )
    }
}

/// No two groups are of the same day.
pub open spec fn distinct_days(groups: Seq<DateGroupView>) -> bool {
    forall|i: int, j: int|
        0 <= i < j < groups.len() ==> (#[trigger] groups[i]).date != (#[trigger] groups[j]).date
}

/// No group is empty.
pub open spec fn none_empty(groups: Seq<DateGroupView>) -> bool {
    forall|i: int| 0 <= i < groups.len() ==> (#[trigger] groups[i]).entries.len() > 0
}

/// The entries of the group of the given day; nothing if there is no such
/// group.
pub open spec fn entries_of(groups: Seq<DateGroupView>, date: Seq<char>) -> Seq<Seq<char>> {
    let p = group_position(groups, date);
    if p < groups.len() {
        groups[p].entries
    } else {
        Seq::<Seq<char>>::empty()
    }
}

/// What `group_position` finds: a group of that day with none of that day in
/// front of it, or nothing where no group is of that day.
pub proof fn lemma_group_position(groups: Seq<DateGroupView>, date: Seq<char>)
    ensures
        0 <= group_position(groups, date) <= groups.len(),
        group_position(groups, date) < groups.len() ==> groups[group_position(groups, date)].date
            == date,
        forall|k: int|
            0 <= k < group_position(groups, date) ==> (#[trigger] groups[k]).date != date,
    decreases groups.len(),
{
    if groups.len() > 0 {
        let front = groups.drop_last();
        lemma_group_position(front, date);
        assert forall|k: int| 0 <= k < group_position(groups, date) implies (#[trigger] groups[k]).date
            != date by {
            if k < front.len() {
                assert(front[k] == groups[k]);
            }
        }
    }
}

/// The position of a day depends on the days of the groups alone.
pub proof fn lemma_group_position_by_days(
    a: Seq<DateGroupView>,
    b: Seq<DateGroupView>,
    date: Seq<char>,
)
    requires
        a.len() == b.len(),
        forall|i: int| 0 <= i < a.len() ==> (#[trigger] a[i]).date == b[i].date,
    ensures
        group_position(a, date) == group_position(b, date),
    decreases a.len(),
{
    if a.len() > 0 {
        assert forall|i: int| 0 <= i < a.drop_last().len() implies (#[trigger] a.drop_last()[i]).date
            == b.drop_last()[i].date by {
            assert(a.drop_last()[i] == a[i]);
            assert(b.drop_last()[i] == b[i]);
        }
        lemma_group_position_by_days(a.drop_last(), b.drop_last(), date);
        assert(a[a.len() - 1].date == b[a.len() - 1].date);
    }
}

/// Filing an entry under a day adds it at the end of that day's entries and
/// leaves the entries of every other day as they were. The days stay
/// distinct, and no group is empty.
pub proof fn lemma_filed(groups: Seq<DateGroupView>, date: Seq<char>, entry: Seq<char>)
    requires
        distinct_days(groups),
        none_empty(groups),
    ensures
        distinct_days(filed(groups, date, entry)),
        none_empty(filed(groups, date, entry)),
        entries_of(filed(groups, date, entry), date) == entries_of(groups, date).push(entry),
        forall|d: Seq<char>|
            d != date ==> #[trigger] entries_of(filed(groups, date, entry), d) == entries_of(
                groups,
                d,
            ),
{
    let after = filed(groups, date, entry);
    let p = group_position(groups, date);
    lemma_group_position(groups, date);
    if p < groups.len() {
        assert forall|i: int| 0 <= i < after.len() implies (#[trigger] after[i]).date
            == groups[i].date by {}
        assert(distinct_days(after)) by {
            assert forall|i: int, j: int| 0 <= i < j < after.len() implies (#[trigger] after[i]).date
                != (#[trigger] after[j]).date by {
                assert(after[i].date == groups[i].date);
                assert(after[j].date == groups[j].date);
            }
        }
        assert(none_empty(after)) by {
            assert forall|i: int| 0 <= i < after.len() implies (#[trigger] after[i]).entries.len()
                > 0 by {
                if i != p {
                    assert(after[i] == groups[i]);
                }
            }
        }
        lemma_group_position_by_days(after, groups, date);
        assert forall|d: Seq<char>| d != date implies #[trigger] entries_of(after, d) == entries_of(
            groups,
            d,
        ) by {
            lemma_group_position_by_days(after, groups, d);
            lemma_group_position(groups, d);
            let q = group_position(groups, d);
            if q < groups.len() {
                assert(q != p);
                assert(after[q] == groups[q]);
            }
        }
    } else {
        assert(after.drop_last() =~= groups);
        assert(distinct_days(after)) by {
            assert forall|i: int, j: int| 0 <= i < j < after.len() implies (#[trigger] after[i]).date
                != (#[trigger] after[j]).date by {
                assert(after[i] == groups[i]);
                if j < groups.len() {
                    assert(after[j] == groups[j]);
                }
            }
        }
        assert(none_empty(after)) by {
            assert forall|i: int| 0 <= i < after.len() implies (#[trigger] after[i]).entries.len()
                > 0 by {
                if i < groups.len() {
                    assert(after[i] == groups[i]);
                }
            }
        }
        assert(entries_of(after, date) =~= entries_of(groups, date).push(entry));
        assert forall|d: Seq<char>| d != date implies #[trigger] entries_of(after, d) == entries_of(
            groups,
            d,
        ) by {
            lemma_group_position(groups, d);
            let q = group_position(groups, d);
            if q < groups.len() {
                assert(after[q] == groups[q]);
            }
        }
    }
}

/// Filing the assignments of a class adds, under every day, the tagged names
/// of the assignments due on that day, in their order.
pub proof fn lemma_filed_assignments(
    groups: Seq<DateGroupView>,
    assignments: Seq<AssignmentView>,
    id: Seq<char>,
)
    requires
        distinct_days(groups),
        none_empty(groups),
    ensures
        distinct_days(filed_assignments(groups, assignments, id)),
        none_empty(filed_assignments(groups, assignments, id)),
        forall|d: Seq<char>| #[trigger]
            entries_of(filed_assignments(groups, assignments, id), d) == entries_of(groups, d)
                + tagged_due(assignments, id, d),
    decreases assignments.len(),
{
    let after = filed_assignments(groups, assignments, id);
    if assignments.len() == 0 {
        assert forall|d: Seq<char>| #[trigger]
            entries_of(after, d) == entries_of(groups, d) + tagged_due(assignments, id, d) by {
            let pred = |a: AssignmentView| iso_form(a.due) == d;
            assert(assignments.filter(pred) =~= Seq::<AssignmentView>::empty()) by {
                reveal(Seq::filter);
            }
            assert(entries_of(groups, d) + tagged_due(assignments, id, d) =~= entries_of(groups, d));
        }
    } else {
        let front = assignments.drop_last();
        let a = assignments.last();
        let mid = filed_assignments(groups, front, id);
        lemma_filed_assignments(groups, front, id);
        let date = iso_form(a.due);
        let entry = with_class_tag(a.name, id);
        lemma_filed(mid, date, entry);
        assert forall|d: Seq<char>| #[trigger]
            entries_of(after, d) == entries_of(groups, d) + tagged_due(assignments, id, d) by {
            let pred = |x: AssignmentView| iso_form(x.due) == d;
            assert(front.push(a) =~= assignments);
            front.lemma_filter_push(a, pred);
            assert(entries_of(mid, d) == entries_of(groups, d) + tagged_due(front, id, d));
            if d == date {
                assert(tagged_due(assignments, id, d) =~= tagged_due(front, id, d).push(entry));
                assert(entries_of(after, d) =~= entries_of(groups, d) + tagged_due(
                    assignments,
                    id,
                    d,
                ));
            } else {
                assert(tagged_due(assignments, id, d) =~= tagged_due(front, id, d));
            }
        }
    }
}

/// The groups hold the assignments by their days: the entries of a day are
/// the tagged names of the assignments due on it, class after class.
pub proof fn lemma_filed_classes(classes: Seq<ClassView>)
    ensures
        distinct_days(filed_classes(classes)),
        none_empty(filed_classes(classes)),
        forall|d: Seq<char>| #[trigger] entries_of(filed_classes(classes), d) == due_on(classes, d),
    decreases classes.len(),
{
    if classes.len() == 0 {
    } else {
        lemma_filed_classes(classes.drop_last());
        lemma_filed_assignments(
            filed_classes(classes.drop_last()),
            classes.last().assignments,
            classes.last().id,
        );
    }
}

/// The days of the groups are distinct, and every group holds exactly the
/// tagged names of the assignments that are due on its day, in the order of
/// the classes and of their assignments; no group is empty.
pub proof fn lemma_groups(classes: Seq<ClassView>)
    ensures
        distinct_days(filed_classes(classes)),
        forall|i: int|
            0 <= i < filed_classes(classes).len() ==> (#[trigger] filed_classes(
                classes,
            )[i]).entries == due_on(classes, filed_classes(classes)[i].date) && filed_classes(
                classes,
            )[i].entries.len() > 0,
        forall|d: Seq<char>|
            group_position(filed_classes(classes), d) == filed_classes(classes).len() ==> (
            #[trigger] due_on(classes, d)).len() == 0,
{
    let g = filed_classes(classes);
    lemma_filed_classes(classes);
    assert forall|i: int| 0 <= i < g.len() implies (#[trigger] g[i]).entries == due_on(
        classes,
        g[i].date,
    ) && g[i].entries.len() > 0 by {
        lemma_group_position(g, g[i].date);
        let p = group_position(g, g[i].date);
        if p != i {
            assert(g[p].date == g[i].date);
        }
        assert(entries_of(g, g[i].date) == g[i].entries);
    }
    assert forall|d: Seq<char>| group_position(g, d) == g.len() implies (#[trigger] due_on(
        classes,
        d,
    )).len() == 0 by {
        assert(entries_of(g, d) == due_on(classes, d));
    }
}

/// The position found in a front part of a list is the position in the list.
pub proof fn lemma_group_position_prefix(groups: Seq<DateGroupView>, date: Seq<char>, k: int)
    requires
        0 <= k <= groups.len(),
        group_position(groups.take(k), date) < k,
    ensures
        group_position(groups, date) == group_position(groups.take(k), date),
    decreases groups.len() - k,
{
    if k < groups.len() {
        assert(groups.take(k + 1).drop_last() =~= groups.take(k));
        lemma_group_position_prefix(groups, date, k + 1);
    } else {
        assert(groups.take(k) =~= groups);
    }
}

/// Files an entry under a day.
pub fn file_entry(groups: &mut Vec<DateGroup>, date: String, entry: String)
    ensures
        group_views(final(groups)@) == filed(group_views(old(groups)@), date@, entry@),
{
    let ghost before = group_views(groups@);
    let mut k: usize = 0;
    proof {
        assert(before.take(0) =~= Seq::<DateGroupView>::empty());
    }
    while k < groups.len()
        invariant
            k <= groups.len(),
            before == group_views(groups@),
            groups@ == old(groups)@,
            group_position(before.take(k as int), date@) == k,
        decreases groups.len() - k,
    {
        proof {
            assert(before.take(k + 1).drop_last() =~= before.take(k as int));
            assert(before.take(k + 1).last() == groups@[k as int]@);
        }
        if same(groups[k].date.as_str(), date.as_str()) {
            proof {
                lemma_group_position_prefix(before, date@, k + 1);
            }
            let ghost was = groups@[k as int]@;
            groups[k].entries.push(entry);
            proof {
                assert(groups@[k as int]@.entries =~= was.entries.push(entry@));
                assert(group_views(groups@) =~= before.update(
                    k as int,
                    DateGroupView { date: was.date, entries: was.entries.push(entry@) },
                ));
            }
            return ;
        }
        k += 1;
    }
    proof {
        assert(before.take(groups@.len() as int) =~= before);
    }
    let mut entries: Vec<String> = Vec::new();
    entries.push(entry);
    groups.push(DateGroup { date, entries });
    proof {
        assert(texts(entries@) =~= seq![entry@]);
        assert(group_views(groups@) =~= before.push(
            DateGroupView { date: date@, entries: seq![entry@] },
        ));
    }
}

impl Classes {
    /// The assignments of all classes, grouped by the day they are due. The
    /// classes are taken in the order of their periods; the groups stand in
    /// the order in which their days first occur, not in that of the days.
    /// No two groups are of the same day, and a group holds exactly the
    /// assignments that are due on its day.
    pub fn assignments_by_date(&self) -> (groups: Vec<DateGroup>)
        ensures
            group_views(groups@) == filed_classes(sorted_by(self.list(), SortingMethod::Period)),
            distinct_days(group_views(groups@)),
            forall|i: int|
                0 <= i < groups.len() ==> (#[trigger] group_views(groups@)[i]).entries == due_on(
                    sorted_by(self.list(), SortingMethod::Period),
                    group_views(groups@)[i].date,
                ) && group_views(groups@)[i].entries.len() > 0,
    {
        proof {
            lemma_groups(sorted_by(self.list(), SortingMethod::Period));
        }
        let classes = self.sorted(SortingMethod::Period);
        let ghost all = class_views(classes@);
        let mut groups: Vec<DateGroup> = Vec::new();
        let mut i: usize = 0;
        proof {
            assert(all.take(0) =~= Seq::<ClassView>::empty());
            assert(group_views(groups@) =~= Seq::<DateGroupView>::empty());
        }
        while i < classes.len()
            invariant
                i <= classes.len(),
                all == class_views(classes@),
                group_views(groups@) == filed_classes(all.take(i as int)),
            decreases classes.len() - i,
        {
            let c = &classes[i];
            let ghost start = group_views(groups@);
            let ghost list = c@.assignments;
            let mut j: usize = 0;
            proof {
                assert(all.take(i + 1).drop_last() =~= all.take(i as int));
                assert(all.take(i + 1).last() == c@);
                assert(list.take(0) =~= Seq::<AssignmentView>::empty());
            }
            while j < c.assignments.len()
                invariant
                    j <= c.assignments.len(),
                    list == c@.assignments,
                    group_views(groups@) == filed_assignments(start, list.take(j as int), c@.id),
                decreases c.assignments.len() - j,
            {
                let a = &c.assignments[j];
                proof {
                    assert(list.take(j + 1).drop_last() =~= list.take(j as int));
                    assert(list.take(j + 1).last() == a@);
                }
                file_entry(&mut groups, a.due_date.iso(), Self::attach_class_tag(&a.name, &c.id));
                j += 1;
            }
            proof {
                assert(list.take(c.assignments@.len() as int) =~= list);
            }
            i += 1;
        }
        proof {
            assert(all.take(classes@.len() as int) =~= all);
        }
        groups
    }

    /// The log of all assignments, with `avg` hours set against every one of
    /// them.
    pub fn klog(&self, avg: usize) -> (out: String)
        ensures
            out@ == log_text(
                filed_classes(sorted_by(self.list(), SortingMethod::Period)),
                avg,
            ),
    {
        let groups = self.assignments_by_date();
        let mut hours = numeral(avg);
        hours.append("h");
        let mut blocks: Vec<String> = Vec::new();
        let mut i: usize = 0;
        while i < groups.len()
            invariant
                i <= groups.len(),
                hours@ == hours_text(avg),
                texts(blocks@) == log_blocks(group_views(groups@), avg).take(i as int),
            decreases groups.len() - i,
        {
            let g = &groups[i];
            let mut lines: Vec<String> = Vec::new();
            let mut j: usize = 0;
            while j < g.entries.len()
                invariant
                    j <= g.entries.len(),
                    hours@ == hours_text(avg),
                    texts(lines@) == log_lines(g@.entries, avg).take(j as int),
                decreases g.entries.len() - j,
            {
                let ghost before = texts(lines@);
                let mut line = hours.clone();
                line.append(" ");
                line.append(g.entries[j].as_str());
                lines.push(line);
                proof {
                    assert(texts(lines@) =~= before.push(line@));
                    assert(texts(lines@) =~= log_lines(g@.entries, avg).take(j + 1));
                }
                j += 1;
            }
            proof {
                assert(texts(lines@) =~= log_lines(g@.entries, avg));
            }
            let mut block = g.date.clone();
            block.append("\n");
            block.append(indent_endl(lines, 2).as_str());
            let ghost before = texts(blocks@);
            blocks.push(block);
            proof {
                assert(texts(blocks@) =~= before.push(log_block(g@, avg)));
                assert(texts(blocks@) =~= log_blocks(group_views(groups@), avg).take(i + 1));
            }
            i += 1;
        }
        proof {
            assert(texts(blocks@) =~= log_blocks(group_views(groups@), avg));
        }
        join_texts(&blocks, "\n\n")
    }
}

} // verus!
