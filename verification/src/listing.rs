//! Views over the whole store: what is late, what is to do, what is done.
//! The classes come in the order of their periods, and every entry names the
//! class that it belongs to.

use crate::class::{late_names, Class, ClassView};
use crate::classes::{class_views, Classes};
use crate::date::{is_calendar_date, today, Date, Ymd};
use crate::indent::{indent_endl, indented};
use crate::report::{
    class_line, class_properties, done_lines, lists_text, numbered_lines,
};
use crate::sorting::{sorted_by, SortingMethod};
use crate::style::{painted, Colour, Style};
use crate::text::{join, join_texts, texts};
use vstd::prelude::*;
use vstd::string::StringExecFns;

verus! {

/// An entry followed by the id of its class, in brackets and bold purple.
pub open spec fn with_class(entry: Seq<char>, id: Seq<char>) -> Seq<char> {
    entry + " "@ + painted(Style { colour: Colour::Purple, bold: true }, "("@ + id + ")"@)
}

/// An entry followed by the id of its class as a tag: `entry #id`.
pub open spec fn with_class_tag(entry: Seq<char>, id: Seq<char>) -> Seq<char> {
    entry + " #"@ + id
}

/// Every entry followed by the id of the class.
pub open spec fn all_with_class(entries: Seq<Seq<char>>, id: Seq<char>) -> Seq<Seq<char>> {
    entries.map_values(|e: Seq<char>| with_class(e, id))
}

/// The late assignments of the classes, class after class.
pub open spec fn late_lines(classes: Seq<ClassView>, today: Ymd) -> Seq<Seq<char>>
    decreases classes.len(),
{
    if classes.len() == 0 {
        Seq::<Seq<char>>::empty()
    } else {
        late_lines(classes.drop_last(), today) + all_with_class(
            done_lines(late_names(classes.last().assignments, today)),
            classes.last().id,
        )
    }
}

/// The assignments of the classes, class after class, numbered within each
/// class.
pub open spec fn pending_lines(classes: Seq<ClassView>) -> Seq<Seq<char>>
    decreases classes.len(),
{
    if classes.len() == 0 {
        Seq::<Seq<char>>::empty()
    } else {
        pending_lines(classes.drop_last()) + all_with_class(
            numbered_lines(classes.last().assignments),
            classes.last().id,
        )
    }
}

/// The completed names of the classes, class after class.
pub open spec fn finished_lines(classes: Seq<ClassView>) -> Seq<Seq<char>>
    decreases classes.len(),
{
    if classes.len() == 0 {
        Seq::<Seq<char>>::empty()
    } else {
        finished_lines(classes.drop_last()) + all_with_class(
            done_lines(classes.last().completed),
            classes.last().id,
        )
    }
}

/// The properties of each class.
pub open spec fn properties_of(classes: Seq<ClassView>) -> Seq<Seq<char>> {
    classes.map_values(|c: ClassView| class_properties(c))
}

/// The line of each class in a listing.
pub open spec fn lines_of(classes: Seq<ClassView>) -> Seq<Seq<char>> {
    classes.map_values(|c: ClassView| class_line(c))
}

impl Classes {
    /// An entry followed by the id of its class, in brackets.
    pub fn attach_class(s: &String, c: &String) -> (out: String)
        ensures
            out@ == with_class(s@, c@),
    {
        let mut tag = "(".to_owned();
        tag.append(c.as_str());
        tag.append(")");
        let mut out = s.clone();
        out.append(" ");
        out.append(Style::bold(Colour::Purple).paint(tag.as_str()).as_str());
        out
    }

    /// An entry followed by the id of its class as a tag.
    pub fn attach_class_tag(s: &String, c: &String) -> (out: String)
        ensures
            out@ == with_class_tag(s@, c@),
    {
        let mut out = s.clone();
        out.append(" #");
        out.append(c.as_str());
        out
    }

    /// Every entry followed by the id of the class.
    pub fn attach_class_items(v: Vec<String>, c: &Class) -> (out: Vec<String>)
        ensures
            texts(out@) == all_with_class(texts(v@), c@.id),
    {
        let mut out: Vec<String> = Vec::new();
        let mut i: usize = 0;
        while i < v.len()
            invariant
                i <= v.len(),
                texts(out@) == all_with_class(texts(v@), c@.id).take(i as int),
            decreases v.len() - i,
        {
            let ghost before = texts(out@);
            let line = Self::attach_class(&v[i], &c.id);
            out.push(line);
            proof {
                assert(texts(out@) =~= before.push(with_class(v@[i as int]@, c@.id)));
                assert(texts(out@) =~= all_with_class(texts(v@), c@.id).take(i + 1));
            }
            i += 1;
        }
        proof {
            assert(texts(out@) =~= all_with_class(texts(v@), c@.id));
        }
        out
    }

    /// The assignments that were due before `today`, over all classes.
    pub fn late_on(&self, today: &Date) -> (out: Vec<String>)
        ensures
            texts(out@) == late_lines(sorted_by(self.list(), SortingMethod::Period), today@),
    {
        let classes = self.sorted(SortingMethod::Period);
        let ghost all = class_views(classes@);
        let mut out: Vec<String> = Vec::new();
        let mut i: usize = 0;
        proof {
            assert(all.take(0) =~= Seq::<ClassView>::empty());
            assert(texts(out@) =~= Seq::<Seq<char>>::empty());
        }
        while i < classes.len()
            invariant
                i <= classes.len(),
                all == class_views(classes@),
                texts(out@) == late_lines(all.take(i as int), today@),
            decreases classes.len() - i,
        {
            let c = &classes[i];
            let ghost before = texts(out@);
            let mut items = Self::attach_class_items(Class::completed_list(&c.late_on(today)), c);
            let ghost added = texts(items@);
            out.append(&mut items);
            proof {
                assert(all.take(i + 1).drop_last() =~= all.take(i as int));
                assert(all.take(i + 1).last() == c@);
                assert(texts(out@) =~= before + added);
            }
            i += 1;
        }
        proof {
            assert(all.take(classes@.len() as int) =~= all);
        }
        out
    }

    /// The assignments that were due before today, by the local clock, over
    /// all classes.
    pub fn late(&self) -> (out: Vec<String>)
        ensures
            exists|now: Ymd|
                is_calendar_date(now) && texts(out@) == #[trigger] late_lines(
                    sorted_by(self.list(), SortingMethod::Period),
                    now,
                ),
    {
        let now = today();
        self.late_on(&now)
    }

    /// The assignments of all classes.
    pub fn all_assignments(&self) -> (out: Vec<String>)
        ensures
            texts(out@) == pending_lines(sorted_by(self.list(), SortingMethod::Period)),
    {
        let classes = self.sorted(SortingMethod::Period);
        let ghost all = class_views(classes@);
        let mut out: Vec<String> = Vec::new();
        let mut i: usize = 0;
        proof {
            assert(all.take(0) =~= Seq::<ClassView>::empty());
            assert(texts(out@) =~= Seq::<Seq<char>>::empty());
        }
        while i < classes.len()
            invariant
                i <= classes.len(),
                all == class_views(classes@),
                texts(out@) == pending_lines(all.take(i as int)),
            decreases classes.len() - i,
        {
            let c = &classes[i];
            let ghost before = texts(out@);
            let mut items = Self::attach_class_items(Class::assignment_list(&c.assignments), c);
            let ghost added = texts(items@);
            out.append(&mut items);
            proof {
                assert(all.take(i + 1).drop_last() =~= all.take(i as int));
                assert(all.take(i + 1).last() == c@);
                assert(texts(out@) =~= before + added);
            }
            i += 1;
        }
        proof {
            assert(all.take(classes@.len() as int) =~= all);
        }
        out
    }

    /// The completed names of all classes.
    pub fn all_completed(&self) -> (out: Vec<String>)
        ensures
            texts(out@) == finished_lines(sorted_by(self.list(), SortingMethod::Period)),
    {
        let classes = self.sorted(SortingMethod::Period);
        let ghost all = class_views(classes@);
        let mut out: Vec<String> = Vec::new();
        let mut i: usize = 0;
        proof {
            assert(all.take(0) =~= Seq::<ClassView>::empty());
            assert(texts(out@) =~= Seq::<Seq<char>>::empty());
        }
        while i < classes.len()
            invariant
                i <= classes.len(),
                all == class_views(classes@),
                texts(out@) == finished_lines(all.take(i as int)),
            decreases classes.len() - i,
        {
            let c = &classes[i];
            let ghost before = texts(out@);
            let mut items = Self::attach_class_items(Class::completed_list(&c.completed), c);
            let ghost added = texts(items@);
            out.append(&mut items);
            proof {
                assert(all.take(i + 1).drop_last() =~= all.take(i as int));
                assert(all.take(i + 1).last() == c@);
                assert(texts(out@) =~= before + added);
            }
            i += 1;
        }
        proof {
            assert(all.take(classes@.len() as int) =~= all);
        }
        out
    }

    /// The properties of every class, with an empty line between classes.
    pub fn display_all_info(&self) -> (out: String)
        ensures
            out@ == join(
                properties_of(sorted_by(self.list(), SortingMethod::Period)),
                "\n\n"@,
            ),
    {
        let classes = self.sorted(SortingMethod::Period);
        let mut blocks: Vec<String> = Vec::new();
        let mut i: usize = 0;
        while i < classes.len()
            invariant
                i <= classes.len(),
                texts(blocks@) == properties_of(class_views(classes@)).take(i as int),
            decreases classes.len() - i,
        {
            let ghost before = texts(blocks@);
            blocks.push(classes[i].display_info_properties());
            proof {
                assert(texts(blocks@) =~= before.push(class_properties(classes@[i as int]@)));
                assert(texts(blocks@) =~= properties_of(class_views(classes@)).take(i + 1));
            }
            i += 1;
        }
        proof {
            assert(texts(blocks@) =~= properties_of(class_views(classes@)));
        }
        join_texts(&blocks, "\n\n")
    }

    /// The assignments and the completed names of all classes, under their
    /// headings.
    pub fn display_all_combined(&self) -> (out: String)
        ensures
            out@ == lists_text(
                join(
                    indented(pending_lines(sorted_by(self.list(), SortingMethod::Period)), 2),
                    seq!['\n'],
                ),
                join(
                    indented(finished_lines(sorted_by(self.list(), SortingMethod::Period)), 2),
                    seq!['\n'],
                ),
            ),
    {
        let assignments = indent_endl(self.all_assignments(), 2);
        let completed = indent_endl(self.all_completed(), 2);
        Class::display_all_fmt(assignments, completed)
    }

    /// The classes, one to a line, sorted by the given method.
    pub fn display_list(&self, sort: SortingMethod) -> (out: String)
        ensures
            out@ == join(lines_of(sorted_by(self.list(), sort)), seq!['\n']),
    {
        let classes = self.sorted(sort);
        let mut lines: Vec<String> = Vec::new();
        let mut i: usize = 0;
        while i < classes.len()
            invariant
                i <= classes.len(),
                texts(lines@) == lines_of(class_views(classes@)).take(i as int),
            decreases classes.len() - i,
        {
            let ghost before = texts(lines@);
            lines.push(classes[i].display());
            proof {
                assert(texts(lines@) =~= before.push(class_line(classes@[i as int]@)));
                assert(texts(lines@) =~= lines_of(class_views(classes@)).take(i + 1));
            }
            i += 1;
        }
        proof {
            assert(texts(lines@) =~= lines_of(class_views(classes@)));
            reveal_strlit("\n");
            assert("\n"@ =~= seq!['\n']);
        }
        join_texts(&lines, "\n")
    }
}

} // verus!
