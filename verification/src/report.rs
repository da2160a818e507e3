//! How a class is shown on the terminal: coloured lines of text.

use crate::assignment::{assignment_line, assignment_views, Assignment, AssignmentView};
use crate::class::{Class, ClassView};
use crate::decimal::{decimal, numeral};
use crate::indent::{indent_endl, indented};
use crate::style::{painted, Colour, Style};
use crate::text::{join, join_texts, texts};
use vstd::prelude::*;
use vstd::string::StringExecFns;

verus! {

/// The number of bytes that a text takes in UTF-8, as a machine integer.
pub open spec fn byte_len(s: Seq<char>) -> usize {
    vstd::utf8::encode_utf8(s).len() as usize
}

/// The greatest `byte_len` among the names of the assignments; 0 if there
/// are none.
pub open spec fn widest_name(assignments: Seq<AssignmentView>) -> usize
    decreases assignments.len(),
{
    if assignments.len() == 0 {
        0
    } else {
        let rest = widest_name(assignments.drop_last());
        let last = byte_len(assignments.last().name);
        if last > rest {
            last
        } else {
            rest
        }
    }
}

/// The line of the assignment at index `i`: its position, counted from 1, in
/// bold yellow, a bold black `)`, a blank, and the assignment, with its date
/// set in the same column as those of the others.
pub open spec fn numbered_line(assignments: Seq<AssignmentView>, i: int) -> Seq<char> {
    painted(Style { colour: Colour::Yellow, bold: true }, decimal((i + 1) as nat)) + painted(
        Style { colour: Colour::Black, bold: true },
        ")"@,
    ) + " "@ + assignment_line(
        assignments[i],
        (widest_name(assignments) - byte_len(assignments[i].name)) as nat,
    )
}

/// One line for each assignment.
pub open spec fn numbered_lines(assignments: Seq<AssignmentView>) -> Seq<Seq<char>> {
    Seq::new(assignments.len(), |i: int| numbered_line(assignments, i))
}

/// The line of a completed name: a bold black hyphen, a blank, and the name
/// in bold green.
pub open spec fn done_line(name: Seq<char>) -> Seq<char> {
    painted(Style { colour: Colour::Black, bold: true }, "-"@) + " "@ + painted(
        Style { colour: Colour::Green, bold: true },
        name,
    )
}

/// One line for each completed name.
pub open spec fn done_lines(names: Seq<Seq<char>>) -> Seq<Seq<char>> {
    names.map_values(|n: Seq<char>| done_line(n))
}

/// A list under its heading: on a line of its own, or the word `None` if it
/// is empty.
pub open spec fn list_or_none(list: Seq<char>) -> Seq<char> {
    if list.len() > 0 {
        "\n"@ + list
    } else {
        "None"@
    }
}

/// A property and its value: the property in blue, a colon, and the value in
/// the given style.
pub open spec fn property_line(property: Seq<char>, value: Seq<char>, style: Style) -> Seq<char> {
    painted(Style { colour: Colour::Blue, bold: false }, property) + ": "@ + painted(style, value)
}

/// The two lists of a class under their headings.
pub open spec fn lists_text(assignments: Seq<char>, completed: Seq<char>) -> Seq<char> {
    painted(Style { colour: Colour::Blue, bold: false }, "Assignments"@) + ": "@ + list_or_none(
        assignments,
    ) + "\n\n"@ + painted(Style { colour: Colour::Blue, bold: false }, "Completed"@) + ": "@
        + list_or_none(completed)
}

/// The lists of a class, each entry indented by two blanks.
pub open spec fn class_lists(c: ClassView) -> Seq<char> {
    lists_text(
        join(indented(numbered_lines(c.assignments), 2), seq!['\n']),
        join(indented(done_lines(c.completed), 2), seq!['\n']),
    )
}

/// The name, id and period of a class, one to a line.
pub open spec fn class_properties(c: ClassView) -> Seq<char> {
    join(
        seq![
            property_line("Name"@, c.name, Style { colour: Colour::Green, bold: true }),
            property_line("ID"@, c.id, Style { colour: Colour::Green, bold: true }),
            property_line(
                "Period"@,
                decimal(c.period),
                Style { colour: Colour::Yellow, bold: true },
            ),
        ],
        seq!['\n'],
    )
}

/// Everything about a class: its properties, an empty line, and its lists.
pub open spec fn class_info(c: ClassView) -> Seq<char> {
    class_properties(c) + "\n\n"@ + class_lists(c)
}

/// The line of a class in a listing: its id as the property, its name as the
/// value.
pub open spec fn class_line(c: ClassView) -> Seq<char> {
    property_line(c.id, c.name, Style { colour: Colour::Green, bold: true })
}

impl Class {
    /// One line for each assignment, numbered from 1, the dates in one
    /// column.
    pub fn assignment_list(assignments: &Vec<Assignment>) -> (lines: Vec<String>)
        ensures
            texts(lines@) == numbered_lines(assignment_views(assignments@)),
    {
        let ghost all = assignment_views(assignments@);
        let mut len: usize = 0;
        let mut k: usize = 0;
        proof {
            assert(all.take(0) =~= Seq::<AssignmentView>::empty());
        }
        while k < assignments.len()
            invariant
                k <= assignments.len(),
                all == assignment_views(assignments@),
                len == widest_name(all.take(k as int)),
            decreases assignments.len() - k,
        {
            proof {
                assert(all.take(k + 1).drop_last() =~= all.take(k as int));
                assert(all.take(k + 1).last() == assignments@[k as int]@);
            }
            let n = assignments[k].name.as_str().len();
            if n > len {
                len = n;
            }
            k += 1;
        }
        proof {
            assert(all.take(assignments@.len() as int) =~= all);
        }
        let mut lines: Vec<String> = Vec::new();
        let mut i: usize = 0;
        while i < assignments.len()
            invariant
                i <= assignments.len(),
                all == assignment_views(assignments@),
                len == widest_name(all),
                texts(lines@) == numbered_lines(all).take(i as int),
            decreases assignments.len() - i,
        {
            let a = &assignments[i];
            let n = a.name.as_str().len();
            proof {
                lemma_widest_name(all, i as int);
            }
            let mut line = Style::bold(Colour::Yellow).paint(numeral(i + 1).as_str());
            line.append(Style::bold(Colour::Black).paint(")").as_str());
            line.append(" ");
            line.append(a.display(len - n).as_str());
            let ghost before = texts(lines@);
            lines.push(line);
            proof {
                assert(line@ =~= numbered_line(all, i as int));
                assert(texts(lines@) =~= before.push(line@));
                assert(texts(lines@) =~= numbered_lines(all).take(i + 1));
            }
            i += 1;
        }
        proof {
            assert(texts(lines@) =~= numbered_lines(all));
        }
        lines
    }

    /// One line for each completed name.
    pub fn completed_list(completed: &Vec<String>) -> (lines: Vec<String>)
        ensures
            texts(lines@) == done_lines(texts(completed@)),
    {
        let mut lines: Vec<String> = Vec::new();
        let mut i: usize = 0;
        while i < completed.len()
            invariant
                i <= completed.len(),
                texts(lines@) == done_lines(texts(completed@)).take(i as int),
            decreases completed.len() - i,
        {
            let mut line = Style::bold(Colour::Black).paint("-");
            line.append(" ");
            line.append(Style::bold(Colour::Green).paint(completed[i].as_str()).as_str());
            let ghost before = texts(lines@);
            lines.push(line);
            proof {
                assert(line@ =~= done_line(completed@[i as int]@));
                assert(texts(lines@) =~= before.push(line@));
                assert(texts(lines@) =~= done_lines(texts(completed@)).take(i + 1));
            }
            i += 1;
        }
        proof {
            assert(texts(lines@) =~= done_lines(texts(completed@)));
        }
        lines
    }

    /// The list on a line of its own, or the word `None` for an empty list.
    pub fn list_none(s: String) -> (out: String)
        ensures
            out@ == list_or_none(s@),
    {
        if !s.as_str().is_empty() {
            let mut out = "\n".to_owned();
            out.append(s.as_str());
            out
        } else {
            "None".to_owned()
        }
    }

    /// A property in blue, a colon, and its value in the given style.
    pub fn info_property(property: &str, value: &String, color: Style) -> (out: String)
        ensures
            out@ == property_line(property@, value@, color),
    {
        let mut out = Style::normal(Colour::Blue).paint(property);
        out.append(": ");
        out.append(color.paint(value.as_str()).as_str());
        out
    }

    /// A property with a value that is a text, in bold green.
    pub fn str_property(property: &str, value: &String) -> (out: String)
        ensures
            out@ == property_line(property@, value@, Style { colour: Colour::Green, bold: true }),
    {
        Self::info_property(property, value, Style::bold(Colour::Green))
    }

    /// A property with a value that is a number, in bold yellow.
    pub fn int_property(property: &str, value: &String) -> (out: String)
        ensures
            out@ == property_line(property@, value@, Style { colour: Colour::Yellow, bold: true }),
    {
        Self::info_property(property, value, Style::bold(Colour::Yellow))
    }

    /// The line of this class in a listing.
    pub fn display(&self) -> (out: String)
        ensures
            out@ == class_line(self@),
    {
        Self::str_property(self.id.as_str(), &self.name)
    }

    /// The two lists of a class under their headings.
    pub fn display_all_fmt(assignments: String, completed: String) -> (out: String)
        ensures
            out@ == lists_text(assignments@, completed@),
    {
        let mut out = Style::normal(Colour::Blue).paint("Assignments");
        out.append(": ");
        out.append(Self::list_none(assignments).as_str());
        out.append("\n\n");
        out.append(Style::normal(Colour::Blue).paint("Completed").as_str());
        out.append(": ");
        out.append(Self::list_none(completed).as_str());
        out
    }

    /// The assignments and the completed names of this class.
    pub fn display_all(&self) -> (out: String)
        ensures
            out@ == class_lists(self@),
    {
        let assignments = indent_endl(Self::assignment_list(&self.assignments), 2);
        let completed = indent_endl(Self::completed_list(&self.completed), 2);
        Self::display_all_fmt(assignments, completed)
    }

    /// The name, id and period of this class.
    pub fn display_info_properties(&self) -> (out: String)
        ensures
            out@ == class_properties(self@),
    {
        let mut lines: Vec<String> = Vec::new();
        lines.push(Self::str_property("Name", &self.name));
        lines.push(Self::str_property("ID", &self.id));
        lines.push(Self::int_property("Period", &numeral(self.period)));
        let out = join_texts(&lines, "\n");
        proof {
            reveal_strlit("\n");
            assert("\n"@ =~= seq!['\n']);
            assert(texts(lines@) =~= seq![
                property_line("Name"@, self@.name, Style { colour: Colour::Green, bold: true }),
                property_line("ID"@, self@.id, Style { colour: Colour::Green, bold: true }),
                property_line(
                    "Period"@,
                    decimal(self@.period),
                    Style { colour: Colour::Yellow, bold: true },
                ),
            ]);
        }
        out
    }

    /// Everything about this class.
    pub fn display_info(&self) -> (out: String)
        ensures
            out@ == class_info(self@),
    {
        let mut out = self.display_info_properties();
        out.append("\n\n");
        out.append(self.display_all().as_str());
        out
    }
}

/// No name is wider than the widest.
pub proof fn lemma_widest_name(assignments: Seq<AssignmentView>, i: int)
    requires
        0 <= i < assignments.len(),
    ensures
        byte_len(assignments[i].name) <= widest_name(assignments),
    decreases assignments.len(),
{
    if i < assignments.len() - 1 {
        lemma_widest_name(assignments.drop_last(), i);
    }
}

} // verus!
