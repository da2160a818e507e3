//! An assignment: a name and the day it is due, stored as `[name;DD-MM-YYYY]`.

use crate::date::{
    day_month_year, is_calendar_date, long_form, parse_day_month_year, parsed_view,
    read_day_month_year, today, Date, Ymd,
};
use crate::error::{note_view, Error, ErrorView};
use crate::style::{painted, Colour, Style};
use crate::text::{blanks, push_char, spaces, split, split_on, texts, to_chars};
use vstd::prelude::*;
use vstd::string::StringExecFns;

verus! {

/// A task with the day it is due.
#[derive(Debug, PartialEq, Eq)]
pub struct Assignment {
    pub name: String,
    pub due_date: Date,
}

/// An assignment as plain values.
pub struct AssignmentView {
    pub name: Seq<char>,
    pub due: Ymd,
}

impl View for Assignment {
    type V = AssignmentView;

    open spec fn view(&self) -> AssignmentView {
        AssignmentView { name: self.name@, due: self.due_date@ }
    }
}

impl Clone for Assignment {
    fn clone(&self) -> (r: Self)
        ensures
            r@ == self@,
    {
        Assignment { name: self.name.clone(), due_date: self.due_date }
    }
}

/// The views of a list of assignments.
pub open spec fn assignment_views(v: Seq<Assignment>) -> Seq<AssignmentView> {
    v.map_values(|a: Assignment| a@)
}

/// The stored form of an assignment: `[name;DD-MM-YYYY]`.
pub open spec fn encode_assignment(a: AssignmentView) -> Seq<char> {
    seq!['['] + a.name + seq![';'] + day_month_year(a.due) + seq![']']
}

/// The shape that a stored assignment must have.
pub open spec fn token_shape() -> Seq<char> {
    "[name;DD-MM-YYYY]"@
}

/// What a stored assignment denotes. The token must begin with `[` and end
/// with `]`, and hold exactly one `;` between them: the name is in front of
/// it, the date behind. Where the date cannot be read, the assignment is due
/// on `fallback`.
pub open spec fn decode_assignment(token: Seq<char>, fallback: Ymd) -> Result<
    AssignmentView,
    ErrorView,
> {
    if token.len() < 2 || token[0] != '[' || token.last() != ']' {
        Err(ErrorView::Malformed { text: token, shape: token_shape() })
    } else {
        let parts = split_on(token.subrange(1, token.len() - 1), ';');
        if parts.len() != 2 {
            Err(ErrorView::Malformed { text: token, shape: token_shape() })
        } else {
            Ok(AssignmentView { name: parts[0], due: due_or(read_day_month_year(parts[1]), fallback) })
        }
    }
}

/// The date that a text denotes, or the error `InvalidFormat` with the text
/// and the parser's complaint about it.
pub open spec fn date_read(text: Seq<char>) -> Result<Ymd, ErrorView> {
    match read_day_month_year(text) {
        Ok(d) => Ok(d),
        Err(complaint) => Err(ErrorView::InvalidFormat { text, reason: complaint }),
    }
}

/// What reading a date gave, as plain values.
pub open spec fn date_view(r: Result<Date, Error>) -> Result<Ymd, ErrorView> {
    match r {
        Ok(d) => Ok(d@),
        Err(e) => Err(e@),
    }
}

/// The complaint about the date of a stored assignment: where the token
/// has its shape but the date cannot be read, the date parser's complaint
/// about the text of the date. Nothing in any other case.
pub open spec fn date_complaint(token: Seq<char>) -> Option<ErrorView> {
    if token.len() < 2 || token[0] != '[' || token.last() != ']' {
        None
    } else {
        let parts = split_on(token.subrange(1, token.len() - 1), ';');
        if parts.len() != 2 {
            None
        } else {
            unread_date(parts[1], read_day_month_year(parts[1]))
        }
    }
}

/// The complaint that a text is no date, if the parser refused it.
pub open spec fn unread_date(text: Seq<char>, parsed: Result<Ymd, Seq<char>>) -> Option<ErrorView> {
    match parsed {
        Ok(_) => None,
        Err(complaint) => Some(ErrorView::InvalidFormat { text, reason: complaint }),
    }
}

/// The day that an assignment is due, given what the parser made of its
/// date: that day, or `fallback` if the parser refused.
pub open spec fn due_or(parsed: Result<Ymd, Seq<char>>, fallback: Ymd) -> Ymd {
    match parsed {
        Ok(d) => d,
        Err(_) => fallback,
    }
}

/// Decoding undoes encoding: an assignment whose name holds no `;` and whose
/// due date has a year from 0 to 9999 comes back from its stored form
/// unchanged, whatever the fallback date is.
pub proof fn lemma_decode_encode(a: AssignmentView, fallback: Ymd)
    requires
        !a.name.contains(';'),
        is_calendar_date(a.due),
        0 <= a.due.year <= 9999,
    ensures
        decode_assignment(encode_assignment(a), fallback) == Ok::<AssignmentView, ErrorView>(a),
{
    let date = day_month_year(a.due);
    let token = encode_assignment(a);
    let inner = a.name + seq![';'] + date;
    assert(token.subrange(1, token.len() - 1) =~= inner);
    crate::date::lemma_day_month_year_chars(a.due);
    crate::date::lemma_read_day_month_year(a.due);
    assert(!date.contains(';'));
    let parts = seq![a.name, date];
    assert(crate::text::free_of(parts, ';'));
    assert(crate::text::join(parts.drop_last(), seq![';']) == a.name);
    assert(crate::text::join(parts, seq![';']) =~= inner);
    crate::text::lemma_split_join(parts, ';');
}

/// The line that shows an assignment: its name in bold green, `gap + 1`
/// blanks, a hyphen, and the due date in green.
pub open spec fn assignment_line(a: AssignmentView, gap: nat) -> Seq<char> {
    painted(Style { colour: Colour::Green, bold: true }, a.name) + blanks(gap + 1) + seq![
        '-',
        ' ',
    ] + painted(Style { colour: Colour::Green, bold: false }, long_form(a.due))
}

/// The result of a decoding, as plain values.
pub open spec fn decoded_view(r: Result<Assignment, Error>) -> Result<AssignmentView, ErrorView> {
    match r {
        Ok(a) => Ok(a@),
        Err(e) => Err(e@),
    }
}

impl Assignment {
    /// An assignment of the given name, due on the given day.
    pub fn new(name: String, due_date: Date) -> (a: Self)
        ensures
            a@ == (AssignmentView { name: name@, due: due_date@ }),
    {
        Assignment { name, due_date }
    }

    /// The line that shows this assignment, with `spaces + 1` blanks between
    /// the name and the date.
    pub fn display(&self, spaces: usize) -> (out: String)
        ensures
            out@ == assignment_line(self@, spaces as nat),
    {
        let mut out = Style::bold(Colour::Green).paint(self.name.as_str());
        out.append(crate::text::spaces(spaces).as_str());
        out.append(" - ");
        let date = self.due_date.display();
        out.append(Style::normal(Colour::Green).paint(date.as_str()).as_str());
        proof {
            reveal_strlit(" - ");
            assert(blanks(spaces as nat) + " - "@ =~= blanks(spaces as nat + 1) + seq!['-', ' ']);
            assert(out@ =~= assignment_line(self@, spaces as nat));
        }
        out
    }

    /// The stored form `[name;DD-MM-YYYY]`. The name is written as it is.
    pub fn encode(&self) -> (out: String)
        ensures
            out@ == encode_assignment(self@),
    {
        let mut out = String::new();
        push_char(&mut out, '[');
        out.append(self.name.as_str());
        push_char(&mut out, ';');
        out.append(self.due_date.encode().as_str());
        push_char(&mut out, ']');
        assert(out@ =~= encode_assignment(self@));
        out
    }

    /// Reads a date written as day, month and year, such as `31-1-2021`.
    /// Fails with `InvalidFormat`, which carries the text and the parser's
    /// complaint, exactly when the text denotes no date.
    pub fn parse_date(s: &str) -> (r: Result<Date, Error>)
        ensures
            date_view(r) == date_read(s@),
    {
        match parse_day_month_year(s) {
            Ok(d) => Ok(d),
            Err(complaint) => Err(Error::InvalidFormat { text: s.to_owned(), reason: complaint }),
        }
    }

    /// The assignment of the given name, given what the date parser made of
    /// the text of its date. Where the parser refused, the assignment is due
    /// on `fallback`, and the complaint comes back beside it.
    pub fn from_parsed(
        name: String,
        date_text: String,
        parsed: Result<Date, String>,
        fallback: Date,
    ) -> (r: (Assignment, Option<Error>))
        ensures
            r.0@ == (AssignmentView { name: name@, due: due_or(parsed_view(parsed), fallback@) }),
            note_view(r.1) == unread_date(date_text@, parsed_view(parsed)),
    {
        match parsed {
            Ok(due_date) => (Assignment { name, due_date }, None),
            Err(complaint) => (
                Assignment { name, due_date: fallback },
                Some(Error::InvalidFormat { text: date_text, reason: complaint }),
            ),
        }
    }

    /// Decodes a stored assignment. One whose date cannot be read is due on
    /// `fallback`, and the complaint about its date comes back beside it.
    /// Fails with `Malformed` exactly when the token does not begin with `[`,
    /// end with `]` and hold one `;` between them.
    pub fn parse_noting_on(s: &str, fallback: Date) -> (r: Result<
        (Assignment, Option<Error>),
        Error,
    >)
        ensures
            match decode_assignment(s@, fallback@) {
                Ok(a) => r matches Ok((x, note)) && x@ == a && note_view(note) == date_complaint(
                    s@,
                ),
                Err(e) => r matches Err(x) && x@ == e,
            },
    {
        let v = to_chars(s);
        let n = v.len();
        if n < 2 || v[0] != '[' || v[n - 1] != ']' {
            return Err(
                Error::Malformed { text: s.to_owned(), shape: "[name;DD-MM-YYYY]".to_owned() },
            );
        }
        let mut inner = String::new();
        let mut i: usize = 1;
        while i < n - 1
            invariant
                1 <= i <= n - 1,
                n == v.len(),
                inner@ == v@.subrange(1, i as int),
            decreases n - i,
        {
            push_char(&mut inner, v[i]);
            proof {
                assert(v@.subrange(1, i as int).push(v@[i as int]) =~= v@.subrange(1, i + 1));
            }
            i += 1;
        }
        let mut parts = split(inner.as_str(), ';');
        if parts.len() != 2 {
            return Err(
                Error::Malformed { text: s.to_owned(), shape: "[name;DD-MM-YYYY]".to_owned() },
            );
        }
        let ghost whole = texts(parts@);
        proof {
            assert(whole[0] == parts@[0]@);
            assert(whole[1] == parts@[1]@);
        }
        let date_text = parts.pop().unwrap();
        let name = parts.pop().unwrap();
        let parsed = parse_day_month_year(date_text.as_str());
        Ok(Assignment::from_parsed(name, date_text, parsed, fallback))
    }

    /// Decodes a stored assignment; one whose date cannot be read is due on
    /// `fallback`.
    pub fn parse_on(s: &str, fallback: Date) -> (r: Result<Assignment, Error>)
        ensures
            decoded_view(r) == decode_assignment(s@, fallback@),
    {
        match Assignment::parse_noting_on(s, fallback) {
            Ok((a, _)) => Ok(a),
            Err(e) => Err(e),
        }
    }

    /// Decodes a stored assignment. One whose date cannot be read is due
    /// today, and the complaint about its date comes back beside it.
    pub fn parse_noting(s: &str) -> (r: Result<(Assignment, Option<Error>), Error>)
        ensures
            exists|fallback: Ymd|
                is_calendar_date(fallback) && match #[trigger] decode_assignment(s@, fallback) {
                    Ok(a) => r matches Ok((x, note)) && x@ == a && note_view(note)
                        == date_complaint(s@),
                    Err(e) => r matches Err(x) && x@ == e,
                },
    {
        let now = today();
        Assignment::parse_noting_on(s, now)
    }

    /// Decodes a stored assignment; one whose date cannot be read is due
    /// today.
    pub fn parse(s: &str) -> (r: Result<Assignment, Error>)
        ensures
            exists|fallback: Ymd|
                is_calendar_date(fallback) && decoded_view(r) == #[trigger] decode_assignment(
                    s@,
                    fallback,
                ),
    {
        let now = today();
        Assignment::parse_on(s, now)
    }
}

} // verus!
