//! The ways in which a command can fail.

use crate::decimal::{decimal, push_decimal};
use vstd::prelude::*;
use vstd::string::StringExecFns;

verus! {

/// What was looked for and not found.
#[derive(Clone, Copy, Debug, PartialEq, Eq, Structural)]
pub enum Subject {
    /// A class, by its id.
    Class,
    /// A command, by its name or alias.
    Command,
    /// A command to show help for.
    Topic,
}

/// What a text should have been.
#[derive(Clone, Copy, Debug, PartialEq, Eq, Structural)]
pub enum Quantity {
    /// The period of a class.
    Period,
    /// The position of an assignment.
    Index,
    /// A number of hours.
    Hours,
    /// A way to sort the classes.
    Sorting,
}

/// Why a command did nothing.
#[derive(Debug, PartialEq, Eq)]
pub enum Error {
    /// Nothing of this name exists.
    NotFound { subject: Subject, name: String },
    /// A class of this id exists already.
    AlreadyExists { id: String },
    /// There is no assignment at this position, counted from 1, among `len`.
    OutOfRange { index: usize, len: usize },
    /// The text is no value of the kind that was asked for.
    InvalidValue { quantity: Quantity, text: String },
    /// The text is no date; `reason` is the date parser's complaint.
    InvalidFormat { text: String, reason: String },
    /// A piece of the stored document does not have the shape it should have.
    Malformed { text: String, shape: String },
    /// A class has no property of this name that can be changed.
    UnknownProperty { name: String },
    /// The command needs more arguments than it was given.
    MissingArguments { expected: usize, provided: usize },
}

/// An error with its texts as character sequences.
pub enum ErrorView {
    NotFound { subject: Subject, name: Seq<char> },
    AlreadyExists { id: Seq<char> },
    OutOfRange { index: usize, len: usize },
    InvalidValue { quantity: Quantity, text: Seq<char> },
    InvalidFormat { text: Seq<char>, reason: Seq<char> },
    Malformed { text: Seq<char>, shape: Seq<char> },
    UnknownProperty { name: Seq<char> },
    MissingArguments { expected: usize, provided: usize },
}

impl View for Error {
    type V = ErrorView;

    open spec fn view(&self) -> ErrorView {
        match *self {
            Error::NotFound { subject, name } => ErrorView::NotFound { subject, name: name@ },
            Error::AlreadyExists { id } => ErrorView::AlreadyExists { id: id@ },
            Error::OutOfRange { index, len } => ErrorView::OutOfRange { index, len },
            Error::InvalidValue { quantity, text } => ErrorView::InvalidValue {
                quantity,
                text: text@,
            },
            Error::InvalidFormat { text, reason } => ErrorView::InvalidFormat {
                text: text@,
                reason: reason@,
            },
            Error::Malformed { text, shape } => ErrorView::Malformed { text: text@, shape: shape@ },
            Error::UnknownProperty { name } => ErrorView::UnknownProperty { name: name@ },
            Error::MissingArguments { expected, provided } => ErrorView::MissingArguments {
                expected,
                provided,
            },
        }
    }
}

/// The views of a list of errors.
pub open spec fn error_views(v: Seq<Error>) -> Seq<ErrorView> {
    v.map_values(|e: Error| e@)
}

/// An error that may be there, as plain values.
pub open spec fn note_view(note: Option<Error>) -> Option<ErrorView> {
    match note {
        Some(e) => Some(e@),
        None => None,
    }
}

/// The word for a quantity in a message.
pub open spec fn quantity_word(quantity: Quantity) -> Seq<char> {
    match quantity {
        Quantity::Period => "period"@,
        Quantity::Index => "index"@,
        Quantity::Hours => "hours"@,
        Quantity::Sorting => "sorting method"@,
    }
}

/// The message that tells the user of an error.
pub open spec fn message_text(e: ErrorView) -> Seq<char> {
    match e {
        ErrorView::NotFound { subject, name } => match subject {
            Subject::Class => "Class '"@ + name + "' not found"@,
            Subject::Command => "Unrecognized command '"@ + name
                + "'. Run 'help' for a list of commands."@,
            Subject::Topic => "Command '"@ + name + "' not found"@,
        },
        ErrorView::AlreadyExists { id } => "Class ID '"@ + id + "' already exists"@,
        ErrorView::OutOfRange { index, len } => "No assignment at index "@ + decimal(index as nat),
        ErrorView::InvalidValue { quantity, text } => "Invalid "@ + quantity_word(quantity) + " '"@
            + text + "'"@,
        ErrorView::InvalidFormat { text, reason } => "Failed to parse date '"@ + text + "': "@
            + reason,
        ErrorView::Malformed { text, shape } => "Malformed entry '"@ + text + "': expected "@
            + shape,
        ErrorView::UnknownProperty { name } => "Invalid property '"@ + name + "'"@,
        ErrorView::MissingArguments { expected, provided } => "Expected "@ + decimal(
            expected as nat,
        ) + (if expected != 1 {
            " arguments ("@
        } else {
            " argument ("@
        }) + decimal(provided as nat) + " provided)"@,
    }
}

impl Error {
    /// The message that tells the user of this error.
    pub fn message(&self) -> (out: String)
        ensures
            out@ == message_text(self@),
    {
        let mut out = String::new();
        match self {
            Error::NotFound { subject, name } => match subject {
                Subject::Class => {
                    out.append("Class '");
                    out.append(name.as_str());
                    out.append("' not found");
                },
                Subject::Command => {
                    out.append("Unrecognized command '");
                    out.append(name.as_str());
                    out.append("'. Run 'help' for a list of commands.");
                },
                Subject::Topic => {
                    out.append("Command '");
                    out.append(name.as_str());
                    out.append("' not found");
                },
            },
            Error::AlreadyExists { id } => {
                out.append("Class ID '");
                out.append(id.as_str());
                out.append("' already exists");
            },
            Error::OutOfRange { index, len } => {
                out.append("No assignment at index ");
                push_decimal(&mut out, *index);
            },
            Error::InvalidValue { quantity, text } => {
                out.append("Invalid ");
                match quantity {
                    Quantity::Period => out.append("period"),
                    Quantity::Index => out.append("index"),
                    Quantity::Hours => out.append("hours"),
                    Quantity::Sorting => out.append("sorting method"),
                }
                out.append(" '");
                out.append(text.as_str());
                out.append("'");
            },
            Error::InvalidFormat { text, reason } => {
                out.append("Failed to parse date '");
                out.append(text.as_str());
                out.append("': ");
                out.append(reason.as_str());
            },
            Error::Malformed { text, shape } => {
                out.append("Malformed entry '");
                out.append(text.as_str());
                out.append("': expected ");
                out.append(shape.as_str());
            },
            Error::UnknownProperty { name } => {
                out.append("Invalid property '");
                out.append(name.as_str());
                out.append("'");
            },
            Error::MissingArguments { expected, provided } => {
                out.append("Expected ");
                push_decimal(&mut out, *expected);
                if *expected != 1 {
                    out.append(" arguments (");
                } else {
                    out.append(" argument (");
                }
                push_decimal(&mut out, *provided);
                out.append(" provided)");
            },
        }
        assert(out@ =~= message_text(self@));
        out
    }
}

} // verus!
