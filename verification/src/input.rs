//! A line of input, taken apart: the command and its arguments.

use crate::decimal::{parse_index, parse_usize};
use crate::error::{Error, ErrorView, Quantity};
use crate::text::{join, join_texts, split_words, texts, words};
use vstd::prelude::*;
use vstd::string::StringExecFns;

verus! {

/// A command with its arguments.
#[derive(Debug, PartialEq, Eq)]
pub struct Args {
    /// The first word of the line.
    pub command: String,
    /// The words behind it.
    pub list: Vec<String>,
    /// The words behind it, with one blank between neighbours.
    pub input: String,
}

/// A command with its arguments, as plain values.
pub struct ArgsView {
    pub command: Seq<char>,
    pub list: Seq<Seq<char>>,
    pub input: Seq<char>,
}

impl View for Args {
    type V = ArgsView;

    open spec fn view(&self) -> ArgsView {
        ArgsView { command: self.command@, list: texts(self.list@), input: self.input@ }
    }
}

/// What a line of input says. The line is taken apart at its white space:
/// the first word is the command, the others are the arguments. A line
/// without a word has the empty command and no argument.
pub open spec fn read_line(line: Seq<char>) -> ArgsView {
    let ws = words(line);
    if ws.len() > 0 {
        ArgsView { command: ws[0], list: ws.skip(1), input: join(ws.skip(1), seq![' ']) }
    } else {
        ArgsView {
            command: Seq::<char>::empty(),
            list: Seq::<Seq<char>>::empty(),
            input: Seq::<char>::empty(),
        }
    }
}

/// The arguments as they are shown in a message.
pub open spec fn listed(list: Seq<Seq<char>>) -> Seq<char> {
    "(args: "@ + join(list, ", "@) + ")"@
}

/// Whether there are arguments enough. Too few are an error where the
/// command insists on them.
pub open spec fn checked(list: Seq<Seq<char>>, min: usize, strict: bool) -> Result<bool, ErrorView> {
    if list.len() >= min {
        Ok(true)
    } else if strict {
        Err(ErrorView::MissingArguments { expected: min, provided: list.len() as usize })
    } else {
        Ok(false)
    }
}

/// The number that an argument denotes, or the error that it is none.
pub open spec fn as_number(arg: Seq<char>, quantity: Quantity) -> Result<usize, ErrorView> {
    match parse_index(arg) {
        Some(n) => Ok(n),
        None => Err(ErrorView::InvalidValue { quantity, text: arg }),
    }
}

/// Reads an argument as a number. Fails with `InvalidValue` where it is none.
pub fn to_int(arg: &String, quantity: Quantity) -> (r: Result<usize, Error>)
    ensures
        match as_number(arg@, quantity) {
            Ok(n) => r == Ok::<usize, Error>(n),
            Err(e) => r matches Err(x) && x@ == e,
        },
{
    match parse_usize(arg.as_str()) {
        Some(n) => Ok(n),
        None => Err(Error::InvalidValue { quantity, text: arg.clone() }),
    }
}

impl Args {
    /// Takes a line of input apart at its white space.
    pub fn read(line: &str) -> (args: Args)
        ensures
            args@ == read_line(line@),
    {
        let mut list = split_words(line);
        let ghost ws = texts(list@);
        let command = if list.len() > 0 {
            let first = list.remove(0);
            proof {
                assert(ws[0] == first@);
                assert(texts(list@) =~= ws.skip(1));
            }
            first
        } else {
            proof {
                assert(texts(list@) =~= Seq::<Seq<char>>::empty());
            }
            String::new()
        };
        let input = join_texts(&list, " ");
        proof {
            reveal_strlit(" ");
            assert(" "@ =~= seq![' ']);
        }
        Args { command, list, input }
    }

    /// The arguments as they are shown in a message.
    pub fn list(&self) -> (out: String)
        ensures
            out@ == listed(self@.list),
    {
        let mut out = "(args: ".to_owned();
        out.append(join_texts(&self.list, ", ").as_str());
        out.append(")");
        out
    }

    /// Whether there are at least `min` arguments. With `strict`, too few
    /// are the error `MissingArguments`.
    pub fn check(&self, min: usize, strict: bool) -> (r: Result<bool, Error>)
        ensures
            match checked(self@.list, min, strict) {
                Ok(b) => r == Ok::<bool, Error>(b),
                Err(e) => r matches Err(x) && x@ == e,
            },
    {
        if self.list.len() >= min {
            Ok(true)
        } else if strict {
            Err(Error::MissingArguments { expected: min, provided: self.list.len() })
        } else {
            Ok(false)
        }
    }

    /// The arguments from the one at index `offset` on, with one blank
    /// between neighbours.
    pub fn input_from(&self, offset: usize) -> (out: String)
        requires
            offset <= self@.list.len(),
        ensures
            out@ == join(self@.list.skip(offset as int), seq![' ']),
    {
        let mut rest: Vec<String> = Vec::new();
        let mut i: usize = offset;
        proof {
            assert(self@.list.skip(offset as int).take(0) =~= Seq::<Seq<char>>::empty());
        }
        while i < self.list.len()
            invariant
                offset <= i <= self.list.len(),
                texts(rest@) == self@.list.skip(offset as int).take(i - offset),
            decreases self.list.len() - i,
        {
            let ghost before = texts(rest@);
            rest.push(self.list[i].clone());
            proof {
                assert(texts(rest@) =~= before.push(self.list@[i as int]@));
                assert(texts(rest@) =~= self@.list.skip(offset as int).take(i - offset + 1));
            }
            i += 1;
        }
        proof {
            assert(texts(rest@) =~= self@.list.skip(offset as int));
            reveal_strlit(" ");
            assert(" "@ =~= seq![' ']);
        }
        join_texts(&rest, " ")
    }
}

} // verus!
