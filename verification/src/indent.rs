//! Indentation of lists of lines.

use crate::text::{blanks, join, join_texts, spaces, texts};
use vstd::prelude::*;
use vstd::string::StringExecFns;

verus! {

/// Every line with `n` blanks in front.
pub open spec fn indented(lines: Seq<Seq<char>>, n: nat) -> Seq<Seq<char>> {
    lines.map_values(|l: Seq<char>| blanks(n) + l)
}

/// Puts `spaces` blanks in front of every line.
pub fn indent(v: Vec<String>, spaces: usize) -> (out: Vec<String>)
    ensures
        texts(out@) == indented(texts(v@), spaces as nat),
{
    let pad = crate::text::spaces(spaces);
    let mut out: Vec<String> = Vec::new();
    let mut i: usize = 0;
    while i < v.len()
        invariant
            i <= v.len(),
            pad@ == blanks(spaces as nat),
            texts(out@) == indented(texts(v@), spaces as nat).take(i as int),
        decreases v.len() - i,
    {
        let ghost before = texts(out@);
        let mut line = pad.clone();
        line.append(v[i].as_str());
        out.push(line);
        proof {
            assert(texts(out@) =~= before.push(blanks(spaces as nat) + v@[i as int]@));
            assert(texts(out@) =~= indented(texts(v@), spaces as nat).take(i + 1));
        }
        i += 1;
    }
    proof {
        assert(texts(out@) =~= indented(texts(v@), spaces as nat));
    }
    out
}

/// Indents every line by `spaces` blanks and joins the lines with newlines.
pub fn indent_endl(v: Vec<String>, spaces: usize) -> (out: String)
    ensures
        out@ == join(indented(texts(v@), spaces as nat), seq!['\n']),
{
    let lines = indent(v, spaces);
    let out = join_texts(&lines, "\n");
    proof {
        reveal_strlit("\n");
        assert("\n"@ =~= seq!['\n']);
    }
    out
}

} // verus!
