//! The commands and what the `help` command says of them.

use crate::report::property_line;
use crate::style::{Colour, Style};
use crate::text::{join, join_texts, same, split, split_on, texts};
use vstd::prelude::*;
use vstd::string::StringExecFns;

verus! {

/// What is known of a command.
#[derive(Clone, Copy, Debug, PartialEq, Eq)]
pub struct HelpEntry {
    /// The name of the command.
    pub name: &'static str,
    /// The arguments that it takes, if any.
    pub arguments: Option<&'static str>,
    /// What it does.
    pub description: &'static str,
    /// Its shorter names, if any.
    pub aliases: Option<&'static str>,
}

/// A help entry as plain values.
pub struct HelpView {
    pub name: Seq<char>,
    pub arguments: Option<Seq<char>>,
    pub description: Seq<char>,
    pub aliases: Option<Seq<char>>,
}

impl View for HelpEntry {
    type V = HelpView;

    open spec fn view(&self) -> HelpView {
        HelpView {
            name: self.name@,
            arguments: match self.arguments {
                Some(a) => Some(a@),
                None => None,
            },
            description: self.description@,
            aliases: match self.aliases {
                Some(a) => Some(a@),
                None => None,
            },
        }
    }
}

/// The views of a list of help entries.
pub open spec fn help_views(v: Seq<HelpEntry>) -> Seq<HelpView> {
    v.map_values(|h: HelpEntry| h@)
}

/// The commands, in the order of the alphabet.
pub open spec fn help_table() -> Seq<HelpView> {
    seq![
        HelpView {
            name: "add"@,
            arguments: Some("<class> <date> <name...>"@),
            description: "Adds a dated assignment to a class.\n\nDates should be formatted as 'd-m-y'.\nExample: 31-1-2021"@,
            aliases: Some("a"@),
        },
        HelpView {
            name: "all"@,
            arguments: None,
            description: "Displays assignments across all classes."@,
            aliases: None,
        },
        HelpView {
            name: "clean"@,
            arguments: Some("<class>"@),
            description: "Removes all completed assignments from a class."@,
            aliases: None,
        },
        HelpView {
            name: "complete"@,
            arguments: Some("<class> <index>"@),
            description: "Moves an assignment to a class's completed list."@,
            aliases: Some("c"@),
        },
        HelpView {
            name: "create"@,
            arguments: Some("<id> <period> <name...>"@),
            description: "Creates a class with metadata."@,
            aliases: None,
        },
        HelpView {
            name: "delete"@,
            arguments: Some("<id>"@),
            description: "Deletes a class, including all of its assignments."@,
            aliases: None,
        },
        HelpView {
            name: "encode"@,
            arguments: None,
            description: "Displays encoded class data."@,
            aliases: None,
        },
        HelpView {
            name: "help"@,
            arguments: Some("(<command>)"@),
            description: "Displays help info for a command.\nIf no command is supplied, displays all commands."@,
            aliases: Some("h"@),
        },
        HelpView {
            name: "info"@,
            arguments: Some("(<id>)"@),
            description: "Displays class info and assignments.\nIf no ID is supplied, displays all class info."@,
            aliases: Some("i"@),
        },
        HelpView {
            name: "klog"@,
            arguments: Some("<avg> (<path>)"@),
            description: "Displays assignment data in klog format.\nThis is particularly useful for keeping track of\nassignments you've completed with date and time.\n\nThe 'avg' argument is how many hours on average\nyou'd expect to complete the assignments in.\nYou can modify these values after writing.\n\nOptionally specify a path to write to.\n'.klg' is automatically appended to the path.\n\nLearn more about klog at: https://klog.jotaen.net"@,
            aliases: None,
        },
        HelpView {
            name: "list"@,
            arguments: Some("(<sort>)"@),
            description: "Lists all classes by ID and name.\nYou can sort classes by id, name and period (default)."@,
            aliases: Some("ls, l"@),
        },
        HelpView {
            name: "modify"@,
            arguments: Some("<id> <property> <value...>"@),
            description: "Modifies class metadata by input.\nClass ID cannot be modified."@,
            aliases: Some("mod, m"@),
        },
        HelpView {
            name: "panic"@,
            arguments: None,
            description: "Prevents writing to config upon exiting the program.\nThis is useful if you've made an irreversible mistake while editing."@,
            aliases: None,
        },
        HelpView {
            name: "quit"@,
            arguments: None,
            description: "Exits the program."@,
            aliases: Some("q"@),
        },
        HelpView {
            name: "remove"@,
            arguments: Some("<id> <index>"@),
            description: "Removes an assignment without completing it."@,
            aliases: Some("r"@),
        },
        HelpView {
            name: "write"@,
            arguments: None,
            description: "Writes encoded classes to the config file.\nThis is done automatically upon exit."@,
            aliases: Some("w"@),
        },
    ]
}

/// The first entry of the given name, if there is one.
pub open spec fn topic(table: Seq<HelpView>, name: Seq<char>) -> Option<HelpView>
    decreases table.len(),
{
    if table.len() == 0 {
        None
    } else {
        match topic(table.drop_last(), name) {
            Some(h) => Some(h),
            None => if table.last().name == name {
                Some(table.last())
            } else {
                None
            },
        }
    }
}

/// What `help` says of one command: its syntax, what it does, and its
/// aliases if it has any.
pub open spec fn topic_text(h: HelpView) -> Seq<char> {
    property_line(
        "Syntax"@,
        h.name + " "@ + (match h.arguments {
            Some(a) => a,
            None => Seq::<char>::empty(),
        }),
        Style { colour: Colour::Green, bold: true },
    ) + "\n\n"@ + h.description + (match h.aliases {
        Some(a) => "\n\n"@ + property_line(
            "Aliases"@,
            a,
            Style { colour: Colour::Green, bold: true },
        ),
        None => Seq::<char>::empty(),
    })
}

/// The line of a command in the overview: its name, and the first line of
/// what it does.
pub open spec fn overview_line(h: HelpView) -> Seq<char> {
    property_line(h.name, split_on(h.description, '\n')[0], Style { colour: Colour::Green, bold: true })
}

/// What `help` says of all commands: one line for each.
pub open spec fn overview_text(table: Seq<HelpView>) -> Seq<char> {
    join(table.map_values(|h: HelpView| overview_line(h)), seq!['\n'])
}

/// The commands, in the order of the alphabet.
pub fn help_entries() -> (v: Vec<HelpEntry>)
    ensures
        help_views(v@) == help_table(),
{
    let mut v: Vec<HelpEntry> = Vec::new();
    v.push(
        HelpEntry {
            name: "add",
            arguments: Some("<class> <date> <name...>"),
            description: "Adds a dated assignment to a class.\n\nDates should be formatted as 'd-m-y'.\nExample: 31-1-2021",
            aliases: Some("a"),
        },
    );
    v.push(
        HelpEntry {
            name: "all",
            arguments: None,
            description: "Displays assignments across all classes.",
            aliases: None,
        },
    );
    v.push(
        HelpEntry {
            name: "clean",
            arguments: Some("<class>"),
            description: "Removes all completed assignments from a class.",
            aliases: None,
        },
    );
    v.push(
        HelpEntry {
            name: "complete",
            arguments: Some("<class> <index>"),
            description: "Moves an assignment to a class's completed list.",
            aliases: Some("c"),
        },
    );
    v.push(
        HelpEntry {
            name: "create",
            arguments: Some("<id> <period> <name...>"),
            description: "Creates a class with metadata.",
            aliases: None,
        },
    );
    v.push(
        HelpEntry {
            name: "delete",
            arguments: Some("<id>"),
            description: "Deletes a class, including all of its assignments.",
            aliases: None,
        },
    );
    v.push(
        HelpEntry {
            name: "encode",
            arguments: None,
            description: "Displays encoded class data.",
            aliases: None,
        },
    );
    v.push(
        HelpEntry {
            name: "help",
            arguments: Some("(<command>)"),
            description: "Displays help info for a command.\nIf no command is supplied, displays all commands.",
            aliases: Some("h"),
        },
    );
    v.push(
        HelpEntry {
            name: "info",
            arguments: Some("(<id>)"),
            description: "Displays class info and assignments.\nIf no ID is supplied, displays all class info.",
            aliases: Some("i"),
        },
    );
    v.push(
        HelpEntry {
            name: "klog",
            arguments: Some("<avg> (<path>)"),
            description: "Displays assignment data in klog format.\nThis is particularly useful for keeping track of\nassignments you've completed with date and time.\n\nThe 'avg' argument is how many hours on average\nyou'd expect to complete the assignments in.\nYou can modify these values after writing.\n\nOptionally specify a path to write to.\n'.klg' is automatically appended to the path.\n\nLearn more about klog at: https://klog.jotaen.net",
            aliases: None,
        },
    );
    v.push(
        HelpEntry {
            name: "list",
            arguments: Some("(<sort>)"),
            description: "Lists all classes by ID and name.\nYou can sort classes by id, name and period (default).",
            aliases: Some("ls, l"),
        },
    );
    v.push(
        HelpEntry {
            name: "modify",
            arguments: Some("<id> <property> <value...>"),
            description: "Modifies class metadata by input.\nClass ID cannot be modified.",
            aliases: Some("mod, m"),
        },
    );
    v.push(
        HelpEntry {
            name: "panic",
            arguments: None,
            description: "Prevents writing to config upon exiting the program.\nThis is useful if you've made an irreversible mistake while editing.",
            aliases: None,
        },
    );
    v.push(
        HelpEntry { name: "quit", arguments: None, description: "Exits the program.", aliases: Some("q") },
    );
    v.push(
        HelpEntry {
            name: "remove",
            arguments: Some("<id> <index>"),
            description: "Removes an assignment without completing it.",
            aliases: Some("r"),
        },
    );
    v.push(
        HelpEntry {
            name: "write",
            arguments: None,
            description: "Writes encoded classes to the config file.\nThis is done automatically upon exit.",
            aliases: Some("w"),
        },
    );
    proof {
        assert(help_views(v@) =~= help_table());
    }
    v
}

/// Finds the entry of the given name.
pub fn find_topic(table: &Vec<HelpEntry>, name: &str) -> (r: Option<HelpEntry>)
    ensures
        match topic(help_views(table@), name@) {
            Some(h) => r matches Some(e) && e@ == h,
            None => r is None,
        },
{
    let ghost all = help_views(table@);
    let mut i: usize = 0;
    proof {
        assert(all.take(0) =~= Seq::<HelpView>::empty());
    }
    while i < table.len()
        invariant
            i <= table.len(),
            all == help_views(table@),
            topic(all.take(i as int), name@) is None,
        decreases table.len() - i,
    {
        proof {
            assert(all.take(i + 1).drop_last() =~= all.take(i as int));
            assert(all.take(i + 1).last() == table@[i as int]@);
        }
        if same(table[i].name, name) {
            proof {
                lemma_topic_prefix(all, name@, i + 1);
            }
            return Some(table[i]);
        }
        i += 1;
    }
    proof {
        assert(all.take(table@.len() as int) =~= all);
    }
    None
}

/// An entry found in a front part of the table is the entry found in the
/// table.
pub proof fn lemma_topic_prefix(table: Seq<HelpView>, name: Seq<char>, k: int)
    requires
        0 <= k <= table.len(),
        topic(table.take(k), name) is Some,
    ensures
        topic(table, name) == topic(table.take(k), name),
    decreases table.len() - k,
{
    if k < table.len() {
        assert(table.take(k + 1).drop_last() =~= table.take(k));
        lemma_topic_prefix(table, name, k + 1);
    } else {
        assert(table.take(k) =~= table);
    }
}

/// What `help` says of one command.
pub fn topic_help(h: &HelpEntry) -> (out: String)
    ensures
        out@ == topic_text(h@),
{
    let mut syntax = h.name.to_owned();
    syntax.append(" ");
    match h.arguments {
        Some(a) => {
            syntax.append(a);
        },
        None => {
            assert(syntax@ + Seq::<char>::empty() =~= syntax@);
        },
    }
    let mut out = crate::class::Class::str_property("Syntax", &syntax);
    out.append("\n\n");
    out.append(h.description);
    match h.aliases {
        Some(a) => {
            out.append("\n\n");
            let names = a.to_owned();
            out.append(crate::class::Class::str_property("Aliases", &names).as_str());
        },
        None => {},
    }
    proof {
        assert(out@ =~= topic_text(h@));
    }
    out
}

/// What `help` says of all commands.
pub fn overview(table: &Vec<HelpEntry>) -> (out: String)
    ensures
        out@ == overview_text(help_views(table@)),
{
    let ghost all = help_views(table@);
    let ghost want = all.map_values(|h: HelpView| overview_line(h));
    let mut lines: Vec<String> = Vec::new();
    let mut i: usize = 0;
    while i < table.len()
        invariant
            i <= table.len(),
            all == help_views(table@),
            want == all.map_values(|h: HelpView| overview_line(h)),
            texts(lines@) == want.take(i as int),
        decreases table.len() - i,
    {
        let h = &table[i];
        let parts = split(h.description, '\n');
        proof {
            crate::text::lemma_split_nonempty(h.description@, '\n');
            assert(texts(parts@)[0] == parts@[0]@);
        }
        let name = h.name.to_owned();
        let line = crate::class::Class::info_property(
            name.as_str(),
            &parts[0],
            Style::bold(Colour::Green),
        );
        let ghost before = texts(lines@);
        lines.push(line);
        proof {
            assert(texts(lines@) =~= before.push(overview_line(h@)));
            assert(texts(lines@) =~= want.take(i + 1));
        }
        i += 1;
    }
    proof {
        assert(texts(lines@) =~= want);
        reveal_strlit("\n");
        assert("\n"@ =~= seq!['\n']);
    }
    join_texts(&lines, "\n")
}

} // verus!
