//! The command-line front: which command an argument names, the help text
//! and the node listing.

use vstd::prelude::*;
use crate::i18n::{lookup_text, I18n};
use crate::node_props::{node_line, node_line_text, views, NodeEntry};
use crate::text::same_text;

verus! {

/// The commands of the command line.
#[derive(Clone, Debug, PartialEq, Eq)]
pub enum CliCommand {
    /// Open the desktop UI (also without any argument).
    Ui,
    /// List the PipeWire nodes.
    ListNodes,
    /// Print the health message.
    Doctor,
    /// Print the help text.
    Help,
    /// Anything else, with the argument as given.
    Unknown(String),
}

/// The command that the first argument names.
pub open spec fn command_of(arg: Option<Seq<char>>) -> CliCommandModel {
    match arg {
        None => CliCommandModel::Ui,
        Some(a) => if a == "ui"@ {
            CliCommandModel::Ui
        } else if a == "list-nodes"@ {
            CliCommandModel::ListNodes
        } else if a == "doctor"@ {
            CliCommandModel::Doctor
        } else if a == "help"@ {
            CliCommandModel::Help
        } else {
            CliCommandModel::Unknown(a)
        },
    }
}

/// Mathematical picture of a command.
pub enum CliCommandModel {
    Ui,
    ListNodes,
    Doctor,
    Help,
    Unknown(Seq<char>),
}

impl View for CliCommand {
    type V = CliCommandModel;

    open spec fn view(&self) -> CliCommandModel {
        match self {
            CliCommand::Ui => CliCommandModel::Ui,
            CliCommand::ListNodes => CliCommandModel::ListNodes,
            CliCommand::Doctor => CliCommandModel::Doctor,
            CliCommand::Help => CliCommandModel::Help,
            CliCommand::Unknown(a) => CliCommandModel::Unknown(a@),
        }
    }
}

/// The command named by the first command-line argument, if there is one.
pub fn parse_command(arg: Option<&str>) -> (command: CliCommand)
    ensures
        command@ == command_of(
            match arg {
                Some(a) => Some(a@),
                None => None,
            },
        ),
{
    match arg {
        None => CliCommand::Ui,
        Some(a) => if same_text(a, "ui") {
            CliCommand::Ui
        } else if same_text(a, "list-nodes") {
            CliCommand::ListNodes
        } else if same_text(a, "doctor") {
            CliCommand::Doctor
        } else if same_text(a, "help") {
            CliCommand::Help
        } else {
            CliCommand::Unknown(a.to_owned())
        },
    }
}

/// The help text, line by line: the subtitle, an empty line, the usage line
/// and one line per command.
pub open spec fn help_text(table: Map<Seq<char>, Seq<char>>) -> Seq<Seq<char>> {
    seq![
        lookup_text(table, "cli.subtitle"@),
        Seq::empty(),
        lookup_text(table, "cli.usage"@),
        lookup_text(table, "cli.help"@),
        lookup_text(table, "cli.doctor"@),
        lookup_text(table, "cli.ui"@),
        lookup_text(table, "cli.list_nodes"@),
    ]
}

/// The lines of the help text.
pub fn help_lines(i18n: &I18n) -> (lines: Vec<String>)
    ensures
        views(lines@) == help_text(i18n@),
{
    let mut lines: Vec<String> = Vec::new();
    lines.push(i18n.text("cli.subtitle"));
    lines.push(String::new());
    lines.push(i18n.text("cli.usage"));
    lines.push(i18n.text("cli.help"));
    lines.push(i18n.text("cli.doctor"));
    lines.push(i18n.text("cli.ui"));
    lines.push(i18n.text("cli.list_nodes"));
    assert(views(lines@) =~= help_text(i18n@));
    lines
}

/// The node listing: one line per node, or the "no nodes" text when there
/// are none.
pub open spec fn node_listing(table: Map<Seq<char>, Seq<char>>, nodes: Seq<NodeEntry>) -> Seq<
    Seq<char>,
> {
    if nodes.len() == 0 {
        seq![lookup_text(table, "nodes.empty"@)]
    } else {
        nodes.map_values(|n: NodeEntry| node_line_text(n.id, n.name@, n.description@))
    }
}

/// The lines that list `nodes`.
pub fn render_nodes(i18n: &I18n, nodes: &[NodeEntry]) -> (lines: Vec<String>)
    ensures
        views(lines@) == node_listing(i18n@, nodes@),
{
    let mut lines: Vec<String> = Vec::new();
    if nodes.len() == 0 {
        lines.push(i18n.text("nodes.empty"));
        assert(views(lines@) =~= node_listing(i18n@, nodes@));
        return lines;
    }
    let mut i: usize = 0;
    while i < nodes.len()
        invariant
            i <= nodes@.len(),
            views(lines@) == nodes@.take(i as int).map_values(
                |n: NodeEntry| node_line_text(n.id, n.name@, n.description@),
            ),
        decreases nodes.len() - i,
    {
        let line = node_line(&nodes[i]);
        let ghost before = lines@;
        lines.push(line);
        assert(views(lines@) =~= views(before).push(line@));
        assert(nodes@.take(i + 1).map_values(
            |n: NodeEntry| node_line_text(n.id, n.name@, n.description@),
        ) =~= nodes@.take(i as int).map_values(
            |n: NodeEntry| node_line_text(n.id, n.name@, n.description@),
        ).push(line@));
        i = i + 1;
    }
    assert(nodes@.take(i as int) =~= nodes@);
    lines
}

} // verus!
