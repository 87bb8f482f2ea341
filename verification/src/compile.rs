//! From the command tree to the command-line interface, and from an
//! invocation back to the command it names.

use vstd::prelude::*;
use clap::ArgMatches;
use clap::Command as ClapCommand;
use crate::arena::index_from_raw;
use crate::cli::{
    ArgView, CliView, chosen_subcommand, clap_about, clap_arg, clap_command, clap_subcommand,
    cli_view, held_string, matched_string, selected,
};
use crate::runtfile::{Command, CommandView, Runtfile, node_fits};
use crate::text::same_text;

verus! {

/// The id of the argument that takes what is handed on to the script.
pub open spec fn passthrough_id() -> Seq<char> {
    "--"@
}

/// The argument that a command with code accepts.
pub open spec fn passthrough_arg() -> ArgView {
    ArgView {
        id: passthrough_id(),
        help: Some("Arguments coming after this are passed to the script."@),
    }
}

/// Whether `child` is a command of `tree` that lies deeper than `node`.
pub open spec fn below(tree: Seq<CommandView>, node: CommandView, child: u32) -> bool {
    child < tree.len() && tree[child as int].level > node.level
}

/// The subcommand that stands for `node`: its name and description, the
/// passthrough argument where it has code, and below it the subcommands
/// that stand for its children, in their order.
pub open spec fn entry_for(tree: Seq<CommandView>, node: CommandView) -> CliView
    decreases 255 - node.level,
{
    CliView {
        name: node.name,
        about: Some(node.description),
        args: if node.code.len() > 0 {
            seq![passthrough_arg()]
        } else {
            Seq::empty()
        },
        subcommands: Seq::new(
            node.subcommands.len(),
            |k: int|
                if 0 <= k < node.subcommands.len() && below(tree, node, node.subcommands[k]) {
                    entry_for(tree, tree[node.subcommands[k] as int])
                } else {
                    arbitrary()
                },
        ),
    }
}

/// The interface of a tree: the program is the root, which takes no
/// argument of its own; its subcommands stand for the root's children.
pub open spec fn cli_for(tree: Seq<CommandView>) -> CliView {
    CliView { args: Seq::empty(), ..entry_for(tree, tree[0]) }
}

/// Builds the subcommand that stands for `cmd` and all below it.
fn build_command(runtfile: &Runtfile, cmd: &Command) -> (entry: ClapCommand)
    requires
        runtfile.wf(),
        node_fits(runtfile@, cmd@),
    ensures
        cli_view(entry) == entry_for(runtfile@, cmd@),
    decreases 255 - cmd.level,
{
    let mut entry = clap_about(clap_command(cmd.name.clone()), cmd.description.clone());
    if !cmd.code.as_str().is_empty() {
        entry = clap_arg(
            entry,
            "--".to_owned(),
            "Arguments coming after this are passed to the script.".to_owned(),
        );
    }
    let ghost wanted = entry_for(runtfile@, cmd@);
    assert(cli_view(entry).args =~= wanted.args);
    assert(wanted.subcommands.take(0) =~= Seq::empty());
    let mut k: usize = 0;
    while k < cmd.subcommands.len()
        invariant
            runtfile.wf(),
            node_fits(runtfile@, cmd@),
            wanted == entry_for(runtfile@, cmd@),
            k <= cmd.subcommands@.len(),
            cli_view(entry) == (CliView { subcommands: wanted.subcommands.take(k as int), ..wanted }),
        decreases cmd.subcommands@.len() - k,
    {
        let child = runtfile.command(index_from_raw(cmd.subcommands[k]));
        let sub = build_command(runtfile, child);
        entry = clap_subcommand(entry, sub);
        assert(wanted.subcommands.take(k + 1) =~= wanted.subcommands.take(k as int).push(
            wanted.subcommands[k as int],
        ));
        k += 1;
    }
    assert(wanted.subcommands.take(k as int) =~= wanted.subcommands);
    entry
}

/// Builds the command-line interface of a tree.
pub fn build_cli_from_runtfile(runtfile: &Runtfile) -> (cli: ClapCommand)
    requires
        runtfile.wf(),
    ensures
        cli_view(cli) == cli_for(runtfile@),
{
    let root = runtfile.root_command();
    let mut cli = clap_about(clap_command(root.name.clone()), root.description.clone());
    let ghost wanted = cli_for(runtfile@);
    assert(wanted.subcommands.take(0) =~= Seq::empty());
    let mut k: usize = 0;
    while k < root.subcommands.len()
        invariant
            runtfile.wf(),
            root@ == runtfile@[0],
            wanted == cli_for(runtfile@),
            k <= root.subcommands@.len(),
            cli_view(cli) == (CliView { subcommands: wanted.subcommands.take(k as int), ..wanted }),
        decreases root.subcommands@.len() - k,
    {
        let child = runtfile.command(index_from_raw(root.subcommands[k]));
        let sub = build_command(runtfile, child);
        cli = clap_subcommand(cli, sub);
        assert(wanted.subcommands.take(k + 1) =~= wanted.subcommands.take(k as int).push(
            wanted.subcommands[k as int],
        ));
        k += 1;
    }
    assert(wanted.subcommands.take(k as int) =~= wanted.subcommands);
    cli
}

/// The matches that `node` is resolved in, where the invocation reaches
/// it: the root is reached by every invocation; any other command is
/// reached where the selected subcommand bears its name.
pub open spec fn entered(matches: ArgMatches, node: CommandView) -> Option<ArgMatches> {
    if node.level == 1 {
        Some(matches)
    } else {
        match selected(matches) {
            Some((name, inner)) => if name == node.name {
                Some(inner)
            } else {
                None
            },
            None => None,
        }
    }
}

/// The command that an invocation names, seen from `node`, and what the
/// invocation hands on to its script. Nothing where the invocation does
/// not reach `node`; else what the first child gives that gives a command;
/// else `node` itself.
pub open spec fn resolve(tree: Seq<CommandView>, matches: ArgMatches, node: CommandView) -> (
    Option<CommandView>,
    Option<Seq<char>>,
)
    decreases 255 - node.level, node.subcommands.len() + 1,
{
    match entered(matches, node) {
        Some(inner) => resolve_children(tree, inner, node, 0),
        None => (None, None),
    }
}

/// [`resolve`] once `node` is reached, with the children before `from`
/// out of the way.
pub open spec fn resolve_children(
    tree: Seq<CommandView>,
    inner: ArgMatches,
    node: CommandView,
    from: int,
) -> (Option<CommandView>, Option<Seq<char>>)
    decreases 255 - node.level, node.subcommands.len() - from,
{
    if 0 <= from < node.subcommands.len() {
        let found = if below(tree, node, node.subcommands[from]) {
            resolve(tree, inner, tree[node.subcommands[from] as int])
        } else {
            (None, None)
        };
        if found.0 is Some {
            found
        } else {
            resolve_children(tree, inner, node, from + 1)
        }
    } else {
        (Some(node), held_string(inner, passthrough_id()))
    }
}

/// A resolution as plain values.
pub open spec fn resolution_view(found: (Option<Command>, Option<String>)) -> (
    Option<CommandView>,
    Option<Seq<char>>,
) {
    (
        match found.0 {
            Some(command) => Some(command@),
            None => None,
        },
        match found.1 {
            Some(text) => Some(text@),
            None => None,
        },
    )
}

/// Finds the command that an invocation names, starting at `cmd`, and what
/// the invocation hands on to its script.
pub fn match_command(runtfile: &Runtfile, matches: &ArgMatches, cmd: &Command) -> (found: (
    Option<Command>,
    Option<String>,
))
    requires
        runtfile.wf(),
        node_fits(runtfile@, cmd@),
    ensures
        resolution_view(found) == resolve(runtfile@, *matches, cmd@),
    decreases 255 - cmd.level,
{
    let inner: &ArgMatches = if cmd.level == 1 {
        matches
    } else {
        match chosen_subcommand(matches) {
            Some((name, inner)) => {
                if !same_text(name, cmd.name.as_str()) {
                    return (None, None);
                }
                inner
            },
            None => {
                return (None, None);
            },
        }
    };
    let mut k: usize = 0;
    while k < cmd.subcommands.len()
        invariant
            runtfile.wf(),
            node_fits(runtfile@, cmd@),
            k <= cmd.subcommands@.len(),
            resolve(runtfile@, *matches, cmd@) == resolve_children(
                runtfile@,
                *inner,
                cmd@,
                k as int,
            ),
        decreases cmd.subcommands@.len() - k,
    {
        let child = runtfile.command(index_from_raw(cmd.subcommands[k]));
        let found = match_command(runtfile, inner, child);
        if found.0.is_some() {
            return found;
        }
        k += 1;
    }
    let passthrough = match matched_string(inner, "--") {
        Ok(Some(text)) => Some(text),
        _ => None,
    };
    (Some(cmd.clone()), passthrough)
}

} // verus!
