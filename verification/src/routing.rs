//! How documents show on the command line and how invocations find their
//! command: what holds of the interface and of resolution.

use vstd::prelude::*;
use clap::ArgMatches;
use crate::cli::{held_string, selected};
use crate::compile::{
    below, cli_for, entered, entry_for, passthrough_id, resolve, resolve_children,
};
use crate::parser::{EventView, blank, compiled};
use crate::runtfile::{CommandView, node_fits, tree_wf};
use crate::shape::{
    filled, lemma_filled_keeps_links, lemma_flat_document, lemma_lone_root, no_deeper_than,
    sections,
};

verus! {

/// The sections of a document become the subcommands of the program, in
/// the order of the document: where no heading lies deeper than depth 2,
/// the interface has one subcommand for each heading of depth 2, and each
/// is the entry of the command that its own section describes.
pub proof fn lemma_sections_become_subcommands(events: Seq<EventView>)
    requires
        no_deeper_than(events, 2),
        events.len() <= u32::MAX,
    ensures
        cli_for(compiled(events)).subcommands.len() == sections(events).len(),
        forall|k: int|
            0 <= k < sections(events).len() ==> cli_for(compiled(events)).subcommands[k]
                == entry_for(compiled(events), filled(blank(2), #[trigger] sections(events)[k])),
{
    lemma_flat_document(events);
    let tree = compiled(events);
    assert forall|k: int| 0 <= k < sections(events).len() implies cli_for(tree).subcommands[k]
        == entry_for(tree, filled(blank(2), #[trigger] sections(events)[k])) by {
        lemma_filled_keeps_links(blank(2), sections(events)[k]);
        assert(tree[0].subcommands[k] == k + 1);
        assert(tree[k + 1] == filled(blank(2), sections(events)[k]));
        assert(below(tree, tree[0], tree[0].subcommands[k]));
    }
}

/// A document without a heading below depth 1 has one command, the root,
/// and every invocation that hands nothing on resolves to it.
pub proof fn lemma_lone_root_resolves_to_itself(events: Seq<EventView>, matches: ArgMatches)
    requires
        no_deeper_than(events, 1),
        held_string(matches, passthrough_id()) is None,
    ensures
        compiled(events).len() == 1,
        resolve(compiled(events), matches, compiled(events)[0]) == (
            Some(compiled(events)[0]),
            None::<Seq<char>>,
        ),
{
    lemma_lone_root(events);
    lemma_filled_keeps_links(blank(1), events);
}

/// Where the invocation reaches `node`, the children before position
/// `from` set aside, the first child at or behind `from` that resolves to
/// a command decides.
proof fn lemma_first_resolving_child(
    tree: Seq<CommandView>,
    inner: ArgMatches,
    node: CommandView,
    from: int,
    first: int,
)
    requires
        tree_wf(tree),
        node_fits(tree, node),
        0 <= from <= first < node.subcommands.len(),
        resolve(tree, inner, tree[node.subcommands[first] as int]).0 is Some,
        forall|j: int|
            from <= j < first ==> resolve(
                tree,
                inner,
                tree[(#[trigger] node.subcommands[j]) as int],
            ).0 is None,
    ensures
        resolve_children(tree, inner, node, from) == resolve(
            tree,
            inner,
            tree[node.subcommands[first] as int],
        ),
    decreases first - from,
{
    assert(below(tree, node, node.subcommands[from]));
    if from < first {
        lemma_first_resolving_child(tree, inner, node, from + 1, first);
    }
}

/// The leftmost child wins: where the invocation reaches `node` and some
/// of its children resolve to a command, `node` resolves to what the
/// first of them gives, whatever the later ones would give.
pub proof fn lemma_leftmost_child_wins(
    tree: Seq<CommandView>,
    matches: ArgMatches,
    node: CommandView,
    first: int,
)
    requires
        tree_wf(tree),
        node_fits(tree, node),
        entered(matches, node) is Some,
        0 <= first < node.subcommands.len(),
        resolve(tree, entered(matches, node).unwrap(), tree[node.subcommands[first] as int]).0
            is Some,
        forall|j: int|
            0 <= j < first ==> resolve(
                tree,
                entered(matches, node).unwrap(),
                tree[(#[trigger] node.subcommands[j]) as int],
            ).0 is None,
    ensures
        resolve(tree, matches, node) == resolve(
            tree,
            entered(matches, node).unwrap(),
            tree[node.subcommands[first] as int],
        ),
{
    lemma_first_resolving_child(tree, entered(matches, node).unwrap(), node, 0, first);
}

/// Where the invocation reaches `node` and none of its children resolves
/// to a command, `node` resolves to itself, with what the invocation holds
/// for the passthrough argument at this level.
pub proof fn lemma_resolves_to_itself(
    tree: Seq<CommandView>,
    matches: ArgMatches,
    node: CommandView,
)
    requires
        tree_wf(tree),
        node_fits(tree, node),
        entered(matches, node) is Some,
        forall|j: int|
            0 <= j < node.subcommands.len() ==> resolve(
                tree,
                entered(matches, node).unwrap(),
                tree[(#[trigger] node.subcommands[j]) as int],
            ).0 is None,
    ensures
        resolve(tree, matches, node) == (
            Some(node),
            held_string(entered(matches, node).unwrap(), passthrough_id()),
        ),
{
    lemma_no_child_resolves(tree, entered(matches, node).unwrap(), node, 0);
}

proof fn lemma_no_child_resolves(
    tree: Seq<CommandView>,
    inner: ArgMatches,
    node: CommandView,
    from: int,
)
    requires
        0 <= from <= node.subcommands.len(),
        forall|j: int|
            from <= j < node.subcommands.len() ==> resolve(
                tree,
                inner,
                tree[(#[trigger] node.subcommands[j]) as int],
            ).0 is None,
    ensures
        resolve_children(tree, inner, node, from) == (
            Some(node),
            held_string(inner, passthrough_id()),
        ),
    decreases node.subcommands.len() - from,
{
    if from < node.subcommands.len() {
        assert(resolve(tree, inner, tree[node.subcommands[from] as int]).0 is None);
        lemma_no_child_resolves(tree, inner, node, from + 1);
    }
}

/// A command resolves to some command exactly where the invocation reaches
/// it.
pub proof fn lemma_resolves_where_reached(
    tree: Seq<CommandView>,
    matches: ArgMatches,
    node: CommandView,
)
    requires
        tree_wf(tree),
        node_fits(tree, node),
    ensures
        resolve(tree, matches, node).0 is Some <==> entered(matches, node) is Some,
{
    if let Some(inner) = entered(matches, node) {
        lemma_some_command_is_found(tree, inner, node, 0);
    }
}

proof fn lemma_some_command_is_found(
    tree: Seq<CommandView>,
    inner: ArgMatches,
    node: CommandView,
    from: int,
)
    requires
        0 <= from <= node.subcommands.len(),
    ensures
        resolve_children(tree, inner, node, from).0 is Some,
    decreases node.subcommands.len() - from,
{
    if from < node.subcommands.len() {
        lemma_some_command_is_found(tree, inner, node, from + 1);
    }
}

/// Resolution follows the invocation down the tree: where the invocation
/// reaches `node` and goes on to select a subcommand, `node` resolves to
/// what its first child of that name resolves to.
pub proof fn lemma_descends_into_selected_child(
    tree: Seq<CommandView>,
    matches: ArgMatches,
    node: CommandView,
    place: int,
)
    requires
        tree_wf(tree),
        node_fits(tree, node),
        node.level >= 1,
        entered(matches, node) is Some,
        selected(entered(matches, node).unwrap()) is Some,
        0 <= place < node.subcommands.len(),
        tree[node.subcommands[place] as int].name == selected(
            entered(matches, node).unwrap(),
        ).unwrap().0,
        forall|j: int|
            0 <= j < place ==> tree[(#[trigger] node.subcommands[j]) as int].name != selected(
                entered(matches, node).unwrap(),
            ).unwrap().0,
    ensures
        resolve(tree, matches, node) == resolve(
            tree,
            entered(matches, node).unwrap(),
            tree[node.subcommands[place] as int],
        ),
{
    let inner = entered(matches, node).unwrap();
    assert forall|j: int| 0 <= j <= place implies tree[(#[trigger] node.subcommands[j]) as int].level
        >= 2 && node_fits(tree, tree[node.subcommands[j] as int]) by {}
    lemma_resolves_where_reached(tree, inner, tree[node.subcommands[place] as int]);
    assert forall|j: int| 0 <= j < place implies resolve(
        tree,
        inner,
        tree[(#[trigger] node.subcommands[j]) as int],
    ).0 is None by {
        lemma_resolves_where_reached(tree, inner, tree[node.subcommands[j] as int]);
    }
    lemma_leftmost_child_wins(tree, matches, node, place);
}

/// Resolution stops where the invocation stops: where the invocation
/// reaches `node` and selects no subcommand, or one that no child of
/// `node` is called, `node` resolves to itself.
pub proof fn lemma_stops_where_invocation_stops(
    tree: Seq<CommandView>,
    matches: ArgMatches,
    node: CommandView,
)
    requires
        tree_wf(tree),
        node_fits(tree, node),
        node.level >= 1,
        entered(matches, node) is Some,
        selected(entered(matches, node).unwrap()) matches Some(chosen) ==> forall|j: int|
            0 <= j < node.subcommands.len() ==> tree[(#[trigger] node.subcommands[j]) as int].name
                != chosen.0,
    ensures
        resolve(tree, matches, node) == (
            Some(node),
            held_string(entered(matches, node).unwrap(), passthrough_id()),
        ),
{
    let inner = entered(matches, node).unwrap();
    assert forall|j: int| 0 <= j < node.subcommands.len() implies resolve(
        tree,
        inner,
        tree[(#[trigger] node.subcommands[j]) as int],
    ).0 is None by {
        assert(tree[node.subcommands[j] as int].level >= 2);
        lemma_resolves_where_reached(tree, inner, tree[node.subcommands[j] as int]);
    }
    lemma_resolves_to_itself(tree, matches, node);
}

} // verus!
