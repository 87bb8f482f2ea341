//! The shape of compiled trees: what holds of the tree whatever the
//! document, and what a document without deep headings compiles to.

use vstd::prelude::*;
use crate::parser::{
    EventView, Progress, blank, compiled, markdown_events, progress, step, with_code, with_text,
};
use crate::runtfile::{
    CommandView, at_depth, child_at, has_parent, lemma_first_from, node_fits, parent_position,
    parents_first, single_parent, tree_wf,
};

verus! {

/// What holds of the compiler between any two events: the tree is well
/// formed, parents stand before their children, and the cursor points into
/// the tree.
pub open spec fn progress_ok(state: Progress) -> bool {
    &&& tree_wf(state.tree)
    &&& parents_first(state.tree)
    &&& 0 <= state.cursor < state.tree.len()
}

/// One event keeps the tree well formed and adds at most one command, as
/// long as the arena can still number a new command.
pub proof fn lemma_step_ok(before: Progress, event: EventView)
    requires
        progress_ok(before),
        before.tree.len() <= u32::MAX,
    ensures
        progress_ok(step(before, event)),
        before.tree.len() <= step(before, event).tree.len() <= before.tree.len() + 1,
{
    let after = step(before, event);
    match event {
        EventView::Heading(level) => {
            lemma_first_from(before.tree, at_depth(level - 1), 0);
            if let Some(parent) = parent_position(before.tree, level) {
                assert forall|i: int| 0 <= i < after.tree.len() implies node_fits(
                    after.tree,
                    #[trigger] after.tree[i],
                ) by {
                    if i < before.tree.len() {
                        assert(node_fits(before.tree, before.tree[i]));
                    }
                }
            }
        },
        _ => {
            assert forall|i: int| 0 <= i < after.tree.len() implies node_fits(
                after.tree,
                #[trigger] after.tree[i],
            ) by {
                assert(node_fits(before.tree, before.tree[i]));
            }
        },
    }
}

/// One event keeps every command but the root under exactly one parent.
pub proof fn lemma_step_single_parent(before: Progress, event: EventView)
    requires
        progress_ok(before),
        single_parent(before.tree),
        before.tree.len() <= u32::MAX,
    ensures
        single_parent(step(before, event).tree),
{
    let after = step(before, event);
    let count = before.tree.len() as int;
    if after != before {
        if let EventView::Heading(level) = event {
            lemma_first_from(before.tree, at_depth(level - 1), 0);
            let above = parent_position(before.tree, level).unwrap();
            let place = before.tree[above].subcommands.len() as int;
            assert forall|parent: int, k: int, child: int| #[trigger]
                child_at(after.tree, parent, k, child) implies (parent == above && k == place
                && child == count) || (child < count && child_at(before.tree, parent, k, child)) by {
                if parent < count {
                    assert(node_fits(before.tree, before.tree[parent]));
                }
            }
            assert forall|child: int| 0 < child < after.tree.len() implies #[trigger] has_parent(
                after.tree,
                child,
            ) by {
                if child < count {
                    assert(has_parent(before.tree, child));
                    let (parent, k) = choose|parent: int, k: int| #[trigger]
                        child_at(before.tree, parent, k, child);
                    assert(child_at(after.tree, parent, k, child));
                } else {
                    assert(child_at(after.tree, above, place, child));
                }
            }
        } else {
            assert forall|parent: int, k: int, child: int|
                child_at(after.tree, parent, k, child) == child_at(
                    before.tree,
                    parent,
                    k,
                    child,
                ) by {}
            assert forall|child: int| 0 < child < after.tree.len() implies #[trigger] has_parent(
                after.tree,
                child,
            ) by {
                assert(has_parent(before.tree, child));
                let (parent, k) = choose|parent: int, k: int| #[trigger]
                    child_at(before.tree, parent, k, child);
                assert(child_at(after.tree, parent, k, child));
            }
        }
    }
}

/// A heading is dropped where the tree has no command one level above it:
/// the tree and the cursor stay as they are.
pub proof fn lemma_orphan_heading_is_dropped(before: Progress, level: u8)
    requires
        forall|i: int| 0 <= i < before.tree.len() ==> (#[trigger] before.tree[i]).level != level - 1,
    ensures
        step(before, EventView::Heading(level)) == before,
{
    lemma_first_from(before.tree, at_depth(level - 1), 0);
}

/// Whatever the events, the compiler's tree is well formed, parents stand
/// before their children, every command but the root has exactly one
/// parent, and there is at most one command for each event besides the
/// root.
pub proof fn lemma_progress_ok(events: Seq<EventView>)
    requires
        events.len() <= u32::MAX,
    ensures
        progress_ok(progress(events)),
        single_parent(progress(events).tree),
        progress(events).tree.len() <= events.len() + 1,
    decreases events.len(),
{
    if events.len() > 0 {
        lemma_progress_ok(events.drop_last());
        lemma_step_ok(progress(events.drop_last()), events.last());
        lemma_step_single_parent(progress(events.drop_last()), events.last());
    }
}

/// Compiling is a function of the events: two trees compiled from one
/// text agree in number and, command by command, in name, description,
/// script, code, depth and children.
pub proof fn lemma_same_text_same_tree(
    input: Seq<char>,
    first: Seq<CommandView>,
    second: Seq<CommandView>,
)
    requires
        first == compiled(markdown_events(input)),
        second == compiled(markdown_events(input)),
    ensures
        first.len() == second.len(),
        forall|i: int|
            0 <= i < first.len() ==> {
                &&& (#[trigger] first[i]).name == second[i].name
                &&& first[i].description == second[i].description
                &&& first[i].script == second[i].script
                &&& first[i].code == second[i].code
                &&& first[i].level == second[i].level
                &&& first[i].subcommands == second[i].subcommands
            },
{
}

/// What the events that follow a heading make of the command it opened,
/// as long as no further command is opened: text names and describes it,
/// a code block gives it code, anything else leaves it as it is.
pub open spec fn filled(node: CommandView, events: Seq<EventView>) -> CommandView
    decreases events.len(),
{
    if events.len() == 0 {
        node
    } else {
        let before = filled(node, events.drop_last());
        match events.last() {
            EventView::Text(text) => with_text(before, text),
            EventView::CodeBlock { info, literal } => with_code(before, info, literal),
            _ => before,
        }
    }
}

/// A document cut at its headings of depth 2: one section for each such
/// heading, in the order of the document, holding the events between the
/// heading and the next one of depth 2.
pub open spec fn sections(events: Seq<EventView>) -> Seq<Seq<EventView>>
    decreases events.len(),
{
    if events.len() == 0 {
        Seq::empty()
    } else {
        let before = sections(events.drop_last());
        if events.last() == EventView::Heading(2) {
            before.push(Seq::empty())
        } else if before.len() == 0 {
            before
        } else {
            before.update(before.len() - 1, before.last().push(events.last()))
        }
    }
}

/// Whether no heading of a document lies deeper than `depth`.
pub open spec fn no_deeper_than(events: Seq<EventView>, depth: u8) -> bool {
    forall|i: int|
        0 <= i < events.len() ==> (#[trigger] events[i] matches EventView::Heading(level)
            ==> level <= depth)
}

/// Dropping the last event of a document brings no deeper heading.
proof fn lemma_front_no_deeper(events: Seq<EventView>, depth: u8)
    requires
        no_deeper_than(events, depth),
        events.len() > 0,
    ensures
        no_deeper_than(events.drop_last(), depth),
{
    let front = events.drop_last();
    assert forall|i: int| 0 <= i < front.len() implies (#[trigger] front[i] matches EventView::Heading(level)
        ==> level <= depth) by {
        assert(front[i] == events[i]);
    }
}

/// Filling a command changes neither its depth nor its children.
pub proof fn lemma_filled_keeps_links(node: CommandView, events: Seq<EventView>)
    ensures
        filled(node, events).level == node.level,
        filled(node, events).subcommands == node.subcommands,
    decreases events.len(),
{
    if events.len() > 0 {
        lemma_filled_keeps_links(node, events.drop_last());
    }
}

/// A document without a heading below depth 1 compiles to the root alone.
pub proof fn lemma_lone_root(events: Seq<EventView>)
    requires
        no_deeper_than(events, 1),
    ensures
        progress(events).tree.len() == 1,
        progress(events).cursor == 0,
        progress(events).tree[0] == filled(blank(1), events),
    decreases events.len(),
{
    if events.len() > 0 {
        let front = events.drop_last();
        lemma_front_no_deeper(events, 1);
        lemma_lone_root(front);
        lemma_filled_keeps_links(blank(1), front);
        let before = progress(front);
        if let EventView::Heading(level) = events.last() {
            assert(events[events.len() - 1] == events.last());
            lemma_first_from(before.tree, at_depth(level - 1), 0);
        }
    }
}

/// A document whose headings lie no deeper than depth 2 compiles to the
/// root and, behind it, one command for each section, in the order of the
/// document: each is what its own section makes of a blank command, and
/// all of them are children of the root, in that order.
pub proof fn lemma_flat_document(events: Seq<EventView>)
    requires
        no_deeper_than(events, 2),
        events.len() <= u32::MAX,
    ensures
        sections(events).len() <= events.len(),
        compiled(events).len() == sections(events).len() + 1,
        progress(events).cursor == sections(events).len(),
        compiled(events)[0].level == 1,
        compiled(events)[0].subcommands == Seq::new(sections(events).len(), |k: int| (k + 1) as u32),
        forall|k: int|
            0 <= k < sections(events).len() ==> compiled(events)[k + 1] == filled(
                blank(2),
                #[trigger] sections(events)[k],
            ),
    decreases events.len(),
{
    if events.len() > 0 {
        let front = events.drop_last();
        lemma_front_no_deeper(events, 2);
        lemma_flat_document(front);
        let before = progress(front);
        let after = progress(events);
        let parts = sections(front);
        assert forall|j: int| 0 <= j < before.tree.len() implies 1 <= (#[trigger] before.tree[j]).level
            <= 2 by {
            if j > 0 {
                assert(before.tree[(j - 1) + 1] == filled(blank(2), parts[j - 1]));
                lemma_filled_keeps_links(blank(2), parts[j - 1]);
            }
        }
        if let EventView::Heading(level) = events.last() {
            assert(events[events.len() - 1] == events.last());
            lemma_first_from(before.tree, at_depth(level - 1), 0);
        }
        if events.last() == EventView::Heading(2) {
            assert(after.tree[0].subcommands =~= Seq::new(
                sections(events).len(),
                |k: int| (k + 1) as u32,
            ));
            assert forall|k: int| 0 <= k < sections(events).len() implies after.tree[k + 1]
                == filled(blank(2), #[trigger] sections(events)[k]) by {
                if k < parts.len() {
                    assert(after.tree[k + 1] == before.tree[k + 1]);
                    assert(sections(events)[k] == parts[k]);
                }
            }
        } else if parts.len() > 0 {
            let last = parts.len() - 1;
            assert(before.tree[last + 1] == filled(blank(2), parts[last]));
            assert(sections(events)[last].drop_last() =~= parts[last]);
            assert(sections(events)[last].last() == events.last());
            assert forall|k: int| 0 <= k < sections(events).len() implies after.tree[k + 1]
                == filled(blank(2), #[trigger] sections(events)[k]) by {
                if k < last {
                    assert(after.tree[k + 1] == before.tree[k + 1]);
                    assert(sections(events)[k] == parts[k]);
                }
            }
        }
    }
}

} // verus!
