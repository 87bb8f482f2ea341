//! From a document to the command tree.
//!
//! A document is read as a sequence of events: headings, runs of text and
//! code blocks, in the order of the document. [`compile`] folds the events
//! into a tree; [`parse`] takes the events from a Markdown text.

use vstd::prelude::*;
use comrak::nodes::NodeValue;
use la_arena::Idx;
use crate::arena::{arena_new, idx_raw, index_to_raw};
use crate::runtfile::{
    Command, CommandView, Runtfile, Script, at_depth, lemma_first_from, parent_position,
    parents_first, single_parent,
};
use crate::shape::lemma_progress_ok;
use crate::text::{normalize, normalized, same_text};

verus! {

/// One structural event of a document.
#[derive(Debug, PartialEq)]
pub enum Event {
    /// A run of text.
    Text(String),
    /// A heading opens, at the given depth.
    Heading(u8),
    /// A code block with its info string and its content.
    CodeBlock { info: String, literal: String },
    /// Anything else; the compiler passes over it.
    Other,
}

/// An event as plain values.
pub enum EventView {
    Text(Seq<char>),
    Heading(u8),
    CodeBlock { info: Seq<char>, literal: Seq<char> },
    Other,
}

impl View for Event {
    type V = EventView;

    open spec fn view(&self) -> EventView {
        match self {
            Event::Text(text) => EventView::Text(text@),
            Event::Heading(level) => EventView::Heading(*level),
            Event::CodeBlock { info, literal } => EventView::CodeBlock {
                info: info@,
                literal: literal@,
            },
            Event::Other => EventView::Other,
        }
    }
}

/// A sequence of events as plain values.
pub open spec fn events_view(events: Seq<Event>) -> Seq<EventView> {
    events.map_values(|event: Event| event@)
}

/// The events of a Markdown text: the nodes of the tree that comrak parses
/// it into, walked parents first, each reduced to what the compiler reads
/// of it.
pub uninterp spec fn markdown_events(input: Seq<char>) -> Seq<EventView>;

/// The script that the info string of a code block stands for.
pub open spec fn script_for_tag(tag: Seq<char>) -> Script {
    if tag == "python"@ {
        Script::Python
    } else if tag == "javascript"@ || tag == "js"@ {
        Script::Javascript
    } else if tag == "ruby"@ {
        Script::Ruby
    } else {
        Script::Bash
    }
}

/// A command as a heading of depth `level` opens it: nothing known yet.
pub open spec fn blank(level: u8) -> CommandView {
    CommandView {
        name: Seq::empty(),
        description: Seq::empty(),
        script: Script::Bash,
        code: Seq::empty(),
        level,
        subcommands: Seq::empty(),
    }
}

/// What a run of text does to the command it falls under: the first run
/// names it, the second describes it, later ones are passed over.
pub open spec fn with_text(node: CommandView, text: Seq<char>) -> CommandView {
    if node.name.len() == 0 {
        CommandView { name: normalized(text), ..node }
    } else if node.description.len() == 0 {
        CommandView { description: text, ..node }
    } else {
        node
    }
}

/// What a code block does to the command it falls under: it becomes the
/// command's code, in place of any earlier block.
pub open spec fn with_code(node: CommandView, info: Seq<char>, literal: Seq<char>) -> CommandView {
    CommandView { script: script_for_tag(info), code: literal, ..node }
}

/// `node` with one more child, behind those it has.
pub open spec fn with_child(node: CommandView, child: u32) -> CommandView {
    CommandView { subcommands: node.subcommands.push(child), ..node }
}

/// The compiler between two events: the tree so far, and the position of
/// the command that text and code fall under.
pub struct Progress {
    pub tree: Seq<CommandView>,
    pub cursor: int,
}

/// Before the first event: the root alone, at depth 1.
pub open spec fn start() -> Progress {
    Progress { tree: seq![blank(1)], cursor: 0 }
}

/// One event. A heading is attached under the first command one level
/// above it and takes the cursor; where there is no such command the
/// heading is dropped.
pub open spec fn step(before: Progress, event: EventView) -> Progress {
    match event {
        EventView::Text(text) => Progress {
            tree: before.tree.update(before.cursor, with_text(before.tree[before.cursor], text)),
            cursor: before.cursor,
        },
        EventView::Heading(level) => match parent_position(before.tree, level) {
            Some(parent) => Progress {
                tree: before.tree.push(blank(level)).update(
                    parent,
                    with_child(before.tree[parent], before.tree.len() as u32),
                ),
                cursor: before.tree.len() as int,
            },
            None => before,
        },
        EventView::CodeBlock { info, literal } => Progress {
            tree: before.tree.update(
                before.cursor,
                with_code(before.tree[before.cursor], info, literal),
            ),
            cursor: before.cursor,
        },
        EventView::Other => before,
    }
}

/// The compiler after all of `events`, taken in order.
pub open spec fn progress(events: Seq<EventView>) -> Progress
    decreases events.len(),
{
    if events.len() == 0 {
        start()
    } else {
        step(progress(events.drop_last()), events.last())
    }
}

/// The tree that a sequence of events compiles to.
pub open spec fn compiled(events: Seq<EventView>) -> Seq<CommandView> {
    progress(events).tree
}

/// The script named by the info string of a code block; Bash where the
/// string names none.
pub fn script_for(info: &str) -> (script: Script)
    ensures
        script == script_for_tag(info@),
{
    if same_text(info, "python") {
        Script::Python
    } else if same_text(info, "javascript") || same_text(info, "js") {
        Script::Javascript
    } else if same_text(info, "ruby") {
        Script::Ruby
    } else {
        Script::Bash
    }
}

fn blank_command(level: u8) -> (command: Command)
    ensures
        command@ == blank(level),
{
    Command {
        name: String::new(),
        description: String::new(),
        script: Script::Bash,
        code: String::new(),
        level,
        subcommands: Vec::new(),
    }
}

/// Compiles a sequence of events into a command tree.
///
/// The arena numbers its commands with `u32`, which bounds the number of
/// events.
pub fn compile(events: &Vec<Event>) -> (runtfile: Runtfile)
    requires
        events@.len() <= u32::MAX,
    ensures
        runtfile@ == compiled(events_view(events@)),
        runtfile.wf(),
        parents_first(runtfile@),
        single_parent(runtfile@),
{
    let ghost all = events_view(events@);
    let mut runtfile = Runtfile { commands: arena_new() };
    let mut cursor: Idx<Command> = runtfile.add_command(blank_command(1));
    let mut i: usize = 0;
    assert(all.take(0) =~= Seq::empty());
    while i < events.len()
        invariant
            i <= events@.len() <= u32::MAX,
            all == events_view(events@),
            runtfile@ == progress(all.take(i as int)).tree,
            idx_raw(cursor) == progress(all.take(i as int)).cursor,
        decreases events@.len() - i,
    {
        proof {
            lemma_progress_ok(all.take(i as int));
            assert(all.take(i + 1).drop_last() =~= all.take(i as int));
        }
        match &events[i] {
            Event::Text(text) => {
                let command = runtfile.command_mut(cursor);
                if command.name.as_str().is_empty() {
                    command.name = normalize(text.as_str());
                } else if command.description.as_str().is_empty() {
                    command.description = text.clone();
                }
            },
            Event::Heading(level) => {
                if let Some(parent) = runtfile.find_parent(*level) {
                    proof {
                        lemma_first_from(runtfile@, at_depth(level - 1), 0);
                    }
                    let index = runtfile.add_command(blank_command(*level));
                    let child = index_to_raw(index);
                    let above = runtfile.command_mut(parent);
                    above.subcommands.push(child);
                    cursor = index;
                }
            },
            Event::CodeBlock { info, literal } => {
                let command = runtfile.command_mut(cursor);
                command.code = literal.clone();
                command.script = script_for(info.as_str());
            },
            Event::Other => {},
        }
        i += 1;
    }
    proof {
        assert(all.take(i as int) =~= all);
        lemma_progress_ok(all);
    }
    runtfile
}

/// comrak's `parse_document` with its default options, and the nodes of
/// the tree it returns as `descendants` walks them: each node before its
/// children, children in the order of the document. A text node gives its
/// text, a heading its level, a code block its info string and its content.
#[verifier::external_body]
fn document_events(input: &str) -> (events: Vec<Event>)
    ensures
        events_view(events@) == markdown_events(input@),
{
    let arena = comrak::Arena::new();
    let root = comrak::parse_document(&arena, input, &comrak::Options::default());
    root.descendants().map(|node| match &node.data.borrow().value {
        NodeValue::Text(text) => Event::Text(text.to_string()),
        NodeValue::Heading(heading) => Event::Heading(heading.level),
        NodeValue::CodeBlock(block) => Event::CodeBlock {
            info: block.info.clone(),
            literal: block.literal.clone(),
        },
        _ => Event::Other,
    }).collect()
}

/// Parses a Markdown text into its command tree.
///
/// The text must not hold more events than the arena can number; see
/// [`try_parse`] for a text of which this is not known.
pub fn parse(input: &str) -> (runtfile: Runtfile)
    requires
        markdown_events(input@).len() <= u32::MAX,
    ensures
        runtfile@ == compiled(markdown_events(input@)),
        runtfile.wf(),
        parents_first(runtfile@),
        single_parent(runtfile@),
{
    let events = document_events(input);
    compile(&events)
}

/// Parses a Markdown text into its command tree, unless the text holds
/// more events than the arena can number.
pub fn try_parse(input: &str) -> (parsed: Option<Runtfile>)
    ensures
        match parsed {
            Some(runtfile) => markdown_events(input@).len() <= u32::MAX && runtfile@ == compiled(
                markdown_events(input@),
            ) && runtfile.wf() && parents_first(runtfile@) && single_parent(runtfile@),
            None => markdown_events(input@).len() > u32::MAX,
        },
{
    let events = document_events(input);
    if events.len() <= 0xFFFF_FFFF {
        Some(parse(input))
    } else {
        None
    }
}

} // verus!
