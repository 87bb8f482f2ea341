//! The command tree: commands, the arena that owns them, and lookups.

use vstd::prelude::*;
use la_arena::{Arena, Idx};
use crate::arena::{
    arena_alloc, arena_entries, arena_get, arena_get_mut, arena_new, arena_nodes, idx_raw,
    index_from_raw, next_raw,
};
use crate::text::same_text;

verus! {

/// What the program says of itself.
pub const ABOUT: &'static str = "Run commands defined in a Runtfile.";

/// The interpreter that a command's code is written for.
#[derive(Debug, Clone, Copy, PartialEq, Eq, Structural)]
pub enum Script {
    Bash,
    Python,
    Javascript,
    Ruby,
}

/// One command of the tree: what a heading of the document and the text
/// and code under it describe. A child is held as its position in the
/// arena of the runtfile.
#[derive(Debug, PartialEq)]
pub struct Command {
    pub name: String,
    pub description: String,
    pub script: Script,
    pub code: String,
    pub level: u8,
    pub subcommands: Vec<u32>,
}

/// What a command is, as plain values.
pub struct CommandView {
    pub name: Seq<char>,
    pub description: Seq<char>,
    pub script: Script,
    pub code: Seq<char>,
    pub level: u8,
    pub subcommands: Seq<u32>,
}

impl View for Command {
    type V = CommandView;

    open spec fn view(&self) -> CommandView {
        CommandView {
            name: self.name@,
            description: self.description@,
            script: self.script,
            code: self.code@,
            level: self.level,
            subcommands: self.subcommands@,
        }
    }
}

impl Clone for Command {
    fn clone(&self) -> (copy: Self)
        ensures
            copy@ == self@,
    {
        Command {
            name: self.name.clone(),
            description: self.description.clone(),
            script: self.script,
            code: self.code.clone(),
            level: self.level,
            subcommands: self.subcommands.clone(),
        }
    }
}

/// The commands of a document, in the order in which they were opened;
/// the first is the root.
#[derive(Debug, PartialEq)]
pub struct Runtfile {
    pub commands: Arena<Command>,
}

impl Clone for Runtfile {
    fn clone(&self) -> (copy: Self)
        ensures
            copy@ == self@,
    {
        let entries = arena_entries(&self.commands);
        let mut copy = Runtfile { commands: arena_new() };
        let mut k: usize = 0;
        while k < entries.len()
            invariant
                k <= entries@.len() == self@.len(),
                forall|j: int| 0 <= j < entries@.len() ==> (#[trigger] entries@[j]).1@ == self@[j],
                copy@ == self@.take(k as int),
            decreases entries@.len() - k,
        {
            copy.add_command(entries[k].1.clone());
            assert(self@.take(k + 1) =~= self@.take(k as int).push(self@[k as int]));
            k += 1;
        }
        assert(self@.take(k as int) =~= self@);
        copy
    }
}

impl View for Runtfile {
    type V = Seq<CommandView>;

    open spec fn view(&self) -> Seq<CommandView> {
        arena_nodes(self.commands)
    }
}

/// The least position at or after `from` whose command satisfies `wanted`.
pub open spec fn first_from(
    tree: Seq<CommandView>,
    wanted: spec_fn(CommandView) -> bool,
    from: int,
) -> Option<int>
    decreases tree.len() - from,
{
    if from < 0 || from >= tree.len() {
        None
    } else if wanted(tree[from]) {
        Some(from)
    } else {
        first_from(tree, wanted, from + 1)
    }
}

/// The position of the first command that satisfies `wanted`.
pub open spec fn first_where(
    tree: Seq<CommandView>,
    wanted: spec_fn(CommandView) -> bool,
) -> Option<int> {
    first_from(tree, wanted, 0)
}

/// `first_from` finds a command that satisfies `wanted` and has none before
/// it, and finds nothing only where there is none.
pub proof fn lemma_first_from(tree: Seq<CommandView>, wanted: spec_fn(CommandView) -> bool, from: int)
    requires
        0 <= from,
    ensures
        match first_from(tree, wanted, from) {
            Some(k) => from <= k < tree.len() && wanted(tree[k]) && forall|j: int|
                from <= j < k ==> !wanted(#[trigger] tree[j]),
            None => forall|j: int| from <= j < tree.len() ==> !wanted(#[trigger] tree[j]),
        },
    decreases tree.len() - from,
{
    if from < tree.len() && !wanted(tree[from]) {
        lemma_first_from(tree, wanted, from + 1);
    }
}

/// Whether a command lies at depth `depth`.
pub open spec fn at_depth(depth: int) -> spec_fn(CommandView) -> bool {
    |node: CommandView| node.level == depth
}

/// Whether a command is called `name`.
pub open spec fn called(name: Seq<char>) -> spec_fn(CommandView) -> bool {
    |node: CommandView| node.name == name
}

/// Where a heading of depth `level` is attached: the first command one
/// level above it.
pub open spec fn parent_position(tree: Seq<CommandView>, level: u8) -> Option<int> {
    first_where(tree, at_depth(level - 1))
}

/// The first command called `name`.
pub open spec fn named_position(tree: Seq<CommandView>, name: Seq<char>) -> Option<int> {
    first_where(tree, called(name))
}

/// Every child of `node` is a command of `tree`, one level below `node`.
pub open spec fn node_fits(tree: Seq<CommandView>, node: CommandView) -> bool {
    forall|k: int|
        0 <= k < node.subcommands.len() ==> (#[trigger] node.subcommands[k]) < tree.len()
            && tree[node.subcommands[k] as int].level == node.level + 1
}

/// A well-formed tree: the first command is the root, at depth 1; every
/// other command lies deeper; the children of a command are commands of
/// the tree, one level below it.
pub open spec fn tree_wf(tree: Seq<CommandView>) -> bool {
    &&& tree.len() >= 1
    &&& tree[0].level == 1
    &&& forall|i: int| 0 < i < tree.len() ==> (#[trigger] tree[i]).level >= 2
    &&& forall|i: int| 0 <= i < tree.len() ==> node_fits(tree, #[trigger] tree[i])
}

/// Every command stands in the arena before its children.
pub open spec fn parents_first(tree: Seq<CommandView>) -> bool {
    forall|i: int, k: int|
        0 <= i < tree.len() && 0 <= k < tree[i].subcommands.len() ==> i
            < #[trigger] tree[i].subcommands[k]
}

/// Whether `child` stands at place `k` among the children of the command
/// at `parent`.
pub open spec fn child_at(tree: Seq<CommandView>, parent: int, k: int, child: int) -> bool {
    0 <= parent < tree.len() && 0 <= k < tree[parent].subcommands.len()
        && tree[parent].subcommands[k] == child
}

/// Whether the command at `child` is a child of some command.
pub open spec fn has_parent(tree: Seq<CommandView>, child: int) -> bool {
    exists|parent: int, k: int| #[trigger] child_at(tree, parent, k, child)
}

/// Every command but the first is a child of exactly one command, at
/// exactly one place among its children.
pub open spec fn single_parent(tree: Seq<CommandView>) -> bool {
    &&& forall|child: int| 0 < child < tree.len() ==> #[trigger] has_parent(tree, child)
    &&& forall|child: int, parent: int, k: int, other: int, m: int|
        #[trigger] child_at(tree, parent, k, child) && #[trigger] child_at(tree, other, m, child)
            ==> parent == other && k == m
}

impl Runtfile {
    /// Whether the commands form a well-formed tree.
    pub open spec fn wf(&self) -> bool {
        tree_wf(self@)
    }

    /// Tests whether the commands form a well-formed tree. A runtfile put
    /// together by hand can be tested with this before it is walked.
    pub fn is_wf(&self) -> (ok: bool)
        ensures
            ok == self.wf(),
    {
        let entries = arena_entries(&self.commands);
        let count = entries.len();
        if count == 0 || entries[0].1.level != 1 {
            return false;
        }
        let mut i: usize = 0;
        while i < count
            invariant
                i <= count == entries@.len() == self@.len(),
                forall|j: int| 0 <= j < entries@.len() ==> (#[trigger] entries@[j]).1@ == self@[j],
                self@[0].level == 1,
                forall|j: int| 0 < j < i ==> (#[trigger] self@[j]).level >= 2,
                forall|j: int| 0 <= j < i ==> node_fits(self@, #[trigger] self@[j]),
            decreases count - i,
        {
            let node = entries[i].1;
            if i > 0 && node.level < 2 {
                return false;
            }
            let mut k: usize = 0;
            while k < node.subcommands.len()
                invariant
                    i < count == entries@.len() == self@.len(),
                    forall|j: int|
                        0 <= j < entries@.len() ==> (#[trigger] entries@[j]).1@ == self@[j],
                    node@ == self@[i as int],
                    k <= node.subcommands@.len(),
                    forall|m: int|
                        0 <= m < k ==> (#[trigger] node.subcommands@[m]) < count
                            && self@[node.subcommands@[m] as int].level == node.level + 1,
                decreases node.subcommands@.len() - k,
            {
                let child = node.subcommands[k] as usize;
                if child >= count || node.level == 255 || entries[child].1.level != node.level
                    + 1 {
                    assert(!node_fits(self@, self@[i as int]));
                    return false;
                }
                k += 1;
            }
            i += 1;
        }
        true
    }

    /// Puts `command` behind the commands already held and returns its index.
    pub fn add_command(&mut self, command: Command) -> (index: Idx<Command>)
        ensures
            final(self)@ == old(self)@.push(command@),
            idx_raw(index) == next_raw(old(self)@.len()),
    {
        arena_alloc(&mut self.commands, command)
    }

    /// The command at `index`.
    pub fn command(&self, index: Idx<Command>) -> (command: &Command)
        requires
            idx_raw(index) < self@.len(),
        ensures
            command@ == self@[idx_raw(index) as int],
    {
        arena_get(&self.commands, index)
    }

    /// A mutable borrow of the command at `index`.
    pub fn command_mut(&mut self, index: Idx<Command>) -> (command: &mut Command)
        requires
            idx_raw(index) < old(self)@.len(),
        ensures
            command@ == old(self)@[idx_raw(index) as int],
            final(self)@ == old(self)@.update(idx_raw(index) as int, final(command)@),
    {
        arena_get_mut(&mut self.commands, index)
    }

    /// The command that a heading of depth `level` is attached to: the first
    /// command, in the order of the arena, whose depth is `level - 1`.
    pub fn find_parent(&self, level: u8) -> (parent: Option<Idx<Command>>)
        ensures
            match parent {
                Some(index) => parent_position(self@, level) matches Some(k) && idx_raw(index)
                    == next_raw(k as nat),
                None => parent_position(self@, level) is None,
            },
    {
        let ghost wanted = at_depth(level - 1);
        let entries = arena_entries(&self.commands);
        let mut k: usize = 0;
        while k < entries.len()
            invariant
                k <= entries@.len() == self@.len(),
                wanted == at_depth(level - 1),
                first_from(self@, wanted, 0) == first_from(self@, wanted, k as int),
                forall|j: int|
                    0 <= j < entries@.len() ==> idx_raw((#[trigger] entries@[j]).0) == next_raw(
                        j as nat,
                    ) && entries@[j].1@ == self@[j],
            decreases entries@.len() - k,
        {
            let entry = &entries[k];
            if level > 0 && entry.1.level == level - 1 {
                return Some(entry.0);
            }
            k += 1;
        }
        None
    }

    /// The first command called `name`, in the order of the arena.
    pub fn find_command_by_name(&self, name: &str) -> (found: Option<&Command>)
        ensures
            match found {
                Some(command) => named_position(self@, name@) matches Some(k) && command@
                    == self@[k],
                None => named_position(self@, name@) is None,
            },
    {
        let ghost wanted = called(name@);
        let entries = arena_entries(&self.commands);
        let mut k: usize = 0;
        while k < entries.len()
            invariant
                k <= entries@.len() == self@.len(),
                wanted == called(name@),
                first_from(self@, wanted, 0) == first_from(self@, wanted, k as int),
                forall|j: int|
                    0 <= j < entries@.len() ==> (#[trigger] entries@[j]).1@ == self@[j],
            decreases entries@.len() - k,
        {
            let entry = &entries[k];
            if same_text(entry.1.name.as_str(), name) {
                return Some(entry.1);
            }
            k += 1;
        }
        None
    }

    /// The first command of the arena: the root of the tree.
    pub fn root_command(&self) -> (root: &Command)
        requires
            self@.len() > 0,
        ensures
            root@ == self@[0],
    {
        arena_get(&self.commands, index_from_raw(0))
    }
}

} // verus!
