//! The arena that owns the commands of a runtfile.
//!
//! The arena is `la_arena::Arena`; Verus cannot look inside it. This module
//! gives its contents a name, [`arena_nodes`], and states what each method
//! the library calls does to them. None of these statements is proved: they
//! are read off the arena's source.

use vstd::prelude::*;
use la_arena::{Arena, Idx, RawIdx};
use crate::runtfile::{Command, CommandView};

verus! {

#[verifier::external_type_specification]
#[verifier::external_body]
#[verifier::reject_recursive_types(T)]
pub struct ExArena<T>(Arena<T>);

#[verifier::external_type_specification]
#[verifier::external_body]
#[verifier::reject_recursive_types(T)]
pub struct ExIdx<T>(Idx<T>);

/// The commands an arena holds, in the order in which they were allocated,
/// each taken by its view.
pub uninterp spec fn arena_nodes(arena: Arena<Command>) -> Seq<CommandView>;

/// The position that an index points at: the `u32` inside it.
pub uninterp spec fn idx_raw(index: Idx<Command>) -> u32;

/// What `Arena::alloc` hands out for an arena of `len` items: the arena
/// numbers its items with `u32`, so the length is cut to 32 bits.
pub open spec fn next_raw(len: nat) -> u32 {
    (len % 0x1_0000_0000) as u32
}

/// `Arena::new`: an arena that holds nothing.
#[verifier::external_body]
pub(crate) fn arena_new() -> (arena: Arena<Command>)
    ensures
        arena_nodes(arena) == Seq::<CommandView>::empty(),
{
    Arena::new()
}

/// `Arena::alloc`: puts `command` behind the items already there, which stay
/// as they are, and returns the index made from the length before the call.
#[verifier::external_body]
pub(crate) fn arena_alloc(arena: &mut Arena<Command>, command: Command) -> (index: Idx<Command>)
    ensures
        arena_nodes(*final(arena)) == arena_nodes(*old(arena)).push(command@),
        idx_raw(index) == next_raw(arena_nodes(*old(arena)).len()),
{
    arena.alloc(command)
}

/// `Arena::iter`, collected: one entry for each item, in order; the entry at
/// position `k` holds the index made from `k` and a reference to item `k`.
#[verifier::external_body]
pub(crate) fn arena_entries(arena: &Arena<Command>) -> (entries: Vec<(Idx<Command>, &Command)>)
    ensures
        entries@.len() == arena_nodes(*arena).len(),
        forall|k: int|
            0 <= k < entries@.len() ==> idx_raw((#[trigger] entries@[k]).0) == next_raw(k as nat)
                && entries@[k].1@ == arena_nodes(*arena)[k],
{
    arena.iter().collect()
}

/// Indexing an arena by an `Idx`: the item at the index's position. The
/// arena panics on a position it does not hold, so callers must rule that
/// out.
#[verifier::external_body]
pub(crate) fn arena_get(arena: &Arena<Command>, index: Idx<Command>) -> (command: &Command)
    requires
        idx_raw(index) < arena_nodes(*arena).len(),
    ensures
        command@ == arena_nodes(*arena)[idx_raw(index) as int],
{
    &arena[index]
}

/// Indexing an arena mutably by an `Idx`: a borrow of the item at the
/// index's position; whatever the borrower leaves there replaces that item,
/// and no other item changes.
#[verifier::external_body]
pub(crate) fn arena_get_mut(arena: &mut Arena<Command>, index: Idx<Command>) -> (command:
    &mut Command)
    requires
        idx_raw(index) < arena_nodes(*old(arena)).len(),
    ensures
        command@ == arena_nodes(*old(arena))[idx_raw(index) as int],
        arena_nodes(*final(arena)) == arena_nodes(*old(arena)).update(
            idx_raw(index) as int,
            final(command)@,
        ),
{
    &mut arena[index]
}

/// `Idx::into_raw` and `RawIdx::into_u32`: the position inside an index.
#[verifier::external_body]
pub(crate) fn index_to_raw(index: Idx<Command>) -> (raw: u32)
    ensures
        raw == idx_raw(index),
{
    index.into_raw().into_u32()
}

/// `RawIdx::from_u32` and `Idx::from_raw`: the index that points at `raw`.
#[verifier::external_body]
pub(crate) fn index_from_raw(raw: u32) -> (index: Idx<Command>)
    ensures
        idx_raw(index) == raw,
{
    Idx::from_raw(RawIdx::from_u32(raw))
}

} // verus!
