//! The handler blocks of the machine: entering and leaving `try` and
//! `finally` regions, and unwinding to the innermost one when an exception
//! is raised.
use vstd::prelude::*;

verus! {

/// What kind of region a block guards.
#[derive(Clone, Copy, PartialEq, Eq, Structural)]
pub enum BlockKind {
    Try,
    Finally,
}

/// An entered region: where its handler starts, and how deep the value
/// stack was on entry.
#[derive(Clone, Copy, PartialEq, Eq, Structural)]
pub struct Block {
    pub kind: BlockKind,
    pub handler: usize,
    pub stack_size: usize,
}

/// Enters a region whose handler starts at `handler`, with `stack_len`
/// values on the stack.
pub fn setup_block(blocks: &mut Vec<Block>, kind: BlockKind, handler: usize, stack_len: usize)
    ensures
        final(blocks)@ == old(blocks)@.push(Block { kind, handler, stack_size: stack_len }),
{
    blocks.push(Block { kind, handler, stack_size: stack_len });
}

/// Leaves the innermost region; with none entered, nothing changes.
pub fn pop_block(blocks: &mut Vec<Block>)
    ensures
        final(blocks)@ == (if old(blocks)@.len() == 0 {
            old(blocks)@
        } else {
            old(blocks)@.drop_last()
        }),
{
    if blocks.len() > 0 {
        blocks.pop();
    }
}

/// The stack cut back to `size` values, when it holds more.
pub open spec fn cut<V>(stack: Seq<V>, size: nat) -> Seq<V> {
    if size <= stack.len() {
        stack.subrange(0, size as int)
    } else {
        stack
    }
}

/// Handles a raised exception: the innermost region is left, the stack is
/// cut back to its depth on entry and the exception pushed, and the
/// machine goes on at the region's handler, whose start is returned. With
/// no region entered, the exception is handed back and nothing changes.
/// `try` and `finally` regions are unwound alike.
pub fn unwind<V>(stack: &mut Vec<V>, blocks: &mut Vec<Block>, exception: V) -> (res: Result<usize, V>)
    ensures
        old(blocks)@.len() == 0 ==> {
            &&& res == Err::<usize, V>(exception)
            &&& final(stack)@ == old(stack)@
            &&& final(blocks)@ == old(blocks)@
        },
        old(blocks)@.len() > 0 ==> {
            let b = old(blocks)@.last();
            &&& res == Ok::<usize, V>(b.handler)
            &&& final(blocks)@ == old(blocks)@.drop_last()
            &&& final(stack)@ == cut(old(stack)@, b.stack_size as nat).push(exception)
        },
{
    match blocks.pop() {
        Some(block) => {
            stack.truncate(block.stack_size);
            stack.push(exception);
            Ok(block.handler)
        },
        None => Err(exception),
    }
}

} // verus!
