//! Stacks seen as what a run of pushes and pops leaves behind.

use crate::rpn::Item;
use vstd::prelude::*;

verus! {

/// One call on a stack.
pub enum Call {
    /// `push` of the value.
    Push(Item),
    /// `pop`, which takes the top off or finds the stack empty.
    Pop,
}

/// What `call` makes of stack `s`: `push` appends, `pop` drops the last value and
/// leaves an empty stack as it is.
pub open spec fn apply(s: Seq<Item>, call: Call) -> Seq<Item> {
    match call {
        Call::Push(item) => s.push(item),
        Call::Pop => if s.len() > 0 {
            s.drop_last()
        } else {
            s
        },
    }
}

/// The stack that `calls` leave, made in order on a new stack.
pub open spec fn replay(calls: Seq<Call>) -> Seq<Item>
    decreases calls.len(),
{
    if calls.len() == 0 {
        Seq::empty()
    } else {
        apply(replay(calls.drop_last()), calls.last())
    }
}

/// How many of `calls` are pushes.
pub open spec fn pushes(calls: Seq<Call>) -> nat
    decreases calls.len(),
{
    if calls.len() == 0 {
        0
    } else if calls.last() is Push {
        pushes(calls.drop_last()) + 1
    } else {
        pushes(calls.drop_last())
    }
}

/// How many of `calls` are pops that find a value to take.
pub open spec fn pops(calls: Seq<Call>) -> nat
    decreases calls.len(),
{
    if calls.len() == 0 {
        0
    } else if calls.last() is Pop && replay(calls.drop_last()).len() > 0 {
        pops(calls.drop_last()) + 1
    } else {
        pops(calls.drop_last())
    }
}

/// A stack holds as many values as were pushed and not yet popped. So it is empty if
/// and only if nothing was pushed or every value pushed has been popped.
pub proof fn lemma_empty_iff_all_popped(calls: Seq<Call>)
    ensures
        replay(calls).len() == pushes(calls) - pops(calls),
        replay(calls).len() == 0 <==> pushes(calls) == pops(calls),
        pushes(calls) == 0 ==> replay(calls).len() == 0,
    decreases calls.len(),
{
    if calls.len() > 0 {
        lemma_empty_iff_all_popped(calls.drop_last());
    }
}

} // verus!
