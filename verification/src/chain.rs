//! The working queue of a run: the actions still to come, some lent by the
//! rule and some owned by the run.

use maybe_owned::MaybeOwned;
use vstd::prelude::*;

use crate::actions::{action_views, Action, ActionView};

verus! {

/// `maybe_owned::MaybeOwned`, a value that is either owned (`Owned`) or lent
/// (`Borrowed`). The declaration lets the verifier read the two variants
/// from the crate that defines them; it adds no claim of its own.
#[verifier::external_type_specification]
#[verifier::reject_recursive_types(T)]
pub struct ExMaybeOwned<'a, T: 'a>(MaybeOwned<'a, T>);

/// The action that a queue item stands for.
pub open spec fn held<'a, L>(item: MaybeOwned<'a, Action<L>>) -> Action<L> {
    match item {
        MaybeOwned::Owned(action) => action,
        MaybeOwned::Borrowed(action) => *action,
    }
}

/// The queue that a stack of items stands for. The item pushed last is the
/// next to run.
pub open spec fn queue_of<'a, L>(stack: Seq<MaybeOwned<'a, Action<L>>>) -> Seq<ActionView<L>> {
    Seq::new(stack.len(), |i: int| held(stack[stack.len() - 1 - i])@)
}

/// Pushing an item puts its action at the head of the queue.
pub proof fn lemma_queue_push<'a, L>(
    stack: Seq<MaybeOwned<'a, Action<L>>>,
    item: MaybeOwned<'a, Action<L>>,
)
    ensures
        queue_of(stack.push(item)) == seq![held(item)@] + queue_of(stack),
{
    assert(queue_of(stack.push(item)) =~= seq![held(item)@] + queue_of(stack));
}

/// Popping an item takes the head off the queue.
pub proof fn lemma_queue_pop<'a, L>(stack: Seq<MaybeOwned<'a, Action<L>>>)
    requires
        stack.len() > 0,
    ensures
        queue_of(stack).len() > 0,
        queue_of(stack)[0] == held(stack.last())@,
        queue_of(stack.drop_last()) == queue_of(stack).skip(1),
{
    assert(queue_of(stack.drop_last()) =~= queue_of(stack).skip(1));
}

/// The action that a queue item stands for.
pub fn action_of<'b, 'a, L>(item: &'b MaybeOwned<'a, Action<L>>) -> (action: &'b Action<L>)
    ensures
        *action == held(*item),
{
    match item {
        MaybeOwned::Owned(action) => action,
        MaybeOwned::Borrowed(action) => *action,
    }
}

/// A stack that lends every action of a rule, the first on top.
pub fn lend_all<'a, L>(actions: &'a Vec<Action<L>>) -> (stack: Vec<MaybeOwned<'a, Action<L>>>)
    ensures
        queue_of(stack@) == action_views(actions@),
{
    let mut stack: Vec<MaybeOwned<'a, Action<L>>> = Vec::new();
    let mut i: usize = actions.len();
    assert(queue_of(stack@) =~= action_views(actions@).skip(i as int));
    while i > 0
        invariant
            i <= actions.len(),
            queue_of(stack@) == action_views(actions@).skip(i as int),
        decreases i,
    {
        i -= 1;
        let item = MaybeOwned::Borrowed(&actions[i]);
        proof {
            lemma_queue_push(stack@, item);
            assert(seq![held(item)@] + action_views(actions@).skip(i + 1) =~= action_views(
                actions@,
            ).skip(i as int));
        }
        stack.push(item);
    }
    assert(action_views(actions@).skip(0) =~= action_views(actions@));
    stack
}

/// Puts the actions `out` on the stack as owned items, the first on top.
pub fn push_owned<'a, L>(stack: &mut Vec<MaybeOwned<'a, Action<L>>>, out: Vec<Action<L>>)
    ensures
        queue_of(final(stack)@) == action_views(out@) + queue_of(old(stack)@),
{
    let mut out = out;
    let ghost all = action_views(out@);
    assert(all.skip(out@.len() as int) + queue_of(stack@) =~= queue_of(stack@));
    while out.len() > 0
        invariant
            out@.len() <= all.len(),
            action_views(out@) == all.take(out@.len() as int),
            queue_of(stack@) == all.skip(out@.len() as int) + queue_of(old(stack)@),
        decreases out.len(),
    {
        let ghost before = out@;
        let action = out.pop().unwrap();
        let item = MaybeOwned::Owned(action);
        proof {
            lemma_queue_push(stack@, item);
            assert(action_views(before)[out@.len() as int] == action@);
            assert(all[out@.len() as int] == action@);
            assert(action_views(out@) =~= all.take(out@.len() as int));
            assert(seq![action@] + all.skip(before.len() as int) =~= all.skip(
                out@.len() as int,
            ));
            assert(seq![action@] + (all.skip(before.len() as int) + queue_of(old(stack)@))
                =~= all.skip(out@.len() as int) + queue_of(old(stack)@));
        }
        stack.push(item);
    }
    assert(all.skip(0) =~= all);
}

} // verus!
