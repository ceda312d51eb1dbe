//! Running rules on messages.

use vstd::prelude::*;

use crate::actions::{action_views, key_view, Action, ActionView, LogicAction};
use crate::cache::{CacheStore, Scope};
use crate::chain::{action_of, lemma_queue_pop, lend_all, push_owned, queue_of};
use crate::disposition::{Disposition, DispositionView, Verdict};
use crate::evaluation::{evaluates, lemma_answer_runs_first, scope_for};
use crate::flags::lemma_names_push;
use crate::sweep::{
    lemma_marks_after_push, marks_after, marks_after_run, sweeps, verdict_fits, verdict_views,
};
use crate::types::{copy_path, Folder, Message};

verus! {

/// Draws a boolean with `rand::random`, from the generator of the calling
/// thread. Nothing is claimed about the value drawn.
#[verifier::external_body]
fn random_bool() -> (coin: bool) {
    rand::random()
}

/// Draws a number with `rand::random`, from the generator of the calling
/// thread. Nothing is claimed about the value drawn.
#[verifier::external_body]
fn random_u32() -> (number: u32) {
    rand::random()
}

/// Sample logic that now and then answers with one more of its kind.
pub struct Print {
    pub message: String,
    pub some_state: u32,
}

impl Print {
    /// The answer for a draw: nothing where nothing was drawn, else one
    /// more `Print` that carries the number drawn.
    pub fn answer(drawn: Option<u32>) -> (out: Vec<Action<Print>>)
        ensures
            drawn is None ==> out@.len() == 0,
            drawn matches Some(number) ==> out@.len() == 1 && (out@[0] matches Action::Logic(
                next,
            ) && next.message@ == "dynamically created"@ && next.some_state == number),
    {
        let mut out: Vec<Action<Print>> = Vec::new();
        if let Some(number) = drawn {
            out.push(
                Action::Logic(
                    Print { message: "dynamically created".to_string(), some_state: number },
                ),
            );
        }
        out
    }
}

impl LogicAction for Print {
    open spec fn yields(
        &self,
        msg: Message,
        folder: Seq<Seq<char>>,
        out: Seq<ActionView<Print>>,
    ) -> bool {
        out.len() == 0 || (out.len() == 1 && (out[0] matches ActionView::Logic(next)
            && next.message@ == "dynamically created"@))
    }

    fn process_msg(&self, msg: &Message, folder: &Folder) -> (out: Vec<Action<Print>>) {
        let drawn = if random_bool() {
            Some(random_u32())
        } else {
            None
        };
        Print::answer(drawn)
    }
}

/// The view of the disposition that a run ended in, where it ended in one.
pub open spec fn end_view(end: Option<Disposition>) -> Option<DispositionView> {
    match end {
        Some(disposition) => Some(disposition@),
        None => None,
    }
}

/// Runs the rule `actions` on one message of `folder` and says what is to be
/// done with the message.
///
/// The actions run in order. The answer of custom logic runs in its place,
/// before what followed it in the rule. Flag changes add up, a later one
/// deciding where two disagree, and invalidated keys are listed in order. The
/// first move, cache action or stop ends the run, and so does the end of the
/// rule. Custom logic is asked `limit` times at most: where the rule would
/// have to ask once more, the run is given up and the result is `None`.
pub fn process_message<L: LogicAction>(
    message: &Message,
    folder: &Folder,
    actions: &Vec<Action<L>>,
    limit: usize,
) -> (end: Option<Disposition>)
    ensures
        evaluates(
            action_views(actions@),
            *message,
            folder@,
            DispositionView::noop(),
            limit as nat,
            end_view(end),
        ),
        end matches Some(disposition) ==> disposition@.flags.consistent(),
{
    let ghost root = action_views(actions@);
    let mut stack = lend_all(actions);
    let mut so_far = Disposition::new();
    let mut budget: usize = limit;
    loop
        invariant
            root == action_views(actions@),
            so_far@.flags.consistent(),
            forall|end: Option<DispositionView>|
                evaluates(queue_of(stack@), *message, folder@, so_far@, budget as nat, end)
                    ==> evaluates(
                    root,
                    *message,
                    folder@,
                    DispositionView::noop(),
                    limit as nat,
                    end,
                ),
        decreases budget, stack.len(),
    {
        let ghost queue = queue_of(stack@);
        let ghost before = so_far@;
        let ghost stack_before = stack@;
        let item = match stack.pop() {
            Some(item) => item,
            None => {
                assert(evaluates(queue, *message, folder@, before, budget as nat, Some(before)));
                return Some(so_far);
            },
        };
        proof {
            lemma_queue_pop(stack_before);
            assert(stack@ == stack_before.drop_last());
        }
        match action_of(&item) {
            Action::Stop => {
                assert(evaluates(queue, *message, folder@, before, budget as nat, Some(before)));
                return Some(so_far);
            },
            Action::Move(to) => {
                so_far.destination = Some(to.clone());
                assert(evaluates(
                    queue,
                    *message,
                    folder@,
                    before,
                    budget as nat,
                    Some(so_far@),
                ));
                return Some(so_far);
            },
            Action::Cache(key) => {
                let scope = match key {
                    Some(key) => Scope::Key(key.clone()),
                    None => Scope::Folder(copy_path(&folder.path)),
                };
                assert(scope@ == scope_for(key_view(*key), folder@));
                so_far.cache = Some(scope);
                assert(evaluates(
                    queue,
                    *message,
                    folder@,
                    before,
                    budget as nat,
                    Some(so_far@),
                ));
                return Some(so_far);
            },
            Action::Flags(change) => {
                so_far.flags.merge(change);
                assert forall|end: Option<DispositionView>|
                    evaluates(
                        queue_of(stack@),
                        *message,
                        folder@,
                        so_far@,
                        budget as nat,
                        end,
                    ) implies evaluates(
                    root,
                    *message,
                    folder@,
                    DispositionView::noop(),
                    limit as nat,
                    end,
                ) by {
                    assert(evaluates(queue, *message, folder@, before, budget as nat, end));
                }
            },
            Action::InvalidateCache(key) => {
                proof {
                    lemma_names_push(so_far.invalidated@, *key);
                }
                so_far.invalidated.push(key.clone());
                assert forall|end: Option<DispositionView>|
                    evaluates(
                        queue_of(stack@),
                        *message,
                        folder@,
                        so_far@,
                        budget as nat,
                        end,
                    ) implies evaluates(
                    root,
                    *message,
                    folder@,
                    DispositionView::noop(),
                    limit as nat,
                    end,
                ) by {
                    assert(evaluates(queue, *message, folder@, before, budget as nat, end));
                }
            },
            Action::Logic(logic) => {
                if budget == 0 {
                    assert(evaluates(queue, *message, folder@, before, 0, None));
                    return None;
                }
                let ghost rest = queue_of(stack@);
                let out = logic.process_msg(message, folder);
                let ghost answer = action_views(out@);
                push_owned(&mut stack, out);
                assert forall|end: Option<DispositionView>|
                    evaluates(
                        queue_of(stack@),
                        *message,
                        folder@,
                        before,
                        (budget - 1) as nat,
                        end,
                    ) implies evaluates(
                    root,
                    *message,
                    folder@,
                    DispositionView::noop(),
                    limit as nat,
                    end,
                ) by {
                    lemma_answer_runs_first(
                        *logic,
                        answer,
                        rest,
                        *message,
                        folder@,
                        before,
                        budget as nat,
                        end,
                    );
                    assert(queue =~= seq![ActionView::Logic(*logic)] + rest);
                }
                budget -= 1;
            },
        }
    }
}

/// Records in `cache` what the verdict on the message `id` asks for: the
/// keys that its rule invalidated are taken back, then the message is marked
/// if the rule asked for it.
pub fn record_verdict(cache: &mut CacheStore, id: u32, verdict: &Verdict)
    ensures
        final(cache)@ == marks_after_run(old(cache)@, id, verdict@),
{
    if let Verdict::Resolved(disposition) = verdict {
        cache.invalidate_all(&disposition.invalidated);
        if let Some(scope) = &disposition.cache {
            cache.mark_cached(scope.clone(), id);
        }
    }
}

/// Runs the rule `actions` on the messages of `folder`, in order, and gives
/// one verdict for each.
///
/// A message that `cache` holds as filtered, under this folder or under any
/// key, is skipped: its rule does not run. For any other the rule runs as
/// [`process_message`] says, and what it asks of the cache is recorded
/// before the next message is looked at.
pub fn process_folder<L: LogicAction>(
    folder: &Folder,
    actions: &Vec<Action<L>>,
    messages: &Vec<Message>,
    cache: &mut CacheStore,
    limit: usize,
) -> (verdicts: Vec<Verdict>)
    ensures
        sweeps(
            action_views(actions@),
            messages@,
            folder@,
            limit as nat,
            old(cache)@,
            verdict_views(verdicts@),
        ),
        final(cache)@ == marks_after(old(cache)@, messages@, verdict_views(verdicts@)),
{
    let ghost rule = action_views(actions@);
    let mut verdicts: Vec<Verdict> = Vec::new();
    let mut i: usize = 0;
    while i < messages.len()
        invariant
            i <= messages.len(),
            rule == action_views(actions@),
            verdicts@.len() == i,
            cache@ == marks_after(
                old(cache)@,
                messages@.take(i as int),
                verdict_views(verdicts@),
            ),
            forall|j: int|
                0 <= j < i ==> verdict_fits(
                    rule,
                    messages@[j],
                    folder@,
                    limit as nat,
                    marks_after(
                        old(cache)@,
                        messages@.take(j),
                        verdict_views(verdicts@).take(j),
                    ),
                    #[trigger] verdict_views(verdicts@)[j],
                ),
        decreases messages.len() - i,
    {
        let message = &messages[i];
        let verdict = if cache.covers(folder, message.id) {
            Verdict::Skipped
        } else {
            match process_message(message, folder, actions, limit) {
                Some(disposition) => Verdict::Resolved(disposition),
                None => Verdict::Aborted,
            }
        };
        record_verdict(cache, message.id, &verdict);
        let ghost before = verdict_views(verdicts@);
        verdicts.push(verdict);
        proof {
            let after = verdict_views(verdicts@);
            assert(after =~= before.push(verdict@));
            assert(messages@.take(i + 1) == messages@.take(i as int).push(*message));
            lemma_marks_after_push(
                old(cache)@,
                messages@.take(i as int),
                before,
                *message,
                verdict@,
            );
            assert(after.take(i as int) =~= before);
            assert forall|j: int| 0 <= j < i implies after.take(j) == before.take(j) by {
                assert(after.take(j) =~= before.take(j));
            }
        }
        i += 1;
    }
    proof {
        assert(messages@.take(i as int) == messages@);
    }
    verdicts
}

} // verus!
