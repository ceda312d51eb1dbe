//! The meaning of a rule: which dispositions its run on a message may end
//! in.

use vstd::prelude::*;

use crate::actions::{ActionView, LogicAction};
use crate::cache::ScopeView;
use crate::disposition::DispositionView;
use crate::types::Message;

verus! {

/// The scope that a cache action asks for in the folder at `folder`: its
/// key, or without a key the folder itself.
pub open spec fn scope_for(key: Option<Seq<char>>, folder: Seq<Seq<char>>) -> ScopeView {
    match key {
        Some(key) => ScopeView::Key(key),
        None => ScopeView::Folder(folder),
    }
}

/// Whether running the actions `queue` in order on the message `msg` of the
/// folder at `folder`, with `so_far` already gathered, may end in `end`.
///
/// Flag changes and invalidations add to what is gathered. A move, a cache
/// action or a stop ends the run, and so does the end of the queue. Custom
/// logic is asked for its answer, which runs in its place, before what
/// followed it. It may be asked `budget` times; where it would have to be
/// asked once more, the run ends in `None`.
pub open spec fn evaluates<L: LogicAction>(
    queue: Seq<ActionView<L>>,
    msg: Message,
    folder: Seq<Seq<char>>,
    so_far: DispositionView,
    budget: nat,
    end: Option<DispositionView>,
) -> bool
    decreases budget, queue.len(),
{
    if queue.len() == 0 {
        end == Some(so_far)
    } else {
        let rest = queue.skip(1);
        match queue[0] {
            ActionView::Stop => end == Some(so_far),
            ActionView::Move(to) => end == Some(
                DispositionView { destination: Some(to), ..so_far },
            ),
            ActionView::Cache(key) => end == Some(
                DispositionView { cache: Some(scope_for(key, folder)), ..so_far },
            ),
            ActionView::Flags(change) => evaluates(
                rest,
                msg,
                folder,
                DispositionView { flags: so_far.flags.followed_by(change), ..so_far },
                budget,
                end,
            ),
            ActionView::InvalidateCache(key) => evaluates(
                rest,
                msg,
                folder,
                DispositionView { invalidated: so_far.invalidated.push(key), ..so_far },
                budget,
                end,
            ),
            ActionView::Logic(logic) => {
                if budget == 0 {
                    end is None
                } else {
                    exists|out: Seq<ActionView<L>>|
                        #[trigger] logic.yields(msg, folder, out) && evaluates(
                            out + rest,
                            msg,
                            folder,
                            so_far,
                            (budget - 1) as nat,
                            end,
                        )
                }
            },
        }
    }
}

/// What a run of `queue` ends in where it ends before any custom logic is
/// met, and `None` where custom logic comes first.
pub open spec fn end_before_logic<L>(
    queue: Seq<ActionView<L>>,
    folder: Seq<Seq<char>>,
    so_far: DispositionView,
) -> Option<DispositionView>
    decreases queue.len(),
{
    if queue.len() == 0 {
        Some(so_far)
    } else {
        let rest = queue.skip(1);
        match queue[0] {
            ActionView::Stop => Some(so_far),
            ActionView::Move(to) => Some(DispositionView { destination: Some(to), ..so_far }),
            ActionView::Cache(key) => Some(
                DispositionView { cache: Some(scope_for(key, folder)), ..so_far },
            ),
            ActionView::Flags(change) => end_before_logic(
                rest,
                folder,
                DispositionView { flags: so_far.flags.followed_by(change), ..so_far },
            ),
            ActionView::InvalidateCache(key) => end_before_logic(
                rest,
                folder,
                DispositionView { invalidated: so_far.invalidated.push(key), ..so_far },
            ),
            ActionView::Logic(_) => None,
        }
    }
}

/// A run that ends before any custom logic is met has one end, whatever the
/// message and however often custom logic may be asked.
pub proof fn lemma_end_before_logic<L: LogicAction>(
    queue: Seq<ActionView<L>>,
    msg: Message,
    folder: Seq<Seq<char>>,
    so_far: DispositionView,
    budget: nat,
    end: Option<DispositionView>,
)
    requires
        end_before_logic(queue, folder, so_far) is Some,
    ensures
        evaluates(queue, msg, folder, so_far, budget, end) <==> end == end_before_logic(
            queue,
            folder,
            so_far,
        ),
    decreases queue.len(),
{
    if queue.len() > 0 {
        let rest = queue.skip(1);
        match queue[0] {
            ActionView::Flags(change) => {
                lemma_end_before_logic(
                    rest,
                    msg,
                    folder,
                    DispositionView { flags: so_far.flags.followed_by(change), ..so_far },
                    budget,
                    end,
                );
            },
            ActionView::InvalidateCache(key) => {
                lemma_end_before_logic(
                    rest,
                    msg,
                    folder,
                    DispositionView { invalidated: so_far.invalidated.push(key), ..so_far },
                    budget,
                    end,
                );
            },
            _ => {},
        }
    }
}

/// Whether `logic` has one answer at most for the message.
pub open spec fn single_valued<L: LogicAction>(
    logic: L,
    msg: Message,
    folder: Seq<Seq<char>>,
) -> bool {
    forall|one: Seq<ActionView<L>>, other: Seq<ActionView<L>>|
        #[trigger] logic.yields(msg, folder, one) && #[trigger] logic.yields(msg, folder, other)
            ==> one == other
}

/// Whether every custom logic that a run of `queue` can come to ask has one
/// answer at most.
pub open spec fn settled<L: LogicAction>(
    queue: Seq<ActionView<L>>,
    msg: Message,
    folder: Seq<Seq<char>>,
    budget: nat,
) -> bool
    decreases budget, queue.len(),
{
    if queue.len() == 0 {
        true
    } else {
        let rest = queue.skip(1);
        match queue[0] {
            ActionView::Stop => true,
            ActionView::Move(_) => true,
            ActionView::Cache(_) => true,
            ActionView::Flags(_) => settled(rest, msg, folder, budget),
            ActionView::InvalidateCache(_) => settled(rest, msg, folder, budget),
            ActionView::Logic(logic) => budget == 0 || (single_valued(logic, msg, folder)
                && forall|out: Seq<ActionView<L>>|
                #[trigger] logic.yields(msg, folder, out) ==> settled(
                    out + rest,
                    msg,
                    folder,
                    (budget - 1) as nat,
                )),
        }
    }
}

/// The answer of custom logic runs in its place: a run of the answer and
/// then the rest is a run of the logic and then the rest.
pub proof fn lemma_answer_runs_first<L: LogicAction>(
    logic: L,
    out: Seq<ActionView<L>>,
    rest: Seq<ActionView<L>>,
    msg: Message,
    folder: Seq<Seq<char>>,
    so_far: DispositionView,
    budget: nat,
    end: Option<DispositionView>,
)
    requires
        budget > 0,
        logic.yields(msg, folder, out),
        evaluates(out + rest, msg, folder, so_far, (budget - 1) as nat, end),
    ensures
        evaluates(seq![ActionView::Logic(logic)] + rest, msg, folder, so_far, budget, end),
{
    let queue = seq![ActionView::Logic(logic)] + rest;
    assert(queue[0] == ActionView::Logic(logic));
    assert(queue.skip(1) =~= rest);
    assert(queue[0]->Logic_0.yields(msg, folder, out));
}

/// Running the same rule twice on the same message gives the same
/// disposition, as far as the custom logic asked gives the same answers.
pub proof fn lemma_one_disposition<L: LogicAction>(
    queue: Seq<ActionView<L>>,
    msg: Message,
    folder: Seq<Seq<char>>,
    so_far: DispositionView,
    budget: nat,
    first: Option<DispositionView>,
    second: Option<DispositionView>,
)
    requires
        settled(queue, msg, folder, budget),
        evaluates(queue, msg, folder, so_far, budget, first),
        evaluates(queue, msg, folder, so_far, budget, second),
    ensures
        first == second,
    decreases budget, queue.len(),
{
    if queue.len() > 0 {
        let rest = queue.skip(1);
        match queue[0] {
            ActionView::Flags(change) => {
                lemma_one_disposition(
                    rest,
                    msg,
                    folder,
                    DispositionView { flags: so_far.flags.followed_by(change), ..so_far },
                    budget,
                    first,
                    second,
                );
            },
            ActionView::InvalidateCache(key) => {
                lemma_one_disposition(
                    rest,
                    msg,
                    folder,
                    DispositionView { invalidated: so_far.invalidated.push(key), ..so_far },
                    budget,
                    first,
                    second,
                );
            },
            ActionView::Logic(logic) => {
                if budget > 0 {
                    let one = choose|out: Seq<ActionView<L>>|
                        #[trigger] logic.yields(msg, folder, out) && evaluates(
                            out + rest,
                            msg,
                            folder,
                            so_far,
                            (budget - 1) as nat,
                            first,
                        );
                    let other = choose|out: Seq<ActionView<L>>|
                        #[trigger] logic.yields(msg, folder, out) && evaluates(
                            out + rest,
                            msg,
                            folder,
                            so_far,
                            (budget - 1) as nat,
                            second,
                        );
                    assert(one == other);
                    lemma_one_disposition(
                        one + rest,
                        msg,
                        folder,
                        so_far,
                        (budget - 1) as nat,
                        first,
                        second,
                    );
                }
            },
            _ => {},
        }
    }
}

/// A run never both moves a message and marks it as filtered.
pub proof fn lemma_move_excludes_cache<L: LogicAction>(
    queue: Seq<ActionView<L>>,
    msg: Message,
    folder: Seq<Seq<char>>,
    so_far: DispositionView,
    budget: nat,
    end: DispositionView,
)
    requires
        so_far.destination is None,
        so_far.cache is None,
        evaluates(queue, msg, folder, so_far, budget, Some(end)),
    ensures
        end.destination is None || end.cache is None,
    decreases budget, queue.len(),
{
    if queue.len() > 0 {
        let rest = queue.skip(1);
        match queue[0] {
            ActionView::Flags(change) => {
                lemma_move_excludes_cache(
                    rest,
                    msg,
                    folder,
                    DispositionView { flags: so_far.flags.followed_by(change), ..so_far },
                    budget,
                    end,
                );
            },
            ActionView::InvalidateCache(key) => {
                lemma_move_excludes_cache(
                    rest,
                    msg,
                    folder,
                    DispositionView { invalidated: so_far.invalidated.push(key), ..so_far },
                    budget,
                    end,
                );
            },
            ActionView::Logic(logic) => {
                if budget > 0 {
                    let out = choose|out: Seq<ActionView<L>>|
                        #[trigger] logic.yields(msg, folder, out) && evaluates(
                            out + rest,
                            msg,
                            folder,
                            so_far,
                            (budget - 1) as nat,
                            Some(end),
                        );
                    lemma_move_excludes_cache(
                        out + rest,
                        msg,
                        folder,
                        so_far,
                        (budget - 1) as nat,
                        end,
                    );
                }
            },
            _ => {},
        }
    }
}

} // verus!
