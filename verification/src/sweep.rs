//! The meaning of a pass over the messages of one folder.

use vstd::prelude::*;

use crate::actions::{ActionView, LogicAction};
use crate::cache::{covered, without_keys, Mark, ScopeView};
use crate::disposition::{DispositionView, Verdict, VerdictView};
use crate::evaluation::evaluates;
use crate::types::Message;

verus! {

/// What each verdict of a list says, in the same order.
pub open spec fn verdict_views(verdicts: Seq<Verdict>) -> Seq<VerdictView> {
    verdicts.map_values(|verdict: Verdict| verdict@)
}

/// The marks once the verdict on the message `id` has been recorded: the
/// keys that its rule invalidated are taken back, then the message is marked
/// if the rule asked for it.
pub open spec fn marks_after_run(marks: Set<Mark>, id: u32, verdict: VerdictView) -> Set<Mark> {
    match verdict {
        VerdictView::Resolved(disposition) => {
            let cleared = without_keys(marks, disposition.invalidated.to_set());
            match disposition.cache {
                Some(scope) => cleared.insert((scope, id)),
                None => cleared,
            }
        },
        _ => marks,
    }
}

/// The marks once the verdicts on `messages` have been recorded, one after
/// the other.
pub open spec fn marks_after(
    marks: Set<Mark>,
    messages: Seq<Message>,
    verdicts: Seq<VerdictView>,
) -> Set<Mark>
    decreases messages.len(),
{
    if messages.len() == 0 || verdicts.len() != messages.len() {
        marks
    } else {
        marks_after_run(
            marks_after(marks, messages.drop_last(), verdicts.drop_last()),
            messages.last().id,
            verdicts.last(),
        )
    }
}

/// Whether `verdict` is a verdict that the rule may come to on the message
/// while `marks` are the marks: a marked message is skipped, and any other
/// gets what a run of the rule ends in.
pub open spec fn verdict_fits<L: LogicAction>(
    rule: Seq<ActionView<L>>,
    msg: Message,
    folder: Seq<Seq<char>>,
    limit: nat,
    marks: Set<Mark>,
    verdict: VerdictView,
) -> bool {
    if covered(marks, folder, msg.id) {
        verdict is Skipped
    } else {
        match verdict {
            VerdictView::Skipped => false,
            VerdictView::Aborted => evaluates(
                rule,
                msg,
                folder,
                DispositionView::noop(),
                limit,
                None,
            ),
            VerdictView::Resolved(disposition) => evaluates(
                rule,
                msg,
                folder,
                DispositionView::noop(),
                limit,
                Some(disposition),
            ),
        }
    }
}

/// Whether `verdicts` are verdicts that a pass of the rule over `messages`
/// may come to, from the marks `marks`: one verdict for each message, each
/// fitting the marks that the verdicts before it left.
pub open spec fn sweeps<L: LogicAction>(
    rule: Seq<ActionView<L>>,
    messages: Seq<Message>,
    folder: Seq<Seq<char>>,
    limit: nat,
    marks: Set<Mark>,
    verdicts: Seq<VerdictView>,
) -> bool {
    verdicts.len() == messages.len() && forall|i: int|
        0 <= i < messages.len() ==> verdict_fits(
            rule,
            messages[i],
            folder,
            limit,
            marks_after(marks, messages.take(i), verdicts.take(i)),
            #[trigger] verdicts[i],
        )
}

/// Recording one more verdict extends the marks by that verdict.
pub proof fn lemma_marks_after_push(
    marks: Set<Mark>,
    messages: Seq<Message>,
    verdicts: Seq<VerdictView>,
    msg: Message,
    verdict: VerdictView,
)
    requires
        verdicts.len() == messages.len(),
    ensures
        marks_after(marks, messages.push(msg), verdicts.push(verdict)) == marks_after_run(
            marks_after(marks, messages, verdicts),
            msg.id,
            verdict,
        ),
{
    assert(messages.push(msg).drop_last() == messages);
    assert(verdicts.push(verdict).drop_last() == verdicts);
}

/// A message marked under a key is covered in every folder. It stays so
/// while other keys are invalidated. Once its key is invalidated, it is
/// covered no more, if nothing else had marked it.
pub proof fn lemma_cache_round_trip(
    marks: Set<Mark>,
    key: Seq<char>,
    id: u32,
    folder: Seq<Seq<char>>,
    keys: Set<Seq<char>>,
)
    ensures
        covered(marks.insert((ScopeView::Key(key), id)), folder, id),
        !keys.contains(key) ==> covered(
            without_keys(marks.insert((ScopeView::Key(key), id)), keys),
            folder,
            id,
        ),
        keys.contains(key) && !covered(marks, folder, id) ==> !covered(
            without_keys(marks.insert((ScopeView::Key(key), id)), keys),
            folder,
            id,
        ),
{
    let marked = marks.insert((ScopeView::Key(key), id));
    assert(marked.contains((ScopeView::Key(key), id)));
    if !keys.contains(key) {
        assert(without_keys(marked, keys).contains((ScopeView::Key(key), id)));
    }
    if keys.contains(key) && !covered(marks, folder, id) {
        let left = without_keys(marked, keys);
        assert forall|other: Seq<char>| !left.contains((ScopeView::Key(other), id)) by {
            if left.contains((ScopeView::Key(other), id)) {
                assert(marks.contains((ScopeView::Key(other), id)));
            }
        }
    }
}

/// A message whose rule ended in a cache action is skipped by the next pass,
/// and being skipped leaves the marks as they are.
pub proof fn lemma_cached_is_skipped<L: LogicAction>(
    rule: Seq<ActionView<L>>,
    msg: Message,
    folder: Seq<Seq<char>>,
    limit: nat,
    marks: Set<Mark>,
    last: DispositionView,
    next: VerdictView,
)
    requires
        last.cache == Some(ScopeView::Folder(folder)) || last.cache is Some
            && last.cache->0 is Key,
        verdict_fits(
            rule,
            msg,
            folder,
            limit,
            marks_after_run(marks, msg.id, VerdictView::Resolved(last)),
            next,
        ),
    ensures
        next is Skipped,
        marks_after_run(
            marks_after_run(marks, msg.id, VerdictView::Resolved(last)),
            msg.id,
            next,
        ) == marks_after_run(marks, msg.id, VerdictView::Resolved(last)),
{
    let marked = marks_after_run(marks, msg.id, VerdictView::Resolved(last));
    assert(marked.contains((last.cache->0, msg.id)));
    if let Some(ScopeView::Key(key)) = last.cache {
        assert(marked.contains((ScopeView::Key(key), msg.id)));
    }
}

} // verus!
