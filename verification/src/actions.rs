//! The steps that a rule is made of.

use vstd::prelude::*;

use crate::flags::Flags;
use crate::types::{Context, Folder, Message};

verus! {

/// A change of flags as two sets of names: those to set and those to clear.
pub struct FlagChange {
    pub set: Set<Seq<char>>,
    pub clear: Set<Seq<char>>,
}

impl FlagChange {
    /// The change that touches no flag.
    pub open spec fn none() -> FlagChange {
        FlagChange { set: Set::empty(), clear: Set::empty() }
    }

    /// No name is both set and cleared.
    pub open spec fn consistent(self) -> bool {
        self.set.disjoint(self.clear)
    }

    /// This change followed by `later`. Where the two disagree on a name,
    /// `later` decides.
    pub open spec fn followed_by(self, later: FlagChange) -> FlagChange {
        FlagChange {
            set: self.set.difference(later.clear).union(later.set),
            clear: self.clear.difference(later.set).union(later.clear),
        }
    }

    /// The flags that a message carries after the change, if it carried
    /// `flags` before.
    pub open spec fn apply(self, flags: Set<Seq<char>>) -> Set<Seq<char>> {
        flags.union(self.set).difference(self.clear)
    }
}

/// Following a change by nothing, or nothing by a change, is that change.
pub proof fn lemma_followed_by_none(change: FlagChange)
    ensures
        change.followed_by(FlagChange::none()) == change,
        FlagChange::none().followed_by(change) == change,
{
    assert(change.followed_by(FlagChange::none()).set =~= change.set);
    assert(change.followed_by(FlagChange::none()).clear =~= change.clear);
    assert(FlagChange::none().followed_by(change).set =~= change.set);
    assert(FlagChange::none().followed_by(change).clear =~= change.clear);
}

/// Two consistent changes in a row make one consistent change.
pub proof fn lemma_followed_by_consistent(first: FlagChange, later: FlagChange)
    requires
        first.consistent(),
        later.consistent(),
    ensures
        first.followed_by(later).consistent(),
{
}

/// Applying two changes in a row is applying the one that `followed_by` makes of
/// them.
pub proof fn lemma_followed_by_applies_in_turn(
    first: FlagChange,
    later: FlagChange,
    flags: Set<Seq<char>>,
)
    ensures
        first.followed_by(later).apply(flags) == later.apply(first.apply(flags)),
{
    assert(first.followed_by(later).apply(flags) =~= later.apply(first.apply(flags)));
}

/// Making one change of three in a row does not depend on which two are
/// joined first.
pub proof fn lemma_followed_by_associative(a: FlagChange, b: FlagChange, c: FlagChange)
    ensures
        a.followed_by(b).followed_by(c) == a.followed_by(b.followed_by(c)),
{
    assert(a.followed_by(b).followed_by(c).set =~= a.followed_by(b.followed_by(c)).set);
    assert(a.followed_by(b).followed_by(c).clear =~= a.followed_by(b.followed_by(c)).clear);
}

/// Flags to set and flags to clear. No name is in both.
pub struct ChangeFlags {
    set: Flags,
    clear: Flags,
}

impl View for ChangeFlags {
    type V = FlagChange;

    closed spec fn view(&self) -> FlagChange {
        FlagChange { set: self.set@, clear: self.clear@ }
    }
}

impl ChangeFlags {
    #[verifier::type_invariant]
    spec fn apart(self) -> bool {
        self.set@.disjoint(self.clear@)
    }

    /// The change that touches no flag.
    pub fn none() -> (change: ChangeFlags)
        ensures
            change@ == FlagChange::none(),
            change@.consistent(),
    {
        ChangeFlags { set: Flags::new(), clear: Flags::new() }
    }

    /// The names to set.
    pub fn set(&self) -> (set: &Flags)
        ensures
            set@ == self@.set,
            self@.consistent(),
    {
        proof {
            use_type_invariant(self);
        }
        &self.set
    }

    /// The names to clear.
    pub fn clear(&self) -> (clear: &Flags)
        ensures
            clear@ == self@.clear,
            self@.consistent(),
    {
        proof {
            use_type_invariant(self);
        }
        &self.clear
    }

    /// Whether the change touches no flag.
    pub fn is_none(&self) -> (idle: bool)
        ensures
            idle == (self@ == FlagChange::none()),
    {
        self.set.is_empty() && self.clear.is_empty()
    }

    /// Lets `later` follow this change.
    pub fn merge(&mut self, later: &ChangeFlags)
        ensures
            final(self)@ == old(self)@.followed_by(later@),
            final(self)@.consistent(),
    {
        proof {
            use_type_invariant(&*self);
            use_type_invariant(later);
        }
        let mut taken = ChangeFlags::none();
        core::mem::swap(self, &mut taken);
        let mut set = taken.set;
        let mut clear = taken.clear;
        set.discard(&later.clear);
        set.absorb(&later.set);
        clear.discard(&later.set);
        clear.absorb(&later.clear);
        *self = ChangeFlags { set, clear };
    }
}

impl Clone for ChangeFlags {
    fn clone(&self) -> (copy: ChangeFlags)
        ensures
            copy@ == self@,
            copy@.consistent(),
    {
        proof {
            use_type_invariant(self);
        }
        ChangeFlags { set: self.set.clone(), clear: self.clear.clone() }
    }
}

/// The refusal to build a change whose two sets share a name.
#[derive(Debug)]
pub struct AmbiguousChangeFlagsError;

impl AmbiguousChangeFlagsError {
    /// What went wrong, in words.
    pub fn message(&self) -> (text: String)
        ensures
            text@ == "set and clear flags must not intersect"@,
    {
        "set and clear flags must not intersect".to_string()
    }
}

/// Makes an [`Action::Flags`] of two sets of flags that share no name.
pub fn make_flags_action<L>(context: Context, set: Flags, clear: Flags) -> (made: Result<
    Action<L>,
    AmbiguousChangeFlagsError,
>)
    ensures
        set@.disjoint(clear@) ==> (made matches Ok(Action::Flags(change)) && change@
            == (FlagChange { set: set@, clear: clear@ })),
        !set@.disjoint(clear@) ==> made is Err,
{
    if set.is_disjoint(&clear) {
        Ok(Action::Flags(ChangeFlags { set, clear }))
    } else {
        Err(AmbiguousChangeFlagsError)
    }
}

/// One step of a rule. `L` is the type of the custom logic that the rule may
/// hold; where a rule mixes several kinds of logic, `L` is an enum of them.
pub enum Action<L> {
    /// Custom logic, which answers with further actions.
    Logic(L),
    /// Move the message to the given folder. Ends the rule.
    Move(Folder),
    /// Set and clear flags, on top of the changes made so far.
    Flags(ChangeFlags),
    /// Consider the message filtered and do not run the rule on it again
    /// while it stays where it is. Ends the rule.
    ///
    /// With a key, the mark holds in every folder and can be taken back by
    /// [`Action::InvalidateCache`] with the same key. Without one, it holds
    /// in the folder in which the rule ran.
    Cache(Option<String>),
    /// Take back the marks that [`Action::Cache`] made under the given key,
    /// in all folders.
    InvalidateCache(String),
    /// End the rule.
    Stop,
}

/// What an [`Action`] says, with names and paths as character sequences.
pub enum ActionView<L> {
    Logic(L),
    Move(Seq<Seq<char>>),
    Flags(FlagChange),
    Cache(Option<Seq<char>>),
    InvalidateCache(Seq<char>),
    Stop,
}

/// The character sequence of a key, where there is one.
pub open spec fn key_view(key: Option<String>) -> Option<Seq<char>> {
    match key {
        Some(k) => Some(k@),
        None => None,
    }
}

impl<L> View for Action<L> {
    type V = ActionView<L>;

    open spec fn view(&self) -> ActionView<L> {
        match *self {
            Action::Logic(logic) => ActionView::Logic(logic),
            Action::Move(folder) => ActionView::Move(folder@),
            Action::Flags(change) => ActionView::Flags(change@),
            Action::Cache(key) => ActionView::Cache(key_view(key)),
            Action::InvalidateCache(key) => ActionView::InvalidateCache(key@),
            Action::Stop => ActionView::Stop,
        }
    }
}

/// What each action of a list says, in the same order.
pub open spec fn action_views<L>(actions: Seq<Action<L>>) -> Seq<ActionView<L>> {
    actions.map_values(|action: Action<L>| action@)
}

/// Custom logic that answers a message with actions to run next.
pub trait LogicAction: Sized {
    /// Whether this logic may answer the message `msg` in the folder at
    /// `folder` with the actions `out`.
    open spec fn yields(
        &self,
        msg: Message,
        folder: Seq<Seq<char>>,
        out: Seq<ActionView<Self>>,
    ) -> bool {
        true
    }

    /// Looks at a message and answers with the actions to run next, which
    /// run before anything that followed this logic in its rule.
    fn process_msg(&self, msg: &Message, folder: &Folder) -> (out: Vec<Action<Self>>)
        ensures
            self.yields(*msg, folder@, action_views(out@)),
    ;

    /// As [`LogicAction::process_msg`], for callers that hold a [`Context`].
    /// Not meant to be overridden.
    fn process(&self, context: &mut Context, folder: &Folder, msg: &Message) -> (out: Vec<
        Action<Self>,
    >)
        ensures
            self.yields(*msg, folder@, action_views(out@)),
    {
        self.process_msg(msg, folder)
    }
}

} // verus!
