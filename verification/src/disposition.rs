//! What running a rule on a message comes to.

use vstd::prelude::*;

use crate::actions::{ChangeFlags, FlagChange};
use crate::cache::{Scope, ScopeView};
use crate::flags::names_of;
use crate::types::Folder;

verus! {

/// What is to be done with a message once its rule has run.
pub struct Disposition {
    /// The folder to move the message to, if it is to move.
    pub destination: Option<Folder>,
    /// The flags to set and to clear.
    pub flags: ChangeFlags,
    /// The scope under which to mark the message as filtered, if it is to
    /// be marked.
    pub cache: Option<Scope>,
    /// The keys that the rule invalidated, in the order in which it did.
    pub invalidated: Vec<String>,
}

/// A [`Disposition`] with its names, keys and paths as character sequences.
pub struct DispositionView {
    pub destination: Option<Seq<Seq<char>>>,
    pub flags: FlagChange,
    pub cache: Option<ScopeView>,
    pub invalidated: Seq<Seq<char>>,
}

impl DispositionView {
    /// Nothing is to be done.
    pub open spec fn noop() -> DispositionView {
        DispositionView {
            destination: None,
            flags: FlagChange::none(),
            cache: None,
            invalidated: Seq::empty(),
        }
    }
}

/// The path of a folder, where there is one.
pub open spec fn destination_view(destination: Option<Folder>) -> Option<Seq<Seq<char>>> {
    match destination {
        Some(folder) => Some(folder@),
        None => None,
    }
}

/// The view of a scope, where there is one.
pub open spec fn cache_view(cache: Option<Scope>) -> Option<ScopeView> {
    match cache {
        Some(scope) => Some(scope@),
        None => None,
    }
}

impl View for Disposition {
    type V = DispositionView;

    open spec fn view(&self) -> DispositionView {
        DispositionView {
            destination: destination_view(self.destination),
            flags: self.flags@,
            cache: cache_view(self.cache),
            invalidated: names_of(self.invalidated@),
        }
    }
}

impl Disposition {
    /// The disposition that leaves the message as it is.
    pub fn new() -> (idle: Disposition)
        ensures
            idle@ == DispositionView::noop(),
    {
        let idle = Disposition {
            destination: None,
            flags: ChangeFlags::none(),
            cache: None,
            invalidated: Vec::new(),
        };
        assert(names_of(idle.invalidated@) =~= Seq::<Seq<char>>::empty());
        idle
    }

    /// Whether nothing is to be done.
    pub fn is_noop(&self) -> (idle: bool)
        ensures
            idle == (self@ == DispositionView::noop()),
    {
        proof {
            assert(names_of(self.invalidated@).len() == self.invalidated@.len());
            if self.invalidated@.len() == 0 {
                assert(names_of(self.invalidated@) =~= Seq::<Seq<char>>::empty());
            }
        }
        self.destination.is_none() && self.flags.is_none() && self.cache.is_none()
            && self.invalidated.len() == 0
    }
}

/// How the run of a rule on one message ended.
pub enum Verdict {
    /// The message was marked as filtered, and the rule did not run.
    Skipped,
    /// The rule asked custom logic more often than it was allowed to, and
    /// nothing is to be done with the message.
    Aborted,
    /// The rule ran to its end.
    Resolved(Disposition),
}

/// A [`Verdict`] over the view of its disposition.
pub enum VerdictView {
    Skipped,
    Aborted,
    Resolved(DispositionView),
}

impl View for Verdict {
    type V = VerdictView;

    open spec fn view(&self) -> VerdictView {
        match *self {
            Verdict::Skipped => VerdictView::Skipped,
            Verdict::Aborted => VerdictView::Aborted,
            Verdict::Resolved(disposition) => VerdictView::Resolved(disposition@),
        }
    }
}

} // verus!
