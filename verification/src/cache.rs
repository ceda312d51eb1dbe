//! The record of messages that need no further filtering.

use vstd::prelude::*;

use crate::flags::{lemma_names_before, names_before, names_of};
use crate::types::{copy_path, same_path, segments, Folder};

verus! {

/// How far a mark reaches: one folder, or every folder under a key.
pub enum Scope {
    /// The folder at the given path.
    Folder(Vec<String>),
    /// Every folder, until the key is invalidated.
    Key(String),
}

/// A [`Scope`] with its path or key as character sequences.
pub enum ScopeView {
    Folder(Seq<Seq<char>>),
    Key(Seq<char>),
}

impl View for Scope {
    type V = ScopeView;

    open spec fn view(&self) -> ScopeView {
        match *self {
            Scope::Folder(path) => ScopeView::Folder(segments(path@)),
            Scope::Key(key) => ScopeView::Key(key@),
        }
    }
}

impl Scope {
    /// Whether the two scopes reach equally far.
    pub fn same_as(&self, other: &Scope) -> (same: bool)
        ensures
            same == (self@ == other@),
    {
        match (self, other) {
            (Scope::Folder(left), Scope::Folder(right)) => same_path(left, right),
            (Scope::Key(left), Scope::Key(right)) => *left == *right,
            _ => false,
        }
    }
}

impl Clone for Scope {
    fn clone(&self) -> (copy: Scope)
        ensures
            copy@ == self@,
    {
        match self {
            Scope::Folder(path) => Scope::Folder(copy_path(path)),
            Scope::Key(key) => Scope::Key(key.clone()),
        }
    }
}

/// A mark: a scope and the identifier of the message marked.
pub type Mark = (ScopeView, u32);

/// Whether a message of the folder at `folder` is marked, under that folder
/// or under any key.
pub open spec fn covered(marks: Set<Mark>, folder: Seq<Seq<char>>, id: u32) -> bool {
    marks.contains((ScopeView::Folder(folder), id)) || exists|key: Seq<char>| #[trigger]
        marks.contains((ScopeView::Key(key), id))
}

/// The marks that are left once every key in `keys` is invalidated.
pub open spec fn without_keys(marks: Set<Mark>, keys: Set<Seq<char>>) -> Set<Mark> {
    Set::new(
        |mark: Mark|
            marks.contains(mark) && !(mark.0 matches ScopeView::Key(key) && keys.contains(key)),
    )
}

/// The marks that one sequence of entries holds.
pub open spec fn marks_of(entries: Seq<(Scope, u32)>) -> Set<Mark> {
    Set::new(
        |mark: Mark|
            exists|i: int|
                0 <= i < entries.len() && (#[trigger] entries[i]).0@ == mark.0 && entries[i].1
                    == mark.1,
    )
}

/// One more entry is one more mark.
pub proof fn lemma_marks_push(entries: Seq<(Scope, u32)>, entry: (Scope, u32))
    ensures
        marks_of(entries.push(entry)) == marks_of(entries).insert((entry.0@, entry.1)),
{
    let after = entries.push(entry);
    assert forall|mark: Mark|
        marks_of(after).contains(mark) <==> marks_of(entries).insert(
            (entry.0@, entry.1),
        ).contains(mark) by {
        if marks_of(after).contains(mark) {
            let i = choose|i: int|
                0 <= i < after.len() && (#[trigger] after[i]).0@ == mark.0 && after[i].1
                    == mark.1;
            if i < entries.len() {
                assert(entries[i] == after[i]);
            }
        }
        if marks_of(entries).contains(mark) {
            let i = choose|i: int|
                0 <= i < entries.len() && (#[trigger] entries[i]).0@ == mark.0 && entries[i].1
                    == mark.1;
            assert(after[i] == entries[i]);
        }
        if mark == (entry.0@, entry.1) {
            assert(after[entries.len() as int] == entry);
        }
    }
    assert(marks_of(after) =~= marks_of(entries).insert((entry.0@, entry.1)));
}

/// Remembers which messages were marked as filtered, and under what scope.
pub struct CacheStore {
    entries: Vec<(Scope, u32)>,
}

impl View for CacheStore {
    type V = Set<Mark>;

    closed spec fn view(&self) -> Set<Mark> {
        marks_of(self.entries@)
    }
}

impl CacheStore {
    /// A store without marks.
    pub fn new() -> (store: CacheStore)
        ensures
            store@ == Set::<Mark>::empty(),
    {
        let store = CacheStore { entries: Vec::new() };
        assert(store@ =~= Set::<Mark>::empty());
        store
    }

    /// Whether the message `id` is marked under exactly `scope`.
    pub fn is_cached(&self, scope: &Scope, id: u32) -> (marked: bool)
        ensures
            marked == self@.contains((scope@, id)),
    {
        let mut i: usize = 0;
        while i < self.entries.len()
            invariant
                i <= self.entries.len(),
                forall|j: int|
                    0 <= j < i ==> !((#[trigger] self.entries@[j]).0@ == scope@
                        && self.entries@[j].1 == id),
            decreases self.entries.len() - i,
        {
            if self.entries[i].1 == id && self.entries[i].0.same_as(scope) {
                return true;
            }
            i += 1;
        }
        false
    }

    /// Whether the message `id` of `folder` is marked, under that folder or
    /// under any key.
    pub fn covers(&self, folder: &Folder, id: u32) -> (marked: bool)
        ensures
            marked == covered(self@, folder@, id),
    {
        let mut i: usize = 0;
        while i < self.entries.len()
            invariant
                i <= self.entries.len(),
                forall|j: int|
                    0 <= j < i ==> !((#[trigger] self.entries@[j]).1 == id && (
                    self.entries@[j].0@ is Key || self.entries@[j].0@ == ScopeView::Folder(
                        folder@,
                    ))),
            decreases self.entries.len() - i,
        {
            if self.entries[i].1 == id {
                let hit = match &self.entries[i].0 {
                    Scope::Key(_) => true,
                    Scope::Folder(path) => same_path(path, &folder.path),
                };
                if hit {
                    proof {
                        let entry = self.entries@[i as int];
                        assert(self@.contains((entry.0@, id)));
                        if let ScopeView::Key(key) = entry.0@ {
                            assert(self@.contains((ScopeView::Key(key), id)));
                        }
                    }
                    return true;
                }
            }
            i += 1;
        }
        false
    }

    /// Marks the message `id` under `scope`.
    pub fn mark_cached(&mut self, scope: Scope, id: u32)
        ensures
            final(self)@ == old(self)@.insert((scope@, id)),
    {
        if !self.is_cached(&scope, id) {
            proof {
                lemma_marks_push(self.entries@, (scope, id));
            }
            self.entries.push((scope, id));
        } else {
            assert(self@ =~= old(self)@.insert((scope@, id)));
        }
    }

    /// Takes back every mark made under `key`, whatever the folder.
    pub fn invalidate(&mut self, key: &String)
        ensures
            final(self)@ == without_keys(old(self)@, set![key@]),
    {
        let mut kept: Vec<(Scope, u32)> = Vec::new();
        let mut i: usize = 0;
        assert(marks_of(kept@) =~= without_keys(marks_of(self.entries@.take(0)), set![key@]));
        while i < self.entries.len()
            invariant
                i <= self.entries.len(),
                self.entries@ == old(self).entries@,
                marks_of(kept@) == without_keys(
                    marks_of(self.entries@.take(i as int)),
                    set![key@],
                ),
            decreases self.entries.len() - i,
        {
            let under_key = match &self.entries[i].0 {
                Scope::Key(other) => *other == *key,
                Scope::Folder(_) => false,
            };
            let ghost seen = self.entries@.take(i as int);
            let ghost entry = self.entries@[i as int];
            proof {
                assert(self.entries@.take(i + 1) == seen.push(entry));
                lemma_marks_push(seen, entry);
            }
            if !under_key {
                let copy = (self.entries[i].0.clone(), self.entries[i].1);
                proof {
                    lemma_marks_push(kept@, copy);
                }
                kept.push(copy);
            }
            i += 1;
            assert(marks_of(kept@) =~= without_keys(
                marks_of(self.entries@.take(i as int)),
                set![key@],
            ));
        }
        assert(self.entries@.take(i as int) == self.entries@);
        self.entries = kept;
    }

    /// Takes back every mark made under one of `keys`.
    pub fn invalidate_all(&mut self, keys: &Vec<String>)
        ensures
            final(self)@ == without_keys(old(self)@, names_of(keys@).to_set()),
    {
        let mut i: usize = 0;
        proof {
            lemma_names_before(keys@, 0);
            assert(self@ =~= without_keys(self@, names_before(keys@, 0)));
        }
        while i < keys.len()
            invariant
                i <= keys.len(),
                self@ == without_keys(old(self)@, names_before(keys@, i as int)),
            decreases keys.len() - i,
        {
            proof {
                lemma_names_before(keys@, i as int);
            }
            self.invalidate(&keys[i]);
            i += 1;
            assert(self@ =~= without_keys(old(self)@, names_before(keys@, i as int)));
        }
        proof {
            lemma_names_before(keys@, i as int);
        }
    }
}

} // verus!
