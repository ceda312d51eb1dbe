//! Sets of flag names.

use vstd::prelude::*;

verus! {

/// The names that a sequence of strings holds, in the same order.
pub open spec fn names_of(strings: Seq<String>) -> Seq<Seq<char>> {
    strings.map_values(|name: String| name@)
}

/// Pushing a string pushes its name.
pub proof fn lemma_names_push(strings: Seq<String>, name: String)
    ensures
        names_of(strings.push(name)) == names_of(strings).push(name@),
        names_of(strings.push(name)).to_set() == names_of(strings).to_set().insert(name@),
{
    let pushed = names_of(strings.push(name));
    let before = names_of(strings);
    assert(pushed =~= before.push(name@));
    assert forall|n: Seq<char>| pushed.to_set().contains(n) <==> before.to_set().insert(
        name@,
    ).contains(n) by {
        if pushed.contains(n) {
            let i = choose|i: int| 0 <= i < pushed.len() && pushed[i] == n;
            if i < before.len() {
                assert(before[i] == n);
            }
        }
        if before.contains(n) {
            let i = choose|i: int| 0 <= i < before.len() && before[i] == n;
            assert(pushed[i] == n);
        }
        if n == name@ {
            assert(pushed[before.len() as int] == n);
        }
    }
    assert(pushed.to_set() =~= before.to_set().insert(name@));
}

/// Removing the string at one place of a sequence without repeated names
/// removes its name from the set and leaves no name repeated.
pub proof fn lemma_names_remove(strings: Seq<String>, at: int)
    requires
        0 <= at < strings.len(),
        names_of(strings).no_duplicates(),
    ensures
        names_of(strings.remove(at)) == names_of(strings).remove(at),
        names_of(strings.remove(at)).no_duplicates(),
        names_of(strings.remove(at)).to_set() == names_of(strings).to_set().remove(
            strings[at]@,
        ),
{
    let before = names_of(strings);
    let after = names_of(strings.remove(at));
    assert(after =~= before.remove(at));
    assert forall|n: Seq<char>| after.to_set().contains(n) <==> before.to_set().remove(
        strings[at]@,
    ).contains(n) by {
        if after.contains(n) {
            let i = choose|i: int| 0 <= i < after.len() && after[i] == n;
            let j = if i < at { i } else { i + 1 };
            assert(before[j] == n);
            assert(before[at] == strings[at]@);
            assert(j != at);
            assert(before.contains(n));
        }
        if before.contains(n) && n != strings[at]@ {
            let i = choose|i: int| 0 <= i < before.len() && before[i] == n;
            if i < at {
                assert(after[i] == n);
            } else {
                assert(after[i - 1] == n);
            }
        }
    }
    assert(after.to_set() =~= before.to_set().remove(strings[at]@));
}

/// The names among the first `count` strings of a sequence.
pub open spec fn names_before(strings: Seq<String>, count: int) -> Set<Seq<char>> {
    names_of(strings.take(count)).to_set()
}

/// How `names_before` grows from no string to all of them.
pub proof fn lemma_names_before(strings: Seq<String>, count: int)
    requires
        0 <= count <= strings.len(),
    ensures
        names_before(strings, 0) == Set::<Seq<char>>::empty(),
        names_before(strings, strings.len() as int) == names_of(strings).to_set(),
        count < strings.len() ==> names_before(strings, count + 1) == names_before(
            strings,
            count,
        ).insert(strings[count]@),
{
    assert(names_before(strings, 0) =~= Set::<Seq<char>>::empty());
    assert(strings.take(strings.len() as int) == strings);
    if count < strings.len() {
        assert(strings.take(count + 1) == strings.take(count).push(strings[count]));
        lemma_names_push(strings.take(count), strings[count]);
    }
}

/// An unordered set of flag names. A name is held at most once.
pub struct Flags {
    names: Vec<String>,
}

impl View for Flags {
    type V = Set<Seq<char>>;

    closed spec fn view(&self) -> Set<Seq<char>> {
        names_of(self.names@).to_set()
    }
}

impl Flags {
    #[verifier::type_invariant]
    spec fn distinct(self) -> bool {
        names_of(self.names@).no_duplicates()
    }

    /// The empty set.
    pub fn new() -> (flags: Flags)
        ensures
            flags@ == Set::<Seq<char>>::empty(),
    {
        let flags = Flags { names: Vec::new() };
        assert(flags@ =~= Set::<Seq<char>>::empty());
        flags
    }

    /// A flag set is always finite.
    pub proof fn lemma_finite(&self)
        ensures
            self@.finite(),
    {
        broadcast use vstd::seq_lib::seq_to_set_is_finite;

    }

    /// The number of names held.
    pub fn len(&self) -> (count: usize)
        ensures
            count == self@.len(),
    {
        proof {
            use_type_invariant(self);
            names_of(self.names@).unique_seq_to_set();
        }
        self.names.len()
    }

    /// Whether no name is held.
    pub fn is_empty(&self) -> (empty: bool)
        ensures
            empty == (self@ == Set::<Seq<char>>::empty()),
    {
        proof {
            if self.names@.len() == 0 {
                assert(self@ =~= Set::<Seq<char>>::empty());
            } else {
                assert(names_of(self.names@)[0] == self.names@[0]@);
                assert(self@.contains(self.names@[0]@));
            }
        }
        self.names.len() == 0
    }

    /// Moves the names out and leaves the set empty.
    fn take_names(&mut self) -> (names: Vec<String>)
        ensures
            names@ == old(self).names@,
            names_of(names@).no_duplicates(),
            final(self).names@.len() == 0,
    {
        proof {
            use_type_invariant(&*self);
        }
        let mut taken = Flags { names: Vec::new() };
        core::mem::swap(self, &mut taken);
        taken.names
    }

    /// The place at which `name` is held, if it is held.
    fn position(&self, name: &String) -> (place: Option<usize>)
        ensures
            place matches Some(at) ==> at < self.names@.len() && self.names@[at as int]@ == name@,
            place is None ==> !self@.contains(name@),
    {
        let mut i: usize = 0;
        while i < self.names.len()
            invariant
                i <= self.names.len(),
                forall|j: int| 0 <= j < i ==> self.names@[j]@ != name@,
            decreases self.names.len() - i,
        {
            if self.names[i] == *name {
                return Some(i);
            }
            i += 1;
        }
        proof {
            if names_of(self.names@).contains(name@) {
                let j = choose|j: int|
                    0 <= j < names_of(self.names@).len() && names_of(self.names@)[j] == name@;
                assert(self.names@[j]@ == name@);
            }
        }
        None
    }

    /// Whether `name` is held.
    pub fn contains(&self, name: &String) -> (held: bool)
        ensures
            held == self@.contains(name@),
    {
        match self.position(name) {
            Some(at) => {
                proof {
                    assert(names_of(self.names@)[at as int] == name@);
                }
                true
            },
            None => false,
        }
    }

    /// Adds `name`. Says whether it was new.
    pub fn insert(&mut self, name: String) -> (fresh: bool)
        ensures
            final(self)@ == old(self)@.insert(name@),
            fresh == !old(self)@.contains(name@),
    {
        if self.contains(&name) {
            assert(self@.insert(name@) =~= self@);
            false
        } else {
            let mut names = self.take_names();
            proof {
                lemma_names_push(names@, name);
            }
            names.push(name);
            *self = Flags { names };
            true
        }
    }

    /// Adds every name of `other`.
    pub fn absorb(&mut self, other: &Flags)
        ensures
            final(self)@ == old(self)@.union(other@),
    {
        let mut i: usize = 0;
        proof {
            lemma_names_before(other.names@, 0);
            assert(self@.union(names_before(other.names@, 0)) =~= self@);
        }
        while i < other.names.len()
            invariant
                i <= other.names.len(),
                self@ == old(self)@.union(names_before(other.names@, i as int)),
            decreases other.names.len() - i,
        {
            proof {
                lemma_names_before(other.names@, i as int);
            }
            self.insert(other.names[i].clone());
            i += 1;
            assert(self@ =~= old(self)@.union(names_before(other.names@, i as int)));
        }
        proof {
            lemma_names_before(other.names@, i as int);
        }
    }

    /// Takes out every name of `other`.
    pub fn discard(&mut self, other: &Flags)
        ensures
            final(self)@ == old(self)@.difference(other@),
    {
        let mut i: usize = 0;
        proof {
            lemma_names_before(other.names@, 0);
            assert(self@.difference(names_before(other.names@, 0)) =~= self@);
        }
        while i < other.names.len()
            invariant
                i <= other.names.len(),
                self@ == old(self)@.difference(names_before(other.names@, i as int)),
            decreases other.names.len() - i,
        {
            proof {
                lemma_names_before(other.names@, i as int);
            }
            self.remove(&other.names[i]);
            i += 1;
            assert(self@ =~= old(self)@.difference(names_before(other.names@, i as int)));
        }
        proof {
            lemma_names_before(other.names@, i as int);
        }
    }

    /// Whether the two sets share no name.
    pub fn is_disjoint(&self, other: &Flags) -> (apart: bool)
        ensures
            apart == self@.disjoint(other@),
    {
        let mut i: usize = 0;
        proof {
            lemma_names_before(other.names@, 0);
        }
        while i < other.names.len()
            invariant
                i <= other.names.len(),
                self@.disjoint(names_before(other.names@, i as int)),
            decreases other.names.len() - i,
        {
            proof {
                lemma_names_before(other.names@, i as int);
            }
            if self.contains(&other.names[i]) {
                proof {
                    assert(names_of(other.names@)[i as int] == other.names@[i as int]@);
                    assert(other@.contains(other.names@[i as int]@));
                }
                return false;
            }
            i += 1;
        }
        proof {
            lemma_names_before(other.names@, i as int);
        }
        true
    }

    /// Whether every name of this set is held by `other`.
    pub fn is_subset(&self, other: &Flags) -> (within: bool)
        ensures
            within == self@.subset_of(other@),
    {
        let mut i: usize = 0;
        proof {
            lemma_names_before(self.names@, 0);
        }
        while i < self.names.len()
            invariant
                i <= self.names.len(),
                names_before(self.names@, i as int).subset_of(other@),
            decreases self.names.len() - i,
        {
            proof {
                lemma_names_before(self.names@, i as int);
            }
            if !other.contains(&self.names[i]) {
                proof {
                    assert(names_of(self.names@)[i as int] == self.names@[i as int]@);
                    assert(self@.contains(self.names@[i as int]@));
                }
                return false;
            }
            i += 1;
        }
        proof {
            lemma_names_before(self.names@, i as int);
        }
        true
    }

    /// Whether the two sets hold the same names.
    pub fn same_as(&self, other: &Flags) -> (same: bool)
        ensures
            same == (self@ == other@),
    {
        let same = self.is_subset(other) && other.is_subset(self);
        proof {
            if same {
                assert(self@ =~= other@);
            }
        }
        same
    }

    /// The set of the names that `names` holds; a repeated name counts once.
    pub fn from_names(names: Vec<String>) -> (flags: Flags)
        ensures
            flags@ == names_of(names@).to_set(),
    {
        let mut flags = Flags::new();
        let mut i: usize = 0;
        proof {
            lemma_names_before(names@, 0);
        }
        while i < names.len()
            invariant
                i <= names.len(),
                flags@ == names_before(names@, i as int),
            decreases names.len() - i,
        {
            proof {
                lemma_names_before(names@, i as int);
            }
            flags.insert(names[i].clone());
            i += 1;
        }
        proof {
            lemma_names_before(names@, i as int);
        }
        flags
    }

    /// The names held, each once, in no particular order.
    pub fn names(&self) -> (names: Vec<String>)
        ensures
            names_of(names@).to_set() == self@,
            names_of(names@).no_duplicates(),
    {
        let mut names: Vec<String> = Vec::new();
        let mut i: usize = 0;
        while i < self.names.len()
            invariant
                i <= self.names.len(),
                names@.len() == i,
                forall|j: int| 0 <= j < i ==> names@[j]@ == self.names@[j]@,
            decreases self.names.len() - i,
        {
            names.push(self.names[i].clone());
            i += 1;
        }
        proof {
            use_type_invariant(self);
            assert(names_of(names@) =~= names_of(self.names@));
        }
        names
    }

    /// Takes `name` out. Says whether it was held.
    pub fn remove(&mut self, name: &String) -> (was_held: bool)
        ensures
            final(self)@ == old(self)@.remove(name@),
            was_held == old(self)@.contains(name@),
    {
        match self.position(name) {
            Some(at) => {
                let mut names = self.take_names();
                proof {
                    lemma_names_remove(names@, at as int);
                    assert(names_of(names@)[at as int] == name@);
                }
                names.remove(at);
                *self = Flags { names };
                true
            },
            None => {
                assert(self@.remove(name@) =~= self@);
                false
            },
        }
    }
}

impl Clone for Flags {
    fn clone(&self) -> (copy: Flags)
        ensures
            copy@ == self@,
    {
        let names = self.names();
        Flags { names }
    }
}

} // verus!
