//! Plain data that rules and the evaluator exchange.

use vstd::prelude::*;

use crate::actions::Action;
pub use crate::flags::Flags;

verus! {

/// A message, known by an identifier that is stable within its folder.
pub struct Message {
    pub id: u32,
}

/// The segments of a path, as a sequence of character sequences.
pub open spec fn segments(path: Seq<String>) -> Seq<Seq<char>> {
    path.map_values(|segment: String| segment@)
}

/// A copy of a path, segment by segment.
pub fn copy_path(path: &Vec<String>) -> (copy: Vec<String>)
    ensures
        segments(copy@) == segments(path@),
{
    let mut copy: Vec<String> = Vec::new();
    let mut i: usize = 0;
    while i < path.len()
        invariant
            i <= path.len(),
            copy@.len() == i,
            forall|j: int| 0 <= j < i ==> copy@[j]@ == path@[j]@,
        decreases path.len() - i,
    {
        copy.push(path[i].clone());
        i += 1;
    }
    assert(segments(copy@) =~= segments(path@));
    copy
}

/// Whether two paths have the same segments.
pub fn same_path(left: &Vec<String>, right: &Vec<String>) -> (same: bool)
    ensures
        same == (segments(left@) == segments(right@)),
{
    if left.len() != right.len() {
        assert(segments(left@).len() != segments(right@).len());
        return false;
    }
    let mut i: usize = 0;
    while i < left.len()
        invariant
            i <= left.len(),
            left.len() == right.len(),
            forall|j: int| 0 <= j < i ==> left@[j]@ == right@[j]@,
        decreases left.len() - i,
    {
        if left[i] != right[i] {
            proof {
                assert(segments(left@)[i as int] == left@[i as int]@);
                assert(segments(right@)[i as int] == right@[i as int]@);
            }
            return false;
        }
        i += 1;
    }
    assert(segments(left@) =~= segments(right@));
    true
}

/// A folder, known by its path from the root of the mail store.
pub struct Folder {
    pub path: Vec<String>,
}

impl View for Folder {
    type V = Seq<Seq<char>>;

    open spec fn view(&self) -> Seq<Seq<char>> {
        segments(self.path@)
    }
}

impl Folder {
    /// Whether the two folders have the same path.
    pub fn same_as(&self, other: &Folder) -> (same: bool)
        ensures
            same == (self@ == other@),
    {
        same_path(&self.path, &other.path)
    }
}

impl Clone for Folder {
    fn clone(&self) -> (copy: Folder)
        ensures
            copy@ == self@,
    {
        Folder { path: copy_path(&self.path) }
    }
}

/// State that is handed to rules while they are being built.
pub struct Context {}

/// What to filter: folders in the order in which they are looked at, each
/// with its rule.
pub type FilterSpec<L> = Vec<(Folder, Vec<Action<L>>)>;

} // verus!
