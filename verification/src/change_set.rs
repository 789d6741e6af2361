//! The change set: the file paths that differ between two revisions.
//!
//! A change set is a set. It is kept as a list in which no path stands
//! twice, so its length is the number of changed paths.

use crate::text::{contains, is_substring};
use vstd::prelude::*;

verus! {

/// One side of a change, as version control reports it.
#[derive(Clone, Debug, PartialEq, Eq)]
pub enum DeltaPath {
    /// The change has no path on this side.
    Absent,
    /// The side has a path that is not valid text. Such a path is part of
    /// the change but lies under no package root.
    NotText,
    /// The path, relative to the repository root.
    Text(String),
}

impl DeltaPath {
    /// The path as text, where it has one.
    pub open spec fn text(self) -> Option<Seq<char>> {
        match self {
            DeltaPath::Text(p) => Some(p@),
            _ => None,
        }
    }
}

/// A change brings in `path` when both of its sides have a path and `path`
/// is the text of one of them.
pub open spec fn brings_in(new_side: DeltaPath, old_side: DeltaPath, path: Seq<char>) -> bool {
    &&& !(new_side is Absent)
    &&& !(old_side is Absent)
    &&& (new_side.text() == Some(path) || old_side.text() == Some(path))
}

/// The paths that a list of changes brings in. Each change is a pair of
/// its new side and its old side.
pub open spec fn changed_paths(deltas: Seq<(DeltaPath, DeltaPath)>) -> Set<Seq<char>> {
    Set::new(
        |path: Seq<char>|
            exists|i: int|
                0 <= i < deltas.len() && #[trigger] brings_in(deltas[i].0, deltas[i].1, path),
    )
}

/// Some path of `paths` has `root` within it.
pub open spec fn touches_root(paths: Set<Seq<char>>, root: Seq<char>) -> bool {
    exists|path: Seq<char>| paths.contains(path) && #[trigger] is_substring(root, path)
}

/// A set of changed file paths.
#[derive(Debug)]
pub struct ChangeSet {
    paths: Vec<String>,
}

impl View for ChangeSet {
    type V = Set<Seq<char>>;

    closed spec fn view(&self) -> Set<Seq<char>> {
        self.listed().to_set()
    }
}

impl ChangeSet {
    /// The paths in the order in which they were first inserted.
    pub closed spec fn listed(&self) -> Seq<Seq<char>> {
        Seq::new(self.paths@.len(), |i: int| self.paths@[i]@)
    }

    #[verifier::type_invariant]
    spec fn no_path_twice(&self) -> bool {
        self.listed().no_duplicates()
    }

    /// The set is the set of the listed paths, none of which is listed
    /// twice.
    proof fn lemma_listed(&self)
        requires
            self.listed().no_duplicates(),
        ensures
            self@ == self.listed().to_set(),
            self@.finite(),
            self@.len() == self.listed().len(),
    {
        self.listed().unique_seq_to_set();
        vstd::seq_lib::seq_to_set_is_finite(self.listed());
    }

    /// The empty change set.
    pub fn new() -> (set: ChangeSet)
        ensures
            set@ == Set::<Seq<char>>::empty(),
            set.listed() == Seq::<Seq<char>>::empty(),
    {
        let paths: Vec<String> = Vec::new();
        let set = ChangeSet { paths };
        assert(set.listed() =~= Seq::<Seq<char>>::empty());
        assert(set@ =~= Set::<Seq<char>>::empty());
        set
    }

    /// The number of changed paths.
    pub fn len(&self) -> (n: usize)
        ensures
            n == self@.len(),
            n == self.listed().len(),
            self@.finite(),
    {
        proof {
            use_type_invariant(self);
            self.lemma_listed();
        }
        self.paths.len()
    }

    /// The `i`-th path in order of insertion.
    pub fn get(&self, i: usize) -> (path: &String)
        requires
            i < self.listed().len(),
        ensures
            path@ == self.listed()[i as int],
            self@.contains(path@),
    {
        &self.paths[i]
    }

    /// Whether `path` is in the set.
    pub fn contains(&self, path: &String) -> (found: bool)
        ensures
            found == self@.contains(path@),
    {
        let mut i: usize = 0;
        while i < self.paths.len()
            invariant
                i <= self.paths.len(),
                forall|j: int| 0 <= j < i ==> self.listed()[j] != path@,
            decreases self.paths.len() - i,
        {
            if self.paths[i] == *path {
                assert(self.listed()[i as int] == path@);
                return true;
            }
            i += 1;
        }
        false
    }

    /// Puts `path` into the set. Returns whether it was new.
    pub fn insert(&mut self, path: String) -> (fresh: bool)
        ensures
            final(self)@ == old(self)@.insert(path@),
            fresh == !old(self)@.contains(path@),
            final(self).listed() == if fresh {
                old(self).listed().push(path@)
            } else {
                old(self).listed()
            },
    {
        proof {
            use_type_invariant(&*self);
        }
        if self.contains(&path) {
            assert(self@ =~= self@.insert(path@));
            return false;
        }
        let ghost before = self.listed();
        let ghost added = path@;
        let mut paths: Vec<String> = Vec::new();
        std::mem::swap(&mut self.paths, &mut paths);
        paths.push(path);
        assert(Seq::new(paths@.len(), |i: int| paths@[i]@) =~= before.push(added));
        self.paths = paths;
        proof {
            assert(self.listed() =~= before.push(added));
            before.lemma_push_to_set_commute(added);
        }
        true
    }

    /// Whether some path of the set has `root` within it.
    pub fn touches(&self, root: &str) -> (hit: bool)
        ensures
            hit == touches_root(self@, root@),
    {
        let mut i: usize = 0;
        while i < self.paths.len()
            invariant
                i <= self.paths.len(),
                forall|j: int| 0 <= j < i ==> !is_substring(root@, self.listed()[j]),
            decreases self.paths.len() - i,
        {
            if contains(self.paths[i].as_str(), root) {
                assert(self@.contains(self.listed()[i as int]));
                return true;
            }
            i += 1;
        }
        false
    }

    /// The change set of a list of changes, each a pair of its new side and
    /// its old side: the union of both sides of every change that has a
    /// path on both.
    pub fn from_deltas(deltas: Vec<(DeltaPath, DeltaPath)>) -> (set: ChangeSet)
        ensures
            set@ == changed_paths(deltas@),
    {
        let ghost given = deltas@;
        let mut set = ChangeSet::new();
        for delta in it: deltas
            invariant
                it.seq() == given,
                set@ == changed_paths(given.take(it.index())),
        {
            let ghost done = given.take(it.index());
            let ghost next = given.take(it.index() + 1);
            let ghost before = set@;
            let (new_side, old_side) = delta;
            let ghost new_ghost = new_side;
            let ghost old_ghost = old_side;
            let both = !matches!(new_side, DeltaPath::Absent) && !matches!(
                old_side,
                DeltaPath::Absent
            );
            if both {
                if let DeltaPath::Text(p) = new_side {
                    set.insert(p);
                }
                if let DeltaPath::Text(p) = old_side {
                    set.insert(p);
                }
            }
            proof {
                assert(next[it.index()] == (new_ghost, old_ghost));
                assert forall|path: Seq<char>|
                    set@.contains(path) == changed_paths(next).contains(path) by {
                    if changed_paths(next).contains(path) {
                        let i = choose|i: int|
                            0 <= i < next.len() && #[trigger] brings_in(
                                next[i].0,
                                next[i].1,
                                path,
                            );
                        if i < it.index() {
                            assert(done[i] == next[i]);
                            assert(brings_in(done[i].0, done[i].1, path));
                        }
                    }
                    if before.contains(path) {
                        let i = choose|i: int|
                            0 <= i < done.len() && #[trigger] brings_in(
                                done[i].0,
                                done[i].1,
                                path,
                            );
                        assert(done[i] == next[i]);
                        assert(brings_in(next[i].0, next[i].1, path));
                    }
                    if brings_in(new_ghost, old_ghost, path) {
                        assert(brings_in(next[it.index()].0, next[it.index()].1, path));
                    }
                }
                assert(set@ =~= changed_paths(next));
            }
        }
        assert(given.take(given.len() as int) =~= given);
        set
    }
}

} // verus!
