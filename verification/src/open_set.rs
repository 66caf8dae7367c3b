//! The set of paths whose children are shown.

use vstd::prelude::*;
use crate::identifier::{copy_path, keys, lawful, same_path};

verus! {

/// A set of paths. Each path is held once.
#[derive(Debug)]
pub struct OpenSet<Identifier> {
    paths: Vec<Vec<Identifier>>,
}

impl<Identifier: DeepView> View for OpenSet<Identifier> {
    type V = Set<Seq<Identifier::V>>;

    closed spec fn view(&self) -> Set<Seq<Identifier::V>> {
        Set::new(|path: Seq<Identifier::V>| holds(self.paths@, path))
    }
}

/// Whether one of the paths has the given keys.
pub open spec fn holds<Identifier: DeepView>(
    paths: Seq<Vec<Identifier>>,
    path: Seq<Identifier::V>,
) -> bool {
    exists|i: int| 0 <= i < paths.len() && keys(#[trigger] paths[i]@) == path
}

/// Whether no two of the paths have the same keys.
pub open spec fn distinct<Identifier: DeepView>(paths: Seq<Vec<Identifier>>) -> bool {
    forall|i: int, j: int|
        0 <= i < j < paths.len() ==> keys(#[trigger] paths[i]@) != keys(#[trigger] paths[j]@)
}

impl<Identifier: PartialEq + Clone + DeepView> Clone for OpenSet<Identifier> {
    /// A copy of the set: where copies of identifiers stand for the same,
    /// it holds the same paths.
    fn clone(&self) -> (r: Self)
        ensures
            lawful::<Identifier>() ==> r@ == self@ && (self.wf() ==> r.wf()),
    {
        let r = OpenSet { paths: self.paths.clone() };
        proof {
            if lawful::<Identifier>() {
                assert forall|i: int| 0 <= i < self.paths@.len() implies keys(
                    #[trigger] r.paths@[i]@,
                ) == keys(self.paths@[i]@) by {
                    assert(cloned(self.paths@[i], r.paths@[i]));
                    assert(r.paths@[i]@.len() == self.paths@[i]@.len());
                    assert(keys(r.paths@[i]@) =~= keys(self.paths@[i]@));
                }
                assert forall|path: Seq<Identifier::V>| holds(r.paths@, path) == holds(
                    self.paths@,
                    path,
                ) by {
                    if holds(r.paths@, path) {
                        let i = choose|i: int|
                            0 <= i < r.paths@.len() && keys(#[trigger] r.paths@[i]@) == path;
                        assert(keys(self.paths@[i]@) == path);
                    }
                    if holds(self.paths@, path) {
                        let i = choose|i: int|
                            0 <= i < self.paths@.len() && keys(#[trigger] self.paths@[i]@) == path;
                        assert(keys(r.paths@[i]@) == path);
                    }
                }
                assert(r@ =~= self@);
            }
        }
        r
    }
}

impl<Identifier: PartialEq + Clone + DeepView> OpenSet<Identifier> {
    /// Whether the set is well formed: it holds each of its paths once.
    /// Every function that makes or changes a set keeps it so.
    pub closed spec fn wf(&self) -> bool {
        distinct(self.paths@)
    }

    /// A set without paths.
    pub fn new() -> (r: Self)
        ensures
            r.wf(),
            r@ == Set::<Seq<Identifier::V>>::empty(),
    {
        let r = OpenSet { paths: Vec::new() };
        assert(r@ =~= Set::<Seq<Identifier::V>>::empty());
        r
    }

    /// Whether the set holds no path.
    pub fn is_empty(&self) -> (r: bool)
        ensures
            r == (self@ == Set::<Seq<Identifier::V>>::empty()),
    {
        let r = self.paths.len() == 0;
        proof {
            if r {
                assert(self@ =~= Set::<Seq<Identifier::V>>::empty());
            } else {
                assert(holds(self.paths@, keys(self.paths@[0]@)));
                assert(self@.contains(keys(self.paths@[0]@)));
            }
        }
        r
    }

    fn position(&self, path: &[Identifier]) -> (r: Option<usize>)
        requires
            lawful::<Identifier>(),
        ensures
            match r {
                Some(i) => i < self.paths@.len() && keys(self.paths@[i as int]@) == keys(path@),
                None => !self@.contains(keys(path@)),
            },
    {
        let mut i: usize = 0;
        while i < self.paths.len()
            invariant
                lawful::<Identifier>(),
                i <= self.paths@.len(),
                forall|j: int| 0 <= j < i ==> keys(#[trigger] self.paths@[j]@) != keys(path@),
            decreases self.paths@.len() - i,
        {
            if same_path(self.paths[i].as_slice(), path) {
                return Some(i);
            }
            i += 1;
        }
        None
    }

    /// Whether the path is in the set.
    pub fn contains(&self, path: &[Identifier]) -> (r: bool)
        requires
            lawful::<Identifier>(),
        ensures
            r == self@.contains(keys(path@)),
    {
        match self.position(path) {
            Some(i) => {
                assert(holds(self.paths@, keys(path@)));
                true
            },
            None => false,
        }
    }

    /// Adds the path. Returns whether it was not yet in the set.
    pub fn insert(&mut self, path: Vec<Identifier>) -> (r: bool)
        requires
            lawful::<Identifier>(),
            old(self).wf(),
        ensures
            final(self).wf(),
            r == !old(self)@.contains(keys(path@)),
            final(self)@ == old(self)@.insert(keys(path@)),
    {
        match self.position(path.as_slice()) {
            Some(i) => {
                assert(holds(self.paths@, keys(path@)));
                assert(self@ =~= self@.insert(keys(path@)));
                false
            },
            None => {
                let ghost before = self.paths@;
                assert(!holds(before, keys(path@)));
                self.paths.push(path);
                assert(self.paths@[before.len() as int] == path);
                assert forall|p: Seq<Identifier::V>|
                    holds(self.paths@, p) <==> (holds(before, p) || p == keys(path@)) by {
                    if holds(before, p) {
                        let i = choose|i: int| 0 <= i < before.len() && keys(#[trigger] before[i]@) == p;
                        assert(self.paths@[i] == before[i]);
                    }
                    if p == keys(path@) {
                        assert(keys(self.paths@[before.len() as int]@) == p);
                    }
                    if holds(self.paths@, p) {
                        let i = choose|i: int|
                            0 <= i < self.paths@.len() && keys(#[trigger] self.paths@[i]@) == p;
                        if i < before.len() {
                            assert(self.paths@[i] == before[i]);
                        }
                    }
                }
                assert(self@ =~= old(self)@.insert(keys(path@)));
                true
            },
        }
    }

    /// Takes the path out. Returns whether it was in the set.
    pub fn remove(&mut self, path: &[Identifier]) -> (r: bool)
        requires
            lawful::<Identifier>(),
            old(self).wf(),
        ensures
            final(self).wf(),
            r == old(self)@.contains(keys(path@)),
            final(self)@ == old(self)@.remove(keys(path@)),
    {
        match self.position(path) {
            Some(i) => {
                let ghost before = self.paths@;
                assert(holds(before, keys(path@)));
                self.paths.remove(i);
                assert forall|p: Seq<Identifier::V>|
                    holds(self.paths@, p) <==> (holds(before, p) && p != keys(path@)) by {
                    if holds(before, p) && p != keys(path@) {
                        let j = choose|j: int| 0 <= j < before.len() && keys(#[trigger] before[j]@) == p;
                        if j < i {
                            assert(self.paths@[j] == before[j]);
                        } else {
                            assert(self.paths@[j - 1] == before[j]);
                        }
                    }
                    if holds(self.paths@, p) {
                        let j = choose|j: int|
                            0 <= j < self.paths@.len() && keys(#[trigger] self.paths@[j]@) == p;
                        if j < i {
                            assert(self.paths@[j] == before[j]);
                        } else {
                            assert(self.paths@[j] == before[j + 1]);
                        }
                    }
                }
                assert(self@ =~= old(self)@.remove(keys(path@)));
                true
            },
            None => {
                assert(self@ =~= self@.remove(keys(path@)));
                false
            },
        }
    }

    /// Takes every path out.
    pub fn clear(&mut self)
        ensures
            final(self).wf(),
            final(self)@ == Set::<Seq<Identifier::V>>::empty(),
    {
        self.paths.clear();
        assert(self@ =~= Set::<Seq<Identifier::V>>::empty());
    }

    /// The paths of the set, each once, in no particular order.
    pub fn to_vec(&self) -> (r: Vec<Vec<Identifier>>)
        requires
            lawful::<Identifier>(),
            self.wf(),
        ensures
            distinct(r@),
            forall|path: Seq<Identifier::V>| self@.contains(path) <==> holds(r@, path),
    {
        let mut r: Vec<Vec<Identifier>> = Vec::new();
        let mut i: usize = 0;
        while i < self.paths.len()
            invariant
                lawful::<Identifier>(),
                i <= self.paths@.len(),
                r@.len() == i,
                forall|j: int| 0 <= j < i ==> keys(#[trigger] r@[j]@) == keys(self.paths@[j]@),
            decreases self.paths@.len() - i,
        {
            r.push(copy_path(self.paths[i].as_slice()));
            i += 1;
        }
        proof {
            assert forall|path: Seq<Identifier::V>| self@.contains(path) <==> holds(r@, path) by {
                if holds(self.paths@, path) {
                    let j = choose|j: int|
                        0 <= j < self.paths@.len() && keys(#[trigger] self.paths@[j]@) == path;
                    assert(keys(r@[j]@) == path);
                }
                if holds(r@, path) {
                    let j = choose|j: int| 0 <= j < r@.len() && keys(#[trigger] r@[j]@) == path;
                    assert(keys(self.paths@[j]@) == path);
                }
            }
        }
        r
    }
}

} // verus!
