//! The shape registry: the closed, deduplicated set of dimension values
//! needed by the registered models, plus a fixed baseline set. It is
//! populated once, by the offline compilation step, and read afterwards.

use vstd::prelude::*;

verus! {

/// A symbolic dimension value, fixed before inference runs.
#[derive(Debug, Clone, Copy, PartialEq, Eq, Structural, Hash)]
pub struct ShapeToken {
    pub dim: usize,
}

/// A deduplicated collection of dimension values.
pub struct ShapeRegistry {
    dims: Vec<usize>,
}

impl ShapeRegistry {
    /// The registered dimensions, as a set.
    pub closed spec fn as_set(self) -> Set<usize> {
        self.dims@.to_set()
    }

    /// No dimension is held twice.
    pub closed spec fn wf(self) -> bool {
        self.dims@.no_duplicates()
    }

    /// An empty registry.
    pub fn empty() -> (r: ShapeRegistry)
        ensures
            r.wf(),
            r.as_set() == Set::<usize>::empty(),
    {
        let r = ShapeRegistry { dims: Vec::new() };
        proof {
            assert(r.as_set() =~= Set::<usize>::empty());
        }
        r
    }

    /// A registry seeded with the baseline set of common small dimensions.
    pub fn new() -> (r: ShapeRegistry)
        ensures
            r.wf(),
            r.as_set() == baseline_set(),
    {
        let mut r = ShapeRegistry::empty();
        r.register(1);
        r.register(2);
        r.register(4);
        r.register(8);
        r.register(16);
        r.register(20);
        r.register(32);
        r.register(64);
        r.register(128);
        r.register(256);
        r.register(512);
        proof {
            assert(r.as_set() =~= baseline_set());
        }
        r
    }

    /// Whether a dimension is registered.
    pub fn contains(&self, dim: usize) -> (b: bool)
        ensures
            b == self.as_set().contains(dim),
    {
        let n = self.dims.len();
        let mut i: usize = 0;
        while i < n
            invariant
                n == self.dims@.len(),
                i <= n,
                forall|k: int| 0 <= k < i ==> self.dims@[k] != dim,
            decreases n - i,
        {
            if self.dims[i] == dim {
                proof {
                    assert(self.dims@.contains(dim));
                }
                return true;
            }
            i = i + 1;
        }
        proof {
            assert(!self.dims@.contains(dim));
        }
        false
    }

    /// Adds a dimension; registering one already present changes nothing.
    pub fn register(&mut self, dim: usize)
        requires
            old(self).wf(),
        ensures
            final(self).wf(),
            final(self).as_set() == old(self).as_set().insert(dim),
    {
        if !self.contains(dim) {
            self.dims.push(dim);
            proof {
                assert forall|k: int| 0 <= k < old(self).dims@.len() implies old(self).dims@[k]
                    != dim by {
                    assert(old(self).dims@.contains(old(self).dims@[k]));
                }
                assert(self.dims@.drop_last() =~= old(self).dims@);
                assert(self.as_set() =~= old(self).as_set().insert(dim)) by {
                    assert forall|d: usize| self.dims@.contains(d) implies old(
                        self,
                    ).dims@.contains(d) || d == dim by {
                        let k = choose|k: int|
                            0 <= k < self.dims@.len() && self.dims@[k] == d;
                        if k < old(self).dims@.len() {
                            assert(old(self).dims@[k] == d);
                        }
                    }
                    assert forall|d: usize| old(self).dims@.contains(d) implies
                        self.dims@.contains(d) by {
                        let k = choose|k: int|
                            0 <= k < old(self).dims@.len() && old(self).dims@[k] == d;
                        assert(self.dims@[k] == d);
                    }
                    assert(self.dims@[self.dims@.len() - 1] == dim);
                }
            }
        } else {
            proof {
                assert(self.as_set() =~= old(self).as_set().insert(dim));
            }
        }
    }

    /// Every registered dimension, each exactly once, as shape tokens.
    pub fn all(&self) -> (r: Vec<ShapeToken>)
        requires
            self.wf(),
        ensures
            forall|i: int, j: int| 0 <= i < j < r@.len() ==> r@[i] != r@[j],
            forall|i: int| 0 <= i < r@.len() ==> self.as_set().contains(#[trigger] r@[i].dim),
            forall|d: usize|
                self.as_set().contains(d) ==> exists|i: int|
                    0 <= i < r@.len() && #[trigger] r@[i].dim == d,
    {
        let n = self.dims.len();
        let mut out: Vec<ShapeToken> = Vec::new();
        let mut i: usize = 0;
        while i < n
            invariant
                n == self.dims@.len(),
                self.wf(),
                i <= n,
                out@.len() == i,
                forall|k: int| 0 <= k < i ==> out@[k].dim == self.dims@[k],
            decreases n - i,
        {
            out.push(ShapeToken { dim: self.dims[i] });
            i = i + 1;
        }
        proof {
            assert forall|i: int, j: int| 0 <= i < j < out@.len() implies out@[i] != out@[j] by {
                assert(self.dims@[i] != self.dims@[j]);
                assert(out@[i].dim != out@[j].dim);
            }
            assert forall|d: usize| self.as_set().contains(d) implies exists|k: int|
                0 <= k < out@.len() && #[trigger] out@[k].dim == d by {
                let k = choose|k: int| 0 <= k < self.dims@.len() && self.dims@[k] == d;
                assert(out@[k].dim == d);
            }
            assert forall|k: int| 0 <= k < out@.len() implies self.as_set().contains(
                #[trigger] out@[k].dim,
            ) by {
                assert(self.dims@.contains(self.dims@[k]));
            }
        }
        out
    }
}

/// The baseline dimensions seeded into every fresh registry.
pub open spec fn baseline_set() -> Set<usize> {
    set![1usize, 2usize, 4usize, 8usize, 16usize, 20usize, 32usize, 64usize, 128usize, 256usize, 512usize]
}

} // verus!
