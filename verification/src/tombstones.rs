//! The set of logically deleted internal ids.
//!
//! A tombstoned id stays tombstoned for the lifetime of the store: the
//! surface below only ever grows the set. Readers consult it through
//! `filter`, which drops tombstoned ids from a candidate list while
//! preserving the list's order.

use vstd::prelude::*;

verus! {

/// `idxs` with every member of `t` dropped, in the original order.
pub open spec fn surviving(idxs: Seq<u64>, t: Set<u64>) -> Seq<u64> {
    idxs.filter(|x: u64| !t.contains(x))
}

/// The persistent set of deleted internal ids.
pub struct Tombstones {
    ids: Vec<u64>,
}

impl View for Tombstones {
    type V = Set<u64>;

    closed spec fn view(&self) -> Set<u64> {
        self.ids@.to_set()
    }
}

impl Tombstones {
    /// An empty set.
    pub fn new() -> (r: Self)
        ensures
            r@ == Set::<u64>::empty(),
    {
        let r = Tombstones { ids: Vec::new() };
        proof {
            assert(r.ids@.to_set() =~= Set::<u64>::empty());
        }
        r
    }

    /// Whether `idx` has been deleted.
    pub fn contains(&self, idx: u64) -> (r: bool)
        ensures
            r == self@.contains(idx),
    {
        let n = self.ids.len();
        let mut i: usize = 0;
        while i < n
            invariant
                n == self.ids@.len(),
                0 <= i <= n,
                forall|j: int| 0 <= j < i ==> self.ids@[j] != idx,
            decreases n - i,
        {
            if self.ids[i] == idx {
                proof {
                    assert(self.ids@.contains(idx));
                }
                return true;
            }
            i = i + 1;
        }
        proof {
            assert(!self.ids@.contains(idx));
        }
        false
    }

    /// Inserts one id; repeats are absorbed.
    pub fn add(&mut self, idx: u64) -> (r: Result<(), crate::errors::VectorError>)
        ensures
            r is Ok,
            final(self)@ == old(self)@.insert(idx),
    {
        let present = self.contains(idx);
        if !present {
            self.ids.push(idx);
            proof {
                assert(self.ids@.drop_last() == old(self).ids@);
                assert(self.ids@.to_set() =~= old(self)@.insert(idx)) by {
                    assert forall|y: u64| self.ids@.to_set().contains(y) implies old(
                        self,
                    )@.insert(idx).contains(y) by {
                        let j = choose|j: int|
                            0 <= j < self.ids@.len() && self.ids@[j] == y;
                        if j < self.ids@.len() - 1 {
                            assert(old(self).ids@[j] == y);
                        }
                    }
                    assert forall|y: u64| old(self)@.insert(idx).contains(y) implies self.ids@.to_set().contains(
                        y,
                    ) by {
                        if y == idx {
                            assert(self.ids@[self.ids@.len() - 1] == y);
                        } else {
                            let j = choose|j: int|
                                0 <= j < old(self).ids@.len() && old(self).ids@[j] == y;
                            assert(self.ids@[j] == y);
                        }
                    }
                }
            }
        } else {
            proof {
                assert(self@ =~= old(self)@.insert(idx));
            }
        }
        Ok(())
    }

    /// Inserts every id of `idxs` as one step; repeats are absorbed.
    pub fn add_batch(&mut self, idxs: &Vec<u64>) -> (r: Result<(), crate::errors::VectorError>)
        ensures
            r is Ok,
            final(self)@ == old(self)@ + idxs@.to_set(),
    {
        let n = idxs.len();
        let mut i: usize = 0;
        while i < n
            invariant
                n == idxs@.len(),
                0 <= i <= n,
                self@ == old(self)@ + idxs@.subrange(0, i as int).to_set(),
            decreases n - i,
        {
            let ghost prev = self@;
            let _ = self.add(idxs[i]);
            proof {
                let pre = idxs@.subrange(0, i as int);
                let post = idxs@.subrange(0, i + 1 as int);
                assert(post.drop_last() == pre);
                assert(post.last() == idxs@[i as int]);
                assert(post.to_set() =~= pre.to_set().insert(idxs@[i as int])) by {
                    assert forall|y: u64| post.to_set().contains(y) implies pre.to_set().insert(
                        idxs@[i as int],
                    ).contains(y) by {
                        let j = choose|j: int| 0 <= j < post.len() && post[j] == y;
                        if j < post.len() - 1 {
                            assert(pre[j] == y);
                        }
                    }
                    assert forall|y: u64| pre.to_set().insert(idxs@[i as int]).contains(
                        y,
                    ) implies post.to_set().contains(y) by {
                        if pre.to_set().contains(y) {
                            let j = choose|j: int| 0 <= j < pre.len() && pre[j] == y;
                            assert(post[j] == y);
                        } else {
                            assert(post[post.len() - 1] == y);
                        }
                    }
                }
                assert(self@ =~= old(self)@ + post.to_set());
            }
            i = i + 1;
        }
        proof {
            assert(idxs@.subrange(0, n as int) == idxs@);
        }
        Ok(())
    }

    /// An independent copy holding the same set.
    pub fn duplicate(&self) -> (r: Self)
        ensures
            r@ == self@,
    {
        let n = self.ids.len();
        let mut out: Vec<u64> = Vec::new();
        let mut i: usize = 0;
        while i < n
            invariant
                n == self.ids@.len(),
                0 <= i <= n,
                out@ == self.ids@.subrange(0, i as int),
            decreases n - i,
        {
            out.push(self.ids[i]);
            proof {
                assert(out@ =~= self.ids@.subrange(0, i + 1 as int));
            }
            i = i + 1;
        }
        let r = Tombstones { ids: out };
        proof {
            assert(self.ids@.subrange(0, n as int) == self.ids@);
            assert(r.ids@.to_set() =~= self.ids@.to_set());
        }
        r
    }

    /// Returns the ids of `idxs` that are not tombstoned, in input order.
    pub fn filter(&self, idxs: &Vec<u64>) -> (r: Vec<u64>)
        ensures
            r@ == surviving(idxs@, self@),
    {
        let n = idxs.len();
        let mut out: Vec<u64> = Vec::new();
        let mut i: usize = 0;
        proof {
            reveal(Seq::filter);
            assert(idxs@.subrange(0, 0) =~= Seq::<u64>::empty());
        }
        while i < n
            invariant
                n == idxs@.len(),
                0 <= i <= n,
                out@ == surviving(idxs@.subrange(0, i as int), self@),
            decreases n - i,
        {
            let dead = self.contains(idxs[i]);
            if !dead {
                out.push(idxs[i]);
            }
            proof {
                reveal(Seq::filter);
                let pre = idxs@.subrange(0, i as int);
                let post = idxs@.subrange(0, i + 1 as int);
                assert(post.drop_last() == pre);
                assert(post.last() == idxs@[i as int]);
            }
            i = i + 1;
        }
        proof {
            assert(idxs@.subrange(0, n as int) == idxs@);
        }
        out
    }
}

/// Filtering never resurrects a tombstoned id, keeps only candidates, and
/// keeps every candidate that is not tombstoned.
pub proof fn lemma_filter_suppresses(idxs: Seq<u64>, t: Set<u64>)
    ensures
        forall|i: int|
            0 <= i < surviving(idxs, t).len() ==> !t.contains(#[trigger] surviving(idxs, t)[i]),
        forall|i: int|
            0 <= i < surviving(idxs, t).len() ==> idxs.contains(#[trigger] surviving(idxs, t)[i]),
        forall|i: int|
            0 <= i < idxs.len() && !t.contains(idxs[i]) ==> surviving(idxs, t).contains(
                #[trigger] idxs[i],
            ),
        surviving(idxs, t).len() <= idxs.len(),
    decreases idxs.len(),
{
    reveal(Seq::filter);
    let pred = |x: u64| !t.contains(x);
    #[allow(deprecated)]
    idxs.filter_lemma(pred);
    if idxs.len() > 0 {
        lemma_filter_suppresses(idxs.drop_last(), t);
        assert forall|i: int| 0 <= i < surviving(idxs, t).len() implies idxs.contains(
            #[trigger] surviving(idxs, t)[i],
        ) by {
            let sub = surviving(idxs.drop_last(), t);
            if i < sub.len() {
                assert(surviving(idxs, t)[i] == sub[i]);
                let j = choose|j: int|
                    0 <= j < idxs.drop_last().len() && idxs.drop_last()[j] == sub[i];
                assert(idxs[j] == sub[i]);
            } else {
                assert(surviving(idxs, t)[i] == idxs.last());
            }
        }
    }
}

} // verus!
