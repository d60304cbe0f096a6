//! Disjoint-set (union-find) structure over dense indices, with path
//! compression and a canonical union rule: the smaller root always becomes
//! the parent, so the outcome never depends on iteration order.

use vstd::prelude::*;

verus! {

/// Every parent pointer goes to an index no larger than its own, so parent
/// chains strictly descend until they reach a fixed point.
pub open spec fn wf_parent(p: Seq<usize>) -> bool {
    forall|i: int| 0 <= i < p.len() ==> #[trigger] p[i] <= i
}

/// The representative of `i`: follow parent pointers until they stop
/// strictly descending.
pub open spec fn root_of(p: Seq<usize>, i: int) -> int
    decreases i,
{
    if 0 <= i < p.len() && p[i] < i {
        root_of(p, p[i] as int)
    } else {
        i
    }
}

/// A representative is a fixed point of the parent map and lies no higher
/// than the index it represents.
pub proof fn lemma_root_props(p: Seq<usize>, i: int)
    requires
        wf_parent(p),
        0 <= i < p.len(),
    ensures
        0 <= root_of(p, i) <= i,
        p[root_of(p, i)] == root_of(p, i),
    decreases i,
{
    if p[i] < i {
        lemma_root_props(p, p[i] as int);
    }
}

/// Redirecting one parent pointer along its own chain (path compression)
/// changes no representative.
pub proof fn lemma_update_preserves_roots(p: Seq<usize>, k: int, v: usize, z: int)
    requires
        wf_parent(p),
        0 <= k < p.len(),
        v <= p[k],
        root_of(p, v as int) == root_of(p, k),
    ensures
        root_of(p.update(k, v), z) == root_of(p, z),
    decreases z,
{
    let q = p.update(k, v);
    assert(wf_parent(q));
    if 0 <= z < p.len() {
        if z == k {
            if v < k {
                lemma_update_preserves_roots(p, k, v, v as int);
            } else {
                // v == p[k] == k: the pointer is unchanged.
                assert(q =~= p);
            }
        } else {
            if p[z] < z {
                lemma_update_preserves_roots(p, k, v, p[z] as int);
            }
        }
    }
}

/// Joining two representatives rewrites exactly the classes of the larger
/// one; every other index keeps its representative.
pub proof fn lemma_union_root(p: Seq<usize>, hi: int, lo: int, z: int)
    requires
        wf_parent(p),
        0 <= lo < hi < p.len(),
        p[hi] == hi,
        p[lo] == lo,
    ensures
        root_of(p.update(hi, lo as usize), z) == if root_of(p, z) == hi {
            lo
        } else {
            root_of(p, z)
        },
    decreases z,
{
    let q = p.update(hi, lo as usize);
    assert(wf_parent(q));
    if 0 <= z < p.len() {
        if z == hi {
            lemma_union_root(p, hi, lo, lo);
        } else {
            if p[z] < z {
                lemma_union_root(p, hi, lo, p[z] as int);
            }
        }
    }
}

/// Disjoint-set structure over the indices `0 .. n`.
pub struct DisjointSet {
    pub parent: Vec<usize>,
}

impl DisjointSet {
    /// Parent pointers are well formed.
    pub open spec fn wf(&self) -> bool {
        wf_parent(self.parent@)
    }

    /// Number of elements.
    pub open spec fn spec_len(&self) -> int {
        self.parent@.len() as int
    }

    /// The representative of element `i`.
    pub open spec fn spec_root(&self, i: int) -> int {
        root_of(self.parent@, i)
    }

    /// Create a structure of `n` singleton classes.
    pub fn new(n: usize) -> (ds: DisjointSet)
        ensures
            ds.wf(),
            ds.spec_len() == n,
            forall|z: int| 0 <= z < n ==> ds.spec_root(z) == z,
    {
        let mut parent: Vec<usize> = Vec::new();
        for i in 0..n
            invariant
                parent@.len() == i,
                forall|z: int| 0 <= z < i ==> parent@[z] == z,
        {
            parent.push(i);
        }
        let ds = DisjointSet { parent };
        assert forall|z: int| 0 <= z < n implies ds.spec_root(z) == z by {
            assert(ds.parent@[z] == z);
        }
        ds
    }

    /// Find the representative of `i`, compressing the chain on the way.
    /// No representative of any element changes.
    pub fn find(&mut self, i: usize) -> (r: usize)
        requires
            old(self).wf(),
            i < old(self).spec_len(),
        ensures
            final(self).wf(),
            final(self).spec_len() == old(self).spec_len(),
            r == old(self).spec_root(i as int),
            r <= i,
            forall|z: int|
                #[trigger] root_of(final(self).parent@, z) == root_of(old(self).parent@, z),
    {
        let ghost p0 = self.parent@;
        let mut root = i;
        while self.parent[root] != root
            invariant
                wf_parent(self.parent@),
                self.parent@.len() == p0.len(),
                root < p0.len(),
                root <= i,
                forall|z: int| root_of(self.parent@, z) == root_of(p0, z),
                root_of(self.parent@, root as int) == root_of(p0, i as int),
            decreases root,
        {
            let par = self.parent[root];
            let gp = self.parent[par];
            let ghost cur = self.parent@;
            proof {
                // The grandparent lies on root's own chain.
                assert(root_of(cur, root as int) == root_of(cur, par as int));
                assert(root_of(cur, par as int) == root_of(cur, gp as int));
                assert forall|z: int|
                    root_of(cur.update(root as int, gp), z) == root_of(cur, z) by {
                    lemma_update_preserves_roots(cur, root as int, gp, z);
                }
            }
            self.parent[root] = gp;
            root = gp;
        }
        proof {
            lemma_root_props(p0, i as int);
        }
        root
    }

    /// Join the classes of `a` and `b`.  The class whose representative is
    /// larger is absorbed into the other; all other classes are untouched.
    pub fn union(&mut self, a: usize, b: usize)
        requires
            old(self).wf(),
            a < old(self).spec_len(),
            b < old(self).spec_len(),
        ensures
            final(self).wf(),
            final(self).spec_len() == old(self).spec_len(),
            final(self).spec_root(a as int) == final(self).spec_root(b as int),
            forall|z: int|
                #[trigger] root_of(final(self).parent@, z) == merged_root(
                    old(self).parent@,
                    a as int,
                    b as int,
                    z,
                ),
    {
        let ghost p0 = self.parent@;
        let r1 = self.find(a);
        let ghost p1 = self.parent@;
        let r2 = self.find(b);
        let ghost p2 = self.parent@;
        proof {
            assert forall|z: int| root_of(p2, z) == root_of(p0, z) by {
                assert(root_of(p2, z) == root_of(p1, z));
                assert(root_of(p1, z) == root_of(p0, z));
            }
            // The two representatives are fixed points of the current map.
            lemma_root_props(p2, a as int);
            lemma_root_props(p2, b as int);
        }
        if r1 < r2 {
            self.parent[r2] = r1;
            proof {
                assert(self.parent@ == p2.update(r2 as int, r1));
                assert forall|z: int|
                    root_of(self.parent@, z) == merged_root(p0, a as int, b as int, z) by {
                    lemma_union_root(p2, r2 as int, r1 as int, z);
                    assert(root_of(p2, z) == root_of(p0, z));
                }
            }
        } else if r2 < r1 {
            self.parent[r1] = r2;
            proof {
                assert(self.parent@ == p2.update(r1 as int, r2));
                assert forall|z: int|
                    root_of(self.parent@, z) == merged_root(p0, a as int, b as int, z) by {
                    lemma_union_root(p2, r1 as int, r2 as int, z);
                    assert(root_of(p2, z) == root_of(p0, z));
                }
            }
        } else {
            proof {
                assert forall|z: int|
                    root_of(self.parent@, z) == merged_root(p0, a as int, b as int, z) by {
                    assert(root_of(p2, z) == root_of(p0, z));
                }
            }
        }
        proof {
            assert(root_of(self.parent@, a as int) == merged_root(p0, a as int, b as int, a as int));
            assert(root_of(self.parent@, b as int) == merged_root(p0, a as int, b as int, b as int));
        }
    }
}

/// The representative of `z` after the classes of `a` and `b` are joined
/// in the parent map `p`: the larger of the two old representatives gives
/// way to the smaller, and every other representative is unchanged.
pub open spec fn merged_root(p: Seq<usize>, a: int, b: int, z: int) -> int {
    let ra = root_of(p, a);
    let rb = root_of(p, b);
    let lo = if ra <= rb {
        ra
    } else {
        rb
    };
    let hi = if ra <= rb {
        rb
    } else {
        ra
    };
    if root_of(p, z) == hi {
        lo
    } else {
        root_of(p, z)
    }
}

} // verus!
