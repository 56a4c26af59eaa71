//! Permutations of `[0, n)` as sequences of target indices.
//!
//! The correspondence solver hands every source particle a target particle;
//! validity of that assignment means exactly that the sequence of target
//! indices is a permutation: every index below `n` appears exactly once.

use vstd::prelude::*;

verus! {

/// `v` occurs somewhere in `a`.
pub open spec fn appears(a: Seq<usize>, v: usize) -> bool {
    exists|i: int| 0 <= i < a.len() && a[i] == v
}

/// `a` is a permutation of `[0, n)`: it has length `n`, every entry is below
/// `n`, no entry repeats, and every index below `n` appears.
pub open spec fn is_permutation(a: Seq<usize>, n: nat) -> bool {
    &&& a.len() == n
    &&& forall|i: int| 0 <= i < a.len() ==> (#[trigger] a[i]) < n
    &&& forall|i: int, j: int| 0 <= i < j < a.len() ==> a[i] != a[j]
    &&& forall|v: usize| v < n ==> #[trigger] appears(a, v)
}

/// The identity assignment of length `n`.
pub open spec fn identity_seq(n: nat) -> Seq<usize> {
    Seq::new(n, |i: int| i as usize)
}

/// The identity assignment is a permutation.
pub proof fn lemma_identity_is_permutation(n: nat)
    requires
        n <= usize::MAX,
    ensures
        is_permutation(identity_seq(n), n),
{
    let a = identity_seq(n);
    assert forall|v: usize| v < n implies #[trigger] appears(a, v) by {
        assert(a[v as int] == v);
    }
}

/// Exchanging two entries of a permutation leaves a permutation.
pub proof fn lemma_swap_preserves_permutation(a: Seq<usize>, n: nat, p: int, q: int)
    requires
        is_permutation(a, n),
        0 <= p < n,
        0 <= q < n,
    ensures
        is_permutation(a.update(p, a[q]).update(q, a[p]), n),
{
    let b = a.update(p, a[q]).update(q, a[p]);
    assert forall|v: usize| v < n implies #[trigger] appears(b, v) by {
        assert(appears(a, v));
        let i = choose|i: int| 0 <= i < a.len() && a[i] == v;
        if i == p && p != q {
            assert(b[q] == v);
        } else if i == q {
            assert(b[p] == a[q]);
            if p != q {
                assert(b[p] == v);
            } else {
                assert(b[q] == v);
            }
        } else {
            assert(b[i] == v);
        }
    }
}

/// Builds the identity assignment `[0, 1, ..., n-1]`.
pub fn identity_assignment(n: usize) -> (r: Vec<usize>)
    ensures
        r@ == identity_seq(n as nat),
        is_permutation(r@, n as nat),
{
    let mut r: Vec<usize> = Vec::new();
    let mut i: usize = 0;
    while i < n
        invariant
            i <= n,
            r@.len() == i,
            forall|k: int| 0 <= k < i ==> r@[k] == k,
        decreases n - i,
    {
        r.push(i);
        i = i + 1;
    }
    proof {
        assert(r@ =~= identity_seq(n as nat));
        lemma_identity_is_permutation(n as nat);
    }
    r
}

/// Copies an assignment, for snapshots streamed while the solver runs.
pub fn copy_assignment(v: &Vec<usize>) -> (r: Vec<usize>)
    ensures
        r@ == v@,
{
    let mut r: Vec<usize> = Vec::new();
    let mut i: usize = 0;
    while i < v.len()
        invariant
            i <= v@.len(),
            r@.len() == i,
            forall|k: int| 0 <= k < i ==> r@[k] == v@[k],
        decreases v@.len() - i,
    {
        r.push(v[i]);
        i = i + 1;
    }
    proof {
        assert(r@ =~= v@);
    }
    r
}

} // verus!
