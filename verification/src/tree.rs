//! Immutable term nodes with precomputed structural digests.

use crate::address::StatementAddress;
use std::sync::Arc;
use vstd::prelude::*;

verus! {

/// Offset basis of the digest accumulator.
pub const DIGEST_OFFSET: u64 = 0xcbf2_9ce4_8422_2325;

/// Multiplier of the digest accumulator.
pub const DIGEST_PRIME: u64 = 0x100_0000_01b3;

/// One accumulation step of the fixed-seed digest: fold one word into the
/// running state.
pub open spec fn mix(h: u64, x: u64) -> u64 {
    (h ^ x).wrapping_mul(DIGEST_PRIME)
}

/// One fully elaborated derivation step: the statement applied at the root,
/// the already-derived sub-results it was applied to, and a digest of the
/// whole structure computed once at construction.  Children are shared,
/// read-only nodes, so one node may be linked from many parents and the steps
/// of a proof form a DAG.
#[derive(Clone, Debug)]
pub struct ProofTree {
    /// The axiom/theorem being applied at the root.
    pub address: StatementAddress,
    /// The hypotheses ($e and $f) in database order.
    pub children: Vec<Arc<ProofTree>>,
    /// The precomputed structural digest, a deduplication fast path: it is a
    /// cache, not the equality relation.  Written only by `ProofTree::new`;
    /// consumers treat it as read-only.
    pub hash: u64,
}

/// The cached digests of a child sequence, in order.
pub open spec fn child_digests(children: Seq<Arc<ProofTree>>) -> Seq<u64> {
    children.map_values(|c: Arc<ProofTree>| (*c).hash)
}

/// Fold a sequence of words into the digest accumulator.
pub open spec fn fold_mix(h: u64, s: Seq<u64>) -> u64
    decreases s.len(),
{
    if s.len() == 0 {
        h
    } else {
        fold_mix(mix(h, s[0]), s.drop_first())
    }
}

/// The digest of a node built from `address` and `children`: the statement
/// identifier, the child count, and each child's cached digest (not the
/// child's full substructure again), folded into a fixed-seed accumulator.
pub open spec fn tree_digest(address: StatementAddress, children: Seq<Arc<ProofTree>>) -> u64 {
    fold_mix(
        mix(
            mix(mix(DIGEST_OFFSET, address.segment_id as u64), address.index as u64),
            children.len() as u64,
        ),
        child_digests(children),
    )
}

/// Every node reachable from `t` carries the digest its structure prescribes.
/// `ProofTree::new` is the one constructor, and it establishes this, so every
/// node a client can hold satisfies it.
pub open spec fn hash_ok(t: ProofTree) -> bool
    decreases t,
{
    &&& t.hash == tree_digest(t.address, t.children@)
    &&& forall|i: int| 0 <= i < t.children@.len() ==> hash_ok(#[trigger] *t.children@[i])
}

/// Structural, deep equality of two nodes: equal statements and element-wise
/// structurally equal children, the cached digest ignored.
pub open spec fn stree_eq(a: ProofTree, b: ProofTree) -> bool
    decreases a,
{
    &&& a.address == b.address
    &&& a.children@.len() == b.children@.len()
    &&& forall|i: int|
        0 <= i < a.children@.len() ==> stree_eq(#[trigger] *a.children@[i], *b.children@[i])
}

/// Structural equality is reflexive.
pub proof fn lemma_stree_eq_refl(a: ProofTree)
    ensures
        stree_eq(a, a),
    decreases a,
{
    assert forall|i: int| 0 <= i < a.children@.len() implies stree_eq(
        #[trigger] *a.children@[i],
        *a.children@[i],
    ) by {
        lemma_stree_eq_refl(*a.children@[i]);
    }
}

/// Structural equality is symmetric.
pub proof fn lemma_stree_eq_sym(a: ProofTree, b: ProofTree)
    requires
        stree_eq(a, b),
    ensures
        stree_eq(b, a),
    decreases a,
{
    assert forall|i: int| 0 <= i < b.children@.len() implies stree_eq(
        #[trigger] *b.children@[i],
        *a.children@[i],
    ) by {
        lemma_stree_eq_sym(*a.children@[i], *b.children@[i]);
    }
}

/// Structural equality is transitive.
pub proof fn lemma_stree_eq_trans(a: ProofTree, b: ProofTree, c: ProofTree)
    requires
        stree_eq(a, b),
        stree_eq(b, c),
    ensures
        stree_eq(a, c),
    decreases a,
{
    assert forall|i: int| 0 <= i < a.children@.len() implies stree_eq(
        #[trigger] *a.children@[i],
        *c.children@[i],
    ) by {
        lemma_stree_eq_trans(*a.children@[i], *b.children@[i], *c.children@[i]);
    }
}

/// Structurally equal well-formed nodes carry the same digest: the digest is
/// a function of the structure alone.
pub proof fn lemma_stree_eq_same_digest(a: ProofTree, b: ProofTree)
    requires
        hash_ok(a),
        hash_ok(b),
        stree_eq(a, b),
    ensures
        a.hash == b.hash,
    decreases a,
{
    assert forall|i: int| 0 <= i < a.children@.len() implies (*a.children@[i]).hash == (
    *b.children@[i]).hash by {
        lemma_stree_eq_same_digest(*a.children@[i], *b.children@[i]);
    }
    assert(child_digests(a.children@) =~= child_digests(b.children@));
}

/// Folding a further word continues from the folded prefix.
proof fn lemma_fold_mix_push(h: u64, s: Seq<u64>, x: u64)
    ensures
        fold_mix(h, s.push(x)) == mix(fold_mix(h, s), x),
    decreases s.len(),
{
    if s.len() == 0 {
        assert(s.push(x).drop_first() =~= Seq::<u64>::empty());
        assert(fold_mix(mix(h, s.push(x)[0]), Seq::<u64>::empty()) == mix(h, x));
    } else {
        assert(s.push(x).drop_first() =~= s.drop_first().push(x));
        lemma_fold_mix_push(mix(h, s[0]), s.drop_first(), x);
    }
}

impl ProofTree {
    /// Create a new node applying `address` to the given shared children.
    /// The digest is computed here, once, by folding the statement identifier
    /// and each child's cached digest into the fixed-seed accumulator.
    #[verifier::loop_isolation(false)]
    pub fn new(address: StatementAddress, children: Vec<Arc<ProofTree>>) -> (r: ProofTree)
        requires
            forall|i: int| 0 <= i < children@.len() ==> hash_ok(#[trigger] *children@[i]),
        ensures
            r.address == address,
            r.children == children,
            hash_ok(r),
    {
        let mut h: u64 = DIGEST_OFFSET;
        h = (h ^ (address.segment_id as u64)).wrapping_mul(DIGEST_PRIME);
        h = (h ^ (address.index as u64)).wrapping_mul(DIGEST_PRIME);
        h = (h ^ (children.len() as u64)).wrapping_mul(DIGEST_PRIME);
        let ghost seed: u64 = h;
        let mut i: usize = 0;
        while i < children.len()
            invariant
                i <= children@.len(),
                h == fold_mix(seed, child_digests(children@).take(i as int)),
            decreases children@.len() - i,
        {
            proof {
                lemma_fold_mix_push(
                    seed,
                    child_digests(children@).take(i as int),
                    child_digests(children@)[i as int],
                );
                assert(child_digests(children@).take(i + 1) =~= child_digests(children@).take(
                    i as int,
                ).push(child_digests(children@)[i as int]));
            }
            h = (h ^ children[i].hash).wrapping_mul(DIGEST_PRIME);
            i = i + 1;
        }
        proof {
            assert(child_digests(children@).take(children@.len() as int) =~= child_digests(
                children@,
            ));
        }
        ProofTree { address, children, hash: h }
    }
}

/// Deep structural comparison of two nodes, deciding `stree_eq`.
pub fn deep_eq(a: &ProofTree, b: &ProofTree) -> (r: bool)
    ensures
        r == stree_eq(*a, *b),
    decreases *a,
{
    if a.address != b.address {
        return false;
    }
    if a.children.len() != b.children.len() {
        return false;
    }
    let mut i: usize = 0;
    while i < a.children.len()
        invariant
            i <= a.children@.len(),
            a.address == b.address,
            a.children@.len() == b.children@.len(),
            forall|j: int| 0 <= j < i ==> stree_eq(#[trigger] *a.children@[j], *b.children@[j]),
        decreases a.children@.len() - i,
    {
        let ca: &ProofTree = &a.children[i];
        let cb: &ProofTree = &b.children[i];
        if !deep_eq(ca, cb) {
            return false;
        }
        i = i + 1;
    }
    true
}

impl PartialEq for ProofTree {
    /// Deep structural equality, the cached digest ignored.
    fn eq(&self, other: &ProofTree) -> (r: bool) {
        deep_eq(self, other)
    }
}

impl vstd::std_specs::cmp::PartialEqSpecImpl for ProofTree {
    open spec fn obeys_eq_spec() -> bool {
        true
    }

    open spec fn eq_spec(&self, other: &ProofTree) -> bool {
        stree_eq(*self, *other)
    }
}

impl Eq for ProofTree {

}

} // verus!
