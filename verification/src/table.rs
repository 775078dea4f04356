//! The deduplicating node table and the builder capability it implements.

use crate::address::StatementAddress;
use crate::render::render;
use crate::render::render_spec;
use crate::tree::ProofTree;
use crate::tree::deep_eq;
use crate::tree::hash_ok;
use crate::tree::lemma_stree_eq_refl;
use crate::tree::lemma_stree_eq_same_digest;
use crate::tree::lemma_stree_eq_sym;
use crate::tree::lemma_stree_eq_trans;
use crate::tree::stree_eq;
use std::collections::HashMap;
use std::sync::Arc;
use vstd::prelude::*;

verus! {

broadcast use vstd::std_specs::hash::group_hash_axioms, vstd::std_specs::vec::group_vec_axioms;

/// Node `n` represents the step applying `address` to `children`: same
/// statement, and element-wise structurally equal children.
pub open spec fn node_matches(
    n: ProofTree,
    address: StatementAddress,
    children: Seq<Arc<ProofTree>>,
) -> bool {
    &&& n.address == address
    &&& n.children@.len() == children.len()
    &&& forall|i: int|
        0 <= i < children.len() ==> stree_eq(#[trigger] *n.children@[i], *children[i])
}

/// Two nodes representing the same step are structurally equal.
pub proof fn lemma_matches_same_pair(
    n1: ProofTree,
    n2: ProofTree,
    address: StatementAddress,
    children: Seq<Arc<ProofTree>>,
)
    requires
        node_matches(n1, address, children),
        node_matches(n2, address, children),
    ensures
        stree_eq(n1, n2),
{
    assert forall|i: int| 0 <= i < n1.children@.len() implies stree_eq(
        #[trigger] *n1.children@[i],
        *n2.children@[i],
    ) by {
        lemma_stree_eq_sym(*n2.children@[i], *children[i]);
        lemma_stree_eq_trans(*n1.children@[i], *children[i], *n2.children@[i]);
    }
}

/// Share a node handle.  Relies on std's `Arc::clone`: the returned pointer
/// refers to the same allocation as the argument.
#[verifier::external_body]
fn arc_clone(t: &Arc<ProofTree>) -> (r: Arc<ProofTree>)
    ensures
        r == *t,
{
    t.clone()
}

/// The deduplicating table of the distinct nodes produced while replaying one
/// proof, in first-seen order, each paired with the rendered form of its
/// conclusion.  Populated append-only through `build`; downstream consumers
/// treat the fields as read-only once the run completes.
#[derive(Debug)]
pub struct ProofTreeArray {
    /// Maps a digest to the positions of the stored nodes carrying it.  The
    /// digest is only a fast path: a position is returned only after a deep
    /// structural comparison, so two structurally different nodes whose
    /// digests collide simply share a bucket.
    pub index_by_digest: HashMap<u64, Vec<usize>>,
    /// The list of proof trees, in first-seen order.
    pub trees: Vec<Arc<ProofTree>>,
    /// The rendered conclusion of each proof tree, at the same position.
    pub exprs: Vec<Vec<u8>>,
}

/// The table already holds a node representing the step applying `address`
/// to `children`.
pub open spec fn has_node(
    t: ProofTreeArray,
    address: StatementAddress,
    children: Seq<Arc<ProofTree>>,
) -> bool {
    exists|j: int|
        0 <= j < t.trees@.len() && node_matches(#[trigger] *t.trees@[j], address, children)
}

/// What one `build` call does to the table: the result represents the
/// requested step and is stored; if a node for the step was already present
/// the table is unchanged and that node is returned, otherwise the node and
/// the rendering of `expr` are appended at the same fresh position.
pub open spec fn build_post(
    pre: ProofTreeArray,
    post: ProofTreeArray,
    address: StatementAddress,
    children: Seq<Arc<ProofTree>>,
    expr: Seq<u8>,
    r: Arc<ProofTree>,
) -> bool {
    &&& post.wf()
    &&& node_matches(*r, address, children)
    &&& hash_ok(*r)
    &&& exists|p: int| 0 <= p < post.trees@.len() && post.trees@[p] == r
    &&& if has_node(pre, address, children) {
        &&& post == pre
        &&& exists|j: int|
            0 <= j < pre.trees@.len() && node_matches(#[trigger] *pre.trees@[j], address, children)
                && r == pre.trees@[j]
    } else {
        &&& post.trees@ == pre.trees@.push(r)
        &&& post.renderings() == pre.renderings().push(render_spec(expr))
    }
}

impl ProofTreeArray {
    /// The stored renderings as byte strings, in table order.
    pub open spec fn renderings(self) -> Seq<Seq<u8>> {
        self.exprs@.map_values(|e: Vec<u8>| e@)
    }

    /// Stored node `j` is listed in the bucket of its own digest.
    pub open spec fn stored_indexed(self, j: int) -> bool {
        &&& self.index_by_digest@.contains_key((*self.trees@[j]).hash)
        &&& self.index_by_digest@[(*self.trees@[j]).hash]@.contains(j as usize)
    }

    /// Entry `k` of digest `d`'s bucket points at a stored node carrying `d`.
    pub open spec fn bucket_entry_ok(self, d: u64, k: int) -> bool {
        &&& (self.index_by_digest@[d]@[k] as int) < self.trees@.len()
        &&& (*self.trees@[self.index_by_digest@[d]@[k] as int]).hash == d
    }

    /// The table's invariant: one rendering per node, every stored node well
    /// formed, no two stored nodes structurally equal, and the digest index
    /// lists exactly the stored positions, each under its node's digest.
    pub open spec fn wf(self) -> bool {
        &&& self.trees@.len() == self.exprs@.len()
        &&& forall|j: int| 0 <= j < self.trees@.len() ==> hash_ok(#[trigger] *self.trees@[j])
        &&& forall|j: int, k: int|
            0 <= j < self.trees@.len() && 0 <= k < self.trees@.len() && j != k ==> !stree_eq(
                #[trigger] *self.trees@[j],
                #[trigger] *self.trees@[k],
            )
        &&& forall|j: int| 0 <= j < self.trees@.len() ==> #[trigger] self.stored_indexed(j)
        &&& forall|d: u64, k: int|
            self.index_by_digest@.contains_key(d) && 0 <= k < self.index_by_digest@[d]@.len()
                ==> #[trigger] self.bucket_entry_ok(d, k)
    }

    /// Get the position of the stored node structurally equal to `tree`, if
    /// any: the digest narrows the search to one bucket, and a deep
    /// structural comparison picks the position, so a digest collision never
    /// aliases two different steps.
    #[verifier::loop_isolation(false)]
    pub fn index(&self, tree: &ProofTree) -> (r: Option<usize>)
        requires
            self.wf(),
            hash_ok(*tree),
        ensures
            match r {
                Some(p) => 0 <= p < self.trees@.len() && stree_eq(*self.trees@[p as int], *tree),
                None => forall|j: int|
                    0 <= j < self.trees@.len() ==> !stree_eq(#[trigger] *self.trees@[j], *tree),
            },
    {
        let found = self.index_by_digest.get(&tree.hash);
        match found {
            None => {
                proof {
                    assert forall|j: int| 0 <= j < self.trees@.len() implies !stree_eq(
                        #[trigger] *self.trees@[j],
                        *tree,
                    ) by {
                        if stree_eq(*self.trees@[j], *tree) {
                            lemma_stree_eq_same_digest(*self.trees@[j], *tree);
                            assert(self.stored_indexed(j));
                        }
                    }
                }
                None
            },
            Some(bucket) => {
                let ghost d = tree.hash;
                let mut k: usize = 0;
                while k < bucket.len()
                    invariant
                        k <= bucket@.len(),
                        self.index_by_digest@.contains_key(d),
                        self.index_by_digest@[d] == *bucket,
                        forall|x: int|
                            0 <= x < k ==> !stree_eq(
                                #[trigger] *self.trees@[bucket@[x] as int],
                                *tree,
                            ),
                    decreases bucket@.len() - k,
                {
                    assert(self.bucket_entry_ok(d, k as int));
                    let p = bucket[k];
                    let stored: &ProofTree = &self.trees[p];
                    if deep_eq(stored, tree) {
                        return Some(p);
                    }
                    k = k + 1;
                }
                proof {
                    assert forall|j: int| 0 <= j < self.trees@.len() implies !stree_eq(
                        #[trigger] *self.trees@[j],
                        *tree,
                    ) by {
                        if stree_eq(*self.trees@[j], *tree) {
                            lemma_stree_eq_same_digest(*self.trees@[j], *tree);
                            assert((*self.trees@[j]).hash == d);
                            assert(self.stored_indexed(j));
                            assert(self.index_by_digest@[d]@.contains(j as usize));
                            assert(bucket@.contains(j as usize));
                            assert(self.trees.len() == self.trees@.len());
                            let x = choose|x: int|
                                0 <= x < bucket@.len() && bucket@[x] == (j as usize);
                            assert(bucket@[x] == (j as usize));
                            assert(bucket@[x] as int == j);
                            assert(!stree_eq(*self.trees@[bucket@[x] as int], *tree));
                            assert(false);
                        }
                    }
                }
                None
            },
        }
    }

    /// Record one derived proof step: build a candidate node for `address`
    /// and `children`, return the already-stored node if one structurally
    /// equal exists (hash-consing: the table does not grow), and otherwise
    /// append the candidate together with the rendering of `expr`.
    pub fn build(&mut self, address: StatementAddress, children: Vec<Arc<ProofTree>>, expr: &[u8]) -> (r:
        Arc<ProofTree>)
        requires
            old(self).wf(),
            forall|i: int| 0 <= i < children@.len() ==> hash_ok(#[trigger] *children@[i]),
        ensures
            build_post(*old(self), *final(self), address, children@, expr@, r),
    {
        let ghost cseq = children@;
        let tree = ProofTree::new(address, children);
        proof {
            assert forall|i: int| 0 <= i < cseq.len() implies stree_eq(
                #[trigger] *tree.children@[i],
                *cseq[i],
            ) by {
                lemma_stree_eq_refl(*cseq[i]);
            }
            assert(node_matches(tree, address, cseq));
        }
        match self.index(&tree) {
            Some(n) => {
                let r = arc_clone(&self.trees[n]);
                proof {
                    let stored = *self.trees@[n as int];
                    assert(stored.address == tree.address);
                    assert forall|i: int| 0 <= i < cseq.len() implies stree_eq(
                        #[trigger] *stored.children@[i],
                        *cseq[i],
                    ) by {
                        assert(stree_eq(*stored.children@[i], *tree.children@[i]));
                    }
                    assert(node_matches(stored, address, cseq));
                    assert(has_node(*self, address, cseq));
                }
                r
            },
            None => {
                let ghost pre = *self;
                let d = tree.hash;
                let pos = self.trees.len();
                let removed = self.index_by_digest.remove(&d);
                let mut bucket: Vec<usize> = match removed {
                    Some(b) => b,
                    None => Vec::new(),
                };
                let ghost oldb = bucket@;
                bucket.push(pos);
                self.index_by_digest.insert(d, bucket);
                let arc = Arc::new(tree);
                let copy = arc_clone(&arc);
                self.trees.push(copy);
                let uexpr = render(expr);
                self.exprs.push(uexpr);
                proof {
                    lemma_stree_eq_refl(tree);
                    let post = *self;
                    assert(post.trees@ == pre.trees@.push(arc));
                    assert(post.exprs@ == pre.exprs@.push(uexpr));
                    assert(post.renderings() =~= pre.renderings().push(render_spec(expr@)));
                    assert(*post.trees@[pos as int] == tree);
                    // the bucket of `d` now lists the old entries and `pos`
                    assert(post.index_by_digest@ =~= pre.index_by_digest@.insert(
                        d,
                        post.index_by_digest@[d],
                    ));
                    assert(post.index_by_digest@[d]@ == oldb.push(pos));
                    if pre.index_by_digest@.contains_key(d) {
                        assert(oldb == pre.index_by_digest@[d]@);
                    } else {
                        assert(oldb.len() == 0);
                    }
                    // no stored node represents this step
                    assert forall|j: int| 0 <= j < pre.trees@.len() implies !node_matches(
                        #[trigger] *pre.trees@[j],
                        address,
                        cseq,
                    ) by {
                        if node_matches(*pre.trees@[j], address, cseq) {
                            lemma_matches_same_pair(*pre.trees@[j], tree, address, cseq);
                        }
                    }
                    assert(!has_node(pre, address, cseq));
                    // well-formedness of the grown table
                    assert forall|j: int, k: int|
                        0 <= j < post.trees@.len() && 0 <= k < post.trees@.len() && j
                            != k implies !stree_eq(
                        #[trigger] *post.trees@[j],
                        #[trigger] *post.trees@[k],
                    ) by {
                        if j == pos as int && k < pos as int {
                            if stree_eq(*post.trees@[j], *post.trees@[k]) {
                                lemma_stree_eq_sym(*post.trees@[j], *post.trees@[k]);
                            }
                        }
                    }
                    assert forall|j: int| 0 <= j < post.trees@.len() implies
                        #[trigger] post.stored_indexed(j) by {
                        if j == pos as int {
                            assert(post.index_by_digest@[d]@[oldb.len() as int] == pos);
                            assert(post.index_by_digest@[d]@.contains(pos));
                        } else {
                            assert(pre.stored_indexed(j));
                            let hj = (*pre.trees@[j]).hash;
                            if hj == d {
                                let x = choose|x: int|
                                    0 <= x < oldb.len() && oldb[x] == (j as usize);
                                assert(post.index_by_digest@[d]@[x] == (j as usize));
                                assert(post.index_by_digest@[d]@.contains(j as usize));
                            }
                        }
                    }
                    assert forall|dd: u64, k: int|
                        post.index_by_digest@.contains_key(dd) && 0 <= k
                            < post.index_by_digest@[dd]@.len() implies #[trigger] post.bucket_entry_ok(
                        dd,
                        k,
                    ) by {
                        if dd == d {
                            if k < oldb.len() {
                                assert(pre.bucket_entry_ok(d, k));
                                assert(post.index_by_digest@[d]@[k] == oldb[k]);
                            } else {
                                assert(post.index_by_digest@[d]@[k] == pos);
                            }
                        } else {
                            assert(pre.index_by_digest@.contains_key(dd));
                            assert(pre.bucket_entry_ok(dd, k));
                        }
                    }
                    assert(post.wf());
                }
                arc
            },
        }
    }
}

impl Default for ProofTreeArray {
    /// A fresh, empty node table: no nodes, no renderings, an empty digest
    /// index.
    fn default() -> (r: ProofTreeArray)
        ensures
            r.wf(),
            r.trees@.len() == 0,
            r.exprs@.len() == 0,
    {
        ProofTreeArray { index_by_digest: HashMap::new(), trees: Vec::new(), exprs: Vec::new() }
    }
}

/// The builder capability a stepwise verification engine drives: one
/// operation, invoked once per proof step with the step's statement, its
/// already-built child nodes, and its resulting symbol string, returning the
/// shared node that later steps thread in as a child.
pub trait ProofBuilder {
    /// The invariant the builder maintains from one step to the next.
    spec fn inv(&self) -> bool;

    /// Record one completed step and return its shared node.
    fn build(&mut self, address: StatementAddress, children: Vec<Arc<ProofTree>>, expr: &[u8]) -> (r:
        Arc<ProofTree>)
        requires
            old(self).inv(),
            forall|i: int| 0 <= i < children@.len() ==> hash_ok(#[trigger] *children@[i]),
        ensures
            final(self).inv(),
            hash_ok(*r),
            node_matches(*r, address, children@),
    ;
}

impl ProofBuilder for ProofTreeArray {
    /// The node table's invariant.
    open spec fn inv(&self) -> bool {
        self.wf()
    }

    /// Record the step in the deduplicating table.
    fn build(&mut self, address: StatementAddress, children: Vec<Arc<ProofTree>>, expr: &[u8]) -> (r:
        Arc<ProofTree>) {
        ProofTreeArray::build(self, address, children, expr)
    }
}

} // verus!
