//! Table-wide laws of the builder, stated over the same spec functions its
//! contracts use and proved once for every run.

use crate::address::StatementAddress;
use crate::table::ProofTreeArray;
use crate::table::build_post;
use crate::table::has_node;
use crate::table::lemma_matches_same_pair;
use crate::table::node_matches;
use crate::tree::ProofTree;
use crate::tree::lemma_stree_eq_refl;
use crate::tree::lemma_stree_eq_sym;
use crate::tree::lemma_stree_eq_trans;
use crate::tree::stree_eq;
use std::sync::Arc;
use vstd::prelude::*;

verus! {

/// Two (statement, children) pairs describe the same step: equal statements
/// and element-wise structurally equal children.
pub open spec fn same_step(
    a1: StatementAddress,
    c1: Seq<Arc<ProofTree>>,
    a2: StatementAddress,
    c2: Seq<Arc<ProofTree>>,
) -> bool {
    &&& a1 == a2
    &&& c1.len() == c2.len()
    &&& forall|i: int| 0 <= i < c1.len() ==> stree_eq(#[trigger] *c1[i], *c2[i])
}

/// A node representing two steps forces the steps to be the same.
proof fn lemma_matches_same_node(
    n: ProofTree,
    a1: StatementAddress,
    c1: Seq<Arc<ProofTree>>,
    a2: StatementAddress,
    c2: Seq<Arc<ProofTree>>,
)
    requires
        node_matches(n, a1, c1),
        node_matches(n, a2, c2),
    ensures
        same_step(a1, c1, a2, c2),
{
    assert forall|i: int| 0 <= i < c1.len() implies stree_eq(#[trigger] *c1[i], *c2[i]) by {
        lemma_stree_eq_sym(*n.children@[i], *c1[i]);
        lemma_stree_eq_trans(*c1[i], *n.children@[i], *c2[i]);
    }
}

/// A step's representation carries over to a structurally equal node.
proof fn lemma_matches_transport(
    a: ProofTree,
    b: ProofTree,
    address: StatementAddress,
    children: Seq<Arc<ProofTree>>,
)
    requires
        stree_eq(a, b),
        node_matches(a, address, children),
    ensures
        node_matches(b, address, children),
{
    assert forall|i: int| 0 <= i < children.len() implies stree_eq(
        #[trigger] *b.children@[i],
        *children[i],
    ) by {
        lemma_stree_eq_sym(a, b);
        lemma_stree_eq_trans(*b.children@[i], *a.children@[i], *children[i]);
    }
}

/// Dedup identity: building the same step twice on one table, with any
/// renderings, returns the same shared node both times, and the second call
/// leaves the table — nodes, renderings, and digest index — unchanged.
pub proof fn lemma_dedup_identity(
    t0: ProofTreeArray,
    t1: ProofTreeArray,
    t2: ProofTreeArray,
    address: StatementAddress,
    children: Seq<Arc<ProofTree>>,
    e1: Seq<u8>,
    e2: Seq<u8>,
    r1: Arc<ProofTree>,
    r2: Arc<ProofTree>,
)
    requires
        t0.wf(),
        build_post(t0, t1, address, children, e1, r1),
        build_post(t1, t2, address, children, e2, r2),
    ensures
        r2 == r1,
        t2 == t1,
        t2.trees@.len() == t1.trees@.len(),
        t2.exprs@.len() == t1.exprs@.len(),
{
    let p = choose|p: int| 0 <= p < t1.trees@.len() && t1.trees@[p] == r1;
    assert(has_node(t1, address, children)) by {
        assert(node_matches(*t1.trees@[p], address, children));
    }
    let j = choose|j: int|
        0 <= j < t1.trees@.len() && node_matches(*t1.trees@[j], address, children) && r2
            == t1.trees@[j];
    assert(r2 == r1 && t2 == t1) by {
        if j != p {
            lemma_matches_same_pair(*t1.trees@[j], *t1.trees@[p], address, children);
        }
    }
}

/// Distinctness: building two structurally different steps yields two
/// structurally different nodes at two different positions, and each step
/// not yet represented grows the table by exactly one entry.
pub proof fn lemma_distinct_steps(
    t0: ProofTreeArray,
    t1: ProofTreeArray,
    t2: ProofTreeArray,
    a1: StatementAddress,
    c1: Seq<Arc<ProofTree>>,
    e1: Seq<u8>,
    r1: Arc<ProofTree>,
    a2: StatementAddress,
    c2: Seq<Arc<ProofTree>>,
    e2: Seq<u8>,
    r2: Arc<ProofTree>,
)
    requires
        t0.wf(),
        build_post(t0, t1, a1, c1, e1, r1),
        build_post(t1, t2, a2, c2, e2, r2),
        !same_step(a1, c1, a2, c2),
    ensures
        !stree_eq(*r1, *r2),
        exists|p1: int, p2: int|
            0 <= p1 < t2.trees@.len() && 0 <= p2 < t2.trees@.len() && p1 != p2 && t2.trees@[p1]
                == r1 && t2.trees@[p2] == r2,
        !has_node(t0, a1, c1) ==> t1.trees@.len() == t0.trees@.len() + 1,
        !has_node(t1, a2, c2) ==> t2.trees@.len() == t1.trees@.len() + 1,
{
    assert(!stree_eq(*r1, *r2)) by {
        if stree_eq(*r1, *r2) {
            lemma_matches_transport(*r1, *r2, a1, c1);
            lemma_matches_same_node(*r2, a1, c1, a2, c2);
        }
    }
    let p1 = choose|p: int| 0 <= p < t1.trees@.len() && t1.trees@[p] == r1;
    let p2 = choose|p: int| 0 <= p < t2.trees@.len() && t2.trees@[p] == r2;
    assert(t2.trees@[p1] == r1 && 0 <= p1 < t2.trees@.len()) by {
        if has_node(t1, a2, c2) {
            assert(t2 == t1);
        } else {
            assert(t2.trees@ == t1.trees@.push(r2));
        }
    }
    assert(p1 != p2) by {
        if p1 == p2 {
            lemma_stree_eq_refl(*r1);
        }
    }
    assert(0 <= p1 < t2.trees@.len() && 0 <= p2 < t2.trees@.len() && p1 != p2 && t2.trees@[p1]
        == r1 && t2.trees@[p2] == r2);
}

/// Lookup consistency: the node a `build` call returns is stored in the
/// table, structurally equal to itself, so by `index`'s contract a lookup of
/// it must return a position holding a structurally equal node.
pub proof fn lemma_lookup_consistency(
    t0: ProofTreeArray,
    t1: ProofTreeArray,
    address: StatementAddress,
    children: Seq<Arc<ProofTree>>,
    expr: Seq<u8>,
    r: Arc<ProofTree>,
)
    requires
        t0.wf(),
        build_post(t0, t1, address, children, expr, r),
    ensures
        exists|p: int|
            0 <= p < t1.trees@.len() && t1.trees@[p] == r && stree_eq(*t1.trees@[p], *r),
        has_node(t1, address, children),
{
    let p = choose|p: int| 0 <= p < t1.trees@.len() && t1.trees@[p] == r;
    assert(0 <= p < t1.trees@.len() && t1.trees@[p] == r && stree_eq(*t1.trees@[p], *r)) by {
        lemma_stree_eq_refl(*r);
    }
    assert(has_node(t1, address, children)) by {
        assert(node_matches(*t1.trees@[p], address, children));
    }
}

/// Append-only: a `build` call never shrinks, reorders, or rewrites the
/// table; node and rendering counts stay equal, grow by at most one, and
/// every already-stored entry stays at its position.
pub proof fn lemma_append_only(
    t0: ProofTreeArray,
    t1: ProofTreeArray,
    address: StatementAddress,
    children: Seq<Arc<ProofTree>>,
    expr: Seq<u8>,
    r: Arc<ProofTree>,
)
    requires
        t0.wf(),
        build_post(t0, t1, address, children, expr, r),
    ensures
        t0.trees@.len() <= t1.trees@.len() <= t0.trees@.len() + 1,
        t1.trees@.len() == t1.exprs@.len(),
        forall|j: int| 0 <= j < t0.trees@.len() ==> t1.trees@[j] == #[trigger] t0.trees@[j],
        forall|j: int|
            0 <= j < t0.exprs@.len() ==> t1.renderings()[j] == #[trigger] t0.renderings()[j],
{
    assert(t1.trees@.len() <= t0.trees@.len() + 1 && (forall|j: int|
        0 <= j < t0.trees@.len() ==> t1.trees@[j] == #[trigger] t0.trees@[j]) && (forall|j: int|
        0 <= j < t0.exprs@.len() ==> t1.renderings()[j] == #[trigger] t0.renderings()[j])) by {
        if !has_node(t0, address, children) {
            assert(t1.trees@ == t0.trees@.push(r));
            assert(t1.renderings() == t0.renderings().push(crate::render::render_spec(expr)));
        }
    }
}

} // verus!
