//! Hash-consing behaviour of the node table on concrete proof steps.

use prooftrees::ProofBuilder;
use prooftrees::ProofTree;
use prooftrees::ProofTreeArray;
use prooftrees::StatementAddress;
use std::sync::Arc;

fn addr(segment_id: u32, index: u32) -> StatementAddress {
    StatementAddress { segment_id, index }
}

/// Building the same (statement, children) twice returns the same shared
/// node and does not grow the table, whatever the renderings.
#[test]
fn dedup_identity() {
    let mut table = ProofTreeArray::default();
    let n1 = table.build(addr(3, 7), vec![], &[0x80 | 0x61]);
    let n2 = table.build(addr(3, 7), vec![], &[0x80 | 0x62]);
    assert!(Arc::ptr_eq(&n1, &n2));
    assert_eq!(table.trees.len(), 1);
    assert_eq!(table.exprs.len(), 1);
    // the first call's rendering is the one kept
    assert_eq!(table.exprs[0], b" a".to_vec());
}

/// Structurally different steps get different positions, one new entry per
/// distinct step.
#[test]
fn distinct_steps() {
    let mut table = ProofTreeArray::default();
    let n1 = table.build(addr(1, 1), vec![], &[]);
    assert_eq!(table.trees.len(), 1);
    let n2 = table.build(addr(1, 2), vec![], &[]);
    assert_eq!(table.trees.len(), 2);
    let p1 = table.index(&n1).unwrap();
    let p2 = table.index(&n2).unwrap();
    assert_ne!(p1, p2);
}

/// A step with the same statement but different children is a different
/// step.
#[test]
fn distinct_by_children() {
    let mut table = ProofTreeArray::default();
    let leaf = table.build(addr(2, 2), vec![], &[]);
    let parent = table.build(addr(2, 2), vec![leaf.clone()], &[]);
    assert_eq!(table.trees.len(), 2);
    assert!(*leaf != *parent);
    assert_ne!(table.index(&leaf), table.index(&parent));
}

/// After any build, looking the returned node up finds a structurally equal
/// stored node.
#[test]
fn lookup_consistency() {
    let mut table = ProofTreeArray::default();
    let leaf = table.build(addr(5, 1), vec![], &[0x80 | 0x70]);
    let node = table.build(addr(5, 2), vec![leaf.clone(), leaf.clone()], &[0x80 | 0x71]);
    let p = table.index(&node).expect("a just-built node must be stored");
    assert!(*table.trees[p] == *node);
    let q = table.index(&leaf).expect("an earlier node stays stored");
    assert!(*table.trees[q] == *leaf);
    assert_ne!(p, q);
}

/// A node built by one table is not found in a fresh one.
#[test]
fn lookup_other_table() {
    let mut table = ProofTreeArray::default();
    let node = table.build(addr(9, 9), vec![], &[]);
    let fresh = ProofTreeArray::default();
    assert_eq!(fresh.index(&node), None);
}

/// A two-step proof whose second step reuses the first step's exact
/// (statement, children) as a child twice yields a table of length 2, and
/// the final node sits at position 1.
#[test]
fn end_to_end_reuse() {
    let mut table = ProofTreeArray::default();
    let first = table.build(addr(1, 1), vec![], &[0x80 | 0x61]);
    // the replay meets the same sub-result again: no growth
    let again = table.build(addr(1, 1), vec![], &[0x80 | 0x61]);
    assert!(Arc::ptr_eq(&first, &again));
    let qed_node = table.build(addr(1, 4), vec![first, again], &[0x80 | 0x62]);
    assert_eq!(table.trees.len(), 2);
    assert_eq!(table.exprs.len(), 2);
    let qed = table.index(&qed_node).unwrap();
    assert_eq!(qed, 1);
}

/// Node and rendering counts stay equal and never decrease across builds.
#[test]
fn append_only() {
    let mut table = ProofTreeArray::default();
    let mut last_len = 0usize;
    let mut children: Vec<Arc<ProofTree>> = vec![];
    for step in 0..6u32 {
        let node = table.build(addr(1, step / 2), children.clone(), &[0x80 | 0x61]);
        assert_eq!(table.trees.len(), table.exprs.len());
        assert!(table.trees.len() >= last_len);
        last_len = table.trees.len();
        children.push(node);
    }
    assert_eq!(table.trees.len(), 6);
}

/// The builder capability records a step exactly as the inherent operation
/// does.
#[test]
fn builder_capability() {
    let mut table = ProofTreeArray::default();
    let n1 = ProofBuilder::build(&mut table, addr(4, 4), vec![], &[0x80 | 0x7a]);
    let n2 = table.build(addr(4, 4), vec![], &[0x80 | 0x7a]);
    assert!(Arc::ptr_eq(&n1, &n2));
    assert_eq!(table.trees.len(), 1);
    assert_eq!(table.exprs[0], b" z".to_vec());
}

/// A node's stored rendering is the transform of the source handed to the
/// build call that stored it.
#[test]
fn rendering_stored_per_node() {
    let mut table = ProofTreeArray::default();
    table.build(addr(6, 1), vec![], &[0x77, 0x80 | 0x66, 0x80 | 0x66]);
    assert_eq!(table.exprs[0], b" wf f".to_vec());
}

/// Structural equality of nodes is deep: one level of sharing does not fool
/// it, and different leaves below equal roots are told apart.
#[test]
fn deep_equality() {
    let mut t1 = ProofTreeArray::default();
    let a1 = t1.build(addr(1, 1), vec![], &[]);
    let b1 = t1.build(addr(1, 2), vec![a1.clone()], &[]);
    let mut t2 = ProofTreeArray::default();
    let a2 = t2.build(addr(1, 1), vec![], &[]);
    let c2 = t2.build(addr(1, 3), vec![], &[]);
    let b2 = t2.build(addr(1, 2), vec![a2.clone()], &[]);
    let d2 = t2.build(addr(1, 2), vec![c2.clone()], &[]);
    assert!(*b1 == *b2);
    assert!(*b1 != *d2);
    assert!(*a1 == *a2);
    assert!(*a1 != *c2);
}
