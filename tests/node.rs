use gronn::node::{Connection, MutateNodeOperation, Node};
use rand::{SeedableRng, XorShiftRng};
use std::collections::HashSet;

fn node_with(targets: &[usize]) -> Node {
    Node {
        bias: 0.5f64.to_bits(),
        connections: targets
            .iter()
            .enumerate()
            .map(|(i, &index)| Connection { index, weight: (i as f64).to_bits() })
            .collect(),
    }
}

fn targets(node: &Node) -> Vec<usize> {
    node.connections.iter().map(|c| c.index).collect()
}

#[test]
fn new_simple_connects_slot_zero() {
    let node = Node::new_simple(1.5f64.to_bits(), (-2.0f64).to_bits());
    assert_eq!(node.bias, 1.5f64.to_bits());
    assert_eq!(node.connections, vec![Connection { index: 0, weight: (-2.0f64).to_bits() }]);
}

#[test]
fn fix_shifts_every_target_by_one_offset() {
    // highest target 9, bound 6: every target moves down by 4, stopping at 0
    let mut node = node_with(&[9, 5, 2, 0]);
    node.fix(6);
    assert_eq!(targets(&node), vec![5, 1, 0, 0]);
    assert_eq!(node.connections[0].weight, 0.0f64.to_bits());
    assert_eq!(node.connections[3].weight, 3.0f64.to_bits());
    assert_eq!(node.bias, 0.5f64.to_bits());
}

#[test]
fn fix_leaves_targets_in_range() {
    let mut node = node_with(&[3, 1, 4]);
    let before = node.clone();
    node.fix(5);
    assert_eq!(node, before);
    node.fix(5);
    assert_eq!(node, before);
}

#[test]
fn fix_shift_at_the_bound() {
    let mut node = node_with(&[6, 6, 3]);
    node.fix(6);
    assert_eq!(targets(&node), vec![5, 5, 2]);
}

#[test]
fn used_targets_leave_out_self_loops() {
    let node = node_with(&[7, 2, 7, 4]);
    let mut set = fnv::FnvHashSet::default();
    set.insert(100usize);
    node.add_used_nodes(7, &mut set);
    let got: HashSet<usize> = set.into_iter().collect();
    let expected: HashSet<usize> = [100usize, 2, 4].into_iter().collect();
    assert_eq!(got, expected);
}

#[test]
fn mutations_never_empty_a_node() {
    let mut rng = seeded([1, 2, 3, 4]);
    let mut node = node_with(&[0]);
    for step in 0..5000u64 {
        let before = node.clone();
        let edit = node.mutate_node(&mut rng, 6, (step as f64).to_bits());
        assert!(!node.connections.is_empty());
        assert!(node.connections.iter().all(|c| c.index < 6));
        let distinct: HashSet<usize> = targets(&node).into_iter().collect();
        assert_eq!(distinct.len(), node.connections.len());
        assert_eq!(node.bias, before.bias);
        match edit.operation {
            MutateNodeOperation::AddConnection => {
                assert_eq!(node.connections.len(), before.connections.len() + 1);
                let added = node.connections.last().unwrap();
                assert_eq!(added.weight, (step as f64).to_bits());
                assert!(!targets(&before).contains(&added.index));
            }
            MutateNodeOperation::RemoveConnection => {
                assert!(before.connections.len() >= 2);
                assert_eq!(node.connections.len(), before.connections.len() - 1);
            }
            MutateNodeOperation::SwapConnections => {
                let mut a = targets(&before);
                let mut b = targets(&node);
                a.sort();
                b.sort();
                assert_eq!(a, b);
            }
            MutateNodeOperation::RandomConnectionOne | MutateNodeOperation::RandomConnectionAll => {
                assert_eq!(node.connections.len(), before.connections.len());
            }
            _ => {
                assert_eq!(node, before);
            }
        }
    }
}

#[test]
fn a_single_connection_is_never_removed_or_swapped() {
    let mut rng = seeded([9, 9, 9, 9]);
    for _ in 0..2000 {
        let mut node = node_with(&[0]);
        let edit = node.mutate_node(&mut rng, 1, 0);
        assert_ne!(edit.operation, MutateNodeOperation::RemoveConnection);
        assert_ne!(edit.operation, MutateNodeOperation::SwapConnections);
        // slot 0 is the only slot and it is taken
        assert_ne!(edit.operation, MutateNodeOperation::AddConnection);
        assert_ne!(edit.operation, MutateNodeOperation::RandomConnectionOne);
        assert_eq!(node.connections.len(), 1);
    }
}

#[test]
fn add_connection_fills_every_free_slot() {
    let mut rng = seeded([5, 6, 7, 8]);
    let mut node = node_with(&[0]);
    let mut seen_add = false;
    for _ in 0..3000 {
        let edit = node.mutate_node(&mut rng, 4, 0);
        if edit.operation == MutateNodeOperation::AddConnection {
            seen_add = true;
        }
        let t = targets(&node);
        let distinct: HashSet<usize> = t.iter().cloned().collect();
        assert!(distinct.len() <= 4);
    }
    assert!(seen_add);
}

#[test]
fn retargeting_all_connections_draws_a_permutation() {
    let mut rng = seeded([2, 4, 6, 8]);
    let mut seen_other_order = false;
    let mut count = 0;
    for _ in 0..4000 {
        let mut node = node_with(&[7, 8, 9]);
        let edit = node.mutate_node(&mut rng, 10, 0);
        if edit.operation == MutateNodeOperation::RandomConnectionAll {
            count += 1;
            let t = targets(&node);
            let distinct: HashSet<usize> = t.iter().cloned().collect();
            assert_eq!(distinct.len(), 3);
            assert!(t.iter().all(|&x| x < 10));
            if t != vec![0, 1, 2] {
                seen_other_order = true;
            }
        }
    }
    assert!(count > 0);
    assert!(seen_other_order);
}

fn seeded(seed: [u32; 4]) -> XorShiftRng {
    XorShiftRng::from_seed(seed)
}
