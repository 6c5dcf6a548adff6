use gronn::config::DriverConfiguration;
use gronn::node::{Connection, Node};
use gronn::property::{Property, PropertyEdit};
use rand::{SeedableRng, XorShiftRng};

fn config(inputs: usize, outputs: usize, max_size: usize) -> DriverConfiguration {
    DriverConfiguration {
        num_of_input_nodes: inputs,
        num_of_output_nodes: outputs,
        initial_network_size: 1,
        max_network_size: max_size,
        num_of_networks: 4,
        num_of_node_mutation: 10,
        num_of_iterations: 10,
        num_of_batch_iterations: 10,
        batch_size: 2,
        num_of_cycles: 2,
        use_trained_networks: false,
        desired_error: None,
    }
}

fn node_with(targets: &[usize]) -> Node {
    Node {
        bias: 1.0f64.to_bits(),
        connections: targets.iter().map(|&index| Connection { index, weight: 2.0f64.to_bits() }).collect(),
    }
}

fn spare() -> Node {
    Node::new_simple(7.0f64.to_bits(), 8.0f64.to_bits())
}

fn valid_for(p: &Property, c: &DriverConfiguration) -> bool {
    let bound = c.num_of_input_nodes + p.nodes.len();
    !p.nodes.is_empty()
        && p.nodes.len() <= c.max_network_size
        && p.output_indices.len() == c.num_of_output_nodes
        && p.output_indices.iter().all(|&o| o < bound)
        && p.nodes.iter().all(|n| !n.connections.is_empty() && n.connections.iter().all(|x| x.index < bound))
}

#[test]
fn fix_gives_an_empty_genome_the_spare_node() {
    let mut rng = seeded([1, 2, 3, 4]);
    let c = config(2, 3, 5);
    let mut p = Property { nodes: vec![], output_indices: vec![] };
    p.fix(&mut rng, &c, spare());
    assert_eq!(p.nodes, vec![spare()]);
    assert_eq!(p.output_indices, vec![0, 0, 0]);
}

#[test]
fn fix_truncates_and_repairs() {
    let mut rng = seeded([4, 3, 2, 1]);
    let c = config(2, 2, 3);
    let mut p = Property {
        nodes: vec![node_with(&[0]), node_with(&[9, 1]), node_with(&[4]), node_with(&[2])],
        output_indices: vec![1, 4, 17],
    };
    p.fix(&mut rng, &c, spare());
    // three nodes kept, so five slots
    assert_eq!(p.nodes.len(), 3);
    assert_eq!(p.nodes[0], node_with(&[0]));
    // highest 9, bound 5: shift by 5
    assert_eq!(p.nodes[1], node_with(&[4, 0]));
    assert_eq!(p.nodes[2], node_with(&[4]));
    assert_eq!(p.output_indices, vec![1, 4]);
    assert!(valid_for(&p, &c));
}

#[test]
fn fix_replaces_out_of_range_outputs() {
    let mut rng = seeded([8, 8, 8, 8]);
    let c = config(1, 4, 3);
    let mut p = Property { nodes: vec![node_with(&[0])], output_indices: vec![0, 1, 2, 30] };
    p.fix(&mut rng, &c, spare());
    assert_eq!(&p.output_indices[0..2], &[0, 1]);
    assert!(p.output_indices[2] < 2);
    assert!(p.output_indices[3] < 2);
}

#[test]
fn fix_twice_equals_fix_once() {
    let c = config(3, 3, 4);
    for seed in 1..40u32 {
        let mut rng = seeded([seed, 7, 11, 13]);
        let mut p = Property {
            nodes: vec![node_with(&[12, 3]), node_with(&[0, 8, 1]), node_with(&[5]), node_with(&[2]), node_with(&[40])],
            output_indices: vec![100, 2, 6, 9, 1],
        };
        p.fix(&mut rng, &c, spare());
        let once = p.clone();
        p.fix(&mut rng, &c, spare());
        assert_eq!(p, once);
        assert!(valid_for(&p, &c));
    }
}

#[test]
fn unused_nodes_are_found() {
    // two inputs: node 0 is slot 2, node 1 is slot 3
    let p = Property { nodes: vec![node_with(&[0]), node_with(&[2])], output_indices: vec![3] };
    assert!(!p.has_unused_nodes(2));
    let p = Property { nodes: vec![node_with(&[0]), node_with(&[1])], output_indices: vec![3] };
    assert!(p.has_unused_nodes(2));
}

#[test]
fn a_node_reading_itself_is_unused() {
    let p = Property { nodes: vec![node_with(&[2]), node_with(&[0])], output_indices: vec![3] };
    assert!(p.has_unused_nodes(2));
    let p = Property { nodes: vec![node_with(&[3]), node_with(&[2])], output_indices: vec![0] };
    assert!(!p.has_unused_nodes(2));
}

#[test]
fn genome_mutations_keep_the_genome_valid() {
    let mut rng = seeded([2, 7, 1, 8]);
    let c = config(2, 2, 6);
    let mut p = Property { nodes: vec![node_with(&[0, 1]), node_with(&[2]), node_with(&[3])], output_indices: vec![3, 4] };
    assert!(valid_for(&p, &c));
    for step in 0..3000usize {
        let before = p.clone();
        let on_node = step % 3 == 0;
        let edit = p.mutate(&mut rng, 5, on_node, 0);
        assert!(valid_for(&p, &c));
        match edit {
            PropertyEdit::Node(j, _) => {
                assert!(on_node);
                assert!(j < 3);
                assert_eq!(p.output_indices, before.output_indices);
                for k in 0..3 {
                    if k != j {
                        assert_eq!(p.nodes[k], before.nodes[k]);
                    }
                }
            }
            PropertyEdit::Genome(_) => assert!(!on_node),
        }
    }
}

fn seeded(seed: [u32; 4]) -> XorShiftRng {
    XorShiftRng::from_seed(seed)
}
