use gronn::config::DriverConfiguration;
use gronn::network::{Network, MAX_ERROR_KEY};
use gronn::node::{Connection, Node};
use gronn::property::Property;

fn config() -> DriverConfiguration {
    DriverConfiguration {
        num_of_input_nodes: 2,
        num_of_output_nodes: 1,
        initial_network_size: 2,
        max_network_size: 3,
        num_of_networks: 2,
        num_of_node_mutation: 10,
        num_of_iterations: 10,
        num_of_batch_iterations: 10,
        batch_size: 1,
        num_of_cycles: 2,
        use_trained_networks: false,
        desired_error: Some(0.5f64.to_bits()),
    }
}

fn node_with(targets: &[usize]) -> Node {
    Node {
        bias: 0,
        connections: targets.iter().map(|&index| Connection { index, weight: 1.0f64.to_bits() }).collect(),
    }
}

fn key(x: f64) -> u64 {
    x.to_bits()
}

#[test]
fn new_network_starts_untrained() {
    let n = Network::new(config(), vec![node_with(&[0]), node_with(&[1])], [1, 2, 3, 4]);
    assert_eq!(n.id, "untrained");
    assert_eq!(n.best_error, MAX_ERROR_KEY);
    assert_eq!(f64::from_bits(MAX_ERROR_KEY), f64::MAX);
    assert_eq!(n.first_place_counter, 0);
    assert_eq!(n.property.output_indices, vec![0]);
    assert_eq!(n.num_of_nodes(), 2);
}

#[test]
fn local_search_never_regresses() {
    let mut n = Network::new(config(), vec![node_with(&[0]), node_with(&[1])], [1, 2, 3, 4]);
    n.reset_best_error(key(3.0));
    let errors = [4.0, 2.5, 2.5, 9.0, 1.0, 1.5];
    let mut best = 3.0f64;
    n.begin_trial();
    for (i, e) in errors.iter().enumerate() {
        n.mutate(i % 2 == 0, 0);
        let improved = n.record_error(key(*e));
        assert_eq!(improved, *e < best);
        if *e < best {
            best = *e;
            assert_eq!(n.undo_property, n.property);
        }
        assert!(f64::from_bits(n.best_error) <= 3.0);
    }
    n.end_trial();
    assert_eq!(n.best_error, key(1.0));
    assert_eq!(n.property, n.undo_property);
}

#[test]
fn end_trial_drops_trailing_mutations() {
    let mut n = Network::new(config(), vec![node_with(&[0]), node_with(&[1])], [5, 6, 7, 8]);
    n.reset_best_error(key(1.0));
    let start = n.get_property();
    n.begin_trial();
    for _ in 0..20 {
        n.mutate(false, 0);
        assert!(!n.record_error(key(2.0)));
    }
    n.end_trial();
    assert_eq!(n.property, start);
    assert_eq!(n.best_error, key(1.0));
}

#[test]
fn good_enough_compares_with_the_desired_error() {
    let mut n = Network::new(config(), vec![node_with(&[0]), node_with(&[1])], [1, 1, 1, 1]);
    n.reset_best_error(key(0.5));
    assert!(n.is_good_enough());
    n.reset_best_error(key(0.75));
    assert!(!n.is_good_enough());
    let mut c = config();
    c.desired_error = None;
    n.set_configuration(c);
    n.reset_best_error(key(0.0));
    assert!(!n.is_good_enough());
}

#[test]
fn growth_waits_for_unused_nodes() {
    // slots 0,1 inputs; node 0 at 2, node 1 at 3
    let mut n = Network::new(config(), vec![node_with(&[0]), node_with(&[1])], [1, 2, 3, 4]);
    // output reads slot 0, so both nodes are unused
    n.maybe_add_node(node_with(&[0]));
    assert_eq!(n.num_of_nodes(), 2);
    let p = Property { nodes: vec![node_with(&[3]), node_with(&[2])], output_indices: vec![3] };
    n.set_property(p);
    n.maybe_add_node(node_with(&[0]));
    assert_eq!(n.num_of_nodes(), 3);
    assert_eq!(n.property.nodes[2], node_with(&[0]));
    // at the largest size nothing grows
    let p = Property { nodes: vec![node_with(&[3]), node_with(&[4]), node_with(&[2])], output_indices: vec![3] };
    n.set_property(p);
    n.maybe_add_node(node_with(&[0]));
    assert_eq!(n.num_of_nodes(), 3);
}

#[test]
fn duplicate_resets_the_streak() {
    let mut n = Network::new(config(), vec![node_with(&[0]), node_with(&[1])], [1, 2, 3, 4]);
    n.count_first_place();
    n.count_first_place();
    assert_eq!(n.first_place_counter, 2);
    let d = n.duplicate();
    assert_eq!(d.first_place_counter, 0);
    assert_eq!(d.property, n.property);
    assert_eq!(d.id, n.id);
}

#[test]
fn fix_adapts_a_loaded_genome() {
    let mut n = Network::new(config(), vec![node_with(&[0]), node_with(&[1])], [1, 2, 3, 4]);
    n.set_property(Property { nodes: vec![node_with(&[8])], output_indices: vec![] });
    n.fix(node_with(&[0]));
    assert_eq!(n.property.nodes, vec![node_with(&[2])]);
    assert_eq!(n.property.output_indices, vec![0]);
}

#[test]
fn search_stops_when_good_enough_or_out_of_trials() {
    let mut n = Network::new(config(), vec![node_with(&[0]), node_with(&[1])], [1, 2, 3, 4]);
    n.reset_best_error(key(2.0));
    assert!(n.keeps_searching(0));
    assert!(n.keeps_searching(9));
    assert!(!n.keeps_searching(10));
    n.reset_best_error(key(0.25));
    assert!(n.keeps_searching(0));
    assert!(!n.keeps_searching(1));
    assert!(n.keeps_mutating(9));
    assert!(!n.keeps_mutating(10));
}

#[test]
fn the_same_seed_gives_the_same_mutations() {
    let mut a = Network::new(config(), vec![node_with(&[0]), node_with(&[1])], [1, 2, 3, 4]);
    let mut b = Network::new(config(), vec![node_with(&[0]), node_with(&[1])], [9, 9, 9, 9]);
    a.reseed([7, 7, 7, 7]);
    b.reseed([7, 7, 7, 7]);
    for i in 0..50 {
        let ea = a.mutate(i % 2 == 0, 0);
        let eb = b.mutate(i % 2 == 0, 0);
        assert_eq!(ea, eb);
        assert_eq!(a.property, b.property);
    }
    let mut c = a.duplicate();
    assert_eq!(c.mutate(true, 0), a.mutate(true, 0));
    assert_eq!(c.property, a.property);
}
