use gronn::config::{ConfigurationError, DriverConfiguration};
use gronn::driver::{DataShapeError, Driver, RankError};
use gronn::network::Network;
use gronn::node::{Connection, Node};
use rand::{SeedableRng, XorShiftRng};

fn config() -> DriverConfiguration {
    DriverConfiguration {
        num_of_input_nodes: 3,
        num_of_output_nodes: 3,
        initial_network_size: 1,
        max_network_size: 10,
        num_of_networks: 4,
        num_of_node_mutation: 10,
        num_of_iterations: 50,
        num_of_batch_iterations: 20,
        batch_size: 8,
        num_of_cycles: 2,
        use_trained_networks: false,
        desired_error: Some(0.01f64.to_bits()),
    }
}

fn node() -> Node {
    Node { bias: 0, connections: vec![Connection { index: 0, weight: 1.0f64.to_bits() }] }
}

fn initial(c: &DriverConfiguration) -> (Vec<Vec<Node>>, Vec<[u32; 4]>) {
    let nodes = (0..c.num_of_networks).map(|_| vec![node(); c.initial_network_size]).collect();
    let seeds = (0..c.num_of_networks).map(|i| [i as u32 + 1, 2, 3, 4]).collect();
    (nodes, seeds)
}

fn population(errors: &[f64]) -> Driver {
    let (nodes, seeds) = initial(&config());
    let mut d = Driver::new_from_config(config(), nodes, seeds).unwrap();
    for (i, e) in errors.iter().enumerate() {
        if i < d.networks.len() {
            d.networks[i].reset_best_error(e.to_bits());
        } else {
            let mut n = Network::new(config(), vec![node()], [i as u32 + 1, 2, 3, 4]);
            n.reset_best_error(e.to_bits());
            d.set_network(n, node());
        }
    }
    d
}

fn errors_of(d: &Driver) -> Vec<f64> {
    d.networks.iter().map(|n| f64::from_bits(n.best_error)).collect()
}

#[test]
fn each_configuration_error_is_reported() {
    let cases: Vec<(fn(&mut DriverConfiguration), ConfigurationError)> = vec![
        (|c| c.num_of_input_nodes = 0, ConfigurationError::NoInputNodes),
        (|c| c.num_of_output_nodes = 0, ConfigurationError::NoOutputNodes),
        (|c| c.initial_network_size = 0, ConfigurationError::EmptyInitialNetwork),
        (|c| c.max_network_size = 0, ConfigurationError::MaxBelowInitialSize),
        (|c| c.num_of_networks = 1, ConfigurationError::TooFewNetworks),
        (|c| c.num_of_node_mutation = 0, ConfigurationError::NoNodeMutations),
        (|c| c.batch_size = 0, ConfigurationError::EmptyBatch),
        (|c| c.num_of_cycles = 0, ConfigurationError::NoCycles),
        (|c| c.max_network_size = usize::MAX, ConfigurationError::TooLarge),
    ];
    for (change, expected) in cases {
        let mut c = config();
        change(&mut c);
        assert_eq!(c.validate(), Err(expected));
        let (nodes, seeds) = initial(&config());
        let mut c2 = config();
        change(&mut c2);
        let nodes: Vec<Vec<Node>> = nodes.into_iter().take(c2.num_of_networks.min(4)).collect();
        let seeds: Vec<[u32; 4]> = seeds.into_iter().take(c2.num_of_networks.min(4)).collect();
        if nodes.len() == c2.num_of_networks && nodes.iter().all(|v| v.len() == c2.initial_network_size) {
            assert_eq!(Driver::new_from_config(c2, nodes, seeds).err(), Some(expected));
        }
    }
    assert_eq!(config().validate(), Ok(()));
}

#[test]
fn a_new_population_is_untrained() {
    let c = config();
    let (nodes, seeds) = initial(&c);
    let d = Driver::new_from_config(c, nodes, seeds).unwrap();
    assert_eq!(d.networks.len(), 4);
    for n in &d.networks {
        assert_eq!(n.id, "untrained");
        assert_eq!(n.num_of_nodes(), 1);
        assert_eq!(n.property.output_indices, vec![0, 0, 0]);
        assert_eq!(f64::from_bits(n.best_error), f64::MAX);
        assert_eq!(n.first_place_counter, 0);
    }
}

#[test]
fn max_size_equal_to_initial_size_is_valid() {
    let mut c = config();
    c.initial_network_size = 10;
    assert_eq!(c.validate(), Ok(()));
}

#[test]
fn training_data_shape_is_checked() {
    let d = population(&[]);
    assert_eq!(d.check_training_data(8, 7), Err(DataShapeError::LengthMismatch));
    assert_eq!(d.check_training_data(7, 7), Err(DataShapeError::BatchTooLarge));
    assert_eq!(d.check_training_data(8, 8), Ok(false));
    assert_eq!(d.check_training_data(20, 20), Ok(true));
}

#[test]
fn batches_are_drawn_in_range() {
    let d = population(&[]);
    let mut rng = seeded([1, 2, 3, 4]);
    for _ in 0..100 {
        let b = d.sample_batch(&mut rng, 5);
        assert_eq!(b.len(), 8);
        assert!(b.iter().all(|&i| i < 5));
    }
    let b = d.sample_batch(&mut rng, 5);
    let distinct: std::collections::HashSet<usize> = b.into_iter().collect();
    assert!(distinct.len() > 1);
}

#[test]
fn grow_adds_the_spare_to_a_network_without_unused_nodes() {
    let mut d = population(&[1.0, 2.0, 3.0, 4.0]);
    // with one node whose output reads it, no node is unused
    for n in d.networks.iter_mut() {
        n.property.output_indices = vec![3, 3, 3];
    }
    let mut rng = seeded([5, 5, 5, 5]);
    let g = d.grow_one(&mut rng, node());
    assert!(g >= 1 && g < 4);
    assert_eq!(d.networks[g].num_of_nodes(), 2);
    for i in 0..4 {
        if i != g {
            assert_eq!(d.networks[i].num_of_nodes(), 1);
        }
    }
}

#[test]
fn rank_sorts_by_error() {
    let mut d = population(&[3.0, 0.5, 2.0, 0.5, 9.0]);
    assert_eq!(d.rank(), Ok(()));
    assert_eq!(errors_of(&d), vec![0.5, 0.5, 2.0, 3.0, 9.0]);
}

#[test]
fn rank_refuses_nan() {
    let mut d = population(&[3.0, f64::NAN, 2.0, 1.0]);
    assert_eq!(d.rank(), Err(RankError::NotComparable));
    assert_eq!(errors_of(&d)[0], 3.0);
    assert!(errors_of(&d)[1].is_nan());
    let mut d = population(&[3.0, f64::INFINITY, 2.0, 1.0]);
    assert_eq!(d.rank(), Ok(()));
    assert_eq!(errors_of(&d), vec![1.0, 2.0, 3.0, f64::INFINITY]);
}

#[test]
fn trim_keeps_the_best() {
    let mut d = population(&[3.0, 0.5, 2.0, 0.25, 9.0]);
    d.rank().unwrap();
    d.trim();
    assert_eq!(errors_of(&d), vec![0.25, 0.5, 2.0, 3.0]);
}

#[test]
fn clone_only_a_strictly_better_leader() {
    let mut d = population(&[1.0, 1.0, 2.0, 3.0]);
    assert!(!d.maybe_clone());
    assert_eq!(d.networks.len(), 4);
    let mut d = population(&[0.5, 1.0, 2.0, 3.0]);
    d.networks[0].count_first_place();
    assert!(d.maybe_clone());
    assert_eq!(d.networks.len(), 5);
    assert_eq!(d.networks[4].best_error, 0.5f64.to_bits());
    assert_eq!(d.networks[4].first_place_counter, 0);
    assert_eq!(d.networks[4].property, d.networks[0].property);
}

#[test]
fn generations_keep_the_population_bounded() {
    let mut d = population(&[3.0, 0.5, 2.0, 0.25, 9.0]);
    let mut rng = seeded([3, 3, 3, 3]);
    for g in 0..30u32 {
        // new errors as if local search had run
        for (i, n) in d.networks.iter_mut().enumerate() {
            n.reset_best_error((((i as u32 * 7 + g * 3) % 5) as f64).to_bits());
        }
        assert_eq!(d.finish_generation(&mut rng, node()), Ok(()));
        assert!(d.networks.len() == 4 || d.networks.len() == 5);
        d.reseed_all();
    }
}

#[test]
fn the_leader_collects_first_places() {
    let mut d = population(&[3.0, 0.5, 2.0, 0.25]);
    let mut rng = seeded([3, 3, 3, 3]);
    d.finish_generation(&mut rng, node()).unwrap();
    assert_eq!(f64::from_bits(d.networks[0].best_error), 0.25);
    assert_eq!(d.networks[0].first_place_counter, 1);
    // 0.25 < 0.5, so the leader was cloned
    assert_eq!(d.networks.len(), 5);
    assert_eq!(d.networks[4].first_place_counter, 0);
}

#[test]
fn a_nan_generation_changes_nothing() {
    let mut d = population(&[3.0, f64::NAN, 2.0, 1.0]);
    let mut rng = seeded([3, 3, 3, 3]);
    assert_eq!(d.finish_generation(&mut rng, node()), Err(RankError::NotComparable));
    assert_eq!(d.networks.len(), 4);
}

fn seeded(seed: [u32; 4]) -> XorShiftRng {
    XorShiftRng::from_seed(seed)
}
