//! The population and the decisions of the generational loop.
use crate::config::{ConfigurationError, DriverConfiguration};
use crate::network::{error_key_ok, with_first_place, Network};
use crate::node::Node;
use crate::property::node_is_used;
use crate::rng::{fresh_seed, gen_index, seed_ok, seeded_state};
use rand::XorShiftRng;
use vstd::prelude::*;

verus! {

broadcast use vstd::seq_lib::group_to_multiset_ensures;

/// Why ranking the population failed.
#[derive(Clone, Copy, Debug, PartialEq, Eq, Structural)]
pub enum RankError {
    /// A best error is NaN, so the population has no order.
    NotComparable,
}

/// Why training data was refused.
#[derive(Clone, Copy, Debug, PartialEq, Eq, Structural)]
pub enum DataShapeError {
    /// Inputs and expected outputs differ in number.
    LengthMismatch,
    /// The batch is larger than the number of examples.
    BatchTooLarge,
}

/// The networks are in increasing order of best error.
pub open spec fn sorted_by_error(ns: Seq<Network>) -> bool {
    forall|i: int, j: int| 0 <= i < j < ns.len() ==> ns[i].best_error <= ns[j].best_error
}

/// Every best error is comparable.
pub open spec fn all_comparable(ns: Seq<Network>) -> bool {
    forall|i: int| 0 <= i < ns.len() ==> error_key_ok(#[trigger] ns[i].best_error)
}

/// Each network is well formed and runs under `cfg`.
pub open spec fn members_ok(ns: Seq<Network>, cfg: DriverConfiguration) -> bool {
    forall|i: int| 0 <= i < ns.len() ==> (#[trigger] ns[i]).wf() && ns[i].configuration == cfg
}

#[derive(Clone, Debug)]
pub struct Driver {
    pub configuration: DriverConfiguration,
    pub networks: Vec<Network>,
}

impl Driver {
    pub open spec fn wf(&self) -> bool {
        &&& self.configuration.valid()
        &&& members_ok(self.networks@, self.configuration)
    }

    /// The population of a valid configuration: `num_of_networks` untrained
    /// networks, network `i` with the initial nodes `initial_nodes[i]` and the
    /// generator seed `seeds[i]` (see [`Network::new`]). The error names the
    /// first rule an invalid configuration breaks. Seed genomes join through
    /// [`Driver::set_network`].
    pub fn new_from_config(configuration: DriverConfiguration, initial_nodes: Vec<Vec<Node>>, seeds: Vec<[u32; 4]>) -> (r: Result<Driver, ConfigurationError>)
        requires
            initial_nodes@.len() == configuration.num_of_networks,
            seeds@.len() == configuration.num_of_networks,
            forall|i: int| 0 <= i < seeds@.len() ==> seed_ok(#[trigger] seeds@[i]),
            forall|i: int| 0 <= i < initial_nodes@.len() ==> (#[trigger] initial_nodes@[i])@.len() == configuration.initial_network_size,
            forall|i: int, j: int| 0 <= i < initial_nodes@.len() && 0 <= j < initial_nodes@[i]@.len() ==> (#[trigger] initial_nodes@[i]@[j]).wf()
                && initial_nodes@[i]@[j].targets_below(configuration.num_of_input_nodes + configuration.initial_network_size),
        ensures
            r is Ok <==> configuration.valid(),
            r is Err ==> Some(r->Err_0) == configuration.first_violation(),
            r is Ok ==> {
                let d = r->Ok_0;
                &&& d.wf()
                &&& d.configuration == configuration
                &&& d.networks@.len() == configuration.num_of_networks
                &&& forall|i: int| 0 <= i < d.networks@.len() ==> {
                    let n = #[trigger] d.networks@[i];
                    &&& n.configuration == configuration
                    &&& n.property.nodes == initial_nodes@[i]
                    &&& n.property.output_indices@ == Seq::new(configuration.num_of_output_nodes as nat, |k: int| 0usize)
                    &&& n.rng == seeded_state(seeds@[i])
                    &&& n.best_error == crate::network::MAX_ERROR_KEY
                    &&& n.id@ == "untrained"@
                    &&& n.first_place_counter == 0
                }
            },
    {
        match configuration.validate() {
            Ok(()) => {},
            Err(e) => {
                return Err(e);
            },
        }
        let mut initial_nodes = initial_nodes;
        let mut networks: Vec<Network> = Vec::new();
        let ghost all_nodes = initial_nodes@;
        let mut i: usize = 0;
        while i < configuration.num_of_networks
            invariant
                configuration.valid(),
                i <= configuration.num_of_networks,
                all_nodes.len() == configuration.num_of_networks,
                seeds@.len() == configuration.num_of_networks,
                forall|k: int| 0 <= k < seeds@.len() ==> seed_ok(#[trigger] seeds@[k]),
                initial_nodes@.len() == configuration.num_of_networks - i,
                forall|k: int| 0 <= k < initial_nodes@.len() ==> #[trigger] initial_nodes@[k] == all_nodes[k + i],
                forall|k: int| 0 <= k < all_nodes.len() ==> (#[trigger] all_nodes[k])@.len() == configuration.initial_network_size,
                forall|k: int, j: int| 0 <= k < all_nodes.len() && 0 <= j < all_nodes[k]@.len() ==> (#[trigger] all_nodes[k]@[j]).wf()
                    && all_nodes[k]@[j].targets_below(configuration.num_of_input_nodes + configuration.initial_network_size),
                networks@.len() == i,
                forall|k: int| 0 <= k < i ==> {
                    let n = #[trigger] networks@[k];
                    &&& n.wf()
                    &&& n.configuration == configuration
                    &&& n.property.nodes == all_nodes[k]
                    &&& n.property.output_indices@ == Seq::new(configuration.num_of_output_nodes as nat, |m: int| 0usize)
                    &&& n.rng == seeded_state(seeds@[k])
                    &&& n.best_error == crate::network::MAX_ERROR_KEY
                    &&& n.id@ == "untrained"@
                    &&& n.first_place_counter == 0
                },
            decreases configuration.num_of_networks - i,
        {
            let ghost before = initial_nodes@;
            let nodes = initial_nodes.remove(0);
            proof {
                assert(nodes == all_nodes[i as int]);
                assert forall|k: int| 0 <= k < initial_nodes@.len() implies #[trigger] initial_nodes@[k] == all_nodes[k + i + 1] by {
                    assert(initial_nodes@[k] == before[k + 1]);
                }
                assert forall|j: int| 0 <= j < nodes@.len() implies (#[trigger] nodes@[j]).wf() && nodes@[j].targets_below(configuration.num_of_input_nodes + nodes@.len()) by {
                    assert(all_nodes[i as int]@[j] == nodes@[j]);
                }
            }
            let network = Network::new(configuration, nodes, seeds[i]);
            networks.push(network);
            proof {
                assert forall|k: int| 0 <= k < i + 1 implies ({
                    let n = #[trigger] networks@[k];
                    &&& n.wf()
                    &&& n.configuration == configuration
                    &&& n.property.nodes == all_nodes[k]
                    &&& n.property.output_indices@ == Seq::new(configuration.num_of_output_nodes as nat, |m: int| 0usize)
                    &&& n.rng == seeded_state(seeds@[k])
                    &&& n.best_error == crate::network::MAX_ERROR_KEY
                    &&& n.id@ == "untrained"@
                    &&& n.first_place_counter == 0
                }) by {
                    if k < i {
                        assert(networks@[k] == networks@.drop_last()[k]);
                    }
                }
            }
            i = i + 1;
        }
        let d = Driver { configuration, networks };
        proof {
            assert forall|k: int| 0 <= k < d.networks@.len() implies (#[trigger] d.networks@[k]).wf() && d.networks@[k].configuration == configuration by {
                assert(d.networks@[k] == networks@[k]);
            }
        }
        Ok(d)
    }

    /// Checks training data of `input_len` inputs and `output_len` expected
    /// outputs. On success, tells whether a new batch is drawn each generation
    /// (the batch is smaller than the data) rather than the whole data used.
    pub fn check_training_data(&self, input_len: usize, output_len: usize) -> (r: Result<bool, DataShapeError>)
        ensures
            input_len != output_len <==> r == Err::<bool, DataShapeError>(DataShapeError::LengthMismatch),
            input_len == output_len && self.configuration.batch_size > input_len <==> r == Err::<
                bool,
                DataShapeError,
            >(DataShapeError::BatchTooLarge),
            r is Ok ==> r->Ok_0 == (self.configuration.batch_size != input_len),
    {
        if input_len != output_len {
            Err(DataShapeError::LengthMismatch)
        } else if self.configuration.batch_size > input_len {
            Err(DataShapeError::BatchTooLarge)
        } else {
            Ok(self.configuration.batch_size != input_len)
        }
    }

    /// Draws `batch_size` example indices below `input_len`, uniformly and with
    /// replacement.
    pub fn sample_batch(&self, rng: &mut XorShiftRng, input_len: usize) -> (r: Vec<usize>)
        requires
            input_len > 0,
        ensures
            r@.len() == self.configuration.batch_size,
            forall|i: int| 0 <= i < r@.len() ==> #[trigger] r@[i] < input_len,
    {
        let mut r: Vec<usize> = Vec::new();
        let mut j: usize = 0;
        while j < self.configuration.batch_size
            invariant
                input_len > 0,
                j <= self.configuration.batch_size,
                r@.len() == j,
                forall|i: int| 0 <= i < r@.len() ==> #[trigger] r@[i] < input_len,
            decreases self.configuration.batch_size - j,
        {
            r.push(gen_index(rng, 0, input_len));
            j = j + 1;
        }
        r
    }

    /// Adds a network, under this population's configuration and repaired for
    /// it (see [`Network::fix`]).
    pub fn set_network(&mut self, network: Network, spare: Node)
        requires
            old(self).wf(),
            spare.wf(),
            forall|j: int| 0 <= j < network.property.nodes@.len() ==> (#[trigger] network.property.nodes@[j]).wf(),
        ensures
            final(self).wf(),
            final(self).configuration == old(self).configuration,
            final(self).networks@.len() == old(self).networks@.len() + 1,
            final(self).networks@.subrange(0, old(self).networks@.len() as int) == old(self).networks@,
            ({
                let added = final(self).networks@.last();
                &&& crate::property::fix_outcome(network.property@, added.property@, old(self).configuration, spare@)
                &&& added.best_error == network.best_error
                &&& added.id == network.id
                &&& added.first_place_counter == network.first_place_counter
            }),
    {
        let mut network = network;
        network.set_configuration(self.configuration);
        network.fix(spare);
        self.networks.push(network);
        proof {
            assert(self.networks@.subrange(0, old(self).networks@.len() as int) =~= old(self).networks@);
            assert forall|i: int| 0 <= i < self.networks@.len() implies (#[trigger] self.networks@[i]).wf() && self.networks@[i].configuration == self.configuration by {
                if i < old(self).networks@.len() {
                    assert(self.networks@[i] == old(self).networks@[i]);
                }
            }
        }
    }

    /// Sorts the networks by increasing best error; fails, changing nothing,
    /// when some best error is NaN.
    pub fn rank(&mut self) -> (r: Result<(), RankError>)
        requires
            old(self).wf(),
        ensures
            r is Err <==> !all_comparable(old(self).networks@),
            r is Err ==> *final(self) == *old(self),
            r is Ok ==> sorted_by_error(final(self).networks@),
            final(self).networks@.to_multiset() == old(self).networks@.to_multiset(),
            final(self).configuration == old(self).configuration,
            final(self).wf(),
    {
        let mut i: usize = 0;
        let mut comparable = true;
        while i < self.networks.len()
            invariant
                i <= self.networks@.len(),
                comparable <==> forall|k: int| 0 <= k < i ==> error_key_ok(#[trigger] self.networks@[k].best_error),
            decreases self.networks@.len() - i,
        {
            if !(self.networks[i].best_error <= crate::network::INFINITE_ERROR_KEY) {
                comparable = false;
            }
            i = i + 1;
        }
        if !comparable {
            return Err(RankError::NotComparable);
        }
        let ghost orig = self.networks@;
        let mut rest: Vec<Network> = Vec::new();
        std::mem::swap(&mut rest, &mut self.networks);
        let mut sorted: Vec<Network> = Vec::new();
        while rest.len() > 0
            invariant
                sorted@.to_multiset().add(rest@.to_multiset()) == orig.to_multiset(),
                sorted_by_error(sorted@),
                forall|a: int, b: int| 0 <= a < sorted@.len() && 0 <= b < rest@.len() ==> sorted@[a].best_error <= rest@[b].best_error,
            decreases rest@.len(),
        {
            let mut m: usize = 0;
            let mut k: usize = 1;
            while k < rest.len()
                invariant
                    0 <= m < rest@.len(),
                    1 <= k <= rest@.len(),
                    forall|b: int| 0 <= b < k ==> rest@[m as int].best_error <= #[trigger] rest@[b].best_error,
                decreases rest@.len() - k,
            {
                if rest[k].best_error < rest[m].best_error {
                    m = k;
                }
                k = k + 1;
            }
            let ghost rest0 = rest@;
            let ghost sorted0 = sorted@;
            let x = rest.remove(m);
            sorted.push(x);
            proof {
                vstd::seq_lib::to_multiset_remove(rest0, m as int);
                vstd::seq_lib::to_multiset_build(sorted0, x);
                assert(rest@ == rest0.remove(m as int));
                assert(sorted@ == sorted0.push(x));
                assert(sorted@.to_multiset().add(rest@.to_multiset()) =~= orig.to_multiset());
                assert forall|a: int, b: int| 0 <= a < sorted@.len() && 0 <= b < rest@.len() implies sorted@[a].best_error <= rest@[b].best_error by {
                    let b0 = if b < m { b } else { b + 1 };
                    assert(rest@[b] == rest0[b0]);
                    if a < sorted0.len() {
                        assert(sorted@[a] == sorted0[a]);
                    }
                }
                assert forall|a: int, b: int| 0 <= a < b < sorted@.len() implies sorted@[a].best_error <= sorted@[b].best_error by {
                    if b < sorted0.len() {
                        assert(sorted@[a] == sorted0[a]);
                        assert(sorted@[b] == sorted0[b]);
                    } else {
                        assert(sorted@[a] == sorted0[a]);
                        assert(rest0[m as int] == x);
                    }
                }
            }
        }
        self.networks = sorted;
        proof {
            assert(rest@.to_multiset() =~= vstd::multiset::Multiset::empty());
            assert(self.networks@.to_multiset() =~= orig.to_multiset());
            assert forall|i: int| 0 <= i < self.networks@.len() implies (#[trigger] self.networks@[i]).wf() && self.networks@[i].configuration == self.configuration by {
                let x = self.networks@[i];
                vstd::seq_lib::to_multiset_contains(self.networks@, x);
                vstd::seq_lib::to_multiset_contains(orig, x);
                assert(self.networks@.contains(x));
                assert(orig.contains(x));
            }
        }
        Ok(())
    }

    /// Keeps the best `num_of_networks` networks of a ranked population.
    pub fn trim(&mut self)
        requires
            old(self).wf(),
            old(self).networks@.len() >= old(self).configuration.num_of_networks,
        ensures
            final(self).wf(),
            final(self).configuration == old(self).configuration,
            final(self).networks@ == old(self).networks@.subrange(0, old(self).configuration.num_of_networks as int),
            final(self).networks@.len() == final(self).configuration.num_of_networks,
    {
        self.networks.truncate(self.configuration.num_of_networks);
    }

    /// Gives one network other than the best, picked uniformly, the chance
    /// to grow by `spare` (see [`Network::maybe_add_node`]). Returns its
    /// position.
    pub fn grow_one(&mut self, rng: &mut XorShiftRng, spare: Node) -> (grown: usize)
        requires
            old(self).wf(),
            old(self).networks@.len() >= 2,
            spare.wf(),
            spare.targets_below(old(self).configuration.num_of_input_nodes + 1),
        ensures
            final(self).wf(),
            final(self).configuration == old(self).configuration,
            1 <= grown < old(self).networks@.len(),
            final(self).networks@.len() == old(self).networks@.len(),
            forall|i: int| 0 <= i < old(self).networks@.len() && i != grown ==> #[trigger] final(self).networks@[i] == old(self).networks@[i],
            ({
                let before = old(self).networks@[grown as int];
                let after = final(self).networks@[grown as int];
                let grows = before.property.nodes@.len() < before.configuration.max_network_size
                    && !exists|k: int| 0 <= k < before.property.nodes@.len() && !node_is_used(
                        before.property@,
                        before.configuration.num_of_input_nodes as int,
                        k,
                    );
                &&& (Network { property: before.property, ..after }) == before
                &&& after.property.output_indices == before.property.output_indices
                &&& grows ==> after.property.nodes@ == before.property.nodes@.push(spare)
                &&& !grows ==> after.property.nodes@ == before.property.nodes@
            }),
    {
        let len = self.networks.len();
        let index = gen_index(rng, 1, len);
        proof {
            let n = self.networks@[index as int];
            assert(n.wf());
            assert(n.property@.0.len() > 0);
            assert(spare.targets_below(n.slot_count() + 1));
        }
        let ghost ns = self.networks@;
        self.networks[index].maybe_add_node(spare);
        proof {
            assert forall|i: int| 0 <= i < self.networks@.len() implies (#[trigger] self.networks@[i]).wf() && self.networks@[i].configuration == self.configuration by {
                if i != index {
                    assert(self.networks@[i] == ns[i]);
                }
            }
        }
        index
    }

    /// Appends a copy of the best network, with no first places, when its
    /// error is strictly below the second best's; returns whether it did.
    pub fn maybe_clone(&mut self) -> (cloned: bool)
        requires
            old(self).wf(),
            old(self).networks@.len() >= 2,
        ensures
            final(self).wf(),
            final(self).configuration == old(self).configuration,
            cloned == (old(self).networks@[0].best_error < old(self).networks@[1].best_error),
            !cloned ==> final(self).networks@ == old(self).networks@,
            cloned ==> {
                &&& final(self).networks@.len() == old(self).networks@.len() + 1
                &&& final(self).networks@.subrange(0, old(self).networks@.len() as int) == old(self).networks@
                &&& final(self).networks@.last().property@ == old(self).networks@[0].property@
                &&& final(self).networks@.last().best_error == old(self).networks@[0].best_error
                &&& final(self).networks@.last().id@ == old(self).networks@[0].id@
                &&& final(self).networks@.last().first_place_counter == 0
            },
    {
        if self.networks[0].best_error < self.networks[1].best_error {
            let new_network = self.networks[0].duplicate();
            proof {
                let b = self.networks@[0];
                assert forall|j: int| 0 <= j < new_network.property.nodes@.len() implies (#[trigger] new_network.property.nodes@[j]).wf() by {
                    assert(new_network.property@.0[j] == b.property@.0[j]);
                    assert(b.property.nodes@[j].wf());
                }
            }
            self.networks.push(new_network);
            proof {
                assert(self.networks@.subrange(0, old(self).networks@.len() as int) =~= old(self).networks@);
                assert forall|i: int| 0 <= i < self.networks@.len() implies (#[trigger] self.networks@[i]).wf() && self.networks@[i].configuration == self.configuration by {
                    if i < old(self).networks@.len() {
                        assert(self.networks@[i] == old(self).networks@[i]);
                    }
                }
            }
            true
        } else {
            false
        }
    }

    /// The decisions that close a generation, once every network has run its
    /// local search: rank, keep the best `num_of_networks`, let one network
    /// other than the best grow by `spare`, clone the best when its error is
    /// strictly below the second's, and count a first place for the best. The
    /// population then holds `num_of_networks` networks in increasing order of
    /// error, followed by the clone when there is one. Fails, changing nothing,
    /// when a best error is NaN.
    pub fn finish_generation(&mut self, rng: &mut XorShiftRng, spare: Node) -> (r: Result<(), RankError>)
        requires
            old(self).wf(),
            old(self).networks@.len() >= old(self).configuration.num_of_networks,
            spare.wf(),
            spare.targets_below(old(self).configuration.num_of_input_nodes + 1),
        ensures
            final(self).wf(),
            final(self).configuration == old(self).configuration,
            r is Err <==> !all_comparable(old(self).networks@),
            r is Err ==> *final(self) == *old(self),
            r is Ok ==> final(self).networks@.len() == final(self).configuration.num_of_networks
                || final(self).networks@.len() == final(self).configuration.num_of_networks + 1,
            r is Ok ==> forall|i: int| 0 <= i < final(self).networks@.len() ==> final(self).networks@[0].best_error
                <= (#[trigger] final(self).networks@[i]).best_error,
            r is Ok ==> ({
                let n = final(self).configuration.num_of_networks as int;
                let f = final(self).networks@;
                &&& sorted_by_error(f.subrange(0, n))
                &&& (f.len() == n + 1 <==> f[0].best_error < f[1].best_error)
                &&& exists|k: int|
                    0 <= k < old(self).networks@.len() && f[0] == with_first_place(#[trigger] old(self).networks@[k])
                        && forall|j: int| 0 <= j < old(self).networks@.len() ==> old(self).networks@[k].best_error
                        <= (#[trigger] old(self).networks@[j]).best_error
                &&& f[0].first_place_counter >= 1
                &&& f.len() == n + 1 ==> {
                    &&& f.last().property@ == f[0].property@
                    &&& f.last().best_error == f[0].best_error
                    &&& f.last().id@ == f[0].id@
                    &&& f.last().first_place_counter == 0
                }
            }),
    {
        let ghost orig = self.networks@;
        match self.rank() {
            Err(e) => {
                return Err(e);
            },
            Ok(()) => {},
        }
        let ghost ranked = self.networks@;
        proof {
            vstd::seq_lib::to_multiset_len(ranked);
            vstd::seq_lib::to_multiset_len(orig);
            vstd::seq_lib::to_multiset_contains(ranked, ranked[0]);
            vstd::seq_lib::to_multiset_contains(orig, ranked[0]);
            assert(orig.contains(ranked[0]));
            assert forall|j: int| 0 <= j < orig.len() implies ranked[0].best_error <= (#[trigger] orig[j]).best_error by {
                vstd::seq_lib::to_multiset_contains(ranked, orig[j]);
                vstd::seq_lib::to_multiset_contains(orig, orig[j]);
                assert(orig.contains(orig[j]));
                assert(ranked.contains(orig[j]));
                let m = choose|m: int| 0 <= m < ranked.len() && ranked[m] == orig[j];
                if m > 0 {
                    assert(ranked[0].best_error <= ranked[m].best_error);
                }
            }
        }
        self.trim();
        let ghost trimmed = self.networks@;
        let grown = self.grow_one(rng, spare);
        let ghost grown_ns = self.networks@;
        proof {
            assert forall|i: int| 0 <= i < grown_ns.len() implies #[trigger] grown_ns[i].best_error == trimmed[i].best_error by {
                if i == grown {
                    let before = trimmed[i];
                    let after = grown_ns[i];
                    assert((Network { property: before.property, ..after }).best_error == after.best_error);
                }
            }
            assert(grown_ns[0] == trimmed[0]);
        }
        let cloned = self.maybe_clone();
        let ghost ns = self.networks@;
        proof {
            assert forall|i: int| 0 <= i < grown_ns.len() implies #[trigger] ns[i] == grown_ns[i] by {
                if cloned {
                    assert(ns.subrange(0, grown_ns.len() as int)[i] == ns[i]);
                }
            }
        }
        self.networks[0].count_first_place();
        proof {
            let n = self.configuration.num_of_networks as int;
            let f = self.networks@;
            assert forall|i: int| 1 <= i < f.len() implies #[trigger] f[i] == ns[i] by {}
            assert forall|i: int| 0 <= i < f.len() implies f[0].best_error <= (#[trigger] f[i]).best_error by {
                if i < n {
                    assert(f[i].best_error == trimmed[i].best_error);
                    assert(f[0].best_error == trimmed[0].best_error);
                    if i > 0 {
                        assert(ranked[0].best_error <= ranked[i].best_error);
                    }
                } else {
                    assert(f[0].best_error == ns[0].best_error);
                    assert(f[i] == ns[i]);
                }
            }
            assert forall|a: int, b: int| 0 <= a < b < f.subrange(0, n).len() implies f.subrange(0, n)[a].best_error <= f.subrange(0, n)[b].best_error by {
                assert(f.subrange(0, n)[a].best_error == trimmed[a].best_error);
                assert(f.subrange(0, n)[b].best_error == trimmed[b].best_error);
                assert(ranked[a].best_error <= ranked[b].best_error);
            }
            assert(f[1].best_error == grown_ns[1].best_error);
            assert(f[0].best_error == grown_ns[0].best_error);
            let k = choose|k: int| 0 <= k < orig.len() && orig[k] == ranked[0];
            assert(f[0] == with_first_place(orig[k]));
            assert forall|i: int| 0 <= i < f.len() implies (#[trigger] f[i]).wf() && f[i].configuration == self.configuration by {
                if i != 0 {
                    assert(f[i] == ns[i]);
                }
            }
        }
        Ok(())
    }

    /// Reseeds every network's generator with fresh entropy.
    pub fn reseed_all(&mut self)
        requires
            old(self).wf(),
        ensures
            final(self).wf(),
            final(self).configuration == old(self).configuration,
            final(self).networks@.len() == old(self).networks@.len(),
            forall|i: int| 0 <= i < old(self).networks@.len() ==> {
                let a = #[trigger] final(self).networks@[i];
                let b = old(self).networks@[i];
                &&& a.property == b.property
                &&& a.best_error == b.best_error
                &&& a.id == b.id
                &&& a.first_place_counter == b.first_place_counter
                &&& exists|s: [u32; 4]| seed_ok(s) && a.rng == seeded_state(s)
            },
    {
        let mut i: usize = 0;
        while i < self.networks.len()
            invariant
                self.configuration == old(self).configuration,
                members_ok(self.networks@, self.configuration),
                self.configuration.valid(),
                self.networks@.len() == old(self).networks@.len(),
                i <= self.networks@.len(),
                forall|k: int| 0 <= k < old(self).networks@.len() ==> {
                    let a = #[trigger] self.networks@[k];
                    let b = old(self).networks@[k];
                    &&& a.configuration == b.configuration
                    &&& a.property == b.property
                    &&& a.undo_property == b.undo_property
                    &&& a.best_error == b.best_error
                    &&& a.id == b.id
                    &&& a.first_place_counter == b.first_place_counter
                    &&& k < i ==> exists|s: [u32; 4]| seed_ok(s) && a.rng == seeded_state(s)
                },
            decreases self.networks@.len() - i,
        {
            let seed = fresh_seed();
            let ghost ns = self.networks@;
            self.networks[i].reseed(seed);
            proof {
                assert forall|k: int| 0 <= k < self.networks@.len() && k != i implies #[trigger] self.networks@[k] == ns[k] by {}
                assert(self.networks@[i as int].wf());
                assert(seed_ok(seed) && self.networks@[i as int].rng == seeded_state(seed));
            }
            i = i + 1;
        }
    }
}

} // verus!
