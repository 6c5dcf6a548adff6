//! One member of the population: a genome, its checkpoint for local search,
//! its own generator, and its training bookkeeping.
use crate::config::DriverConfiguration;
use crate::node::Node;
use crate::property::{
    edit_effect, property_ok, targets_ok, Property, PropertyEdit, PropertyModel,
};
use crate::rng::{reseed, seed_ok, seeded, seeded_state};
use rand::XorShiftRng;
use vstd::prelude::*;

verus! {

/// The key of `f64::MAX`, the error a network starts with.
pub const MAX_ERROR_KEY: u64 = 0x7fef_ffff_ffff_ffff;

/// The key of positive infinity; keys above it stand for NaN.
pub const INFINITE_ERROR_KEY: u64 = 0x7ff0_0000_0000_0000;

/// Errors are non-negative `f64` numbers, carried as their bit patterns
/// ("keys"). For numbers from `+0.0` to `+inf` the order of the keys is the
/// order of the numbers; a key above that of `+inf` is a NaN, which no order
/// ranks.
pub open spec fn error_key_ok(key: u64) -> bool {
    key <= INFINITE_ERROR_KEY
}

/// The best error after a chain of trials with batch errors `errors`, starting
/// from `best`: a trial counts only when it is strictly better.
pub open spec fn best_after(best: u64, errors: Seq<u64>) -> u64
    decreases errors.len(),
{
    if errors.len() == 0 {
        best
    } else {
        let b = best_after(best, errors.drop_last());
        if errors.last() < b {
            errors.last()
        } else {
            b
        }
    }
}

/// Recording errors one at a time, as [`Network::record_error`] does, gives
/// the best error of the whole chain.
pub proof fn lemma_best_after_step(best: u64, errors: Seq<u64>, e: u64)
    ensures
        best_after(best, errors.push(e)) == best_after(best_after(best, errors), seq![e]),
{
    assert(errors.push(e).drop_last() =~= errors);
    assert(seq![e].drop_last() =~= Seq::<u64>::empty());
    assert(best_after(best_after(best, errors), Seq::<u64>::empty()) == best_after(best, errors));
}

/// Local search never regresses: whatever the batch errors of a trial's
/// mutations, the best error afterwards is at most the one before, and it is
/// either the one before or one of the errors.
pub proof fn lemma_local_search_monotone(best: u64, errors: Seq<u64>)
    ensures
        best_after(best, errors) <= best,
        best_after(best, errors) == best || errors.contains(best_after(best, errors)),
    decreases errors.len(),
{
    if errors.len() > 0 {
        let rest = errors.drop_last();
        lemma_local_search_monotone(best, rest);
        if best_after(best, rest) != best && !(errors.last() < best_after(best, rest)) {
            let i = choose|i: int| 0 <= i < rest.len() && rest[i] == best_after(best, rest);
            assert(errors[i] == rest[i]);
        }
        if errors.last() < best_after(best, rest) {
            assert(errors[errors.len() - 1] == errors.last());
        }
    }
}

/// One more first place, stopping at the largest count.
pub open spec fn next_count(c: u64) -> u64 {
    if c < u64::MAX {
        (c + 1) as u64
    } else {
        c
    }
}

/// `n` with one more first place counted.
pub open spec fn with_first_place(n: Network) -> Network {
    Network { first_place_counter: next_count(n.first_place_counter), ..n }
}

#[derive(Clone, Debug)]
pub struct Network {
    pub configuration: DriverConfiguration,
    pub property: Property,
    pub undo_property: Property,
    pub rng: XorShiftRng,
    /// The key of the best batch error so far (see [`error_key_ok`]).
    pub best_error: u64,
    pub id: String,
    pub first_place_counter: u64,
}

impl Network {
    /// The configuration is valid and the genome is structurally valid for it.
    pub open spec fn wf(&self) -> bool {
        &&& self.configuration.valid()
        &&& property_ok(self.property@, self.configuration)
        &&& forall|j: int| 0 <= j < self.property.nodes@.len() ==> (#[trigger] self.property.nodes@[j]).wf()
    }

    /// The size of the flat value space: inputs, then nodes.
    pub open spec fn slot_count(&self) -> int {
        self.configuration.num_of_input_nodes + self.property.nodes@.len()
    }

    /// A network with the given genome, label and generator seed, the largest
    /// finite error, an empty checkpoint and no first places.
    pub fn new_with_property(configuration: DriverConfiguration, property: Property, id: &str, seed: [u32; 4]) -> (r: Network)
        requires
            seed_ok(seed),
        ensures
            r.configuration == configuration,
            r.property == property,
            r.undo_property@ == (Seq::<(u64, Seq<crate::node::Connection>)>::empty(), Seq::<usize>::empty()),
            r.rng == seeded_state(seed),
            r.best_error == MAX_ERROR_KEY,
            r.id@ == id@,
            r.first_place_counter == 0,
    {
        let undo_property = Property { nodes: Vec::new(), output_indices: Vec::new() };
        proof {
            assert(undo_property@.0 =~= Seq::<(u64, Seq<crate::node::Connection>)>::empty());
            assert(undo_property@.1 =~= Seq::<usize>::empty());
        }
        Network {
            configuration,
            property,
            undo_property,
            rng: seeded(seed),
            best_error: MAX_ERROR_KEY,
            id: id.to_string(),
            first_place_counter: 0,
        }
    }

    /// An untrained network with the given initial nodes, whose output indices
    /// all read slot 0.
    pub fn new(configuration: DriverConfiguration, nodes: Vec<Node>, seed: [u32; 4]) -> (r: Network)
        requires
            seed_ok(seed),
            configuration.valid(),
            nodes@.len() == configuration.initial_network_size,
            forall|j: int| 0 <= j < nodes@.len() ==> (#[trigger] nodes@[j]).wf() && nodes@[j].targets_below(
                configuration.num_of_input_nodes + nodes@.len(),
            ),
        ensures
            r.wf(),
            r.configuration == configuration,
            r.property.nodes == nodes,
            r.property.output_indices@ == Seq::new(configuration.num_of_output_nodes as nat, |k: int| 0usize),
            r.rng == seeded_state(seed),
            r.best_error == MAX_ERROR_KEY,
            r.id@ == "untrained"@,
            r.first_place_counter == 0,
    {
        let output_indices = vec![0usize; configuration.num_of_output_nodes];
        let property = Property { nodes, output_indices };
        let r = Self::new_with_property(configuration, property, "untrained", seed);
        proof {
            assert(r.property.output_indices@ =~= Seq::new(configuration.num_of_output_nodes as nat, |k: int| 0usize));
            let bound = configuration.num_of_input_nodes + nodes@.len();
            assert forall|j: int| 0 <= j < r.property@.0.len() implies crate::property::node_model_ok(#[trigger] r.property@.0[j], bound) by {
                assert(r.property@.0[j] == nodes@[j]@);
                assert(nodes@[j].targets_below(bound));
            }
            reveal_strlit("untrained");
        }
        r
    }

    pub fn set_configuration(&mut self, configuration: DriverConfiguration)
        ensures
            *final(self) == (Network { configuration, ..*old(self) }),
    {
        self.configuration = configuration;
    }

    /// Adds `spare` as a new node, unless the genome is at its largest size or
    /// still has an unused node.
    pub fn maybe_add_node(&mut self, spare: Node)
        requires
            old(self).wf(),
            spare.wf(),
            spare.targets_below(old(self).slot_count() + 1),
        ensures
            final(self).wf(),
            (Network { property: old(self).property, ..*final(self) }) == *old(self),
            final(self).property.output_indices == old(self).property.output_indices,
            ({
                let grows = old(self).property.nodes@.len() < old(self).configuration.max_network_size
                    && !exists|k: int| 0 <= k < old(self).property.nodes@.len() && !crate::property::node_is_used(
                        old(self).property@,
                        old(self).configuration.num_of_input_nodes as int,
                        k,
                    );
                &&& grows ==> final(self).property.nodes@ == old(self).property.nodes@.push(spare)
                &&& !grows ==> final(self).property.nodes@ == old(self).property.nodes@
            }),
    {
        if self.property.nodes.len() >= self.configuration.max_network_size {
            return;
        }
        if self.property.has_unused_nodes(self.configuration.num_of_input_nodes) {
            return;
        }
        let ghost before = self.property@;
        self.property.nodes.push(spare);
        proof {
            let bound = self.slot_count();
            assert forall|j: int| 0 <= j < self.property@.0.len() implies crate::property::node_model_ok(#[trigger] self.property@.0[j], bound) by {
                if j < before.0.len() {
                    assert(self.property@.0[j] == before.0[j]);
                    assert(crate::property::node_model_ok(before.0[j], bound - 1));
                    assert forall|i: int| 0 <= i < before.0[j].1.len() implies #[trigger] before.0[j].1[i].index < bound by {}
                } else {
                    assert(self.property@.0[j] == spare@);
                }
            }
            assert forall|k: int| 0 <= k < self.property@.1.len() implies #[trigger] self.property@.1[k] < bound by {
                assert(before.1[k] < bound - 1);
            }
        }
    }

    /// One mutation of the genome (see [`Property::mutate`]) over the
    /// network's flat value space.
    pub fn mutate(&mut self, on_node: bool, fresh_weight: u64) -> (edit: PropertyEdit)
        requires
            old(self).wf(),
        ensures
            final(self).wf(),
            edit_effect(old(self).property@, final(self).property@, edit, old(self).slot_count(), fresh_weight),
            on_node <==> edit is Node,
            final(self).configuration == old(self).configuration,
            final(self).undo_property == old(self).undo_property,
            final(self).best_error == old(self).best_error,
            final(self).id == old(self).id,
            final(self).first_place_counter == old(self).first_place_counter,
    {
        let max_connection_index = self.configuration.num_of_input_nodes + self.property.nodes.len();
        self.property.mutate(&mut self.rng, max_connection_index, on_node, fresh_weight)
    }

    /// Starts a local-search trial: the current genome becomes the checkpoint.
    pub fn begin_trial(&mut self)
        ensures
            final(self).undo_property@ == old(self).property@,
            (Network { undo_property: old(self).undo_property, ..*final(self) }) == *old(self),
    {
        self.undo_property = self.property.duplicate();
    }

    /// Records the batch error of the current genome. A strictly better error
    /// becomes the best error and the current genome the checkpoint; mutations
    /// are not reverted in between, so a chain of them is kept when it ends on
    /// an improvement. Returns whether it was better.
    pub fn record_error(&mut self, batch_error: u64) -> (improved: bool)
        ensures
            improved == (batch_error < old(self).best_error),
            final(self).best_error == best_after(old(self).best_error, seq![batch_error]),
            final(self).best_error <= old(self).best_error,
            improved ==> final(self).undo_property@ == old(self).property@,
            !improved ==> final(self).undo_property == old(self).undo_property,
            (Network { undo_property: old(self).undo_property, best_error: old(self).best_error, ..*final(self) })
                == *old(self),
    {
        proof {
            assert(seq![batch_error].drop_last() =~= Seq::<u64>::empty());
            assert(best_after(self.best_error, Seq::<u64>::empty()) == self.best_error);
        }
        if batch_error < self.best_error {
            self.best_error = batch_error;
            self.undo_property = self.property.duplicate();
            true
        } else {
            false
        }
    }

    /// Ends a local-search trial: the genome goes back to the checkpoint,
    /// dropping the mutations after the last improvement.
    pub fn end_trial(&mut self)
        ensures
            final(self).property@ == old(self).undo_property@,
            (Network { property: old(self).property, ..*final(self) }) == *old(self),
    {
        self.property = self.undo_property.duplicate();
    }

    pub fn set_property(&mut self, property: Property)
        ensures
            *final(self) == (Network { property, ..*old(self) }),
    {
        self.property = property;
    }

    /// A deep copy of the genome.
    pub fn get_property(&self) -> (r: Property)
        ensures
            r@ == self.property@,
    {
        self.property.duplicate()
    }

    /// Repairs the genome for the network's configuration (see
    /// [`Property::fix`]); `spare` is the node a genome without nodes gets.
    pub fn fix(&mut self, spare: Node)
        requires
            old(self).configuration.valid(),
            spare.wf(),
            forall|j: int| 0 <= j < old(self).property.nodes@.len() ==> (#[trigger] old(self).property.nodes@[j]).wf(),
        ensures
            final(self).wf(),
            crate::property::fix_outcome(old(self).property@, final(self).property@, old(self).configuration, spare@),
            final(self).configuration == old(self).configuration,
            final(self).best_error == old(self).best_error,
            final(self).id == old(self).id,
            final(self).first_place_counter == old(self).first_place_counter,
    {
        let ghost before = self.property@;
        self.property.fix(&mut self.rng, &self.configuration, spare);
        proof {
            assert forall|j: int| 0 <= j < self.property.nodes@.len() implies (#[trigger] self.property.nodes@[j]).wf() by {
                assert(crate::property::node_model_ok(self.property@.0[j], self.slot_count()));
            }
        }
    }

    /// Sets the best error to the error of the current genome on a new batch.
    pub fn reset_best_error(&mut self, batch_error: u64)
        ensures
            *final(self) == (Network { best_error: batch_error, ..*old(self) }),
    {
        self.best_error = batch_error;
    }

    /// Whether the best error is at or below the desired error.
    pub fn is_good_enough(&self) -> (r: bool)
        ensures
            r == match self.configuration.desired_error {
                Some(d) => self.best_error <= d,
                None => false,
            },
    {
        match self.configuration.desired_error {
            Some(d) => self.best_error <= d,
            None => false,
        }
    }

    pub fn num_of_nodes(&self) -> (r: usize)
        ensures
            r == self.property.nodes@.len(),
    {
        self.property.nodes.len()
    }

    /// Reseeds the network's own generator.
    pub fn reseed(&mut self, seed: [u32; 4])
        requires
            seed_ok(seed),
        ensures
            final(self).configuration == old(self).configuration,
            final(self).property == old(self).property,
            final(self).undo_property == old(self).undo_property,
            final(self).best_error == old(self).best_error,
            final(self).id == old(self).id,
            final(self).first_place_counter == old(self).first_place_counter,
            final(self).rng == seeded_state(seed),
    {
        reseed(&mut self.rng, seed);
    }

    /// A deep copy with its streak of first places reset.
    pub fn duplicate(&self) -> (r: Network)
        ensures
            r.configuration == self.configuration,
            r.property@ == self.property@,
            r.undo_property@ == self.undo_property@,
            r.rng == self.rng,
            r.best_error == self.best_error,
            r.id@ == self.id@,
            r.first_place_counter == 0,
    {
        Network {
            configuration: self.configuration,
            property: self.property.duplicate(),
            undo_property: self.undo_property.duplicate(),
            rng: self.rng.clone(),
            best_error: self.best_error,
            id: self.id.clone(),
            first_place_counter: 0,
        }
    }

    /// Counts one more generation at the first place, stopping at the
    /// largest count.
    pub fn count_first_place(&mut self)
        ensures
            *final(self) == with_first_place(*old(self)),
    {
        if self.first_place_counter < u64::MAX {
            self.first_place_counter = self.first_place_counter + 1;
        }
    }

    /// Whether a trial goes on after `mutations_done` mutations: each trial
    /// makes `num_of_node_mutation` of them.
    pub fn keeps_mutating(&self, mutations_done: usize) -> (r: bool)
        ensures
            r == (mutations_done < self.configuration.num_of_node_mutation),
    {
        mutations_done < self.configuration.num_of_node_mutation
    }

    /// Whether local search on a batch goes on after `trials_done` trials: at
    /// most `num_of_iterations` trials, and none once the network is good
    /// enough (see [`Network::is_good_enough`]) after a trial.
    pub fn keeps_searching(&self, trials_done: usize) -> (r: bool)
        ensures
            r == (trials_done < self.configuration.num_of_iterations && (trials_done == 0 || !match self.configuration.desired_error {
                Some(d) => self.best_error <= d,
                None => false,
            })),
    {
        trials_done < self.configuration.num_of_iterations && (trials_done == 0 || !self.is_good_enough())
    }
}

} // verus!
