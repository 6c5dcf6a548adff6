//! The genome: an ordered collection of nodes and the slots read as outputs.
use crate::config::DriverConfiguration;
use crate::node::{
    contains_target, empty_target_set, fixed_connections, insert_target, lemma_fixed_connections,
    mutation_effect, Connection, Node, NodeEdit,
};
use crate::rng::gen_index;
use rand::XorShiftRng;
use vstd::prelude::*;

verus! {

/// A node as bias and connections.
pub type NodeModel = (u64, Seq<Connection>);

/// A genome as its nodes and its output indices.
pub type PropertyModel = (Seq<NodeModel>, Seq<usize>);

#[derive(Clone, Debug, PartialEq)]
pub struct Property {
    pub nodes: Vec<Node>,
    pub output_indices: Vec<usize>,
}

impl View for Property {
    type V = PropertyModel;

    open spec fn view(&self) -> PropertyModel {
        (self.nodes@.map_values(|n: Node| n@), self.output_indices@)
    }
}

/// The genome-level operators.
#[derive(Clone, Copy, Debug, PartialEq, Eq, Structural)]
pub enum MutatePropertyOperation {
    SwapNodes,
    SwapOutput,
    RandomOutputOne,
    RandomOutputAll,
}

/// What one genome mutation did: it mutated node `.0` as the edit says, or it
/// applied a genome-level operator.
#[derive(Clone, Copy, Debug, PartialEq, Eq, Structural)]
pub enum PropertyEdit {
    Node(usize, NodeEdit),
    Genome(MutatePropertyOperation),
}

/// A node has a connection, and each targets a slot below `bound`.
pub open spec fn node_model_ok(n: NodeModel, bound: int) -> bool {
    &&& n.1.len() > 0
    &&& forall|i: int| 0 <= i < n.1.len() ==> #[trigger] n.1[i].index < bound
}

/// The size of the flat value space of `p` under `cfg`.
pub open spec fn slot_count(p: PropertyModel, cfg: DriverConfiguration) -> int {
    cfg.num_of_input_nodes + p.0.len()
}

/// Every node keeps a connection, and every connection and every output
/// index addresses a slot below `bound`.
pub open spec fn targets_ok(p: PropertyModel, bound: int) -> bool {
    &&& forall|j: int| 0 <= j < p.0.len() ==> node_model_ok(#[trigger] p.0[j], bound)
    &&& forall|k: int| 0 <= k < p.1.len() ==> #[trigger] p.1[k] < bound
}

/// The structural validity that the repair establishes: at least one node and
/// at most `max_network_size`, one output index per output node, and every
/// index within the flat value space.
pub open spec fn property_ok(p: PropertyModel, cfg: DriverConfiguration) -> bool {
    &&& p.0.len() > 0
    &&& p.0.len() <= cfg.max_network_size
    &&& p.1.len() == cfg.num_of_output_nodes
    &&& targets_ok(p, slot_count(p, cfg))
}

/// `s` with the items at `i` and `j` exchanged.
pub open spec fn swapped<A>(s: Seq<A>, i: int, j: int) -> Seq<A> {
    s.update(i, s[j]).update(j, s[i])
}

/// What genome-level operator `op` did, from `before` to `after`, with
/// `bound` slots.
pub open spec fn property_effect(
    before: PropertyModel,
    after: PropertyModel,
    op: MutatePropertyOperation,
    bound: int,
) -> bool {
    match op {
        MutatePropertyOperation::SwapNodes => after.1 == before.1 && exists|i: int, j: int|
            0 <= i < before.0.len() && 0 <= j < before.0.len() && after.0 == #[trigger] swapped(
                before.0,
                i,
                j,
            ),
        MutatePropertyOperation::SwapOutput => after.0 == before.0 && exists|i: int, j: int|
            0 <= i < before.1.len() && 0 <= j < before.1.len() && after.1 == #[trigger] swapped(
                before.1,
                i,
                j,
            ),
        MutatePropertyOperation::RandomOutputOne => after.0 == before.0 && exists|i: int, t: usize|
            0 <= i < before.1.len() && t < bound && after.1 == #[trigger] before.1.update(i, t),
        MutatePropertyOperation::RandomOutputAll => {
            &&& after.0 == before.0
            &&& after.1.len() == before.1.len()
            &&& forall|k: int| 0 <= k < after.1.len() ==> #[trigger] after.1[k] < bound
        },
    }
}

/// What one genome mutation did, from `before` to `after`.
pub open spec fn edit_effect(
    before: PropertyModel,
    after: PropertyModel,
    edit: PropertyEdit,
    bound: int,
    fresh_weight: u64,
) -> bool {
    match edit {
        PropertyEdit::Node(j, e) => {
            &&& j < before.0.len()
            &&& after.1 == before.1
            &&& after.0.len() == before.0.len()
            &&& forall|k: int| 0 <= k < before.0.len() && k != j ==> #[trigger] after.0[k] == before.0[k]
            &&& mutation_effect(before.0[j as int], after.0[j as int], e, bound, fresh_weight)
        },
        PropertyEdit::Genome(op) => property_effect(before, after, op, bound),
    }
}

/// Node `k` of `p` (slot `num_inputs + k`) is read by an output index or by a
/// connection of another node.
pub open spec fn node_is_used(p: PropertyModel, num_inputs: int, k: int) -> bool {
    ||| exists|o: int| 0 <= o < p.1.len() && p.1[o] == num_inputs + k
    ||| exists|j: int| 0 <= j < p.0.len() && j != k && model_connects_to(#[trigger] p.0[j], num_inputs + k)
}

/// Some connection of node `n` targets slot `t`.
pub open spec fn model_connects_to(n: NodeModel, t: int) -> bool {
    exists|i: int| 0 <= i < n.1.len() && n.1[i].index == t
}

/// The nodes that the repair keeps: a new node for none, else at most
/// `max_network_size` of them.
pub open spec fn kept_nodes(p: PropertyModel, cfg: DriverConfiguration, spare: NodeModel) -> Seq<NodeModel> {
    if p.0.len() == 0 {
        seq![spare]
    } else if p.0.len() > cfg.max_network_size {
        p.0.subrange(0, cfg.max_network_size as int)
    } else {
        p.0
    }
}

/// The relation between a genome and its repair under `cfg`, where `spare` is
/// the node added to a genome without nodes. Output indices below the bound
/// stay; others are replaced by some index below the bound.
pub open spec fn fix_outcome(
    before: PropertyModel,
    after: PropertyModel,
    cfg: DriverConfiguration,
    spare: NodeModel,
) -> bool {
    let kept = kept_nodes(before, cfg, spare);
    let bound = cfg.num_of_input_nodes + kept.len();
    &&& after.0.len() == kept.len()
    &&& forall|j: int|
        0 <= j < kept.len() ==> #[trigger] after.0[j] == (kept[j].0, fixed_connections(kept[j].1, bound))
    &&& after.1.len() == cfg.num_of_output_nodes
    &&& forall|k: int|
        0 <= k < after.1.len() ==> {
            let o = if k < before.1.len() {
                before.1[k]
            } else {
                0
            };
            &&& #[trigger] after.1[k] < bound
            &&& o < bound ==> after.1[k] == o
        }
}

/// A repair yields a structurally valid genome.
pub proof fn lemma_fix_outcome_ok(
    before: PropertyModel,
    after: PropertyModel,
    cfg: DriverConfiguration,
    spare: NodeModel,
)
    requires
        fix_outcome(before, after, cfg, spare),
        cfg.max_network_size > 0,
        spare.1.len() > 0,
        forall|j: int| 0 <= j < before.0.len() ==> (#[trigger] before.0[j]).1.len() > 0,
    ensures
        property_ok(after, cfg),
{
    let kept = kept_nodes(before, cfg, spare);
    let bound = cfg.num_of_input_nodes + kept.len();
    assert forall|j: int| 0 <= j < after.0.len() implies node_model_ok(#[trigger] after.0[j], bound) by {
        lemma_fixed_connections(kept[j].1, bound);
        assert(kept[j].1.len() > 0);
        let n = after.0[j];
        assert forall|i: int| 0 <= i < n.1.len() implies #[trigger] n.1[i].index < bound by {
            assert(n.1[i] == fixed_connections(kept[j].1, bound)[i]);
        }
    }
}

/// The repair leaves a structurally valid genome as it is.
pub proof fn lemma_fix_keeps_valid(p: PropertyModel, q: PropertyModel, cfg: DriverConfiguration, spare: NodeModel)
    requires
        property_ok(p, cfg),
        fix_outcome(p, q, cfg, spare),
    ensures
        q == p,
{
    let bound = slot_count(p, cfg);
    assert(kept_nodes(p, cfg, spare) == p.0);
    assert forall|j: int| 0 <= j < p.0.len() implies #[trigger] q.0[j] == p.0[j] by {
        assert(node_model_ok(p.0[j], bound));
        lemma_fixed_connections(p.0[j].1, bound);
    }
    assert forall|k: int| 0 <= k < p.1.len() implies #[trigger] q.1[k] == p.1[k] by {
        assert(p.1[k] < bound);
    }
    assert(q.0 =~= p.0);
    assert(q.1 =~= p.1);
}

/// Repairing twice gives what repairing once gave: whatever the first repair
/// drew, a second repair of its result changes nothing.
pub proof fn lemma_fix_idempotent(
    g: PropertyModel,
    once: PropertyModel,
    twice: PropertyModel,
    cfg: DriverConfiguration,
    spare1: NodeModel,
    spare2: NodeModel,
)
    requires
        cfg.max_network_size > 0,
        spare1.1.len() > 0,
        forall|j: int| 0 <= j < g.0.len() ==> (#[trigger] g.0[j]).1.len() > 0,
        fix_outcome(g, once, cfg, spare1),
        fix_outcome(once, twice, cfg, spare2),
    ensures
        twice == once,
        property_ok(once, cfg),
{
    lemma_fix_outcome_ok(g, once, cfg, spare1);
    lemma_fix_keeps_valid(once, twice, cfg, spare2);
}

impl Property {
    /// A deep copy.
    pub fn duplicate(&self) -> (r: Property)
        ensures
            r@ == self@,
    {
        let mut nodes: Vec<Node> = Vec::new();
        let mut i: usize = 0;
        while i < self.nodes.len()
            invariant
                i <= self.nodes@.len(),
                nodes@.len() == i,
                forall|k: int| 0 <= k < i ==> (#[trigger] nodes@[k])@ == self.nodes@[k]@,
            decreases self.nodes@.len() - i,
        {
            nodes.push(self.nodes[i].duplicate());
            i = i + 1;
        }
        let mut output_indices: Vec<usize> = Vec::new();
        let mut k: usize = 0;
        while k < self.output_indices.len()
            invariant
                k <= self.output_indices@.len(),
                output_indices@ == self.output_indices@.subrange(0, k as int),
            decreases self.output_indices@.len() - k,
        {
            output_indices.push(self.output_indices[k]);
            k = k + 1;
        }
        let r = Property { nodes, output_indices };
        assert(r@.0 =~= self@.0);
        assert(r@.1 =~= self@.1);
        r
    }

    /// Repairs the genome for `configuration`: a genome without nodes gets
    /// `spare`, one with too many keeps the first `max_network_size`; the
    /// output indices are cut or padded with 0 to one per output node, and
    /// each one out of range is replaced by a uniformly drawn index in range;
    /// then every node is repaired (see [`Node::fix`]).
    pub fn fix(&mut self, rng: &mut XorShiftRng, configuration: &DriverConfiguration, spare: Node)
        requires
            configuration.max_network_size > 0,
            configuration.num_of_input_nodes + configuration.max_network_size <= usize::MAX,
            spare.wf(),
            forall|j: int| 0 <= j < old(self).nodes@.len() ==> (#[trigger] old(self).nodes@[j]).wf(),
        ensures
            fix_outcome(old(self)@, final(self)@, *configuration, spare@),
            property_ok(final(self)@, *configuration),
    {
        let ghost before = self@;
        if self.nodes.len() == 0 {
            self.nodes.push(spare);
        } else {
            self.nodes.truncate(configuration.max_network_size);
        }
        let ghost kept = kept_nodes(before, *configuration, spare@);
        assert(self@.0 =~= kept);
        assert(forall|m: int| 0 <= m < self.nodes@.len() ==> (#[trigger] self.nodes@[m]).wf());
        let num_of_nodes = self.nodes.len();
        let max_connection_index = num_of_nodes + configuration.num_of_input_nodes;
        let ghost outputs0 = self.output_indices@;
        self.output_indices.resize(configuration.num_of_output_nodes, 0);
        let mut k: usize = 0;
        while k < self.output_indices.len()
            invariant
                self.output_indices@.len() == configuration.num_of_output_nodes,
                k <= self.output_indices@.len(),
                self@.0 == kept,
                self.nodes@.len() == num_of_nodes,
                forall|m: int| 0 <= m < self.nodes@.len() ==> (#[trigger] self.nodes@[m]).wf(),
                max_connection_index == configuration.num_of_input_nodes + kept.len(),
                max_connection_index > 0,
                outputs0 == before.1,
                forall|m: int| 0 <= m < outputs0.len() && m < configuration.num_of_output_nodes ==> #[trigger] self.output_indices@[m] == outputs0[m] || m < k,
                forall|m: int| outputs0.len() <= m < configuration.num_of_output_nodes ==> #[trigger] self.output_indices@[m] == 0 || m < k,
                forall|m: int| 0 <= m < k ==> {
                    let o = if m < outputs0.len() { outputs0[m] } else { 0 };
                    &&& #[trigger] self.output_indices@[m] < max_connection_index
                    &&& o < max_connection_index ==> self.output_indices@[m] == o
                },
            decreases self.output_indices@.len() - k,
        {
            if self.output_indices[k] >= max_connection_index {
                let t = gen_index(rng, 0, max_connection_index);
                self.output_indices.set(k, t);
            }
            k = k + 1;
        }
        assert(forall|m: int| 0 <= m < num_of_nodes ==> (#[trigger] self.nodes@[m])@ == self@.0[m]);
        assert forall|m: int| 0 <= m < kept.len() implies (#[trigger] kept[m]).1.len() > 0 by {
            assert(self.nodes@[m]@ == kept[m]);
            assert(self.nodes@[m].wf());
        }
        let ghost outs_fixed = self.output_indices@;
        let mut j: usize = 0;
        while j < num_of_nodes
            invariant
                num_of_nodes == kept.len(),
                max_connection_index == configuration.num_of_input_nodes + kept.len(),
                self.nodes@.len() == num_of_nodes,
                self.output_indices@ == outs_fixed,
                j <= num_of_nodes,
                forall|m: int| 0 <= m < kept.len() ==> (#[trigger] kept[m]).1.len() > 0,
                forall|m: int| 0 <= m < j ==> (#[trigger] self.nodes@[m])@ == (kept[m].0, fixed_connections(kept[m].1, max_connection_index as int)),
                forall|m: int| j <= m < num_of_nodes ==> (#[trigger] self.nodes@[m])@ == kept[m],
            decreases num_of_nodes - j,
        {
            self.nodes[j].fix(max_connection_index);
            j = j + 1;
        }
        proof {
            assert(self@.0.len() == kept.len());
            assert(forall|m: int| 0 <= m < kept.len() ==> #[trigger] self@.0[m] == self.nodes@[m]@);
            assert(fix_outcome(before, self@, *configuration, spare@));
            lemma_fix_outcome_ok(before, self@, *configuration, spare@);
        }
    }

    /// Whether some node is unused: no output index reads its slot
    /// (`num_of_input_nodes` plus its position) and no other node connects to
    /// it. A node that reads only itself is unused.
    pub fn has_unused_nodes(&self, num_of_input_nodes: usize) -> (r: bool)
        requires
            num_of_input_nodes + self.nodes@.len() <= usize::MAX,
        ensures
            r <==> exists|k: int| 0 <= k < self.nodes@.len() && !node_is_used(self@, num_of_input_nodes as int, k),
    {
        let ghost p = self@;
        let mut set_of_used_nodes = empty_target_set();
        let mut o: usize = 0;
        while o < self.output_indices.len()
            invariant
                o <= self.output_indices@.len(),
                set_of_used_nodes@ == Set::new(|t: usize| exists|m: int| 0 <= m < o && self.output_indices@[m] == t),
            decreases self.output_indices@.len() - o,
        {
            insert_target(&mut set_of_used_nodes, self.output_indices[o]);
            proof {
                assert(set_of_used_nodes@ =~= Set::new(|t: usize| exists|m: int| 0 <= m < o + 1 && self.output_indices@[m] == t)) by {
                    assert forall|t: usize| (exists|m: int| 0 <= m < o + 1 && self.output_indices@[m] == t) implies set_of_used_nodes@.contains(t) by {
                        let m = choose|m: int| 0 <= m < o + 1 && self.output_indices@[m] == t;
                        if m < o {
                            assert(Set::new(|t: usize| exists|m: int| 0 <= m < o && self.output_indices@[m] == t).contains(t));
                        }
                    }
                }
            }
            o = o + 1;
        }
        let ghost from_outputs = set_of_used_nodes@;
        assert(from_outputs =~= Set::new(|t: usize| exists|m: int| 0 <= m < self.output_indices@.len() && self.output_indices@[m] == t));
        let n = self.nodes.len();
        let mut j: usize = 0;
        while j < n
            invariant
                n == self.nodes@.len(),
                j <= n,
                num_of_input_nodes + n <= usize::MAX,
                set_of_used_nodes@ == from_outputs.union(Set::new(|t: usize| exists|m: int| 0 <= m < j && (#[trigger] self.nodes@[m]).used_targets((num_of_input_nodes + m) as usize).contains(t))),
            decreases n - j,
        {
            let ghost before = set_of_used_nodes@;
            self.nodes[j].add_used_nodes(num_of_input_nodes + j, &mut set_of_used_nodes);
            proof {
                assert(set_of_used_nodes@ =~= from_outputs.union(Set::new(|t: usize| exists|m: int| 0 <= m < j + 1 && (#[trigger] self.nodes@[m]).used_targets((num_of_input_nodes + m) as usize).contains(t)))) by {
                    assert forall|t: usize| (exists|m: int| 0 <= m < j + 1 && (#[trigger] self.nodes@[m]).used_targets((num_of_input_nodes + m) as usize).contains(t)) implies set_of_used_nodes@.contains(t) by {
                        let m = choose|m: int| 0 <= m < j + 1 && (#[trigger] self.nodes@[m]).used_targets((num_of_input_nodes + m) as usize).contains(t);
                        if m < j {
                            assert(Set::new(|t: usize| exists|m: int| 0 <= m < j && (#[trigger] self.nodes@[m]).used_targets((num_of_input_nodes + m) as usize).contains(t)).contains(t));
                        }
                    }
                }
            }
            j = j + 1;
        }
        let mut k: usize = 0;
        while k < n
            invariant
                n == self.nodes@.len(),
                k <= n,
                p == self@,
                from_outputs == Set::new(|t: usize| exists|m: int| 0 <= m < self.output_indices@.len() && self.output_indices@[m] == t),
                num_of_input_nodes + n <= usize::MAX,
                set_of_used_nodes@ == from_outputs.union(Set::new(|t: usize| exists|m: int| 0 <= m < n && (#[trigger] self.nodes@[m]).used_targets((num_of_input_nodes + m) as usize).contains(t))),
                forall|m: int| 0 <= m < k ==> node_is_used(p, num_of_input_nodes as int, m),
            decreases n - k,
        {
            let t = num_of_input_nodes + k;
            if !contains_target(&set_of_used_nodes, t) {
                proof {
                    if node_is_used(p, num_of_input_nodes as int, k as int) {
                        if exists|o: int| 0 <= o < p.1.len() && p.1[o] == num_of_input_nodes + k {
                            let o = choose|o: int| 0 <= o < p.1.len() && p.1[o] == num_of_input_nodes + k;
                            assert(self.output_indices@[o] == t);
                            assert(from_outputs.contains(t));
                        } else {
                            let m = choose|m: int| 0 <= m < p.0.len() && m != k && model_connects_to(#[trigger] p.0[m], num_of_input_nodes + k);
                            let i = choose|i: int| 0 <= i < p.0[m].1.len() && p.0[m].1[i].index == num_of_input_nodes + k;
                            assert(self.nodes@[m]@ == p.0[m]);
                            assert(self.nodes@[m].connections@[i].index == t);
                            assert(self.nodes@[m].connects_to(t));
                            assert(self.nodes@[m].used_targets((num_of_input_nodes + m) as usize).contains(t));
                        }
                    }
                }
                return true;
            }
            proof {
                if from_outputs.contains(t) {
                    let m = choose|m: int| 0 <= m < self.output_indices@.len() && self.output_indices@[m] == t;
                    assert(p.1[m] == num_of_input_nodes + k);
                } else {
                    let m = choose|m: int| 0 <= m < n && (#[trigger] self.nodes@[m]).used_targets((num_of_input_nodes + m) as usize).contains(t);
                    let i = choose|i: int| 0 <= i < self.nodes@[m].connections@.len() && self.nodes@[m].connections@[i].index == t;
                    assert(self.nodes@[m]@ == p.0[m]);
                    assert(p.0[m].1[i].index == num_of_input_nodes + k);
                    assert(model_connects_to(p.0[m], num_of_input_nodes + k));
                }
            }
            k = k + 1;
        }
        false
    }

    /// Exchanges nodes `i` and `j`.
    fn swap_nodes(&mut self, i: usize, j: usize)
        requires
            i < old(self).nodes@.len(),
            j < old(self).nodes@.len(),
        ensures
            final(self).nodes@ == swapped(old(self).nodes@, i as int, j as int),
            final(self).output_indices@ == old(self).output_indices@,
    {
        let ghost s = self.nodes@;
        if i != j {
            let lo = if i < j { i } else { j };
            let hi = if i < j { j } else { i };
            let b = self.nodes.remove(hi);
            let a = self.nodes.remove(lo);
            self.nodes.insert(lo, b);
            self.nodes.insert(hi, a);
            assert(self.nodes@ =~= swapped(s, i as int, j as int));
        } else {
            assert(self.nodes@ =~= swapped(s, i as int, j as int));
        }
    }

    /// Applies one genome-level operator, picked uniformly: swap two nodes
    /// (possibly the same), swap two output indices, retarget one output
    /// index, or retarget every output index, uniformly below
    /// `max_connection_index`.
    fn mutate_property(&mut self, rng: &mut XorShiftRng, max_connection_index: usize) -> (op: MutatePropertyOperation)
        requires
            old(self).nodes@.len() > 0,
            old(self).output_indices@.len() > 0,
            max_connection_index > 0,
        ensures
            property_effect(old(self)@, final(self)@, op, max_connection_index as int),
            final(self).nodes@.len() == old(self).nodes@.len(),
            forall|j: int| 0 <= j < final(self).nodes@.len() ==> exists|k: int| 0 <= k < old(self).nodes@.len() && (#[trigger] final(self).nodes@[j]) == old(self).nodes@[k],
    {
        let ghost before = self@;
        let num_of_nodes = self.nodes.len();
        let num_of_outputs = self.output_indices.len();
        let pick = gen_index(rng, 0, 4);
        if pick == 0 {
            let index1 = gen_index(rng, 0, num_of_nodes);
            let index2 = gen_index(rng, 0, num_of_nodes);
            let ghost ns = self.nodes@;
            self.swap_nodes(index1, index2);
            proof {
                assert(self@.0 =~= swapped(before.0, index1 as int, index2 as int));
                assert forall|j: int| 0 <= j < self.nodes@.len() implies exists|k: int| 0 <= k < ns.len() && (#[trigger] self.nodes@[j]) == ns[k] by {
                    if j == index1 {
                        assert(self.nodes@[j] == ns[index2 as int]);
                    } else if j == index2 {
                        assert(self.nodes@[j] == ns[index1 as int]);
                    } else {
                        assert(self.nodes@[j] == ns[j]);
                    }
                }
            }
            MutatePropertyOperation::SwapNodes
        } else if pick == 1 {
            let index1 = gen_index(rng, 0, num_of_outputs);
            let index2 = gen_index(rng, 0, num_of_outputs);
            let a = self.output_indices[index1];
            let b = self.output_indices[index2];
            self.output_indices.set(index1, b);
            self.output_indices.set(index2, a);
            proof {
                assert(self@.1 =~= swapped(before.1, index1 as int, index2 as int));
                assert(self.nodes@[0] == old(self).nodes@[0]);
            }
            MutatePropertyOperation::SwapOutput
        } else if pick == 2 {
            let index1 = gen_index(rng, 0, num_of_outputs);
            let index2 = gen_index(rng, 0, max_connection_index);
            self.output_indices.set(index1, index2);
            proof {
                assert(self@.1 == before.1.update(index1 as int, index2));
                assert(self.nodes@[0] == old(self).nodes@[0]);
            }
            MutatePropertyOperation::RandomOutputOne
        } else {
            let mut k: usize = 0;
            while k < num_of_outputs
                invariant
                    self.nodes@ == old(self).nodes@,
                    max_connection_index > 0,
                    self.output_indices@.len() == num_of_outputs,
                    k <= num_of_outputs,
                    forall|m: int| 0 <= m < k ==> #[trigger] self.output_indices@[m] < max_connection_index,
                decreases num_of_outputs - k,
            {
                let t = gen_index(rng, 0, max_connection_index);
                self.output_indices.set(k, t);
                k = k + 1;
            }
            proof {
                assert(self.nodes@[0] == old(self).nodes@[0]);
            }
            MutatePropertyOperation::RandomOutputAll
        }
    }

    /// One mutation step: when `on_node` (the caller's draw below the node
    /// threshold), a uniformly chosen node is mutated (see
    /// [`Node::mutate_node`]); otherwise a genome-level operator is applied.
    /// Every node keeps at least one connection, and a genome whose indices are
    /// all below `max_connection_index` keeps them there.
    pub fn mutate(&mut self, rng: &mut XorShiftRng, max_connection_index: usize, on_node: bool, fresh_weight: u64) -> (edit: PropertyEdit)
        requires
            old(self).nodes@.len() > 0,
            old(self).output_indices@.len() > 0,
            max_connection_index > 0,
            forall|j: int| 0 <= j < old(self).nodes@.len() ==> (#[trigger] old(self).nodes@[j]).wf(),
        ensures
            edit_effect(old(self)@, final(self)@, edit, max_connection_index as int, fresh_weight),
            on_node <==> edit is Node,
            final(self).nodes@.len() == old(self).nodes@.len(),
            final(self).output_indices@.len() == old(self).output_indices@.len(),
            forall|j: int| 0 <= j < final(self).nodes@.len() ==> (#[trigger] final(self).nodes@[j]).wf(),
            targets_ok(old(self)@, max_connection_index as int) ==> targets_ok(final(self)@, max_connection_index as int),
    {
        let ghost before = self@;
        if on_node {
            let num_of_nodes = self.nodes.len();
            let node_index = gen_index(rng, 0, num_of_nodes);
            let ghost ns = self.nodes@;
            let e = self.nodes[node_index].mutate_node(rng, max_connection_index, fresh_weight);
            proof {
                assert forall|k: int| 0 <= k < ns.len() && k != node_index implies #[trigger] self@.0[k] == before.0[k] by {
                    assert(self.nodes@[k] == ns[k]);
                }
                assert forall|j: int| 0 <= j < self.nodes@.len() implies (#[trigger] self.nodes@[j]).wf() by {
                    if j != node_index {
                        assert(self.nodes@[j] == ns[j]);
                    }
                }
                if targets_ok(before, max_connection_index as int) {
                    assert forall|j: int| 0 <= j < self@.0.len() implies node_model_ok(#[trigger] self@.0[j], max_connection_index as int) by {
                        assert(node_model_ok(before.0[j], max_connection_index as int));
                        if j != node_index {
                            assert(self.nodes@[j] == ns[j]);
                        } else {
                            assert(ns[j].targets_below(max_connection_index as int));
                        }
                    }
                }
            }
            PropertyEdit::Node(node_index, e)
        } else {
            let ghost ns = self.nodes@;
            let op = self.mutate_property(rng, max_connection_index);
            proof {
                assert forall|j: int| 0 <= j < self.nodes@.len() implies (#[trigger] self.nodes@[j]).wf() by {
                    let k = choose|k: int| 0 <= k < ns.len() && self.nodes@[j] == ns[k];
                    assert(ns[k].wf());
                }
                if targets_ok(before, max_connection_index as int) {
                    assert forall|j: int| 0 <= j < self@.0.len() implies node_model_ok(#[trigger] self@.0[j], max_connection_index as int) by {
                        let k = choose|k: int| 0 <= k < ns.len() && self.nodes@[j] == ns[k];
                        assert(node_model_ok(before.0[k], max_connection_index as int));
                    }
                }
            }
            PropertyEdit::Genome(op)
        }
    }
}

} // verus!
