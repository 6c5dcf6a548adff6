//! One computational unit of a genome: a bias and its weighted incoming
//! connections, addressed by flat index.
use crate::rng::{gen_index, shuffle};
use fnv::{FnvHashSet, FnvHasher};
use rand::XorShiftRng;
use std::hash::BuildHasherDefault;
use vstd::prelude::*;

verus! {

#[verifier::external_type_specification]
#[verifier::external_body]
pub struct ExFnvHasher(FnvHasher);

#[verifier::external_type_specification]
#[verifier::external_body]
#[verifier::reject_recursive_types(H)]
pub struct ExBuildHasherDefault<H>(BuildHasherDefault<H>);

/// Relies on `Default` for fnv's `FnvHashSet` (std's `HashSet` with the FNV
/// hasher): a new set is empty.
#[verifier::external_body]
pub(crate) fn empty_target_set() -> (r: FnvHashSet<usize>)
    ensures
        r@ == Set::<usize>::empty(),
{
    FnvHashSet::default()
}

/// Relies on `HashSet::insert` on fnv's `FnvHashSet`: afterwards the set holds
/// the key besides what it held.
#[verifier::external_body]
pub(crate) fn insert_target(set: &mut FnvHashSet<usize>, t: usize)
    ensures
        final(set)@ == old(set)@.insert(t),
{
    set.insert(t);
}

/// Relies on `HashSet::contains` on fnv's `FnvHashSet`: membership.
#[verifier::external_body]
pub(crate) fn contains_target(set: &FnvHashSet<usize>, t: usize) -> (r: bool)
    ensures
        r == set@.contains(t),
{
    set.contains(&t)
}

/// A weighted reference to a slot of the flat value buffer. `weight` holds the
/// bit pattern of an `f64`.
#[derive(Clone, Copy, Debug, PartialEq, Eq, Structural)]
pub struct Connection {
    pub index: usize,
    pub weight: u64,
}

/// `bias` holds the bit pattern of an `f64`.
#[derive(Clone, Debug, PartialEq)]
pub struct Node {
    pub bias: u64,
    pub connections: Vec<Connection>,
}

impl View for Node {
    type V = (u64, Seq<Connection>);

    open spec fn view(&self) -> (u64, Seq<Connection>) {
        (self.bias, self.connections@)
    }
}

/// The operators a node mutation picks from, all with equal chance among
/// those that apply.
#[derive(Clone, Copy, Debug, PartialEq, Eq, Structural)]
pub enum MutateNodeOperation {
    SwapConnections,
    AddConnection,
    RemoveConnection,
    RandomConnectionOne,
    RandomConnectionAll,
    DeltaBias1,
    DeltaBias2,
    DeltaBias3,
    DeltaBias4,
    RandomBias,
    DeltaWeightOne1,
    DeltaWeightOne2,
    DeltaWeightOne3,
    DeltaWeightOne4,
    RandomWeightOne,
    DeltaWeightAll1,
    DeltaWeightAll2,
    DeltaWeightAll3,
    DeltaWeightAll4,
    RandomWeightAll,
}

impl MutateNodeOperation {
    /// Operators that change which slots are connected.
    pub open spec fn is_structural(self) -> bool {
        match self {
            MutateNodeOperation::SwapConnections => true,
            MutateNodeOperation::AddConnection => true,
            MutateNodeOperation::RemoveConnection => true,
            MutateNodeOperation::RandomConnectionOne => true,
            MutateNodeOperation::RandomConnectionAll => true,
            _ => false,
        }
    }

    /// Operators that act on the weight of one chosen connection.
    pub open spec fn acts_on_one_weight(self) -> bool {
        match self {
            MutateNodeOperation::DeltaWeightOne1 => true,
            MutateNodeOperation::DeltaWeightOne2 => true,
            MutateNodeOperation::DeltaWeightOne3 => true,
            MutateNodeOperation::DeltaWeightOne4 => true,
            MutateNodeOperation::RandomWeightOne => true,
            _ => false,
        }
    }

    /// Whether the operator can be applied to a node with `num_connections`
    /// connections, when `has_free_target` tells whether some slot below the
    /// bound is not connected yet.
    pub open spec fn applies(self, num_connections: nat, has_free_target: bool) -> bool {
        match self {
            MutateNodeOperation::SwapConnections => num_connections >= 2,
            MutateNodeOperation::RemoveConnection => num_connections >= 2,
            MutateNodeOperation::AddConnection => has_free_target,
            MutateNodeOperation::RandomConnectionOne => has_free_target,
            _ => true,
        }
    }
}

/// What one node mutation did. For an operator that is not structural the
/// node is left as it was, and the caller applies the change of bias or
/// weight it names (to connection `connection` where it acts on one weight).
#[derive(Clone, Copy, Debug, PartialEq, Eq, Structural)]
pub struct NodeEdit {
    pub operation: MutateNodeOperation,
    pub connection: usize,
}

/// `idx` shifted down by `diff`, stopping at zero.
pub open spec fn shifted(idx: usize, diff: int) -> usize {
    if idx >= diff {
        (idx - diff) as usize
    } else {
        0
    }
}

/// The highest target among `cs` (zero for none).
pub open spec fn highest_target(cs: Seq<Connection>) -> int
    decreases cs.len(),
{
    if cs.len() == 0 {
        0
    } else {
        let rest = highest_target(cs.drop_last());
        let last = cs.last().index as int;
        if last > rest {
            last
        } else {
            rest
        }
    }
}

/// Every connection of `cs` is at most the highest target, and a non-empty
/// `cs` reaches it.
pub proof fn lemma_highest_target(cs: Seq<Connection>)
    ensures
        forall|i: int| 0 <= i < cs.len() ==> cs[i].index <= highest_target(cs),
        cs.len() > 0 ==> exists|i: int| 0 <= i < cs.len() && cs[i].index == highest_target(cs),
        highest_target(cs) >= 0,
    decreases cs.len(),
{
    if cs.len() > 0 {
        let rest = cs.drop_last();
        lemma_highest_target(rest);
        assert forall|i: int| 0 <= i < cs.len() implies cs[i].index <= highest_target(cs) by {
            if i < cs.len() - 1 {
                assert(cs[i] == rest[i]);
            }
        }
        if cs.last().index as int >= highest_target(rest) {
            assert(cs[cs.len() - 1] == cs.last());
        } else {
            let j = choose|j: int| 0 <= j < rest.len() && rest[j].index == highest_target(rest);
            assert(cs[j] == rest[j]);
        }
    }
}

/// The connections after the repair of [`Node::fix`].
pub open spec fn fixed_connections(cs: Seq<Connection>, bound: int) -> Seq<Connection> {
    if highest_target(cs) < bound {
        cs
    } else {
        cs.map_values(
            |c: Connection|
                Connection { index: shifted(c.index, highest_target(cs) - bound + 1), weight: c.weight },
        )
    }
}

/// The repair keeps the number of connections and the weights, puts every
/// target below a positive `bound`, and changes nothing where all targets are
/// below it already.
pub proof fn lemma_fixed_connections(cs: Seq<Connection>, bound: int)
    ensures
        fixed_connections(cs, bound).len() == cs.len(),
        forall|i: int| 0 <= i < cs.len() ==> (#[trigger] fixed_connections(cs, bound)[i]).weight == cs[i].weight,
        bound > 0 ==> forall|i: int| 0 <= i < cs.len() ==> (#[trigger] fixed_connections(cs, bound)[i]).index < bound,
        (forall|i: int| 0 <= i < cs.len() ==> (#[trigger] cs[i]).index < bound) ==> fixed_connections(cs, bound) == cs,
{
    lemma_highest_target(cs);
    if (forall|i: int| 0 <= i < cs.len() ==> (#[trigger] cs[i]).index < bound) {
        if cs.len() > 0 {
            let w = choose|w: int| 0 <= w < cs.len() && cs[w].index == highest_target(cs);
            assert(cs[w].index < bound);
        } else {
            assert(fixed_connections(cs, bound) =~= cs);
        }
    }
}

/// No two connections of `cs` target the same slot.
pub open spec fn distinct_targets(cs: Seq<Connection>) -> bool {
    forall|i: int, j: int| 0 <= i < j < cs.len() ==> (#[trigger] cs[i]).index != (#[trigger] cs[j]).index
}

/// Connections to distinct slots below `bound` number at most `bound`.
pub proof fn lemma_distinct_targets_len(cs: Seq<Connection>, bound: int)
    requires
        distinct_targets(cs),
        bound >= 0,
        forall|i: int| 0 <= i < cs.len() ==> (#[trigger] cs[i]).index < bound,
    ensures
        cs.len() <= bound,
{
    let s = Seq::new(cs.len(), |i: int| cs[i].index as int);
    assert forall|i: int, j: int| 0 <= i < s.len() && 0 <= j < s.len() && i != j implies s[i] != s[j] by {
        if i < j {
            assert(cs[i].index != cs[j].index);
        } else {
            assert(cs[j].index != cs[i].index);
        }
    }
    assert(s.no_duplicates());
    s.unique_seq_to_set();
    vstd::set_lib::lemma_int_range(0, bound);
    assert forall|x: int| s.to_set().contains(x) implies vstd::set_lib::set_int_range(0, bound).contains(x) by {
        assert(s.contains(x));
        let i = choose|i: int| 0 <= i < s.len() && s[i] == x;
        assert(cs[i].index < bound);
    }
    vstd::set_lib::lemma_len_subset(s.to_set(), vstd::set_lib::set_int_range(0, bound));
}

/// Some connection of `cs` targets slot `t`.
pub open spec fn seq_connects_to(cs: Seq<Connection>, t: usize) -> bool {
    exists|i: int| 0 <= i < cs.len() && cs[i].index == t
}

/// Some slot below `bound` is not a target of `cs`.
pub open spec fn has_free_target(cs: Seq<Connection>, bound: int) -> bool {
    exists|t: usize| t < bound && !seq_connects_to(cs, t)
}

/// `cs` with the targets of connections `i` and `j` exchanged; the weights
/// stay where they are.
pub open spec fn targets_swapped(cs: Seq<Connection>, i: int, j: int) -> Seq<Connection> {
    cs.update(i, Connection { index: cs[j].index, weight: cs[i].weight }).update(
        j,
        Connection { index: cs[i].index, weight: cs[j].weight },
    )
}

/// What a node mutation with `edit` did to a node, from `before` to `after`
/// (both as bias and connections). `fresh_weight` is the weight a new
/// connection gets; `bound` is the number of slots.
pub open spec fn mutation_effect(
    before: (u64, Seq<Connection>),
    after: (u64, Seq<Connection>),
    edit: NodeEdit,
    bound: int,
    fresh_weight: u64,
) -> bool {
    let (b, cs) = before;
    let (nb, ncs) = after;
    &&& nb == b
    &&& match edit.operation {
        MutateNodeOperation::SwapConnections => exists|j: int|
            0 <= j < cs.len() && j != edit.connection && edit.connection < cs.len() && ncs
                == #[trigger] targets_swapped(cs, edit.connection as int, j),
        MutateNodeOperation::AddConnection => exists|t: usize|
            t < bound && !seq_connects_to(cs, t) && ncs == cs.push(Connection { index: t, weight: fresh_weight }),
        MutateNodeOperation::RemoveConnection => cs.len() >= 2 && edit.connection < cs.len()
            && ncs == cs.remove(edit.connection as int),
        MutateNodeOperation::RandomConnectionOne => exists|t: usize|
            t < bound && !seq_connects_to(cs, t) && edit.connection < cs.len() && ncs == cs.update(
                edit.connection as int,
                Connection { index: t, weight: cs[edit.connection as int].weight },
            ),
        MutateNodeOperation::RandomConnectionAll => {
            &&& ncs.len() == cs.len()
            &&& forall|i: int| 0 <= i < cs.len() ==> #[trigger] ncs[i].weight == cs[i].weight
            &&& forall|i: int| 0 <= i < cs.len() && i < bound ==> #[trigger] ncs[i].index < bound
            &&& forall|i: int| 0 <= i < cs.len() && i >= bound ==> #[trigger] ncs[i] == cs[i]
            &&& forall|i: int, j: int|
                0 <= i < j < cs.len() && j < bound ==> (#[trigger] ncs[i]).index != (#[trigger] ncs[j]).index
        },
        _ => ncs == cs && (edit.operation.acts_on_one_weight() ==> edit.connection < cs.len()),
    }
}

/// No sequence of node mutations empties a node: when `states[i + 1]` is
/// what mutation `edits[i]` made of `states[i]`, for each step, and the first
/// state has a connection, every state has one.
pub proof fn lemma_mutations_keep_connections(
    states: Seq<(u64, Seq<Connection>)>,
    edits: Seq<NodeEdit>,
    bounds: Seq<int>,
    fresh_weights: Seq<u64>,
)
    requires
        states.len() == edits.len() + 1,
        bounds.len() == edits.len(),
        fresh_weights.len() == edits.len(),
        states[0].1.len() > 0,
        forall|i: int|
            0 <= i < edits.len() ==> mutation_effect(
                #[trigger] states[i],
                states[i + 1],
                edits[i],
                bounds[i],
                fresh_weights[i],
            ),
    ensures
        forall|i: int| 0 <= i < states.len() ==> (#[trigger] states[i]).1.len() > 0,
    decreases edits.len(),
{
    if edits.len() > 0 {
        let n = edits.len() - 1;
        lemma_mutations_keep_connections(
            states.subrange(0, n + 1),
            edits.subrange(0, n),
            bounds.subrange(0, n),
            fresh_weights.subrange(0, n),
        );
        assert forall|i: int| 0 <= i < states.len() implies (#[trigger] states[i]).1.len() > 0 by {
            if i <= n {
                assert(states.subrange(0, n + 1)[i] == states[i]);
            } else {
                assert(states.subrange(0, n + 1)[n] == states[n]);
                assert(mutation_effect(states[n], states[n + 1], edits[n], bounds[n], fresh_weights[n]));
                let (b, cs) = states[n];
                let (nb, ncs) = states[n + 1];
                if edits[n].operation == MutateNodeOperation::SwapConnections {
                    let j = choose|j: int| 0 <= j < cs.len() && j != edits[n].connection && edits[n].connection < cs.len() && ncs == #[trigger] targets_swapped(cs, edits[n].connection as int, j);
                    assert(ncs.len() == cs.len());
                }
            }
        }
    }
}

/// Every operator that applies, given the number of connections and whether a
/// free target exists.
fn applicable_operations(num_connections: usize, free_target: bool) -> (r: Vec<MutateNodeOperation>)
    ensures
        r@.len() > 0,
        forall|i: int| 0 <= i < r@.len() ==> (#[trigger] r@[i]).applies(num_connections as nat, free_target),
        forall|op: MutateNodeOperation| op.applies(num_connections as nat, free_target) ==> r@.contains(op),
{
    let mut r: Vec<MutateNodeOperation> = Vec::new();
    if num_connections >= 2 {
        r.push(MutateNodeOperation::SwapConnections);
    }
    if free_target {
        r.push(MutateNodeOperation::AddConnection);
    }
    if num_connections >= 2 {
        r.push(MutateNodeOperation::RemoveConnection);
    }
    if free_target {
        r.push(MutateNodeOperation::RandomConnectionOne);
    }
    r.push(MutateNodeOperation::RandomConnectionAll);
    r.push(MutateNodeOperation::DeltaBias1);
    r.push(MutateNodeOperation::DeltaBias2);
    r.push(MutateNodeOperation::DeltaBias3);
    r.push(MutateNodeOperation::DeltaBias4);
    r.push(MutateNodeOperation::RandomBias);
    r.push(MutateNodeOperation::DeltaWeightOne1);
    r.push(MutateNodeOperation::DeltaWeightOne2);
    r.push(MutateNodeOperation::DeltaWeightOne3);
    r.push(MutateNodeOperation::DeltaWeightOne4);
    r.push(MutateNodeOperation::RandomWeightOne);
    r.push(MutateNodeOperation::DeltaWeightAll1);
    r.push(MutateNodeOperation::DeltaWeightAll2);
    r.push(MutateNodeOperation::DeltaWeightAll3);
    r.push(MutateNodeOperation::DeltaWeightAll4);
    r.push(MutateNodeOperation::RandomWeightAll);
    proof {
        assert forall|op: MutateNodeOperation| op.applies(num_connections as nat, free_target) implies r@.contains(op) by {
            let k: int = match op {
                MutateNodeOperation::RandomConnectionAll => r@.len() - 16,
                MutateNodeOperation::DeltaBias1 => r@.len() - 15,
                MutateNodeOperation::DeltaBias2 => r@.len() - 14,
                MutateNodeOperation::DeltaBias3 => r@.len() - 13,
                MutateNodeOperation::DeltaBias4 => r@.len() - 12,
                MutateNodeOperation::RandomBias => r@.len() - 11,
                MutateNodeOperation::DeltaWeightOne1 => r@.len() - 10,
                MutateNodeOperation::DeltaWeightOne2 => r@.len() - 9,
                MutateNodeOperation::DeltaWeightOne3 => r@.len() - 8,
                MutateNodeOperation::DeltaWeightOne4 => r@.len() - 7,
                MutateNodeOperation::RandomWeightOne => r@.len() - 6,
                MutateNodeOperation::DeltaWeightAll1 => r@.len() - 5,
                MutateNodeOperation::DeltaWeightAll2 => r@.len() - 4,
                MutateNodeOperation::DeltaWeightAll3 => r@.len() - 3,
                MutateNodeOperation::DeltaWeightAll4 => r@.len() - 2,
                MutateNodeOperation::RandomWeightAll => r@.len() - 1,
                MutateNodeOperation::SwapConnections => 0,
                MutateNodeOperation::AddConnection => if num_connections >= 2 { 1 } else { 0 },
                MutateNodeOperation::RemoveConnection => if free_target { 2 } else { 1 },
                MutateNodeOperation::RandomConnectionOne => r@.len() - 17,
            };
            assert(r@[k] == op);
        }
    }
    r
}

impl Node {
    /// A node always keeps at least one connection.
    pub open spec fn wf(&self) -> bool {
        self.connections@.len() > 0
    }

    /// Every connection targets a slot below `bound`.
    pub open spec fn targets_below(&self, bound: int) -> bool {
        forall|i: int| 0 <= i < self.connections@.len() ==> self.connections@[i].index < bound
    }

    /// Some connection targets slot `t`.
    pub open spec fn connects_to(&self, t: usize) -> bool {
        seq_connects_to(self.connections@, t)
    }

    /// The slots this node uses: its targets, but not its own slot.
    pub open spec fn used_targets(&self, self_index: usize) -> Set<usize> {
        Set::new(|t: usize| self.connects_to(t) && t != self_index)
    }

    /// A node with the given bias and one connection to slot 0.
    pub fn new_simple(bias: u64, weight: u64) -> (r: Node)
        ensures
            r.bias == bias,
            r.connections@ == seq![Connection { index: 0, weight }],
            r.wf(),
    {
        let mut connections: Vec<Connection> = Vec::new();
        connections.push(Connection { index: 0, weight });
        Node { bias, connections }
    }

    /// A deep copy.
    pub fn duplicate(&self) -> (r: Node)
        ensures
            r@ == self@,
    {
        let mut connections: Vec<Connection> = Vec::new();
        let mut i: usize = 0;
        while i < self.connections.len()
            invariant
                i <= self.connections@.len(),
                connections@ == self.connections@.subrange(0, i as int),
            decreases self.connections@.len() - i,
        {
            connections.push(self.connections[i]);
            i = i + 1;
        }
        assert(connections@ =~= self.connections@);
        Node { bias: self.bias, connections }
    }

    /// Repairs out-of-range targets: when the highest target is at or above
    /// `max_connection_index`, every target is shifted down by the same amount
    /// (the highest target minus the bound, plus one), stopping at zero.
    pub fn fix(&mut self, max_connection_index: usize)
        requires
            old(self).wf(),
        ensures
            final(self).bias == old(self).bias,
            final(self).connections@ == fixed_connections(old(self).connections@, max_connection_index as int),
            final(self).wf(),
            max_connection_index > 0 ==> final(self).targets_below(max_connection_index as int),
            old(self).targets_below(max_connection_index as int) ==> final(self)@ == old(self)@,
    {
        let ghost cs = self.connections@;
        proof {
            lemma_highest_target(cs);
        }
        let n = self.connections.len();
        let mut highest: usize = 0;
        let mut i: usize = 0;
        while i < n
            invariant
                n == cs.len(),
                self.connections@ == cs,
                self.bias == old(self).bias,
                i <= n,
                highest == highest_target(cs.subrange(0, i as int)),
            decreases n - i,
        {
            proof {
                assert(cs.subrange(0, i + 1).drop_last() =~= cs.subrange(0, i as int));
            }
            if self.connections[i].index > highest {
                highest = self.connections[i].index;
            }
            i = i + 1;
        }
        assert(cs.subrange(0, n as int) =~= cs);
        if highest >= max_connection_index {
            let excess = highest - max_connection_index;
            let mut j: usize = 0;
            while j < n
                invariant
                    n == cs.len(),
                    self.connections@.len() == n,
                    j <= n,
                    self.bias == old(self).bias,
                    excess == highest_target(cs) - max_connection_index,
                    forall|k: int| 0 <= k < j ==> self.connections@[k] == (Connection { index: shifted(cs[k].index, excess + 1), weight: cs[k].weight }),
                    forall|k: int| j <= k < n ==> self.connections@[k] == cs[k],
                decreases n - j,
            {
                let mut c = self.connections[j];
                if c.index > excess {
                    c.index = c.index - excess - 1;
                } else {
                    c.index = 0;
                }
                self.connections.set(j, c);
                j = j + 1;
            }
            assert(self.connections@ =~= fixed_connections(cs, max_connection_index as int));
        } else {
            assert(self.targets_below(max_connection_index as int));
        }
        proof {
            if old(self).targets_below(max_connection_index as int) && cs.len() > 0 {
                let w = choose|w: int| 0 <= w < cs.len() && cs[w].index == highest_target(cs);
                assert(cs[w].index < max_connection_index);
            }
        }
    }

    /// Adds to `set_of_used_nodes` every target of this node but its own slot
    /// `node_index`: a node that reads itself does not count as used.
    pub fn add_used_nodes(&self, node_index: usize, set_of_used_nodes: &mut FnvHashSet<usize>)
        ensures
            final(set_of_used_nodes)@ == old(set_of_used_nodes)@.union(self.used_targets(node_index)),
    {
        let n = self.connections.len();
        let mut i: usize = 0;
        while i < n
            invariant
                n == self.connections@.len(),
                i <= n,
                set_of_used_nodes@ == old(set_of_used_nodes)@.union(Set::new(|t: usize| t != node_index && exists|k: int| 0 <= k < i && self.connections@[k].index == t)),
            decreases n - i,
        {
            let t = self.connections[i].index;
            let ghost before = set_of_used_nodes@;
            if t != node_index {
                insert_target(set_of_used_nodes, t);
            }
            proof {
                assert(set_of_used_nodes@ =~= old(set_of_used_nodes)@.union(Set::new(|u: usize| u != node_index && exists|k: int| 0 <= k < i + 1 && self.connections@[k].index == u))) by {
                    assert forall|u: usize| (u != node_index && exists|k: int| 0 <= k < i + 1 && self.connections@[k].index == u) implies set_of_used_nodes@.contains(u) by {
                        let k = choose|k: int| 0 <= k < i + 1 && self.connections@[k].index == u;
                        if k < i {
                            assert(before.contains(u));
                        }
                    }
                }
            }
            i = i + 1;
        }
        assert(set_of_used_nodes@ =~= old(set_of_used_nodes)@.union(self.used_targets(node_index)));
    }

    /// The slots below `max_connection_index` that no connection targets yet,
    /// in increasing order.
    fn free_targets(&self, max_connection_index: usize) -> (r: Vec<usize>)
        ensures
            forall|i: int| 0 <= i < r@.len() ==> #[trigger] r@[i] < max_connection_index && !self.connects_to(r@[i]),
            forall|t: usize| t < max_connection_index && !self.connects_to(t) ==> r@.contains(t),
    {
        let mut r: Vec<usize> = Vec::new();
        let mut t: usize = 0;
        while t < max_connection_index
            invariant
                t <= max_connection_index,
                forall|i: int| 0 <= i < r@.len() ==> #[trigger] r@[i] < t && !self.connects_to(r@[i]),
                forall|u: usize| u < t && !self.connects_to(u) ==> r@.contains(u),
            decreases max_connection_index - t,
        {
            let mut connected = false;
            let mut k: usize = 0;
            while k < self.connections.len()
                invariant
                    k <= self.connections@.len(),
                    connected <==> exists|m: int| 0 <= m < k && self.connections@[m].index == t,
                decreases self.connections@.len() - k,
            {
                if self.connections[k].index == t {
                    connected = true;
                }
                k = k + 1;
            }
            let ghost before = r@;
            if !connected {
                r.push(t);
                proof {
                    assert forall|u: usize| u < t + 1 && !self.connects_to(u) implies r@.contains(u) by {
                        if u < t {
                            let m = choose|m: int| 0 <= m < before.len() && before[m] == u;
                            assert(r@[m] == u);
                        } else {
                            assert(r@[r@.len() - 1] == u);
                        }
                    }
                }
            }
            t = t + 1;
        }
        r
    }

    /// Retargets the connections, in order, to a uniformly shuffled
    /// arrangement of the slots below `max_connection_index`; connections past
    /// that many keep their targets.
    fn retarget_all(&mut self, rng: &mut XorShiftRng, max_connection_index: usize)
        requires
            old(self).wf(),
        ensures
            final(self).bias == old(self).bias,
            ({
                let cs = old(self).connections@;
                let ncs = final(self).connections@;
                let bound = max_connection_index as int;
                &&& ncs.len() == cs.len()
                &&& forall|i: int| 0 <= i < cs.len() ==> #[trigger] ncs[i].weight == cs[i].weight
                &&& forall|i: int| 0 <= i < cs.len() && i < bound ==> #[trigger] ncs[i].index < bound
                &&& forall|i: int| 0 <= i < cs.len() && i >= bound ==> #[trigger] ncs[i] == cs[i]
                &&& forall|i: int, j: int|
                    0 <= i < j < cs.len() && j < bound ==> (#[trigger] ncs[i]).index != (#[trigger] ncs[j]).index
            }),
            old(self).targets_below(max_connection_index as int) && distinct_targets(old(self).connections@)
                ==> old(self).connections@.len() <= max_connection_index,
    {
        let ghost cs = self.connections@;
        let num_of_connections = self.connections.len();
        let mut targets: Vec<usize> = Vec::new();
        let mut t: usize = 0;
        while t < max_connection_index
            invariant
                t <= max_connection_index,
                targets@.len() == t,
                forall|i: int| 0 <= i < t ==> targets@[i] == i,
            decreases max_connection_index - t,
        {
            targets.push(t);
            t = t + 1;
        }
        let ghost ordered = targets@;
        proof {
            assert(ordered.no_duplicates());
            ordered.lemma_multiset_has_no_duplicates();
        }
        shuffle(rng, &mut targets);
        proof {
            targets@.lemma_multiset_has_no_duplicates_conv();
        }
        let ghost shuffled = targets@;
        let mut i: usize = 0;
        while i < num_of_connections && i < max_connection_index
            invariant
                num_of_connections == cs.len(),
                self.connections@.len() == num_of_connections,
                self.bias == old(self).bias,
                targets@.len() == max_connection_index,
                i <= num_of_connections,
                i <= max_connection_index,
                targets@.to_multiset() == ordered.to_multiset(),
                ordered.len() == max_connection_index,
                forall|k: int| 0 <= k < ordered.len() ==> ordered[k] == k,
                forall|k: int| 0 <= k < cs.len() ==> #[trigger] self.connections@[k].weight == cs[k].weight,
                forall|k: int| 0 <= k < i ==> #[trigger] self.connections@[k].index < max_connection_index,
                forall|k: int| i <= k < cs.len() ==> #[trigger] self.connections@[k] == cs[k],
                targets@ == shuffled,
                shuffled.no_duplicates(),
                forall|k: int| 0 <= k < i ==> #[trigger] self.connections@[k].index == shuffled[k],
            decreases num_of_connections - i,
        {
            let target = targets[i];
            proof {
                broadcast use vstd::seq_lib::to_multiset_contains;
                assert(targets@.contains(target));
                assert(targets@.to_multiset().count(target) > 0);
                assert(ordered.contains(target));
            }
            let c = self.connections[i];
            self.connections.set(i, Connection { index: target, weight: c.weight });
            i = i + 1;
        }
        proof {
            assert forall|k: int| 0 <= k < cs.len() && k < max_connection_index implies #[trigger] self.connections@[k].index < max_connection_index by {
                assert(k < i);
            }
            assert forall|k: int| 0 <= k < cs.len() && k >= max_connection_index implies #[trigger] self.connections@[k] == cs[k] by {
                assert(k >= i);
            }
            assert forall|a: int, b: int| 0 <= a < b < cs.len() && b < max_connection_index implies (#[trigger] self.connections@[a]).index != (#[trigger] self.connections@[b]).index by {
                assert(b < i);
                assert(self.connections@[a].index == shuffled[a]);
                assert(self.connections@[b].index == shuffled[b]);
            }
            if old(self).targets_below(max_connection_index as int) && distinct_targets(cs) {
                lemma_distinct_targets_len(cs, max_connection_index as int);
            }
        }
    }

    /// Applies one operator picked uniformly among those that apply: one that
    /// needs two connections is left out for a node with one, one that needs
    /// an unconnected slot below `max_connection_index` is left out when there
    /// is none. Structural operators are carried out here; a new connection
    /// gets `fresh_weight`. For the others the node is left unchanged and the
    /// returned edit names the change of bias or weight to make.
    pub fn mutate_node(&mut self, rng: &mut XorShiftRng, max_connection_index: usize, fresh_weight: u64) -> (edit: NodeEdit)
        requires
            old(self).wf(),
        ensures
            final(self).wf(),
            edit.operation.applies(
                old(self).connections@.len(),
                has_free_target(old(self).connections@, max_connection_index as int),
            ),
            mutation_effect(old(self)@, final(self)@, edit, max_connection_index as int, fresh_weight),
            old(self).targets_below(max_connection_index as int) ==> final(self).targets_below(max_connection_index as int),
            old(self).targets_below(max_connection_index as int) && distinct_targets(old(self).connections@)
                ==> distinct_targets(final(self).connections@),
    {
        let ghost cs = self.connections@;
        let num_of_connections = self.connections.len();
        let possible_connections = self.free_targets(max_connection_index);
        let free = possible_connections.len() > 0;
        proof {
            if has_free_target(cs, max_connection_index as int) {
                let t = choose|t: usize| t < max_connection_index && !seq_connects_to(cs, t);
                assert(!self.connects_to(t));
                assert(possible_connections@.contains(t));
            }
            if free {
                assert(possible_connections@[0] < max_connection_index && !seq_connects_to(cs, possible_connections@[0]));
            }
        }
        let ops = applicable_operations(num_of_connections, free);
        let pick = gen_index(rng, 0, ops.len());
        let operation = ops[pick];
        assert(operation.applies(num_of_connections as nat, free));
        match operation {
            MutateNodeOperation::SwapConnections => {
                let index1 = gen_index(rng, 0, num_of_connections);
                let mut index2 = gen_index(rng, 0, num_of_connections - 1);
                if index2 >= index1 {
                    index2 = index2 + 1;
                }
                let c1 = self.connections[index1];
                let c2 = self.connections[index2];
                self.connections.set(index1, Connection { index: c2.index, weight: c1.weight });
                self.connections.set(index2, Connection { index: c1.index, weight: c2.weight });
                proof {
                    let j = index2 as int;
                    assert(self.connections@ == targets_swapped(cs, index1 as int, j));
                    let e = NodeEdit { operation, connection: index1 };
                    assert(self@.1 == targets_swapped(old(self)@.1, e.connection as int, j));
                    if distinct_targets(cs) {
                        let ncs = self.connections@;
                        assert forall|a: int, b: int| 0 <= a < b < ncs.len() implies (#[trigger] ncs[a]).index != (#[trigger] ncs[b]).index by {
                            let pa = if a == index1 { j } else if a == j { index1 as int } else { a };
                            let pb = if b == index1 { j } else if b == j { index1 as int } else { b };
                            assert(ncs[a].index == cs[pa].index);
                            assert(ncs[b].index == cs[pb].index);
                            if pa < pb {
                                assert(cs[pa].index != cs[pb].index);
                            } else {
                                assert(cs[pb].index != cs[pa].index);
                            }
                        }
                    }
                }
                NodeEdit { operation, connection: index1 }
            },
            MutateNodeOperation::AddConnection => {
                let index = gen_index(rng, 0, possible_connections.len());
                let t = possible_connections[index];
                self.connections.push(Connection { index: t, weight: fresh_weight });
                proof {
                    assert(self.connections@ == cs.push(Connection { index: t, weight: fresh_weight }));
                    assert(!seq_connects_to(cs, t));
                    if distinct_targets(cs) {
                        let ncs = self.connections@;
                        assert forall|a: int, b: int| 0 <= a < b < ncs.len() implies (#[trigger] ncs[a]).index != (#[trigger] ncs[b]).index by {
                            assert(ncs[a] == cs[a]);
                            if b < cs.len() {
                                assert(ncs[b] == cs[b]);
                            }
                        }
                    }
                }
                NodeEdit { operation, connection: num_of_connections }
            },
            MutateNodeOperation::RemoveConnection => {
                let index = gen_index(rng, 0, num_of_connections);
                self.connections.remove(index);
                proof {
                    assert forall|i: int| 0 <= i < self.connections@.len() implies #[trigger] self.connections@[i].index == cs[if i < index { i } else { i + 1 }].index by {}
                    if distinct_targets(cs) {
                        let ncs = self.connections@;
                        assert forall|a: int, b: int| 0 <= a < b < ncs.len() implies (#[trigger] ncs[a]).index != (#[trigger] ncs[b]).index by {
                            let pa = if a < index { a } else { a + 1 };
                            let pb = if b < index { b } else { b + 1 };
                            assert(ncs[a].index == cs[pa].index);
                            assert(ncs[b].index == cs[pb].index);
                            assert(cs[pa].index != cs[pb].index);
                        }
                    }
                }
                NodeEdit { operation, connection: index }
            },
            MutateNodeOperation::RandomConnectionOne => {
                let index1 = gen_index(rng, 0, possible_connections.len());
                let index2 = gen_index(rng, 0, num_of_connections);
                let t = possible_connections[index1];
                let c = self.connections[index2];
                self.connections.set(index2, Connection { index: t, weight: c.weight });
                proof {
                    assert(t < max_connection_index && !seq_connects_to(cs, t));
                    assert(self.connections@ == cs.update(index2 as int, Connection { index: t, weight: cs[index2 as int].weight }));
                    if distinct_targets(cs) {
                        let ncs = self.connections@;
                        assert forall|a: int, b: int| 0 <= a < b < ncs.len() implies (#[trigger] ncs[a]).index != (#[trigger] ncs[b]).index by {
                            if a != index2 && b != index2 {
                                assert(ncs[a] == cs[a]);
                                assert(ncs[b] == cs[b]);
                            } else if a == index2 {
                                assert(ncs[b] == cs[b]);
                            } else {
                                assert(ncs[a] == cs[a]);
                            }
                        }
                    }
                }
                NodeEdit { operation, connection: index2 }
            },
            MutateNodeOperation::RandomConnectionAll => {
                self.retarget_all(rng, max_connection_index);
                NodeEdit { operation, connection: 0 }
            },
            _ => {
                let index = gen_index(rng, 0, num_of_connections);
                NodeEdit { operation, connection: index }
            },
        }
    }
}

} // verus!
