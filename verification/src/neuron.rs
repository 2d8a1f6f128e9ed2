//! Object neurons and their identifiers.
//!
//! Every node of the store carries a [`NeuronId`]: the pair of a local
//! identifier and the name of its parent (the attribute for sensor-value
//! neurons, the table for object neurons). An object neuron holds its
//! activation level and its defining edges as plain identifier lists; the
//! store owns all neurons by value, so edges never dangle behind shared
//! pointers.

use vstd::prelude::*;
use vstd::string::*;

use crate::error::MagdsError;
use crate::num::{sat64, sat_plus};
use crate::text::str_eq;

verus! {

/// The stable identifier of a neuron.
#[derive(Debug)]
pub struct NeuronId {
    pub id: String,
    pub parent_id: String,
}

/// The mathematical model of a neuron identifier.
#[verifier::ext_equal]
pub struct IdModel {
    pub id: Seq<char>,
    pub parent_id: Seq<char>,
}

impl View for NeuronId {
    type V = IdModel;

    open spec fn view(&self) -> IdModel {
        IdModel { id: self.id@, parent_id: self.parent_id@ }
    }
}

impl NeuronId {
    /// A fresh identifier from its two parts.
    pub fn new(id: &str, parent_id: &str) -> (r: NeuronId)
        ensures
            r@.id == id@,
            r@.parent_id == parent_id@,
    {
        NeuronId { id: String::from_str(id), parent_id: String::from_str(parent_id) }
    }

    /// An identical copy.
    pub fn duplicate(&self) -> (r: NeuronId)
        ensures
            r@ == self@,
    {
        NeuronId { id: self.id.clone(), parent_id: self.parent_id.clone() }
    }

    /// Character-wise equality of both parts.
    pub fn eq_id(&self, other: &NeuronId) -> (r: bool)
        ensures
            r == (self@ == other@),
    {
        let r = str_eq(self.id.as_str(), other.id.as_str()) && str_eq(
            self.parent_id.as_str(),
            other.parent_id.as_str(),
        );
        r
    }
}

/// The kinds of connection the wider design reserves; the core uses only
/// `Defining` between a sensor value and an object.
#[derive(Clone, Copy, Debug, PartialEq, Eq, Structural)]
pub enum ConnectionKind {
    Dummy,
    Definition,
    Defining,
    Explanation,
    Inhibition,
    Similarity,
    Consequence,
}

/// One stored end of a defining edge: the identifier of the other endpoint
/// and whether that endpoint is a sensor-value neuron.
#[derive(Debug)]
pub struct Edge {
    pub other: NeuronId,
    pub other_is_sensor: bool,
}

/// The mathematical model of an edge end.
#[verifier::ext_equal]
pub struct EdgeModel {
    pub other: IdModel,
    pub other_is_sensor: bool,
}

impl View for Edge {
    type V = EdgeModel;

    open spec fn view(&self) -> EdgeModel {
        EdgeModel { other: self.other@, other_is_sensor: self.other_is_sensor }
    }
}

/// A non-sensor neuron: one row entity of an ingested table.
#[derive(Debug)]
pub struct SimpleNeuron {
    pub id: NeuronId,
    pub activation: i64,
    pub definitions_from_self: Vec<Edge>,
    pub definitions_to_self: Vec<Edge>,
}

/// The mathematical model of an object neuron.
#[verifier::ext_equal]
pub struct NeuronModel {
    pub id: IdModel,
    pub activation: int,
    pub from_edges: Seq<EdgeModel>,
    pub to_edges: Seq<EdgeModel>,
}

impl View for SimpleNeuron {
    type V = NeuronModel;

    open spec fn view(&self) -> NeuronModel {
        NeuronModel {
            id: self.id@,
            activation: self.activation as int,
            from_edges: self.definitions_from_self@.map_values(|e: Edge| e@),
            to_edges: self.definitions_to_self@.map_values(|e: Edge| e@),
        }
    }
}

/// The identifiers of the sensor ends among `edges`, in order.
pub open spec fn spec_sensor_ends(edges: Seq<EdgeModel>) -> Seq<IdModel>
    decreases edges.len(),
{
    if edges.len() == 0 {
        Seq::<IdModel>::empty()
    } else {
        let rest = spec_sensor_ends(edges.drop_last());
        if edges.last().other_is_sensor {
            rest.push(edges.last().other)
        } else {
            rest
        }
    }
}

/// The identifiers of the non-sensor ends among `edges`, in order.
pub open spec fn spec_neuron_ends(edges: Seq<EdgeModel>) -> Seq<IdModel>
    decreases edges.len(),
{
    if edges.len() == 0 {
        Seq::<IdModel>::empty()
    } else {
        let rest = spec_neuron_ends(edges.drop_last());
        if !edges.last().other_is_sensor {
            rest.push(edges.last().other)
        } else {
            rest
        }
    }
}

/// Whether some edge in `edges` leads to `id`.
pub open spec fn spec_has_edge(edges: Seq<EdgeModel>, id: IdModel) -> bool {
    exists|i: int| 0 <= i < edges.len() && #[trigger] edges[i].other == id
}

impl SimpleNeuron {
    /// A fresh object neuron with no activation and no edges.
    pub fn new(id: &str, parent_id: &str) -> (r: SimpleNeuron)
        ensures
            r@.id.id == id@,
            r@.id.parent_id == parent_id@,
            r@.activation == 0,
            r@.from_edges.len() == 0,
            r@.to_edges.len() == 0,
    {
        let r = SimpleNeuron {
            id: NeuronId::new(id, parent_id),
            activation: 0,
            definitions_from_self: Vec::new(),
            definitions_to_self: Vec::new(),
        };
        proof {
            assert(r@.from_edges =~= Seq::<EdgeModel>::empty());
            assert(r@.to_edges =~= Seq::<EdgeModel>::empty());
        }
        r
    }

    /// The neuron's identifier.
    pub fn id(&self) -> (r: NeuronId)
        ensures
            r@ == self@.id,
    {
        self.id.duplicate()
    }

    /// The current activation level, in millionths.
    pub fn activation(&self) -> (r: i64)
        ensures
            r == self@.activation,
    {
        self.activation
    }

    /// An object neuron is never a sensor.
    pub fn is_sensor(&self) -> (r: bool)
        ensures
            r == false,
    {
        false
    }

    /// An object neuron always counts once.
    pub fn counter(&self) -> (r: u64)
        ensures
            r == 1,
    {
        1
    }

    /// Add `signal` to the activation level, saturating at the
    /// representation bound, and return the non-sensor neurons this one
    /// defines — the targets a vertical propagation would visit next.
    ///
    /// Activation is additive: two calls accumulate their signals. The
    /// propagation flags change nothing here: a neuron holds only
    /// identifiers of its neighbours, so walking them is the store's
    /// business, and the post-state and result below hold for every flag
    /// combination. In a store the object registry holds no outgoing
    /// defining edges (see [`crate::magds::wf_store`]), so the recursion a
    /// vertical walk would make from an object ends at once.
    pub fn activate(
        &mut self,
        signal: i64,
        propagate_horizontal: bool,
        propagate_vertical: bool,
    ) -> (r: Vec<NeuronId>)
        requires
            signal >= 0,
            old(self)@.activation >= 0,
        ensures
            final(self)@.activation == sat64(old(self)@.activation + signal),
            final(self)@.id == old(self)@.id,
            final(self)@.from_edges == old(self)@.from_edges,
            final(self)@.to_edges == old(self)@.to_edges,
            r@.map_values(|n: NeuronId| n@) == spec_neuron_ends(old(self)@.from_edges),
    {
        self.activation = sat_plus(self.activation, signal);
        self.defined_neurons()
    }

    /// Reset the activation level to zero.
    ///
    /// As with [`Self::activate`], the propagation flags change nothing at
    /// the neuron itself: the post-state below holds for every flag
    /// combination, and walking the defined neighbours is the store's
    /// business.
    pub fn deactivate(&mut self, propagate_horizontal: bool, propagate_vertical: bool)
        ensures
            final(self)@.activation == 0,
            final(self)@.id == old(self)@.id,
            final(self)@.from_edges == old(self)@.from_edges,
            final(self)@.to_edges == old(self)@.to_edges,
    {
        self.activation = 0;
    }

    /// The sensor-value neurons that define this object, one per attribute.
    pub fn explain(&self) -> (r: Vec<NeuronId>)
        ensures
            r@.map_values(|n: NeuronId| n@) == spec_sensor_ends(self@.to_edges),
    {
        self.defining_sensors()
    }

    /// The sensor ends of the incoming defining edges.
    pub fn defining_sensors(&self) -> (r: Vec<NeuronId>)
        ensures
            r@.map_values(|n: NeuronId| n@) == spec_sensor_ends(self@.to_edges),
    {
        collect_ends(&self.definitions_to_self, true)
    }

    /// The non-sensor ends of the incoming defining edges.
    pub fn defining_neurons(&self) -> (r: Vec<NeuronId>)
        ensures
            r@.map_values(|n: NeuronId| n@) == spec_neuron_ends(self@.to_edges),
    {
        collect_ends(&self.definitions_to_self, false)
    }

    /// The non-sensor ends of the outgoing defining edges.
    pub fn defined_neurons(&self) -> (r: Vec<NeuronId>)
        ensures
            r@.map_values(|n: NeuronId| n@) == spec_neuron_ends(self@.from_edges),
    {
        collect_ends(&self.definitions_from_self, false)
    }

    /// Record a defining edge from this neuron to `to`; any other kind is
    /// refused without change. A duplicate edge is a no-op.
    pub fn connect_to(&mut self, to: NeuronId, to_is_sensor: bool, kind: ConnectionKind) -> (r:
        Result<(), MagdsError>)
        ensures
            final(self)@.id == old(self)@.id,
            final(self)@.activation == old(self)@.activation,
            final(self)@.to_edges == old(self)@.to_edges,
            r is Err <==> kind != ConnectionKind::Defining,
            r is Err ==> final(self)@.from_edges == old(self)@.from_edges,
            r is Ok ==> final(self)@.from_edges == if spec_has_edge(old(self)@.from_edges, to@) {
                old(self)@.from_edges
            } else {
                old(self)@.from_edges.push(
                    EdgeModel { other: to@, other_is_sensor: to_is_sensor },
                )
            },
    {
        if !matches!(kind, ConnectionKind::Defining) {
            return Err(MagdsError::UnsupportedConnectionKind);
        }
        push_edge(&mut self.definitions_from_self, to, to_is_sensor);
        Ok(())
    }

    /// Record a defining edge from `from` to this neuron; any other kind is
    /// refused without change. A duplicate edge is a no-op.
    pub fn connect_from(&mut self, from: NeuronId, from_is_sensor: bool, kind: ConnectionKind) -> (
        r: Result<(), MagdsError>)
        ensures
            final(self)@.id == old(self)@.id,
            final(self)@.activation == old(self)@.activation,
            final(self)@.from_edges == old(self)@.from_edges,
            r is Err <==> kind != ConnectionKind::Defining,
            r is Err ==> final(self)@.to_edges == old(self)@.to_edges,
            r is Ok ==> final(self)@.to_edges == if spec_has_edge(old(self)@.to_edges, from@) {
                old(self)@.to_edges
            } else {
                old(self)@.to_edges.push(
                    EdgeModel { other: from@, other_is_sensor: from_is_sensor },
                )
            },
    {
        if !matches!(kind, ConnectionKind::Defining) {
            return Err(MagdsError::UnsupportedConnectionKind);
        }
        push_edge(&mut self.definitions_to_self, from, from_is_sensor);
        Ok(())
    }
}

/// Append an edge to `edges` unless one with the same end already exists.
fn push_edge(edges: &mut Vec<Edge>, other: NeuronId, other_is_sensor: bool)
    ensures
        final(edges)@.map_values(|e: Edge| e@) == if spec_has_edge(
            old(edges)@.map_values(|e: Edge| e@),
            other@,
        ) {
            old(edges)@.map_values(|e: Edge| e@)
        } else {
            old(edges)@.map_values(|e: Edge| e@).push(
                EdgeModel { other: other@, other_is_sensor: other_is_sensor },
            )
        },
{
    let ghost m = edges@.map_values(|e: Edge| e@);
    let mut i: usize = 0;
    while i < edges.len()
        invariant
            0 <= i <= edges@.len(),
            m == edges@.map_values(|e: Edge| e@),
            forall|j: int| 0 <= j < i ==> m[j].other != other@,
        decreases edges@.len() - i,
    {
        if edges[i].other.eq_id(&other) {
            proof {
                assert(m[i as int].other == other@);
            }
            return ;
        }
        i += 1;
    }
    proof {
        assert(!spec_has_edge(m, other@));
    }
    edges.push(Edge { other, other_is_sensor });
    proof {
        assert(final(edges)@.map_values(|e: Edge| e@) =~= m.push(
            EdgeModel { other: other@, other_is_sensor: other_is_sensor },
        ));
    }
}

/// Collect the ends of `edges` whose sensor flag equals `want_sensor`.
fn collect_ends(edges: &Vec<Edge>, want_sensor: bool) -> (r: Vec<NeuronId>)
    ensures
        want_sensor ==> r@.map_values(|n: NeuronId| n@) == spec_sensor_ends(
            edges@.map_values(|e: Edge| e@),
        ),
        !want_sensor ==> r@.map_values(|n: NeuronId| n@) == spec_neuron_ends(
            edges@.map_values(|e: Edge| e@),
        ),
{
    let ghost m = edges@.map_values(|e: Edge| e@);
    let mut r: Vec<NeuronId> = Vec::new();
    let mut i: usize = 0;
    proof {
        assert(m.subrange(0, 0) =~= Seq::<EdgeModel>::empty());
        assert(r@.map_values(|n: NeuronId| n@) =~= Seq::<IdModel>::empty());
    }
    while i < edges.len()
        invariant
            0 <= i <= edges@.len(),
            m == edges@.map_values(|e: Edge| e@),
            want_sensor ==> r@.map_values(|n: NeuronId| n@) == spec_sensor_ends(
                m.subrange(0, i as int),
            ),
            !want_sensor ==> r@.map_values(|n: NeuronId| n@) == spec_neuron_ends(
                m.subrange(0, i as int),
            ),
        decreases edges@.len() - i,
    {
        let ghost pre = m.subrange(0, i as int);
        let ghost cur = m.subrange(0, i as int + 1);
        let ghost r0 = r@.map_values(|n: NeuronId| n@);
        proof {
            assert(cur.drop_last() =~= pre);
            assert(cur.last() == m[i as int]);
        }
        if edges[i].other_is_sensor == want_sensor {
            r.push(edges[i].other.duplicate());
            proof {
                assert(r@.map_values(|n: NeuronId| n@) =~= r0.push(m[i as int].other));
            }
        }
        i += 1;
        proof {
            if want_sensor {
                assert(r@.map_values(|n: NeuronId| n@) =~= spec_sensor_ends(cur));
            } else {
                assert(r@.map_values(|n: NeuronId| n@) =~= spec_neuron_ends(cur));
            }
        }
    }
    proof {
        assert(m.subrange(0, edges@.len() as int) =~= m);
    }
    r
}

} // verus!
