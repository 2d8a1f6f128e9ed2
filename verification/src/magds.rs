//! The store: a name-addressed registry of sensors and an identifier-keyed
//! registry of object neurons, bound together by defining edges.
//!
//! The store owns every node by value. A defining edge is recorded on both
//! endpoints — the object's identifier inside the sensor element, the
//! element's identifier inside the object neuron — and [`wf_conn`] states
//! that the two records always agree.

use vstd::prelude::*;
use vstd::string::*;

use crate::error::MagdsError;
use crate::neuron::{
    spec_has_edge, ConnectionKind, Edge, EdgeModel, IdModel, NeuronId, NeuronModel, SimpleNeuron,
};
use crate::num::{sat64, sat_plus};
use crate::sensor::{
    counter_sum, spec_elem_id, wf_sensor, ElemModel, SensorConatiner, SensorModel,
};
use crate::text::str_eq;
use crate::value::{spec_category, spec_value_str, DataCategory, DataType, DataValue};

verus! {

/// The multi-associative graph data store.
#[derive(Debug)]
pub struct MAGDS {
    pub sensors: Vec<SensorConatiner>,
    pub neurons: Vec<SimpleNeuron>,
}

/// The mathematical model of the store.
#[verifier::ext_equal]
pub struct StoreModel {
    pub sensors: Seq<SensorModel>,
    pub neurons: Seq<NeuronModel>,
}

impl View for MAGDS {
    type V = StoreModel;

    open spec fn view(&self) -> StoreModel {
        StoreModel {
            sensors: self.sensors@.map_values(|s: SensorConatiner| s@),
            neurons: self.neurons@.map_values(|n: SimpleNeuron| n@),
        }
    }
}

/// The basic well-formedness of the store: every sensor well-formed,
/// sensor names and neuron identifiers unique, activations non-negative,
/// object neurons without duplicate or outgoing defining edges.
pub open spec fn wf_store(m: StoreModel) -> bool {
    &&& forall|i: int| 0 <= i < m.sensors.len() ==> wf_sensor(#[trigger] m.sensors[i])
    &&& forall|i: int, j: int|
        0 <= i < j < m.sensors.len() ==> (#[trigger] m.sensors[i]).id != (
        #[trigger] m.sensors[j]).id
    &&& forall|i: int, j: int|
        0 <= i < j < m.neurons.len() ==> (#[trigger] m.neurons[i]).id != (
        #[trigger] m.neurons[j]).id
    &&& forall|i: int|
        0 <= i < m.neurons.len() ==> (#[trigger] m.neurons[i]).activation >= 0
            && m.neurons[i].from_edges.len() == 0 && (forall|a: int, b: int|
            0 <= a < b < m.neurons[i].to_edges.len() ==> (#[trigger] m.neurons[i].to_edges[a]).other
                != (#[trigger] m.neurons[i].to_edges[b]).other)
}

/// One direction of edge symmetry: the object recorded at position `k` of
/// element `ei` of sensor `si` exists and records the element back.
pub open spec fn defined_ok(m: StoreModel, si: int, ei: int, k: int) -> bool {
    exists|ni: int|
        0 <= ni < m.neurons.len() && (#[trigger] m.neurons[ni]).id
            == m.sensors[si].elements[ei].defined[k] && spec_has_edge(
            m.neurons[ni].to_edges,
            spec_elem_id(m.sensors[si], ei),
        )
}

/// The other direction: the sensor edge `t` of neuron `ni` resolves to an
/// element that records the neuron back.
pub open spec fn to_edge_ok(m: StoreModel, ni: int, t: int) -> bool {
    exists|si: int, ei: int|
        #![trigger m.sensors[si].elements[ei]]
        0 <= si < m.sensors.len() && 0 <= ei < m.sensors[si].elements.len() && m.sensors[si].id
            == m.neurons[ni].to_edges[t].other.parent_id && spec_value_str(
            m.sensors[si].elements[ei].key,
        ) == m.neurons[ni].to_edges[t].other.id && m.sensors[si].elements[ei].defined.contains(
            m.neurons[ni].id,
        )
}

/// Edge symmetry: every defining edge recorded in a sensor element is
/// recorded by exactly that object neuron and vice versa.
pub open spec fn wf_conn(m: StoreModel) -> bool {
    &&& forall|si: int, ei: int, k: int|
        0 <= si < m.sensors.len() && 0 <= ei < m.sensors[si].elements.len() && 0 <= k
            < m.sensors[si].elements[ei].defined.len() ==> #[trigger] defined_ok(m, si, ei, k)
    &&& forall|ni: int, t: int|
        0 <= ni < m.neurons.len() && 0 <= t < m.neurons[ni].to_edges.len()
            && m.neurons[ni].to_edges[t].other_is_sensor ==> #[trigger] to_edge_ok(m, ni, t)
}

/// Two stores with the same topology — the same names, keys, counters and
/// edges, differing at most in activation levels — satisfy edge symmetry
/// together.
pub open spec fn same_topology(m1: StoreModel, m2: StoreModel) -> bool {
    &&& m1.sensors.len() == m2.sensors.len()
    &&& forall|si: int|
        0 <= si < m1.sensors.len() ==> {
            let a = #[trigger] m1.sensors[si];
            let b = #[trigger] m2.sensors[si];
            &&& a.id == b.id
            &&& a.data_type == b.data_type
            &&& a.elements.len() == b.elements.len()
            &&& forall|ei: int|
                0 <= ei < a.elements.len() ==> (#[trigger] a.elements[ei]).key
                    == b.elements[ei].key && a.elements[ei].defined == b.elements[ei].defined
                    && a.elements[ei].counter == b.elements[ei].counter
        }
    &&& m1.neurons.len() == m2.neurons.len()
    &&& forall|ni: int|
        0 <= ni < m1.neurons.len() ==> (#[trigger] m1.neurons[ni]).id == m2.neurons[ni].id
            && m1.neurons[ni].to_edges == m2.neurons[ni].to_edges
}

/// Edge symmetry depends only on the topology.
pub proof fn lemma_conn_same_topology(m1: StoreModel, m2: StoreModel)
    requires
        wf_conn(m1),
        same_topology(m1, m2),
    ensures
        wf_conn(m2),
{
    assert forall|si: int, ei: int, k: int|
        0 <= si < m2.sensors.len() && 0 <= ei < m2.sensors[si].elements.len() && 0 <= k
            < m2.sensors[si].elements[ei].defined.len() implies #[trigger] defined_ok(
        m2,
        si,
        ei,
        k,
    ) by {
        assert(m1.sensors[si].elements[ei].defined == m2.sensors[si].elements[ei].defined);
        assert(defined_ok(m1, si, ei, k));
        let ni = choose|ni: int|
            0 <= ni < m1.neurons.len() && (#[trigger] m1.neurons[ni]).id
                == m1.sensors[si].elements[ei].defined[k] && spec_has_edge(
                m1.neurons[ni].to_edges,
                spec_elem_id(m1.sensors[si], ei),
            );
        assert(spec_elem_id(m1.sensors[si], ei) == spec_elem_id(m2.sensors[si], ei));
        assert(0 <= ni < m2.neurons.len() && m2.neurons[ni].id
            == m2.sensors[si].elements[ei].defined[k] && spec_has_edge(
            m2.neurons[ni].to_edges,
            spec_elem_id(m2.sensors[si], ei),
        ));
    }
    assert forall|ni: int, t: int|
        0 <= ni < m2.neurons.len() && 0 <= t < m2.neurons[ni].to_edges.len()
            && m2.neurons[ni].to_edges[t].other_is_sensor implies #[trigger] to_edge_ok(
        m2,
        ni,
        t,
    ) by {
        assert(m1.neurons[ni].to_edges == m2.neurons[ni].to_edges);
        assert(to_edge_ok(m1, ni, t));
        let (si, ei): (int, int) = choose|si: int, ei: int|
            #![trigger m1.sensors[si].elements[ei]]
            0 <= si < m1.sensors.len() && 0 <= ei < m1.sensors[si].elements.len()
                && m1.sensors[si].id == m1.neurons[ni].to_edges[t].other.parent_id
                && spec_value_str(m1.sensors[si].elements[ei].key)
                == m1.neurons[ni].to_edges[t].other.id
                && m1.sensors[si].elements[ei].defined.contains(m1.neurons[ni].id);
        assert(m1.sensors[si].elements[ei].defined.contains(m1.neurons[ni].id));
        let w = choose|w: int|
            0 <= w < m1.sensors[si].elements[ei].defined.len()
                && m1.sensors[si].elements[ei].defined[w] == m1.neurons[ni].id;
        assert(m2.sensors[si].elements[ei].defined[w] == m2.neurons[ni].id);
        assert(m2.sensors[si].elements[ei].defined.contains(m2.neurons[ni].id));
        assert(0 <= si < m2.sensors.len() && 0 <= ei < m2.sensors[si].elements.len()
            && m2.sensors[si].id == m2.neurons[ni].to_edges[t].other.parent_id && spec_value_str(
            m2.sensors[si].elements[ei].key,
        ) == m2.neurons[ni].to_edges[t].other.id && m2.sensors[si].elements[ei].defined.contains(
            m2.neurons[ni].id,
        ));
    }
}

/// The first sensor with the given name, or `-1`.
pub open spec fn spec_find_sensor(sensors: Seq<SensorModel>, name: Seq<char>) -> int
    decreases sensors.len(),
{
    if sensors.len() == 0 {
        -1
    } else if sensors[0].id == name {
        0
    } else {
        let r = spec_find_sensor(sensors.skip(1), name);
        if r < 0 {
            -1
        } else {
            r + 1
        }
    }
}

/// A witness characterises [`spec_find_sensor`].
pub proof fn lemma_find_sensor_at(sensors: Seq<SensorModel>, name: Seq<char>, i: int)
    requires
        0 <= i < sensors.len(),
        sensors[i].id == name,
        forall|j: int| 0 <= j < i ==> (#[trigger] sensors[j]).id != name,
    ensures
        spec_find_sensor(sensors, name) == i,
    decreases sensors.len(),
{
    if i > 0 {
        assert(forall|j: int|
            0 <= j < i - 1 ==> sensors.skip(1)[j] == #[trigger] sensors[j + 1]);
        lemma_find_sensor_at(sensors.skip(1), name, i - 1);
    }
}

/// The found sensor index is always inside the registry.
pub proof fn lemma_find_sensor_bounds(sensors: Seq<SensorModel>, name: Seq<char>)
    ensures
        -1 <= spec_find_sensor(sensors, name) < sensors.len(),
    decreases sensors.len(),
{
    if sensors.len() > 0 && sensors[0].id != name {
        lemma_find_sensor_bounds(sensors.skip(1), name);
    }
}

/// A found sensor carries the searched name.
pub proof fn lemma_find_sensor_found(sensors: Seq<SensorModel>, name: Seq<char>)
    requires
        spec_find_sensor(sensors, name) >= 0,
    ensures
        0 <= spec_find_sensor(sensors, name) < sensors.len(),
        sensors[spec_find_sensor(sensors, name)].id == name,
    decreases sensors.len(),
{
    if sensors.len() > 0 && sensors[0].id != name {
        lemma_find_sensor_found(sensors.skip(1), name);
    }
}

/// With pairwise distinct names, the sensor holding `name` is where the
/// search stops.
pub proof fn lemma_find_sensor_stable(sensors: Seq<SensorModel>, name: Seq<char>, i: int)
    requires
        0 <= i < sensors.len(),
        sensors[i].id == name,
        forall|a: int, b: int|
            0 <= a < b < sensors.len() ==> (#[trigger] sensors[a]).id != (
            #[trigger] sensors[b]).id,
    ensures
        spec_find_sensor(sensors, name) == i,
{
    assert forall|j: int| 0 <= j < i implies (#[trigger] sensors[j]).id != name by {
        assert(sensors[j].id != sensors[i].id);
    }
    lemma_find_sensor_at(sensors, name, i);
}

/// Without a sensor of that name the position is `-1`.
pub proof fn lemma_find_sensor_none(sensors: Seq<SensorModel>, name: Seq<char>)
    requires
        forall|j: int| 0 <= j < sensors.len() ==> (#[trigger] sensors[j]).id != name,
    ensures
        spec_find_sensor(sensors, name) == -1,
    decreases sensors.len(),
{
    if sensors.len() > 0 {
        assert(forall|j: int|
            0 <= j < sensors.len() - 1 ==> sensors.skip(1)[j] == #[trigger] sensors[j + 1]);
        lemma_find_sensor_none(sensors.skip(1), name);
    }
}

/// The first neuron with the given identifier, or `-1`.
pub open spec fn spec_find_neuron(neurons: Seq<NeuronModel>, id: IdModel) -> int
    decreases neurons.len(),
{
    if neurons.len() == 0 {
        -1
    } else if neurons[0].id == id {
        0
    } else {
        let r = spec_find_neuron(neurons.skip(1), id);
        if r < 0 {
            -1
        } else {
            r + 1
        }
    }
}

/// A witness characterises [`spec_find_neuron`].
pub proof fn lemma_find_neuron_at(neurons: Seq<NeuronModel>, id: IdModel, i: int)
    requires
        0 <= i < neurons.len(),
        neurons[i].id == id,
        forall|j: int| 0 <= j < i ==> (#[trigger] neurons[j]).id != id,
    ensures
        spec_find_neuron(neurons, id) == i,
    decreases neurons.len(),
{
    if i > 0 {
        assert(forall|j: int|
            0 <= j < i - 1 ==> neurons.skip(1)[j] == #[trigger] neurons[j + 1]);
        lemma_find_neuron_at(neurons.skip(1), id, i - 1);
    }
}

/// Without a neuron of that identifier the position is `-1`.
pub proof fn lemma_find_neuron_none(neurons: Seq<NeuronModel>, id: IdModel)
    requires
        forall|j: int| 0 <= j < neurons.len() ==> (#[trigger] neurons[j]).id != id,
    ensures
        spec_find_neuron(neurons, id) == -1,
    decreases neurons.len(),
{
    if neurons.len() > 0 {
        assert(forall|j: int|
            0 <= j < neurons.len() - 1 ==> neurons.skip(1)[j] == #[trigger] neurons[j + 1]);
        lemma_find_neuron_none(neurons.skip(1), id);
    }
}

/// Edge symmetry survives an insertion into sensor `si`: the new element
/// carries no edges, the old elements keep their keys and edges, only
/// their positions may shift.
pub proof fn lemma_conn_sensor_insert(m1: StoreModel, m2: StoreModel, si: int, v: crate::value::ValueModel)
    requires
        wf_conn(m1),
        0 <= si < m1.sensors.len(),
        m2.neurons == m1.neurons,
        m2.sensors.len() == m1.sensors.len(),
        forall|j: int| 0 <= j < m1.sensors.len() && j != si ==> m2.sensors[j] == #[trigger] m1.sensors[j],
        m2.sensors[si].id == m1.sensors[si].id,
        m2.sensors[si].elements == crate::sensor::spec_insert_elems(m1.sensors[si].elements, v),
    ensures
        wf_conn(m2),
{
    let e1 = m1.sensors[si].elements;
    let e2 = m2.sensors[si].elements;
    let p = crate::sensor::spec_lb(e1, v);
    crate::sensor::lemma_lb_bounds(e1, v);
    let updating = p < e1.len() && e1[p].key == v;
    if updating {
        assert(e2 == e1.update(
            p,
            ElemModel {
                key: e1[p].key,
                activation: e1[p].activation,
                counter: e1[p].counter + 1,
                defined: e1[p].defined,
            },
        ));
        assert forall|ei: int| 0 <= ei < e2.len() implies (#[trigger] e2[ei]).key == e1[ei].key
            && e2[ei].defined == e1[ei].defined by {}
    } else {
        assert(e2 == e1.insert(p, crate::sensor::spec_new_elem(v)));
        assert(e2.len() == e1.len() + 1);
        assert forall|ei: int| 0 <= ei < e2.len() && ei != p implies {
            let e0 = if ei < p {
                ei
            } else {
                ei - 1
            };
            (#[trigger] e2[ei]).key == e1[e0].key && e2[ei].defined == e1[e0].defined
        } by {}
        assert(e2[p].defined.len() == 0);
    }
    assert forall|sj: int, ei: int, k: int|
        0 <= sj < m2.sensors.len() && 0 <= ei < m2.sensors[sj].elements.len() && 0 <= k
            < m2.sensors[sj].elements[ei].defined.len() implies #[trigger] defined_ok(
        m2,
        sj,
        ei,
        k,
    ) by {
        if sj != si {
            assert(m1.sensors[sj] == m2.sensors[sj]);
            assert(defined_ok(m1, sj, ei, k));
            let ni = choose|ni: int|
                0 <= ni < m1.neurons.len() && (#[trigger] m1.neurons[ni]).id
                    == m1.sensors[sj].elements[ei].defined[k] && spec_has_edge(
                    m1.neurons[ni].to_edges,
                    spec_elem_id(m1.sensors[sj], ei),
                );
            assert(spec_elem_id(m1.sensors[sj], ei) == spec_elem_id(m2.sensors[sj], ei));
        } else {
            if updating {
                assert(e2[ei].key == e1[ei].key && e2[ei].defined == e1[ei].defined);
                assert(defined_ok(m1, si, ei, k));
                let ni = choose|ni: int|
                    0 <= ni < m1.neurons.len() && (#[trigger] m1.neurons[ni]).id
                        == m1.sensors[si].elements[ei].defined[k] && spec_has_edge(
                        m1.neurons[ni].to_edges,
                        spec_elem_id(m1.sensors[si], ei),
                    );
                assert(spec_elem_id(m2.sensors[si], ei) == spec_elem_id(m1.sensors[si], ei));
            } else {
                if ei == p {
                    assert(e2[ei].defined.len() == 0);
                } else {
                    let e0 = if ei < p {
                        ei
                    } else {
                        ei - 1
                    };
                    assert(e2[ei] == e1[e0]);
                    assert(defined_ok(m1, si, e0, k));
                    let ni = choose|ni: int|
                        0 <= ni < m1.neurons.len() && (#[trigger] m1.neurons[ni]).id
                            == m1.sensors[si].elements[e0].defined[k] && spec_has_edge(
                            m1.neurons[ni].to_edges,
                            spec_elem_id(m1.sensors[si], e0),
                        );
                    assert(spec_elem_id(m2.sensors[si], ei) == spec_elem_id(m1.sensors[si], e0));
                }
            }
        }
    }
    assert forall|ni: int, t: int|
        0 <= ni < m2.neurons.len() && 0 <= t < m2.neurons[ni].to_edges.len()
            && m2.neurons[ni].to_edges[t].other_is_sensor implies #[trigger] to_edge_ok(
        m2,
        ni,
        t,
    ) by {
        assert(to_edge_ok(m1, ni, t));
        let (sj, ei): (int, int) = choose|sj: int, ei: int|
            #![trigger m1.sensors[sj].elements[ei]]
            0 <= sj < m1.sensors.len() && 0 <= ei < m1.sensors[sj].elements.len()
                && m1.sensors[sj].id == m1.neurons[ni].to_edges[t].other.parent_id
                && spec_value_str(m1.sensors[sj].elements[ei].key)
                == m1.neurons[ni].to_edges[t].other.id
                && m1.sensors[sj].elements[ei].defined.contains(m1.neurons[ni].id);
        if sj != si {
            assert(m2.sensors[sj] == m1.sensors[sj]);
            assert(m2.sensors[sj].elements[ei].defined.contains(m2.neurons[ni].id));
        } else {
            let e0 = ei;
            let enew = if updating {
                e0
            } else if e0 < p {
                e0
            } else {
                e0 + 1
            };
            assert(e2[enew].key == e1[e0].key && e2[enew].defined == e1[e0].defined);
            assert(m2.sensors[si].elements[enew].defined.contains(m2.neurons[ni].id));
            assert(0 <= enew < m2.sensors[si].elements.len() && m2.sensors[si].id
                == m2.neurons[ni].to_edges[t].other.parent_id && spec_value_str(
                m2.sensors[si].elements[enew].key,
            ) == m2.neurons[ni].to_edges[t].other.id);
        }
    }
}

/// Edge symmetry survives appending a sensor whose elements carry no
/// edges yet.
pub proof fn lemma_conn_push_sensor(m1: StoreModel, m2: StoreModel, s: SensorModel)
    requires
        wf_conn(m1),
        m2.neurons == m1.neurons,
        m2.sensors == m1.sensors.push(s),
        forall|ei: int| 0 <= ei < s.elements.len() ==> (#[trigger] s.elements[ei]).defined.len() == 0,
    ensures
        wf_conn(m2),
{
    assert forall|si: int, ei: int, k: int|
        0 <= si < m2.sensors.len() && 0 <= ei < m2.sensors[si].elements.len() && 0 <= k
            < m2.sensors[si].elements[ei].defined.len() implies #[trigger] defined_ok(
        m2,
        si,
        ei,
        k,
    ) by {
        if si < m1.sensors.len() {
            assert(m2.sensors[si] == m1.sensors[si]);
            assert(defined_ok(m1, si, ei, k));
            let ni = choose|ni: int|
                0 <= ni < m1.neurons.len() && (#[trigger] m1.neurons[ni]).id
                    == m1.sensors[si].elements[ei].defined[k] && spec_has_edge(
                    m1.neurons[ni].to_edges,
                    spec_elem_id(m1.sensors[si], ei),
                );
            assert(spec_elem_id(m2.sensors[si], ei) == spec_elem_id(m1.sensors[si], ei));
        } else {
            assert(m2.sensors[si] == s);
        }
    }
    assert forall|ni: int, t: int|
        0 <= ni < m2.neurons.len() && 0 <= t < m2.neurons[ni].to_edges.len()
            && m2.neurons[ni].to_edges[t].other_is_sensor implies #[trigger] to_edge_ok(
        m2,
        ni,
        t,
    ) by {
        assert(to_edge_ok(m1, ni, t));
        let (si, ei): (int, int) = choose|si: int, ei: int|
            #![trigger m1.sensors[si].elements[ei]]
            0 <= si < m1.sensors.len() && 0 <= ei < m1.sensors[si].elements.len()
                && m1.sensors[si].id == m1.neurons[ni].to_edges[t].other.parent_id
                && spec_value_str(m1.sensors[si].elements[ei].key)
                == m1.neurons[ni].to_edges[t].other.id
                && m1.sensors[si].elements[ei].defined.contains(m1.neurons[ni].id);
        assert(m2.sensors[si] == m1.sensors[si]);
        assert(m2.sensors[si].elements[ei].defined.contains(m2.neurons[ni].id));
    }
}

/// Edge symmetry survives appending a neuron without edges.
pub proof fn lemma_conn_push_neuron(m1: StoreModel, m2: StoreModel, nn: NeuronModel)
    requires
        wf_conn(m1),
        m2.sensors == m1.sensors,
        m2.neurons == m1.neurons.push(nn),
        nn.to_edges.len() == 0,
    ensures
        wf_conn(m2),
{
    assert forall|si: int, ei: int, k: int|
        0 <= si < m2.sensors.len() && 0 <= ei < m2.sensors[si].elements.len() && 0 <= k
            < m2.sensors[si].elements[ei].defined.len() implies #[trigger] defined_ok(
        m2,
        si,
        ei,
        k,
    ) by {
        assert(defined_ok(m1, si, ei, k));
        let ni = choose|ni: int|
            0 <= ni < m1.neurons.len() && (#[trigger] m1.neurons[ni]).id
                == m1.sensors[si].elements[ei].defined[k] && spec_has_edge(
                m1.neurons[ni].to_edges,
                spec_elem_id(m1.sensors[si], ei),
            );
        assert(m2.neurons[ni] == m1.neurons[ni]);
    }
    assert forall|ni: int, t: int|
        0 <= ni < m2.neurons.len() && 0 <= t < m2.neurons[ni].to_edges.len()
            && m2.neurons[ni].to_edges[t].other_is_sensor implies #[trigger] to_edge_ok(
        m2,
        ni,
        t,
    ) by {
        if ni < m1.neurons.len() {
            assert(m2.neurons[ni] == m1.neurons[ni]);
            assert(to_edge_ok(m1, ni, t));
            let (si, ei): (int, int) = choose|si: int, ei: int|
                #![trigger m1.sensors[si].elements[ei]]
                0 <= si < m1.sensors.len() && 0 <= ei < m1.sensors[si].elements.len()
                    && m1.sensors[si].id == m1.neurons[ni].to_edges[t].other.parent_id
                    && spec_value_str(m1.sensors[si].elements[ei].key)
                    == m1.neurons[ni].to_edges[t].other.id
                    && m1.sensors[si].elements[ei].defined.contains(m1.neurons[ni].id);
            assert(m2.sensors[si].elements[ei].defined.contains(m2.neurons[ni].id));
        } else {
            assert(m2.neurons[ni] == nn);
        }
    }
}

/// Append `id` to a defined-object list unless it is already recorded.
fn push_defined(v: &mut Vec<NeuronId>, id: &NeuronId)
    ensures
        final(v)@.map_values(|n: NeuronId| n@) == if old(v)@.map_values(
            |n: NeuronId| n@,
        ).contains(id@) {
            old(v)@.map_values(|n: NeuronId| n@)
        } else {
            old(v)@.map_values(|n: NeuronId| n@).push(id@)
        },
{
    let ghost m = v@.map_values(|n: NeuronId| n@);
    let mut i: usize = 0;
    while i < v.len()
        invariant
            0 <= i <= v@.len(),
            m == v@.map_values(|n: NeuronId| n@),
            forall|j: int| 0 <= j < i ==> m[j] != id@,
        decreases v@.len() - i,
    {
        if v[i].eq_id(id) {
            proof {
                assert(m[i as int] == id@);
                assert(m.contains(id@));
            }
            return ;
        }
        i += 1;
    }
    proof {
        assert(!m.contains(id@)) by {
            if m.contains(id@) {
                let w = choose|w: int| 0 <= w < m.len() && m[w] == id@;
                assert(false);
            }
        }
    }
    v.push(id.duplicate());
    proof {
        assert(final(v)@.map_values(|n: NeuronId| n@) =~= m.push(id@));
    }
}

impl MAGDS {
    /// An empty store.
    pub fn new() -> (r: MAGDS)
        ensures
            r@.sensors.len() == 0,
            r@.neurons.len() == 0,
            wf_store(r@),
            wf_conn(r@),
    {
        let r = MAGDS { sensors: Vec::new(), neurons: Vec::new() };
        proof {
            assert(r@.sensors =~= Seq::<SensorModel>::empty());
            assert(r@.neurons =~= Seq::<NeuronModel>::empty());
        }
        r
    }

    /// The index of the sensor with this name.
    pub fn sensor_index(&self, name: &str) -> (r: Option<usize>)
        ensures
            r is Some <==> spec_find_sensor(self@.sensors, name@) >= 0,
            r is Some ==> r.unwrap() == spec_find_sensor(self@.sensors, name@)
                && r.unwrap() < self@.sensors.len() && self@.sensors[r.unwrap() as int].id
                == name@,
            r is None ==> forall|j: int|
                0 <= j < self@.sensors.len() ==> (#[trigger] self@.sensors[j]).id != name@,
    {
        let n = self.sensors.len();
        let mut i: usize = 0;
        while i < n
            invariant
                0 <= i <= n,
                n == self@.sensors.len(),
                forall|j: int| 0 <= j < i ==> (#[trigger] self@.sensors[j]).id != name@,
            decreases n - i,
        {
            if str_eq(self.sensors[i].id.as_str(), name) {
                proof {
                    lemma_find_sensor_at(self@.sensors, name@, i as int);
                }
                return Some(i);
            }
            i += 1;
        }
        proof {
            lemma_find_sensor_none(self@.sensors, name@);
        }
        None
    }

    /// The index of the neuron with this identifier.
    pub fn neuron_index(&self, id: &NeuronId) -> (r: Option<usize>)
        ensures
            r is Some <==> spec_find_neuron(self@.neurons, id@) >= 0,
            r is Some ==> r.unwrap() == spec_find_neuron(self@.neurons, id@) && r.unwrap()
                < self@.neurons.len() && self@.neurons[r.unwrap() as int].id == id@,
            r is None ==> forall|j: int|
                0 <= j < self@.neurons.len() ==> (#[trigger] self@.neurons[j]).id != id@,
    {
        let n = self.neurons.len();
        let mut i: usize = 0;
        while i < n
            invariant
                0 <= i <= n,
                n == self@.neurons.len(),
                forall|j: int| 0 <= j < i ==> (#[trigger] self@.neurons[j]).id != id@,
            decreases n - i,
        {
            if self.neurons[i].id.eq_id(id) {
                proof {
                    lemma_find_neuron_at(self@.neurons, id@, i as int);
                }
                return Some(i);
            }
            i += 1;
        }
        proof {
            lemma_find_neuron_none(self@.neurons, id@);
        }
        None
    }

    /// Register an empty sensor of the given type under `name`; a sensor
    /// already registered under that name is replaced. The `Unknown` tag is
    /// refused with `InvalidType`.
    pub fn create_sensor(&mut self, name: &str, data_type: DataType) -> (r: Result<
        usize,
        MagdsError,
    >)
        requires
            wf_store(old(self)@),
        ensures
            wf_store(final(self)@),
            r is Err <==> data_type == DataType::Unknown,
            r is Err ==> final(self)@ == old(self)@ && (r matches Err(MagdsError::InvalidType)),
            r is Ok ==> {
                &&& final(self)@.neurons == old(self)@.neurons
                &&& r.unwrap() < final(self)@.sensors.len()
                &&& final(self)@.sensors[r.unwrap() as int].id == name@
                &&& final(self)@.sensors[r.unwrap() as int].data_type == data_type
                &&& final(self)@.sensors[r.unwrap() as int].elements.len() == 0
                &&& (spec_find_sensor(old(self)@.sensors, name@) < 0 ==> final(self)@.sensors
                    == old(self)@.sensors.push(final(self)@.sensors[r.unwrap() as int])
                    && r.unwrap() == old(self)@.sensors.len())
                &&& (spec_find_sensor(old(self)@.sensors, name@) >= 0 ==> final(self)@.sensors
                    == old(self)@.sensors.update(
                    r.unwrap() as int,
                    final(self)@.sensors[r.unwrap() as int],
                ))
            },
            r is Ok && spec_find_sensor(old(self)@.sensors, name@) < 0 && wf_conn(old(self)@)
                ==> wf_conn(final(self)@),
    {
        let ghost m1 = self@;
        let fresh = match SensorConatiner::new(name, data_type) {
            Ok(s) => s,
            Err(e) => {
                return Err(e);
            },
        };
        match self.sensor_index(name) {
            Some(i) => {
                self.sensors.remove(i);
                self.sensors.insert(i, fresh);
                proof {
                    assert(self@.sensors =~~= m1.sensors.update(
                        i as int,
                        self@.sensors[i as int],
                    ));
                    assert(wf_store(self@)) by {
                        assert(self@.neurons =~= m1.neurons);
                        assert(forall|j: int|
                            0 <= j < m1.sensors.len() && j != i ==> self@.sensors[j]
                                == #[trigger] m1.sensors[j]);
                    }
                }
                Ok(i)
            },
            None => {
                let i = self.sensors.len();
                self.sensors.push(fresh);
                proof {
                    assert(self@.sensors =~~= m1.sensors.push(
                        self@.sensors[i as int],
                    ));
                    assert(wf_store(self@)) by {
                        assert(self@.neurons =~= m1.neurons);
                        assert(forall|j: int|
                            0 <= j < m1.sensors.len() ==> self@.sensors[j]
                                == #[trigger] m1.sensors[j]);
                        assert(forall|j: int|
                            0 <= j < m1.sensors.len() ==> (#[trigger] m1.sensors[j]).id != name@);
                    }
                    if wf_conn(m1) {
                        lemma_conn_push_sensor(m1, self@, self@.sensors[i as int]);
                    }
                }
                Ok(i)
            },
        }
    }

    /// Register a pre-built sensor under its own name; a sensor already
    /// registered under that name is replaced and returned. The sensor's
    /// elements must not carry edges yet: edges are made through the store.
    pub fn add_sensor(&mut self, sensor: SensorConatiner) -> (r: Option<SensorConatiner>)
        requires
            wf_store(old(self)@),
            wf_sensor(sensor@),
            forall|ei: int|
                0 <= ei < sensor@.elements.len() ==> (#[trigger] sensor@.elements[ei]).defined.len()
                    == 0,
        ensures
            wf_store(final(self)@),
            final(self)@.neurons == old(self)@.neurons,
            r is Some <==> spec_find_sensor(old(self)@.sensors, sensor@.id) >= 0,
            r is Some ==> r.unwrap()@ == old(self)@.sensors[spec_find_sensor(
                old(self)@.sensors,
                sensor@.id,
            )] && final(self)@.sensors == old(self)@.sensors.update(
                spec_find_sensor(old(self)@.sensors, sensor@.id),
                sensor@,
            ),
            r is None ==> final(self)@.sensors == old(self)@.sensors.push(sensor@),
            r is None && wf_conn(old(self)@) ==> wf_conn(final(self)@),
    {
        let ghost m1 = self@;
        let name = sensor.id();
        match self.sensor_index(name.as_str()) {
            Some(i) => {
                let prev = self.sensors.remove(i);
                self.sensors.insert(i, sensor);
                proof {
                    assert(self@.sensors =~~= m1.sensors.update(
                        i as int,
                        self@.sensors[i as int],
                    ));
                    assert(wf_store(self@)) by {
                        assert(self@.neurons =~= m1.neurons);
                        assert(forall|j: int|
                            0 <= j < m1.sensors.len() && j != i ==> self@.sensors[j]
                                == #[trigger] m1.sensors[j]);
                    }
                }
                Some(prev)
            },
            None => {
                let ghost sv = sensor@;
                self.sensors.push(sensor);
                proof {
                    assert(self@.sensors =~~= m1.sensors.push(sv));
                    assert(wf_store(self@)) by {
                        assert(self@.neurons =~= m1.neurons);
                        assert(forall|j: int|
                            0 <= j < m1.sensors.len() ==> self@.sensors[j]
                                == #[trigger] m1.sensors[j]);
                        assert(forall|j: int|
                            0 <= j < m1.sensors.len() ==> (#[trigger] m1.sensors[j]).id != sv.id);
                    }
                    if wf_conn(m1) {
                        lemma_conn_push_sensor(m1, self@, sv);
                    }
                }
                None
            },
        }
    }

    /// The sensor registered under `name`.
    pub fn sensor(&self, name: &str) -> (r: Option<&SensorConatiner>)
        ensures
            r is Some <==> spec_find_sensor(self@.sensors, name@) >= 0,
            r is Some ==> r.unwrap()@ == self@.sensors[spec_find_sensor(self@.sensors, name@)],
    {
        match self.sensor_index(name) {
            Some(i) => Some(&self.sensors[i]),
            None => None,
        }
    }

    /// The name of the sensor registered under `name`, if any.
    pub fn sensor_id(&self, name: &str) -> (r: Option<String>)
        ensures
            r is Some <==> spec_find_sensor(self@.sensors, name@) >= 0,
            r is Some ==> r.unwrap()@ == name@,
    {
        match self.sensor_index(name) {
            Some(i) => Some(self.sensors[i].id()),
            None => None,
        }
    }

    /// The key type of the sensor registered under `name`.
    pub fn sensor_data_type(&self, name: &str) -> (r: Option<DataType>)
        ensures
            r is Some <==> spec_find_sensor(self@.sensors, name@) >= 0,
            r is Some ==> r.unwrap() == self@.sensors[spec_find_sensor(
                self@.sensors,
                name@,
            )].data_type,
    {
        match self.sensor_index(name) {
            Some(i) => Some(self.sensors[i].data_type()),
            None => None,
        }
    }

    /// The data category of the sensor registered under `name`.
    pub fn sensor_data_category(&self, name: &str) -> (r: Option<DataCategory>)
        ensures
            r is Some <==> spec_find_sensor(self@.sensors, name@) >= 0,
            r is Some ==> r.unwrap() == spec_category(
                self@.sensors[spec_find_sensor(self@.sensors, name@)].data_type,
            ),
    {
        match self.sensor_index(name) {
            Some(i) => Some(self.sensors[i].data_category()),
            None => None,
        }
    }

    /// Insert `item` into the sensor registered under `name` and return
    /// the index of its element there.
    pub fn sensor_insert(&mut self, name: &str, item: &DataValue) -> (r: Result<
        usize,
        MagdsError,
    >)
        requires
            wf_store(old(self)@),
            spec_find_sensor(old(self)@.sensors, name@) >= 0 ==> counter_sum(
                old(self)@.sensors[spec_find_sensor(old(self)@.sensors, name@)].elements,
            ) < u64::MAX,
        ensures
            wf_store(final(self)@),
            final(self)@.neurons == old(self)@.neurons,
            r is Err ==> final(self)@ == old(self)@,
            spec_find_sensor(old(self)@.sensors, name@) < 0 ==> (r matches Err(
                MagdsError::UnknownSensor(_),
            )),
            spec_find_sensor(old(self)@.sensors, name@) >= 0 ==> (r is Err
                <==> crate::value::tag_of(item@) != old(self)@.sensors[spec_find_sensor(
                old(self)@.sensors,
                name@,
            )].data_type),
            (r matches Err(MagdsError::UnknownSensor(_))) ==> spec_find_sensor(
                old(self)@.sensors,
                name@,
            ) < 0,
            r is Ok ==> {
                let si = spec_find_sensor(old(self)@.sensors, name@);
                let s1 = old(self)@.sensors[si];
                &&& si >= 0
                &&& final(self)@.sensors == old(self)@.sensors.update(
                    si,
                    SensorModel {
                        id: s1.id,
                        data_type: s1.data_type,
                        elements: crate::sensor::spec_insert_elems(s1.elements, item@),
                    },
                )
                &&& counter_sum(final(self)@.sensors[si].elements) == counter_sum(s1.elements)
                    + 1
                &&& r.unwrap() < final(self)@.sensors[si].elements.len()
                &&& final(self)@.sensors[si].elements[r.unwrap() as int].key == item@
            },
            wf_conn(old(self)@) ==> wf_conn(final(self)@),
    {
        let ghost m1 = self@;
        let si = match self.sensor_index(name) {
            Some(i) => i,
            None => {
                return Err(MagdsError::UnknownSensor(String::from_str(name)));
            },
        };
        let r = sensor_insert_at(&mut self.sensors, si, item);
        match r {
            Ok(p) => {
                proof {
                    assert(m1 == old(self)@);
                    assert(spec_find_sensor(old(self)@.sensors, name@) == si as int);
                    assert(!(spec_find_sensor(old(self)@.sensors, name@) < 0));
                    assert(self@.sensors =~~= m1.sensors.update(
                        si as int,
                        self@.sensors[si as int],
                    ));
                    assert(self@.sensors[si as int].elements
                        == crate::sensor::spec_insert_elems(
                        m1.sensors[si as int].elements,
                        item@,
                    ));
                    assert(wf_store(self@)) by {
                        assert(self@.neurons =~= m1.neurons);
                        assert(forall|j: int|
                            0 <= j < m1.sensors.len() && j != si ==> self@.sensors[j]
                                == #[trigger] m1.sensors[j]);
                    }
                    if wf_conn(m1) {
                        lemma_conn_sensor_insert(m1, self@, si as int, item@);
                    }
                }
                Ok(p)
            },
            Err(e) => {
                proof {
                    assert(self@ =~~= m1);
                }
                Err(e)
            },
        }
    }

    /// Exact search in the sensor registered under `name`: the index of the
    /// element holding `item`, or nothing when the name or the key is
    /// absent.
    pub fn sensor_search(&self, name: &str, item: &DataValue) -> (r: Option<usize>)
        requires
            wf_store(self@),
        ensures
            r is Some ==> {
                let si = spec_find_sensor(self@.sensors, name@);
                &&& si >= 0
                &&& r.unwrap() < self@.sensors[si].elements.len()
                &&& self@.sensors[si].elements[r.unwrap() as int].key == item@
            },
            spec_find_sensor(self@.sensors, name@) >= 0 ==> (r is Some <==> exists|i: int|
                0 <= i < self@.sensors[spec_find_sensor(self@.sensors, name@)].elements.len()
                    && (#[trigger] self@.sensors[spec_find_sensor(
                    self@.sensors,
                    name@,
                )].elements[i]).key == item@),
    {
        match self.sensor_index(name) {
            Some(i) => self.sensors[i].search(item),
            None => None,
        }
    }

    /// Register an object neuron; a neuron with the same identifier is
    /// replaced. Fresh neurons carry no edges and no activation.
    pub fn add_neuron(&mut self, neuron: SimpleNeuron)
        requires
            wf_store(old(self)@),
            neuron@.activation >= 0,
            neuron@.from_edges.len() == 0,
            neuron@.to_edges.len() == 0,
        ensures
            wf_store(final(self)@),
            final(self)@.sensors == old(self)@.sensors,
            spec_find_neuron(old(self)@.neurons, neuron@.id) < 0 ==> final(self)@.neurons
                == old(self)@.neurons.push(neuron@),
            spec_find_neuron(old(self)@.neurons, neuron@.id) >= 0 ==> final(self)@.neurons
                == old(self)@.neurons.update(
                spec_find_neuron(old(self)@.neurons, neuron@.id),
                neuron@,
            ),
            spec_find_neuron(old(self)@.neurons, neuron@.id) < 0 && wf_conn(old(self)@)
                ==> wf_conn(final(self)@),
    {
        let ghost m1 = self@;
        let ghost nv = neuron@;
        let id = neuron.id();
        match self.neuron_index(&id) {
            Some(i) => {
                self.neurons.remove(i);
                self.neurons.insert(i, neuron);
                proof {
                    assert(self@.neurons =~~= m1.neurons.update(i as int, nv));
                    assert(wf_store(self@)) by {
                        assert(self@.sensors =~= m1.sensors);
                        assert(forall|j: int|
                            0 <= j < m1.neurons.len() && j != i ==> self@.neurons[j]
                                == #[trigger] m1.neurons[j]);
                    }
                }
            },
            None => {
                self.neurons.push(neuron);
                proof {
                    assert(self@.neurons =~~= m1.neurons.push(nv));
                    assert(wf_store(self@)) by {
                        assert(self@.sensors =~= m1.sensors);
                        assert(forall|j: int|
                            0 <= j < m1.neurons.len() ==> self@.neurons[j]
                                == #[trigger] m1.neurons[j]);
                        assert(forall|j: int|
                            0 <= j < m1.neurons.len() ==> (#[trigger] m1.neurons[j]).id != nv.id);
                    }
                    if wf_conn(m1) {
                        lemma_conn_push_neuron(m1, self@, nv);
                    }
                }
            },
        }
    }

    /// Create and register a fresh object neuron under `(id, parent_id)`.
    pub fn create_neuron(&mut self, id: &str, parent_id: &str)
        requires
            wf_store(old(self)@),
        ensures
            wf_store(final(self)@),
            final(self)@.sensors == old(self)@.sensors,
            spec_find_neuron(old(self)@.neurons, IdModel { id: id@, parent_id: parent_id@ }) < 0
                ==> final(self)@.neurons == old(self)@.neurons.push(
                NeuronModel {
                    id: IdModel { id: id@, parent_id: parent_id@ },
                    activation: 0,
                    from_edges: Seq::<EdgeModel>::empty(),
                    to_edges: Seq::<EdgeModel>::empty(),
                },
            ),
            spec_find_neuron(old(self)@.neurons, IdModel { id: id@, parent_id: parent_id@ }) < 0
                && wf_conn(old(self)@) ==> wf_conn(final(self)@),
    {
        let n = SimpleNeuron::new(id, parent_id);
        proof {
            assert(n@.from_edges =~= Seq::<EdgeModel>::empty());
            assert(n@.to_edges =~= Seq::<EdgeModel>::empty());
            assert(n@ =~~= NeuronModel {
                id: IdModel { id: id@, parent_id: parent_id@ },
                activation: 0,
                from_edges: Seq::<EdgeModel>::empty(),
                to_edges: Seq::<EdgeModel>::empty(),
            });
        }
        self.add_neuron(n);
    }

    /// The index of the neuron registered under `(id, parent_id)`.
    pub fn neuron(&self, id: &str, parent_id: &str) -> (r: Option<usize>)
        ensures
            r is Some <==> spec_find_neuron(
                self@.neurons,
                IdModel { id: id@, parent_id: parent_id@ },
            ) >= 0,
            r is Some ==> r.unwrap() == spec_find_neuron(
                self@.neurons,
                IdModel { id: id@, parent_id: parent_id@ },
            ) && r.unwrap() < self@.neurons.len() && self@.neurons[r.unwrap() as int].id == (
            IdModel { id: id@, parent_id: parent_id@ }),
    {
        let nid = NeuronId::new(id, parent_id);
        self.neuron_index(&nid)
    }

    /// The index of the neuron with the given identifier.
    pub fn neuron_from_id(&self, id: &NeuronId) -> (r: Option<usize>)
        ensures
            r is Some <==> spec_find_neuron(self@.neurons, id@) >= 0,
            r is Some ==> r.unwrap() == spec_find_neuron(self@.neurons, id@) && r.unwrap()
                < self@.neurons.len() && self@.neurons[r.unwrap() as int].id == id@,
    {
        self.neuron_index(id)
    }
}

/// The neurons after one emission `(id, amt)` lands: the neuron carrying
/// `id`, if any, has `amt` added to its activation, saturating.
pub open spec fn spec_apply_one(ns: Seq<NeuronModel>, id: IdModel, amt: int) -> Seq<NeuronModel> {
    let ni = spec_find_neuron(ns, id);
    if ni < 0 {
        ns
    } else {
        ns.update(
            ni,
            NeuronModel {
                id: ns[ni].id,
                activation: sat64(ns[ni].activation + if amt >= 0 {
                    amt
                } else {
                    0
                }),
                from_edges: ns[ni].from_edges,
                to_edges: ns[ni].to_edges,
            },
        )
    }
}

/// The neurons after a sequence of emissions lands, in order.
pub open spec fn spec_apply_emissions(ns: Seq<NeuronModel>, em: Seq<(IdModel, int)>) -> Seq<
    NeuronModel,
>
    decreases em.len(),
{
    if em.len() == 0 {
        ns
    } else {
        spec_apply_one(
            spec_apply_emissions(ns, em.drop_last()),
            em.last().0,
            em.last().1,
        )
    }
}

/// The neurons after the listed objects are cleared to zero activation.
pub open spec fn spec_clear_targets(ns: Seq<NeuronModel>, ids: Seq<IdModel>) -> Seq<NeuronModel>
    decreases ids.len(),
{
    if ids.len() == 0 {
        ns
    } else {
        let prev = spec_clear_targets(ns, ids.drop_last());
        let ni = spec_find_neuron(prev, ids.last());
        if ni < 0 {
            prev
        } else {
            prev.update(
                ni,
                NeuronModel {
                    id: prev[ni].id,
                    activation: 0,
                    from_edges: prev[ni].from_edges,
                    to_edges: prev[ni].to_edges,
                },
            )
        }
    }
}

/// The found index is always inside the registry.
pub proof fn lemma_find_neuron_bounds(neurons: Seq<NeuronModel>, id: IdModel)
    ensures
        -1 <= spec_find_neuron(neurons, id) < neurons.len(),
    decreases neurons.len(),
{
    if neurons.len() > 0 && neurons[0].id != id {
        lemma_find_neuron_bounds(neurons.skip(1), id);
    }
}

/// Applying emissions changes only activation levels, which stay
/// non-negative.
pub proof fn lemma_apply_emissions_shape(ns: Seq<NeuronModel>, em: Seq<(IdModel, int)>)
    requires
        forall|i: int| 0 <= i < ns.len() ==> (#[trigger] ns[i]).activation >= 0,
    ensures
        ({
            let r = spec_apply_emissions(ns, em);
            &&& r.len() == ns.len()
            &&& forall|i: int|
                0 <= i < ns.len() ==> (#[trigger] r[i]).id == ns[i].id && r[i].from_edges
                    == ns[i].from_edges && r[i].to_edges == ns[i].to_edges && r[i].activation
                    >= 0
        }),
    decreases em.len(),
{
    if em.len() > 0 {
        lemma_apply_emissions_shape(ns, em.drop_last());
        lemma_find_neuron_bounds(spec_apply_emissions(ns, em.drop_last()), em.last().0);
    }
}

/// Clearing targets changes only activation levels, down to zero or not at
/// all.
pub proof fn lemma_clear_targets_shape(ns: Seq<NeuronModel>, ids: Seq<IdModel>)
    ensures
        ({
            let r = spec_clear_targets(ns, ids);
            &&& r.len() == ns.len()
            &&& forall|i: int|
                0 <= i < ns.len() ==> (#[trigger] r[i]).id == ns[i].id && r[i].from_edges
                    == ns[i].from_edges && r[i].to_edges == ns[i].to_edges && (r[i].activation
                    == ns[i].activation || r[i].activation == 0)
        }),
    decreases ids.len(),
{
    if ids.len() > 0 {
        lemma_clear_targets_shape(ns, ids.drop_last());
        lemma_find_neuron_bounds(spec_clear_targets(ns, ids.drop_last()), ids.last());
    }
}

/// Add `amt` to the activation of neuron `i`, saturating, leaving
/// everything else unchanged.
fn neuron_raise_activation(v: &mut Vec<SimpleNeuron>, i: usize, amt: i64)
    requires
        i < old(v)@.len(),
        amt >= 0,
        old(v)@.map_values(|n: SimpleNeuron| n@)[i as int].activation >= 0,
    ensures
        final(v)@.map_values(|n: SimpleNeuron| n@) == old(v)@.map_values(
            |n: SimpleNeuron| n@,
        ).update(
            i as int,
            NeuronModel {
                id: old(v)@.map_values(|n: SimpleNeuron| n@)[i as int].id,
                activation: sat64(
                    old(v)@.map_values(|n: SimpleNeuron| n@)[i as int].activation + amt,
                ),
                from_edges: old(v)@.map_values(|n: SimpleNeuron| n@)[i as int].from_edges,
                to_edges: old(v)@.map_values(|n: SimpleNeuron| n@)[i as int].to_edges,
            },
        ),
{
    let ghost m0 = v@.map_values(|n: SimpleNeuron| n@);
    let nref = vstd::std_specs::vec::vec_index_mut(v, i);
    let na = sat_plus(nref.activation, amt);
    nref.activation = na;
    proof {
        assert(final(v)@.map_values(|n: SimpleNeuron| n@) =~~= m0.update(
            i as int,
            NeuronModel {
                id: m0[i as int].id,
                activation: sat64(m0[i as int].activation + amt),
                from_edges: m0[i as int].from_edges,
                to_edges: m0[i as int].to_edges,
            },
        ));
    }
}

/// Clear the activation of neuron `i`, leaving everything else unchanged.
fn neuron_clear_activation(v: &mut Vec<SimpleNeuron>, i: usize)
    requires
        i < old(v)@.len(),
    ensures
        final(v)@.map_values(|n: SimpleNeuron| n@) == old(v)@.map_values(
            |n: SimpleNeuron| n@,
        ).update(
            i as int,
            NeuronModel {
                id: old(v)@.map_values(|n: SimpleNeuron| n@)[i as int].id,
                activation: 0,
                from_edges: old(v)@.map_values(|n: SimpleNeuron| n@)[i as int].from_edges,
                to_edges: old(v)@.map_values(|n: SimpleNeuron| n@)[i as int].to_edges,
            },
        ),
{
    let ghost m0 = v@.map_values(|n: SimpleNeuron| n@);
    let nref = vstd::std_specs::vec::vec_index_mut(v, i);
    nref.activation = 0;
    proof {
        assert(final(v)@.map_values(|n: SimpleNeuron| n@) =~~= m0.update(
            i as int,
            NeuronModel {
                id: m0[i as int].id,
                activation: 0,
                from_edges: m0[i as int].from_edges,
                to_edges: m0[i as int].to_edges,
            },
        ));
    }
}

/// A store stays well-formed when one sensor slot is replaced by a
/// well-formed sensor of the same name.
proof fn lemma_wf_store_sensor_slot(m1: StoreModel, m2: StoreModel, si: int)
    requires
        wf_store(m1),
        0 <= si < m1.sensors.len(),
        m2.neurons == m1.neurons,
        m2.sensors.len() == m1.sensors.len(),
        forall|j: int| 0 <= j < m1.sensors.len() && j != si ==> m2.sensors[j] == #[trigger] m1.sensors[j],
        wf_sensor(m2.sensors[si]),
        m2.sensors[si].id == m1.sensors[si].id,
    ensures
        wf_store(m2),
{
    assert forall|i: int| 0 <= i < m2.sensors.len() implies wf_sensor(
        #[trigger] m2.sensors[i],
    ) by {
        if i != si {
            assert(m2.sensors[i] == m1.sensors[i]);
        }
    }
    assert forall|a: int, b: int|
        0 <= a < b < m2.sensors.len() implies (#[trigger] m2.sensors[a]).id != (
    #[trigger] m2.sensors[b]).id by {
        assert(m2.sensors[a].id == m1.sensors[a].id);
        assert(m2.sensors[b].id == m1.sensors[b].id);
    }
    assert forall|i: int| 0 <= i < m2.neurons.len() implies (#[trigger] m2.neurons[i]).activation
        >= 0 && m2.neurons[i].from_edges.len() == 0 && (forall|a: int, b: int|
        0 <= a < b < m2.neurons[i].to_edges.len() ==> (#[trigger] m2.neurons[i].to_edges[a]).other
            != (#[trigger] m2.neurons[i].to_edges[b]).other) by {
        assert(m2.neurons[i] == m1.neurons[i]);
    }
    assert forall|a: int, b: int|
        0 <= a < b < m2.neurons.len() implies (#[trigger] m2.neurons[a]).id != (
    #[trigger] m2.neurons[b]).id by {
        assert(m2.neurons[a] == m1.neurons[a]);
        assert(m2.neurons[b] == m1.neurons[b]);
    }
}

/// The store with every activation level cleared and nothing else
/// changed.
pub open spec fn spec_store_cleared(m: StoreModel) -> StoreModel {
    StoreModel {
        sensors: Seq::new(
            m.sensors.len(),
            |si: int|
                SensorModel {
                    id: m.sensors[si].id,
                    data_type: m.sensors[si].data_type,
                    elements: Seq::new(
                        m.sensors[si].elements.len(),
                        |ei: int|
                            ElemModel {
                                key: m.sensors[si].elements[ei].key,
                                activation: 0,
                                counter: m.sensors[si].elements[ei].counter,
                                defined: m.sensors[si].elements[ei].defined,
                            },
                    ),
                },
        ),
        neurons: Seq::new(
            m.neurons.len(),
            |ni: int|
                NeuronModel {
                    id: m.neurons[ni].id,
                    activation: 0,
                    from_edges: m.neurons[ni].from_edges,
                    to_edges: m.neurons[ni].to_edges,
                },
        ),
    }
}

impl MAGDS {
    /// Land a batch of emissions on the object registry: each pair adds its
    /// amount to the activation of the neuron it names; unknown names are
    /// passed over.
    fn apply_emissions(&mut self, emissions: &Vec<(NeuronId, i64)>)
        requires
            wf_store(old(self)@),
        ensures
            wf_store(final(self)@),
            final(self)@.sensors == old(self)@.sensors,
            final(self)@.neurons == spec_apply_emissions(
                old(self)@.neurons,
                emissions@.map_values(|p: (NeuronId, i64)| (p.0@, p.1 as int)),
            ),
    {
        let ghost m1 = self@;
        let ghost em = emissions@.map_values(|p: (NeuronId, i64)| (p.0@, p.1 as int));
        let mut i: usize = 0;
        proof {
            assert(em.subrange(0, 0) =~= Seq::<(IdModel, int)>::empty());
        }
        while i < emissions.len()
            invariant
                0 <= i <= emissions@.len(),
                em == emissions@.map_values(|p: (NeuronId, i64)| (p.0@, p.1 as int)),
                wf_store(m1),
                self@.sensors == m1.sensors,
                self@.neurons == spec_apply_emissions(m1.neurons, em.subrange(0, i as int)),
                wf_store(self@),
            decreases emissions@.len() - i,
        {
            let ghost pre = em.subrange(0, i as int);
            let ghost cur = em.subrange(0, i as int + 1);
            proof {
                assert(cur.drop_last() =~= pre);
                assert(cur.last() == em[i as int]);
                lemma_apply_emissions_shape(m1.neurons, pre);
            }
            let amt = if emissions[i].1 >= 0 {
                emissions[i].1
            } else {
                0
            };
            match self.neuron_index(&emissions[i].0) {
                Some(ni) => {
                    proof {
                        assert(self@.neurons[ni as int].activation >= 0);
                    }
                    neuron_raise_activation(&mut self.neurons, ni, amt);
                    proof {
                        assert(self@.neurons =~~= spec_apply_emissions(m1.neurons, cur));
                        assert(wf_store(self@)) by {
                            assert(self@.sensors =~= m1.sensors);
                            lemma_apply_emissions_shape(m1.neurons, cur);
                        }
                    }
                },
                None => {
                    proof {
                        assert(self@.neurons =~~= spec_apply_emissions(m1.neurons, cur));
                    }
                },
            }
            i += 1;
        }
        proof {
            assert(em.subrange(0, emissions@.len() as int) =~= em);
        }
    }

    /// Clear the activation of every neuron named in `ids`; unknown names
    /// are passed over.
    fn apply_clear(&mut self, ids: &Vec<NeuronId>)
        requires
            wf_store(old(self)@),
        ensures
            wf_store(final(self)@),
            final(self)@.sensors == old(self)@.sensors,
            final(self)@.neurons == spec_clear_targets(
                old(self)@.neurons,
                ids@.map_values(|n: NeuronId| n@),
            ),
    {
        let ghost m1 = self@;
        let ghost tg = ids@.map_values(|n: NeuronId| n@);
        let mut i: usize = 0;
        proof {
            assert(tg.subrange(0, 0) =~= Seq::<IdModel>::empty());
        }
        while i < ids.len()
            invariant
                0 <= i <= ids@.len(),
                tg == ids@.map_values(|n: NeuronId| n@),
                wf_store(m1),
                self@.sensors == m1.sensors,
                self@.neurons == spec_clear_targets(m1.neurons, tg.subrange(0, i as int)),
                wf_store(self@),
            decreases ids@.len() - i,
        {
            let ghost pre = tg.subrange(0, i as int);
            let ghost cur = tg.subrange(0, i as int + 1);
            proof {
                assert(cur.drop_last() =~= pre);
                assert(cur.last() == tg[i as int]);
                lemma_clear_targets_shape(m1.neurons, pre);
            }
            match self.neuron_index(&ids[i]) {
                Some(ni) => {
                    neuron_clear_activation(&mut self.neurons, ni);
                    proof {
                        assert(self@.neurons =~~= spec_clear_targets(m1.neurons, cur));
                        assert(wf_store(self@)) by {
                            assert(self@.sensors =~= m1.sensors);
                            lemma_clear_targets_shape(m1.neurons, cur);
                        }
                    }
                },
                None => {
                    proof {
                        assert(self@.neurons =~~= spec_clear_targets(m1.neurons, cur));
                    }
                },
            }
            i += 1;
        }
        proof {
            assert(tg.subrange(0, ids@.len() as int) =~= tg);
        }
    }
}

/// Whether `x` is a neuron touched by activating `q` on sensor `s`: a
/// fired element's identifier, or — with vertical propagation — an object
/// a fired element defines.
pub open spec fn spec_touched_id(
    s: SensorModel,
    q: crate::value::ValueModel,
    ph: bool,
    pv: bool,
    x: IdModel,
) -> bool {
    (exists|j: int|
        0 <= j < s.elements.len() && crate::sensor::spec_fired(s, q, ph, j) && x == spec_elem_id(
            s,
            j,
        )) || (pv && exists|j: int, k: int|
        #![trigger s.elements[j].defined[k]]
        0 <= j < s.elements.len() && crate::sensor::spec_fired(s, q, ph, j) && 0 <= k
            < s.elements[j].defined.len() && x == s.elements[j].defined[k])
}

/// Whether the identifier `x` appears in the list `r`.
pub open spec fn covered_id(r: Seq<NeuronId>, x: IdModel) -> bool {
    exists|idx: int| 0 <= idx < r.len() && (#[trigger] r[idx])@ == x
}

/// Growing a list while keeping its prefix keeps every covered identifier
/// covered.
proof fn lemma_covered_monotone(r0: Seq<NeuronId>, r1: Seq<NeuronId>, x: IdModel)
    requires
        r1.len() >= r0.len(),
        forall|j: int| 0 <= j < r0.len() ==> (#[trigger] r1[j])@ == r0[j]@,
        covered_id(r0, x),
    ensures
        covered_id(r1, x),
{
    let idx = choose|idx: int| 0 <= idx < r0.len() && (#[trigger] r0[idx])@ == x;
    assert((r1[idx])@ == x);
}

impl MAGDS {
    /// Activate `item` on the sensor registered under `name`: fire the
    /// matching elements, pass each fired element's activation on to the
    /// objects it defines when vertical propagation is on, and return the
    /// identifiers of the neurons touched.
    pub fn sensor_activate(
        &mut self,
        name: &str,
        item: &DataValue,
        signal: i64,
        propagate_horizontal: bool,
        propagate_vertical: bool,
    ) -> (r: Result<Vec<NeuronId>, MagdsError>)
        requires
            wf_store(old(self)@),
            signal >= 0,
        ensures
            wf_store(final(self)@),
            wf_conn(old(self)@) ==> wf_conn(final(self)@),
            same_topology(old(self)@, final(self)@),
            r is Err ==> final(self)@ == old(self)@,
            r matches Err(MagdsError::UnknownSensor(_)) <==> spec_find_sensor(
                old(self)@.sensors,
                name@,
            ) < 0,
            spec_find_sensor(old(self)@.sensors, name@) >= 0 ==> (r is Err
                <==> crate::value::tag_of(item@) != old(self)@.sensors[spec_find_sensor(
                old(self)@.sensors,
                name@,
            )].data_type),
            r is Ok && crate::sensor::small_range(
                old(self)@.sensors[spec_find_sensor(old(self)@.sensors, name@)],
            ) ==> {
                let si = spec_find_sensor(old(self)@.sensors, name@);
                let s1 = old(self)@.sensors[si];
                let post = crate::sensor::spec_activated_elems(
                    s1,
                    item@,
                    propagate_horizontal,
                    signal as int,
                );
                let em = crate::sensor::spec_emissions_upto(
                    post,
                    s1,
                    item@,
                    propagate_horizontal,
                    s1.elements.len() as int,
                );
                &&& final(self)@.sensors == old(self)@.sensors.update(
                    si,
                    SensorModel { id: s1.id, data_type: s1.data_type, elements: post },
                )
                &&& (propagate_vertical ==> final(self)@.neurons == spec_apply_emissions(
                    old(self)@.neurons,
                    em,
                ))
                &&& (!propagate_vertical ==> final(self)@.neurons == old(self)@.neurons)
                &&& forall|i: int|
                    0 <= i < r.unwrap()@.len() ==> spec_touched_id(
                        s1,
                        item@,
                        propagate_horizontal,
                        propagate_vertical,
                        (#[trigger] r.unwrap()@[i])@,
                    )
                &&& forall|x: IdModel|
                    #![trigger spec_touched_id(s1, item@, propagate_horizontal, propagate_vertical, x)]
                    spec_touched_id(s1, item@, propagate_horizontal, propagate_vertical, x)
                        ==> covered_id(r.unwrap()@, x)
            },
    {
        let ghost m1 = self@;
        let si = match self.sensor_index(name) {
            Some(i) => i,
            None => {
                return Err(MagdsError::UnknownSensor(String::from_str(name)));
            },
        };
        let ghost s1 = m1.sensors[si as int];
        let (fired, emissions) = match sensor_activate_at(
            &mut self.sensors,
            si,
            item,
            signal,
            propagate_horizontal,
            propagate_vertical,
        ) {
            Ok(p) => p,
            Err(e) => {
                proof {
                    assert(self@ =~~= m1);
                }
                return Err(e);
            },
        };
        proof {
            assert(self@.neurons =~= m1.neurons);
            assert(wf_sensor(self@.sensors[si as int]));
            assert(self@.sensors[si as int].id == m1.sensors[si as int].id);
            assert(forall|j: int|
                0 <= j < m1.sensors.len() && j != si ==> self@.sensors[j]
                    == #[trigger] m1.sensors[j]);
            lemma_wf_store_sensor_slot(m1, self@, si as int);
            assert(same_topology(m1, self@)) by {
                assert(self@.neurons =~= m1.neurons);
                assert forall|j: int| 0 <= j < m1.sensors.len() implies {
                    let a = #[trigger] m1.sensors[j];
                    let b = #[trigger] self@.sensors[j];
                    &&& a.id == b.id
                    &&& a.data_type == b.data_type
                    &&& a.elements.len() == b.elements.len()
                    &&& forall|ei: int|
                        0 <= ei < a.elements.len() ==> (#[trigger] a.elements[ei]).key
                            == b.elements[ei].key && a.elements[ei].defined
                            == b.elements[ei].defined && a.elements[ei].counter
                            == b.elements[ei].counter
                } by {
                    if j != si {
                        assert(self@.sensors[j] == m1.sensors[j]);
                    }
                }
            }
            if wf_conn(m1) {
                lemma_conn_same_topology(m1, self@);
            }
        }
        let ghost m2 = self@;
        if propagate_vertical {
            self.apply_emissions(&emissions);
            proof {
                lemma_apply_emissions_shape(
                    m2.neurons,
                    emissions@.map_values(|p: (NeuronId, i64)| (p.0@, p.1 as int)),
                );
                assert(same_topology(m2, self@));
                assert(same_topology(m1, self@));
                if wf_conn(m1) {
                    lemma_conn_same_topology(m1, self@);
                }
            }
        }
        // Collect the touched identifiers: fired elements first, then the
        // objects their activation reached, without repetition.
        let mut r: Vec<NeuronId> = Vec::new();
        let mut i: usize = 0;
        while i < fired.len()
            invariant
                0 <= i <= fired@.len(),
                si < self@.sensors.len(),
                s1 == m1.sensors[si as int],
                name@ == s1.id,
                self@.sensors[si as int].elements.len() == s1.elements.len(),
                forall|e: int|
                    0 <= e < s1.elements.len() ==> (#[trigger] self@.sensors[si
                        as int].elements[e]).key == s1.elements[e].key,
                crate::sensor::small_range(s1) ==> {
                    &&& fired@.map_values(|u: usize| u as int) == crate::sensor::spec_fired_upto(
                        s1,
                        item@,
                        propagate_horizontal,
                        s1.elements.len() as int,
                    )
                    &&& forall|j: int|
                        0 <= j < r@.len() ==> spec_touched_id(
                            s1,
                            item@,
                            propagate_horizontal,
                            propagate_vertical,
                            (#[trigger] r@[j])@,
                        )
                    &&& forall|t: int|
                        0 <= t < i ==> covered_id(
                            r@,
                            spec_elem_id(s1, (#[trigger] fired@[t]) as int),
                        )
                },
            decreases fired@.len() - i,
        {
            proof {
                if crate::sensor::small_range(s1) {
                    lemma_fired_upto_member(
                        s1,
                        item@,
                        propagate_horizontal,
                        s1.elements.len() as int,
                        i as int,
                    );
                }
            }
            let idx = fired[i];
            if idx < self.sensors[si].elements.len() {
                let local = self.sensors[si].elements[idx].key.to_str();
                let nid = NeuronId { id: local, parent_id: String::from_str(name) };
                proof {
                    if crate::sensor::small_range(s1) {
                        let jj = fired@.map_values(|u: usize| u as int)[i as int];
                        assert(jj == idx as int);
                        lemma_fired_upto_member(
                            s1,
                            item@,
                            propagate_horizontal,
                            s1.elements.len() as int,
                            i as int,
                        );
                        assert(self@.sensors[si as int].elements[jj].key
                            == s1.elements[jj].key);
                        assert(nid@ == spec_elem_id(s1, jj));
                        assert(spec_touched_id(
                            s1,
                            item@,
                            propagate_horizontal,
                            propagate_vertical,
                            nid@,
                        ));
                    }
                }
                let ghost nv = nid@;
                let ghost rlen0 = r@.len();
                let ghost r0 = r@;
                push_absent(&mut r, nid);
                proof {
                    if crate::sensor::small_range(s1) {
                        assert forall|j: int| 0 <= j < r@.len() implies spec_touched_id(
                            s1,
                            item@,
                            propagate_horizontal,
                            propagate_vertical,
                            (#[trigger] r@[j])@,
                        ) by {
                            if j < rlen0 {
                            } else {
                                assert(r@[j]@ == nv);
                            }
                        }
                        assert forall|t: int| 0 <= t < i + 1 implies covered_id(
                            r@,
                            spec_elem_id(s1, (#[trigger] fired@[t]) as int),
                        ) by {
                            if t < i {
                                lemma_covered_monotone(
                                    r0,
                                    r@,
                                    spec_elem_id(s1, fired@[t] as int),
                                );
                            } else {
                                let idx1 = choose|idx1: int|
                                    0 <= idx1 < r@.len() && (#[trigger] r@[idx1])@ == nv;
                                assert((r@[idx1])@ == spec_elem_id(s1, fired@[t] as int));
                            }
                        }
                    }
                }
            }
            i += 1;
        }
        let mut k: usize = 0;
        while k < emissions.len()
            invariant
                0 <= k <= emissions@.len(),
                crate::sensor::small_range(s1) && propagate_vertical ==> {
                    &&& emissions@.map_values(|p: (NeuronId, i64)| (p.0@, p.1 as int))
                        == crate::sensor::spec_emissions_upto(
                        crate::sensor::spec_activated_elems(
                            s1,
                            item@,
                            propagate_horizontal,
                            signal as int,
                        ),
                        s1,
                        item@,
                        propagate_horizontal,
                        s1.elements.len() as int,
                    )
                    &&& forall|j: int|
                        0 <= j < r@.len() ==> spec_touched_id(
                            s1,
                            item@,
                            propagate_horizontal,
                            propagate_vertical,
                            (#[trigger] r@[j])@,
                        )
                    &&& forall|t: int|
                        0 <= t < k ==> covered_id(r@, (#[trigger] emissions@[t]).0@)
                },
                crate::sensor::small_range(s1) ==> forall|t: int|
                    0 <= t < fired@.len() ==> covered_id(
                        r@,
                        spec_elem_id(s1, (#[trigger] fired@[t]) as int),
                    ),
                !propagate_vertical ==> emissions@.len() == 0,
                crate::sensor::small_range(s1) && !propagate_vertical ==> forall|j: int|
                    0 <= j < r@.len() ==> spec_touched_id(
                        s1,
                        item@,
                        propagate_horizontal,
                        propagate_vertical,
                        (#[trigger] r@[j])@,
                    ),
            decreases emissions@.len() - k,
        {
            proof {
                if crate::sensor::small_range(s1) && propagate_vertical {
                    lemma_emissions_member(
                        crate::sensor::spec_activated_elems(
                            s1,
                            item@,
                            propagate_horizontal,
                            signal as int,
                        ),
                        s1,
                        item@,
                        propagate_horizontal,
                        s1.elements.len() as int,
                        k as int,
                    );
                }
            }
            let nid = emissions[k].0.duplicate();
            proof {
                if crate::sensor::small_range(s1) && propagate_vertical {
                    let emv = emissions@.map_values(|p: (NeuronId, i64)| (p.0@, p.1 as int));
                    assert(emv[k as int].0 == nid@);
                    let post = crate::sensor::spec_activated_elems(
                        s1,
                        item@,
                        propagate_horizontal,
                        signal as int,
                    );
                    let (jw, kw): (int, int) = choose|jw: int, kw: int|
                        #![trigger s1.elements[jw].defined[kw]]
                        0 <= jw < s1.elements.len() as int && crate::sensor::spec_fired(
                            s1,
                            item@,
                            propagate_horizontal,
                            jw,
                        ) && 0 <= kw < s1.elements[jw].defined.len()
                            && crate::sensor::spec_emissions_upto(
                            post,
                            s1,
                            item@,
                            propagate_horizontal,
                            s1.elements.len() as int,
                        )[k as int].0 == s1.elements[jw].defined[kw];
                    assert(nid@ == s1.elements[jw].defined[kw]);
                    assert(spec_touched_id(
                        s1,
                        item@,
                        propagate_horizontal,
                        propagate_vertical,
                        nid@,
                    ));
                }
            }
            let ghost nv = nid@;
            let ghost rlen0 = r@.len();
            let ghost r0 = r@;
            push_absent(&mut r, nid);
            proof {
                if crate::sensor::small_range(s1) {
                    assert forall|j: int| 0 <= j < r@.len() implies spec_touched_id(
                        s1,
                        item@,
                        propagate_horizontal,
                        propagate_vertical,
                        (#[trigger] r@[j])@,
                    ) by {
                        if j < rlen0 {
                        } else {
                            assert(r@[j]@ == nv);
                        }
                    }
                    assert forall|t: int| 0 <= t < fired@.len() implies covered_id(
                        r@,
                        spec_elem_id(s1, (#[trigger] fired@[t]) as int),
                    ) by {
                        lemma_covered_monotone(r0, r@, spec_elem_id(s1, fired@[t] as int));
                    }
                    if propagate_vertical {
                        assert forall|t: int| 0 <= t < k + 1 implies covered_id(
                            r@,
                            (#[trigger] emissions@[t]).0@,
                        ) by {
                            if t < k {
                                lemma_covered_monotone(r0, r@, emissions@[t].0@);
                            } else {
                                let idx1 = choose|idx1: int|
                                    0 <= idx1 < r@.len() && (#[trigger] r@[idx1])@ == nv;
                                assert((r@[idx1])@ == emissions@[t].0@);
                            }
                        }
                    }
                }
            }
            k += 1;
        }
        proof {
            if crate::sensor::small_range(s1) {
                let ph = propagate_horizontal;
                let pv = propagate_vertical;
                let q = item@;
                let post = crate::sensor::spec_activated_elems(s1, q, ph, signal as int);
                assert forall|x: IdModel|
                    #![trigger spec_touched_id(s1, q, ph, pv, x)]
                    spec_touched_id(s1, q, ph, pv, x) implies covered_id(r@, x) by {
                    if exists|j: int|
                        0 <= j < s1.elements.len() && crate::sensor::spec_fired(s1, q, ph, j) && x
                            == spec_elem_id(s1, j) {
                        let j = choose|j: int|
                            0 <= j < s1.elements.len() && crate::sensor::spec_fired(s1, q, ph, j)
                                && x == spec_elem_id(s1, j);
                        lemma_fired_upto_complete(s1, q, ph, s1.elements.len() as int, j);
                        let t = choose|t: int|
                            0 <= t < crate::sensor::spec_fired_upto(
                                s1,
                                q,
                                ph,
                                s1.elements.len() as int,
                            ).len() && crate::sensor::spec_fired_upto(
                                s1,
                                q,
                                ph,
                                s1.elements.len() as int,
                            )[t] == j;
                        assert(fired@.map_values(|u: usize| u as int)[t] == j);
                        assert(fired@[t] as int == j);
                    } else {
                        let (j, k2): (int, int) = choose|j: int, k2: int|
                            #![trigger s1.elements[j].defined[k2]]
                            0 <= j < s1.elements.len() && crate::sensor::spec_fired(s1, q, ph, j)
                                && 0 <= k2 < s1.elements[j].defined.len() && x
                                == s1.elements[j].defined[k2];
                        assert(pv);
                        assert forall|y: int|
                            0 <= y < post.len() implies (#[trigger] post[y]).defined
                            == s1.elements[y].defined by {}
                        lemma_emissions_complete(
                            post,
                            s1,
                            q,
                            ph,
                            s1.elements.len() as int,
                            j,
                            k2,
                        );
                        let t = choose|t: int|
                            0 <= t < crate::sensor::spec_emissions_upto(
                                post,
                                s1,
                                q,
                                ph,
                                s1.elements.len() as int,
                            ).len() && crate::sensor::spec_emissions_upto(
                                post,
                                s1,
                                q,
                                ph,
                                s1.elements.len() as int,
                            )[t].0 == s1.elements[j].defined[k2];
                        assert(emissions@.map_values(|p: (NeuronId, i64)| (p.0@, p.1 as int))[t].0
                            == x);
                        assert(emissions@[t].0@ == x);
                    }
                }
            }
        }
        Ok(r)
    }

    /// Clear the activation of the elements matching `item` on the sensor
    /// registered under `name`, and of the objects they define when
    /// vertical propagation is on.
    pub fn sensor_deactivate(
        &mut self,
        name: &str,
        item: &DataValue,
        propagate_horizontal: bool,
        propagate_vertical: bool,
    ) -> (r: Result<(), MagdsError>)
        requires
            wf_store(old(self)@),
        ensures
            wf_store(final(self)@),
            wf_conn(old(self)@) ==> wf_conn(final(self)@),
            same_topology(old(self)@, final(self)@),
            r is Err ==> final(self)@ == old(self)@,
            r matches Err(MagdsError::UnknownSensor(_)) <==> spec_find_sensor(
                old(self)@.sensors,
                name@,
            ) < 0,
            r is Ok && crate::sensor::small_range(
                old(self)@.sensors[spec_find_sensor(old(self)@.sensors, name@)],
            ) ==> {
                let si = spec_find_sensor(old(self)@.sensors, name@);
                let s1 = old(self)@.sensors[si];
                let post = crate::sensor::spec_deactivated_elems(
                    s1,
                    item@,
                    propagate_horizontal,
                );
                let tg = crate::sensor::spec_targets_upto(
                    s1,
                    item@,
                    propagate_horizontal,
                    s1.elements.len() as int,
                );
                &&& final(self)@.sensors == old(self)@.sensors.update(
                    si,
                    SensorModel { id: s1.id, data_type: s1.data_type, elements: post },
                )
                &&& (propagate_vertical ==> final(self)@.neurons == spec_clear_targets(
                    old(self)@.neurons,
                    tg,
                ))
                &&& (!propagate_vertical ==> final(self)@.neurons == old(self)@.neurons)
            },
    {
        let ghost m1 = self@;
        let si = match self.sensor_index(name) {
            Some(i) => i,
            None => {
                return Err(MagdsError::UnknownSensor(String::from_str(name)));
            },
        };
        let targets = match sensor_deactivate_at(
            &mut self.sensors,
            si,
            item,
            propagate_horizontal,
            propagate_vertical,
        ) {
            Ok(t) => t,
            Err(e) => {
                proof {
                    assert(self@ =~~= m1);
                }
                return Err(e);
            },
        };
        proof {
            assert(self@.neurons =~= m1.neurons);
            assert(wf_sensor(self@.sensors[si as int]));
            assert(self@.sensors[si as int].id == m1.sensors[si as int].id);
            assert(forall|j: int|
                0 <= j < m1.sensors.len() && j != si ==> self@.sensors[j]
                    == #[trigger] m1.sensors[j]);
            lemma_wf_store_sensor_slot(m1, self@, si as int);
            assert(same_topology(m1, self@)) by {
                assert(self@.neurons =~= m1.neurons);
                assert forall|j: int| 0 <= j < m1.sensors.len() implies {
                    let a = #[trigger] m1.sensors[j];
                    let b = #[trigger] self@.sensors[j];
                    &&& a.id == b.id
                    &&& a.data_type == b.data_type
                    &&& a.elements.len() == b.elements.len()
                    &&& forall|ei: int|
                        0 <= ei < a.elements.len() ==> (#[trigger] a.elements[ei]).key
                            == b.elements[ei].key && a.elements[ei].defined
                            == b.elements[ei].defined && a.elements[ei].counter
                            == b.elements[ei].counter
                } by {
                    if j != si {
                        assert(self@.sensors[j] == m1.sensors[j]);
                    }
                }
            }
            if wf_conn(m1) {
                lemma_conn_same_topology(m1, self@);
            }
        }
        let ghost m2 = self@;
        if propagate_vertical {
            self.apply_clear(&targets);
            proof {
                lemma_clear_targets_shape(m2.neurons, targets@.map_values(|n: NeuronId| n@));
                assert(same_topology(m2, self@));
                assert(same_topology(m1, self@));
                if wf_conn(m1) {
                    lemma_conn_same_topology(m1, self@);
                }
            }
        }
        Ok(())
    }

    /// Clear the activation of every element of the sensor registered
    /// under `name`.
    pub fn deactivate_whole_sensor(&mut self, name: &str) -> (r: Result<(), MagdsError>)
        requires
            wf_store(old(self)@),
        ensures
            wf_store(final(self)@),
            wf_conn(old(self)@) ==> wf_conn(final(self)@),
            same_topology(old(self)@, final(self)@),
            final(self)@.neurons == old(self)@.neurons,
            r is Err <==> spec_find_sensor(old(self)@.sensors, name@) < 0,
            r is Err ==> final(self)@ == old(self)@,
            r is Ok ==> forall|j: int|
                0 <= j < old(self)@.sensors.len() && j != spec_find_sensor(
                    old(self)@.sensors,
                    name@,
                ) ==> final(self)@.sensors[j] == #[trigger] old(self)@.sensors[j],
            r is Ok ==> forall|ei: int|
                0 <= ei < final(self)@.sensors[spec_find_sensor(
                    old(self)@.sensors,
                    name@,
                )].elements.len() ==> (#[trigger] final(self)@.sensors[spec_find_sensor(
                    old(self)@.sensors,
                    name@,
                )].elements[ei]).activation == 0,
    {
        let ghost m1 = self@;
        let si = match self.sensor_index(name) {
            Some(i) => i,
            None => {
                return Err(MagdsError::UnknownSensor(String::from_str(name)));
            },
        };
        sensor_clear_at(&mut self.sensors, si);
        proof {
            assert(self@.neurons =~= m1.neurons);
            assert(wf_sensor(self@.sensors[si as int]));
            assert(self@.sensors[si as int].id == m1.sensors[si as int].id);
            assert(forall|j: int|
                0 <= j < m1.sensors.len() && j != si ==> self@.sensors[j]
                    == #[trigger] m1.sensors[j]);
            lemma_wf_store_sensor_slot(m1, self@, si as int);
            assert(same_topology(m1, self@)) by {
                assert(self@.neurons =~= m1.neurons);
                assert forall|j: int| 0 <= j < m1.sensors.len() implies {
                    let a = #[trigger] m1.sensors[j];
                    let b = #[trigger] self@.sensors[j];
                    &&& a.id == b.id
                    &&& a.data_type == b.data_type
                    &&& a.elements.len() == b.elements.len()
                    &&& forall|ei: int|
                        0 <= ei < a.elements.len() ==> (#[trigger] a.elements[ei]).key
                            == b.elements[ei].key && a.elements[ei].defined
                            == b.elements[ei].defined && a.elements[ei].counter
                            == b.elements[ei].counter
                } by {
                    if j != si {
                        assert(self@.sensors[j] == m1.sensors[j]);
                    }
                }
            }
            if wf_conn(m1) {
                lemma_conn_same_topology(m1, self@);
            }
        }
        Ok(())
    }

    /// Clear every activation in the store: all sensor elements and all
    /// object neurons back to zero.
    pub fn deactivate(&mut self)
        requires
            wf_store(old(self)@),
        ensures
            wf_store(final(self)@),
            wf_conn(old(self)@) ==> wf_conn(final(self)@),
            same_topology(old(self)@, final(self)@),
            forall|si: int, ei: int|
                #![trigger final(self)@.sensors[si].elements[ei]]
                0 <= si < final(self)@.sensors.len() && 0 <= ei
                    < final(self)@.sensors[si].elements.len()
                    ==> final(self)@.sensors[si].elements[ei].activation == 0,
            forall|ni: int|
                0 <= ni < final(self)@.neurons.len()
                    ==> (#[trigger] final(self)@.neurons[ni]).activation == 0,
            final(self)@ == spec_store_cleared(old(self)@),
    {
        let ghost m1 = self@;
        let mut i: usize = 0;
        while i < self.sensors.len()
            invariant
                0 <= i <= self@.sensors.len(),
                wf_store(m1),
                self@.neurons == m1.neurons,
                self@.sensors.len() == m1.sensors.len(),
                forall|j: int| i <= j < m1.sensors.len() ==> self@.sensors[j] == #[trigger] m1.sensors[j],
                forall|j: int|
                    0 <= j < i ==> same_sensor_topology(#[trigger] self@.sensors[j], m1.sensors[j])
                        && (forall|ei: int|
                        0 <= ei < self@.sensors[j].elements.len() ==> (#[trigger] self@.sensors[j].elements[ei]).activation == 0),
                wf_store(self@),
            decreases self@.sensors.len() - i,
        {
            let ghost mcur = self@;
            sensor_clear_at(&mut self.sensors, i);
            proof {
                assert(self@.neurons =~= mcur.neurons);
                assert(wf_sensor(self@.sensors[i as int]));
                assert(self@.sensors[i as int].id == mcur.sensors[i as int].id);
                assert(forall|j: int|
                    0 <= j < mcur.sensors.len() && j != i ==> self@.sensors[j]
                        == #[trigger] mcur.sensors[j]);
                lemma_wf_store_sensor_slot(mcur, self@, i as int);
                assert forall|j: int| 0 <= j < i + 1 implies same_sensor_topology(
                    #[trigger] self@.sensors[j],
                    m1.sensors[j],
                ) && (forall|ei: int|
                    0 <= ei < self@.sensors[j].elements.len()
                        ==> (#[trigger] self@.sensors[j].elements[ei]).activation == 0) by {
                    if j < i {
                        assert(self@.sensors[j] == mcur.sensors[j]);
                    } else {
                        assert(mcur.sensors[j] == m1.sensors[j]);
                    }
                }
                assert(forall|j: int|
                    i + 1 <= j < m1.sensors.len() ==> self@.sensors[j]
                        == #[trigger] m1.sensors[j]);
            }
            i += 1;
        }
        let mut k: usize = 0;
        let ghost mid = self@;
        while k < self.neurons.len()
            invariant
                0 <= k <= self@.neurons.len(),
                self@.sensors == mid.sensors,
                self@.neurons.len() == mid.neurons.len(),
                forall|j: int| k <= j < mid.neurons.len() ==> self@.neurons[j] == #[trigger] mid.neurons[j],
                forall|j: int|
                    0 <= j < k ==> (#[trigger] self@.neurons[j]).id == mid.neurons[j].id
                        && self@.neurons[j].from_edges == mid.neurons[j].from_edges
                        && self@.neurons[j].to_edges == mid.neurons[j].to_edges
                        && self@.neurons[j].activation == 0,
            decreases self@.neurons.len() - k,
        {
            neuron_clear_activation(&mut self.neurons, k);
            k += 1;
        }
        proof {
            assert(same_topology(m1, self@));
            assert(wf_store(self@)) by {
                assert(forall|j: int|
                    0 <= j < self@.sensors.len() ==> wf_sensor(#[trigger] self@.sensors[j])) by {
                    assert(forall|j: int|
                        0 <= j < self@.sensors.len() ==> #[trigger] self@.sensors[j]
                            == mid.sensors[j]);
                }
            }
            if wf_conn(m1) {
                lemma_conn_same_topology(m1, self@);
            }
            assert(self@ =~~= spec_store_cleared(m1)) by {
                assert forall|si: int| 0 <= si < m1.sensors.len() implies #[trigger] self@.sensors[si]
                    =~~= spec_store_cleared(m1).sensors[si] by {
                    assert(self@.sensors[si] == mid.sensors[si]);
                    assert forall|ei: int|
                        0 <= ei < m1.sensors[si].elements.len() implies (
                    #[trigger] self@.sensors[si].elements[ei]) =~~= spec_store_cleared(
                        m1,
                    ).sensors[si].elements[ei] by {}
                }
                assert forall|ni: int| 0 <= ni < m1.neurons.len() implies #[trigger] self@.neurons[ni]
                    =~~= spec_store_cleared(m1).neurons[ni] by {}
            }
        }
    }

    /// Record the defining edge between element `ei` of sensor `si` and
    /// object neuron `ni`, on both endpoints; recording it again is a
    /// no-op. Edge symmetry is preserved.
    pub fn connect_bilateral(&mut self, si: usize, ei: usize, ni: usize)
        requires
            wf_store(old(self)@),
            wf_conn(old(self)@),
            si < old(self)@.sensors.len(),
            ei < old(self)@.sensors[si as int].elements.len(),
            ni < old(self)@.neurons.len(),
        ensures
            wf_store(final(self)@),
            wf_conn(final(self)@),
            final(self)@.sensors.len() == old(self)@.sensors.len(),
            final(self)@.neurons.len() == old(self)@.neurons.len(),
            ({
                let oid = old(self)@.neurons[ni as int].id;
                let eid = spec_elem_id(old(self)@.sensors[si as int], ei as int);
                &&& final(self)@.sensors == old(self)@.sensors.update(
                    si as int,
                    SensorModel {
                        id: old(self)@.sensors[si as int].id,
                        data_type: old(self)@.sensors[si as int].data_type,
                        elements: old(self)@.sensors[si as int].elements.update(
                            ei as int,
                            ElemModel {
                                key: old(self)@.sensors[si as int].elements[ei as int].key,
                                activation: old(self)@.sensors[si as int].elements[ei
                                    as int].activation,
                                counter: old(self)@.sensors[si as int].elements[ei
                                    as int].counter,
                                defined: if old(self)@.sensors[si as int].elements[ei
                                    as int].defined.contains(oid) {
                                    old(self)@.sensors[si as int].elements[ei as int].defined
                                } else {
                                    old(self)@.sensors[si as int].elements[ei
                                        as int].defined.push(oid)
                                },
                            },
                        ),
                    },
                )
                &&& final(self)@.neurons == old(self)@.neurons.update(
                    ni as int,
                    NeuronModel {
                        id: old(self)@.neurons[ni as int].id,
                        activation: old(self)@.neurons[ni as int].activation,
                        from_edges: old(self)@.neurons[ni as int].from_edges,
                        to_edges: if spec_has_edge(old(self)@.neurons[ni as int].to_edges, eid) {
                            old(self)@.neurons[ni as int].to_edges
                        } else {
                            old(self)@.neurons[ni as int].to_edges.push(
                                EdgeModel { other: eid, other_is_sensor: true },
                            )
                        },
                    },
                )
                &&& final(self)@.sensors[si as int].elements[ei as int].defined.contains(oid)
                &&& spec_has_edge(final(self)@.neurons[ni as int].to_edges, eid)
            }),
    {
        let oid = self.neurons[ni].id();
        let local = self.sensors[si].elements[ei].key.to_str();
        let sensor_name = self.sensors[si].id();
        let eid = NeuronId { id: local, parent_id: sensor_name };
        let ghost m1 = self@;
        connect_elem(&mut self.sensors, si, ei, &oid);
        proof {
            assert(self@.neurons =~= m1.neurons);
        }
        let ghost m2 = self@;
        connect_neuron(&mut self.neurons, ni, eid);
        proof {
            assert(self@.sensors =~= m2.sensors);
            connect_finish(m1, m2, self@, si as int, ei as int, ni as int);
        }
    }

    /// The value the winner object carries for the `target` attribute: the
    /// key of the sensor-value neuron of `target` that defines it.
    ///
    /// The result is exactly [`spec_explain_one`]: something is returned if
    /// and only if one of the neuron's defining sensor identifiers names
    /// the target attribute and resolves to a registered element, and the
    /// returned value is that element's key.
    pub fn explain_one(&self, ni: usize, target: &str) -> (r: Option<DataValue>)
        requires
            wf_store(self@),
            ni < self@.neurons.len(),
        ensures
            r is Some <==> spec_explain_one(self@, ni as int, target@) is Some,
            r is Some ==> r.unwrap()@ == spec_explain_one(self@, ni as int, target@).unwrap(),
            r is Some ==> exists|si: int, ei: int|
                #![trigger self@.sensors[si].elements[ei]]
                0 <= si < self@.sensors.len() && 0 <= ei < self@.sensors[si].elements.len()
                    && self@.sensors[si].id == target@ && r.unwrap()@
                    == self@.sensors[si].elements[ei].key,
    {
        let edges = self.neurons[ni].defining_sensors();
        let ghost idsm = edges@.map_values(|n: NeuronId| n@);
        let mut i: usize = 0;
        proof {
            assert(idsm.skip(0) =~= idsm);
        }
        while i < edges.len()
            invariant
                wf_store(self@),
                0 <= i <= edges@.len(),
                ni < self@.neurons.len(),
                idsm == edges@.map_values(|n: NeuronId| n@),
                idsm == crate::neuron::spec_sensor_ends(self@.neurons[ni as int].to_edges),
                spec_explain_ids(self@, idsm.skip(i as int), target@) == spec_explain_one(
                    self@,
                    ni as int,
                    target@,
                ),
            decreases edges@.len() - i,
        {
            let ghost rest = idsm.skip(i as int);
            proof {
                assert(rest[0] == idsm[i as int]);
                assert(idsm[i as int] == edges@[i as int]@);
                assert(rest.skip(1) =~= idsm.skip(i as int + 1));
            }
            if str_eq(edges[i].parent_id.as_str(), target) {
                match self.sensor_index(target) {
                    Some(si) => {
                        proof {
                            assert(spec_find_sensor(self@.sensors, rest[0].parent_id) == si);
                        }
                        match self.sensors[si].element_by_local_id(edges[i].id.as_str()) {
                            Some(ei) => {
                                proof {
                                    assert(crate::sensor::spec_find_elem(
                                        self@.sensors[si as int].elements,
                                        rest[0].id,
                                    ) == ei);
                                    assert(spec_explain_ids(self@, rest, target@) == Some(
                                        self@.sensors[si as int].elements[ei as int].key,
                                    ));
                                }
                                return Some(self.sensors[si].elements[ei].key.clone_value());
                            },
                            None => {
                                proof {
                                    assert(crate::sensor::spec_find_elem(
                                        self@.sensors[si as int].elements,
                                        rest[0].id,
                                    ) < 0);
                                }
                            },
                        }
                    },
                    None => {
                        proof {
                            assert(spec_find_sensor(self@.sensors, rest[0].parent_id) < 0);
                        }
                    },
                }
            }
            i += 1;
        }
        proof {
            assert(idsm.skip(idsm.len() as int) =~= Seq::<IdModel>::empty());
        }
        None
    }
}

/// What a neuron's explanation yields for the `target` attribute, walking
/// its defining sensor identifiers in order: the key of the first
/// identifier that names the target and resolves to a registered element.
pub open spec fn spec_explain_ids(
    m: StoreModel,
    ids: Seq<IdModel>,
    target: Seq<char>,
) -> Option<crate::value::ValueModel>
    decreases ids.len(),
{
    if ids.len() == 0 {
        None
    } else {
        let e = ids[0];
        let si = spec_find_sensor(m.sensors, e.parent_id);
        if e.parent_id == target && si >= 0 && crate::sensor::spec_find_elem(
            m.sensors[si].elements,
            e.id,
        ) >= 0 {
            Some(
                m.sensors[si].elements[crate::sensor::spec_find_elem(
                    m.sensors[si].elements,
                    e.id,
                )].key,
            )
        } else {
            spec_explain_ids(m, ids.skip(1), target)
        }
    }
}

/// The value neuron `ni` carries for the `target` attribute, if any.
pub open spec fn spec_explain_one(m: StoreModel, ni: int, target: Seq<char>) -> Option<
    crate::value::ValueModel,
> {
    spec_explain_ids(m, crate::neuron::spec_sensor_ends(m.neurons[ni].to_edges), target)
}

/// An explanation exists exactly when some defining identifier names the
/// target and resolves.
pub proof fn lemma_explain_ids_some(m: StoreModel, ids: Seq<IdModel>, target: Seq<char>)
    ensures
        spec_explain_ids(m, ids, target) is Some <==> exists|t: int|
            0 <= t < ids.len() && (#[trigger] ids[t]).parent_id == target && spec_find_sensor(
                m.sensors,
                ids[t].parent_id,
            ) >= 0 && crate::sensor::spec_find_elem(
                m.sensors[spec_find_sensor(m.sensors, ids[t].parent_id)].elements,
                ids[t].id,
            ) >= 0,
    decreases ids.len(),
{
    if ids.len() > 0 {
        lemma_explain_ids_some(m, ids.skip(1), target);
        let e = ids[0];
        let si = spec_find_sensor(m.sensors, e.parent_id);
        if e.parent_id == target && si >= 0 && crate::sensor::spec_find_elem(
            m.sensors[si].elements,
            e.id,
        ) >= 0 {
            assert(ids[0].parent_id == target);
        } else {
            if spec_explain_ids(m, ids, target) is Some {
                let t = choose|t: int|
                    0 <= t < ids.skip(1).len() && (#[trigger] ids.skip(1)[t]).parent_id == target
                        && spec_find_sensor(m.sensors, ids.skip(1)[t].parent_id) >= 0
                        && crate::sensor::spec_find_elem(
                        m.sensors[spec_find_sensor(
                            m.sensors,
                            ids.skip(1)[t].parent_id,
                        )].elements,
                        ids.skip(1)[t].id,
                    ) >= 0;
                assert(ids[t + 1] == ids.skip(1)[t]);
            }
            if exists|t: int|
                0 <= t < ids.len() && (#[trigger] ids[t]).parent_id == target && spec_find_sensor(
                    m.sensors,
                    ids[t].parent_id,
                ) >= 0 && crate::sensor::spec_find_elem(
                    m.sensors[spec_find_sensor(m.sensors, ids[t].parent_id)].elements,
                    ids[t].id,
                ) >= 0 {
                let t = choose|t: int|
                    0 <= t < ids.len() && (#[trigger] ids[t]).parent_id == target
                        && spec_find_sensor(m.sensors, ids[t].parent_id) >= 0
                        && crate::sensor::spec_find_elem(
                        m.sensors[spec_find_sensor(m.sensors, ids[t].parent_id)].elements,
                        ids[t].id,
                    ) >= 0;
                assert(t != 0);
                assert(ids.skip(1)[t - 1] == ids[t]);
            }
        }
    }
}

/// Topological agreement of one sensor pair.
pub open spec fn same_sensor_topology(a: SensorModel, b: SensorModel) -> bool {
    &&& a.id == b.id
    &&& a.data_type == b.data_type
    &&& a.elements.len() == b.elements.len()
    &&& forall|ei: int|
        0 <= ei < a.elements.len() ==> (#[trigger] a.elements[ei]).key == b.elements[ei].key
            && a.elements[ei].defined == b.elements[ei].defined && a.elements[ei].counter
            == b.elements[ei].counter
}

/// Membership of a fired index list.
pub proof fn lemma_fired_upto_member(
    s: SensorModel,
    q: crate::value::ValueModel,
    ph: bool,
    n: int,
    i: int,
)
    requires
        0 <= i < crate::sensor::spec_fired_upto(s, q, ph, n).len(),
        n <= s.elements.len(),
    ensures
        ({
            let j = crate::sensor::spec_fired_upto(s, q, ph, n)[i];
            0 <= j < n && crate::sensor::spec_fired(s, q, ph, j)
        }),
    decreases n,
{
    if n > 0 {
        let rest = crate::sensor::spec_fired_upto(s, q, ph, n - 1);
        if i < rest.len() {
            lemma_fired_upto_member(s, q, ph, n - 1, i);
        }
    }
}

/// Membership of an emission list: every target is defined by a fired
/// element.
pub proof fn lemma_emissions_member(
    post: Seq<ElemModel>,
    s: SensorModel,
    q: crate::value::ValueModel,
    ph: bool,
    n: int,
    i: int,
)
    requires
        0 <= i < crate::sensor::spec_emissions_upto(post, s, q, ph, n).len(),
        n <= s.elements.len(),
        post.len() == s.elements.len(),
        forall|j: int| 0 <= j < post.len() ==> (#[trigger] post[j]).defined == s.elements[j].defined,
    ensures
        exists|j: int, k: int|
            #![trigger s.elements[j].defined[k]]
            0 <= j < n && crate::sensor::spec_fired(s, q, ph, j) && 0 <= k
                < s.elements[j].defined.len() && crate::sensor::spec_emissions_upto(
                post,
                s,
                q,
                ph,
                n,
            )[i].0 == s.elements[j].defined[k],
    decreases n,
{
    if n > 0 {
        let rest = crate::sensor::spec_emissions_upto(post, s, q, ph, n - 1);
        if i < rest.len() {
            lemma_emissions_member(post, s, q, ph, n - 1, i);
        } else {
            let k = i - rest.len();
            assert(crate::sensor::spec_emissions_upto(post, s, q, ph, n)[i] == post[n
                - 1].defined.map_values(|d: IdModel| (d, post[n - 1].activation))[k]);
            assert(s.elements[n - 1].defined[k] == post[n - 1].defined[k]);
        }
    }
}

/// Append `id` unless an equal identifier is already present; either way
/// the identifier is present afterwards and nothing else moves.
fn push_absent(v: &mut Vec<NeuronId>, id: NeuronId)
    ensures
        final(v)@.len() == old(v)@.len() || final(v)@.len() == old(v)@.len() + 1,
        forall|j: int| 0 <= j < old(v)@.len() ==> (#[trigger] final(v)@[j])@ == old(v)@[j]@,
        final(v)@.len() == old(v)@.len() + 1 ==> final(v)@[old(v)@.len() as int]@ == id@,
        exists|k: int| 0 <= k < final(v)@.len() && (#[trigger] final(v)@[k])@ == id@,
{
    let mut i: usize = 0;
    while i < v.len()
        invariant
            0 <= i <= v@.len(),
            forall|j: int| 0 <= j < v@.len() ==> (#[trigger] v@[j])@ == old(v)@[j]@,
            v@.len() == old(v)@.len(),
        decreases v@.len() - i,
    {
        if v[i].eq_id(&id) {
            proof {
                assert((v@[i as int])@ == id@);
            }
            return ;
        }
        i += 1;
    }
    v.push(id);
    proof {
        assert((final(v)@[old(v)@.len() as int])@ == id@);
    }
}

/// Every fired element index appears in the fired list.
pub proof fn lemma_fired_upto_complete(
    s: SensorModel,
    q: crate::value::ValueModel,
    ph: bool,
    n: int,
    j: int,
)
    requires
        0 <= j < n,
        crate::sensor::spec_fired(s, q, ph, j),
    ensures
        exists|t: int|
            0 <= t < crate::sensor::spec_fired_upto(s, q, ph, n).len()
                && crate::sensor::spec_fired_upto(s, q, ph, n)[t] == j,
    decreases n,
{
    if j == n - 1 {
        let l = crate::sensor::spec_fired_upto(s, q, ph, n);
        assert(l[l.len() - 1] == j);
    } else {
        lemma_fired_upto_complete(s, q, ph, n - 1, j);
        let rest = crate::sensor::spec_fired_upto(s, q, ph, n - 1);
        let t = choose|t: int| 0 <= t < rest.len() && rest[t] == j;
        assert(crate::sensor::spec_fired_upto(s, q, ph, n)[t] == j);
    }
}

/// Every defined object of a fired element appears in the emission list.
pub proof fn lemma_emissions_complete(
    post: Seq<ElemModel>,
    s: SensorModel,
    q: crate::value::ValueModel,
    ph: bool,
    n: int,
    j: int,
    k: int,
)
    requires
        0 <= j < n,
        n <= s.elements.len(),
        crate::sensor::spec_fired(s, q, ph, j),
        0 <= k < s.elements[j].defined.len(),
        post.len() == s.elements.len(),
        forall|x: int| 0 <= x < post.len() ==> (#[trigger] post[x]).defined == s.elements[x].defined,
    ensures
        exists|t: int|
            0 <= t < crate::sensor::spec_emissions_upto(post, s, q, ph, n).len()
                && crate::sensor::spec_emissions_upto(post, s, q, ph, n)[t].0 == s.elements[j].defined[k],
    decreases n,
{
    let em = crate::sensor::spec_emissions_upto(post, s, q, ph, n);
    if j == n - 1 {
        let rest = crate::sensor::spec_emissions_upto(post, s, q, ph, n - 1);
        let block = post[n - 1].defined.map_values(|d: IdModel| (d, post[n - 1].activation));
        assert(em == rest + block);
        assert(block[k].0 == post[n - 1].defined[k]);
        assert(em[rest.len() + k].0 == s.elements[j].defined[k]);
    } else {
        lemma_emissions_complete(post, s, q, ph, n - 1, j, k);
        let rest = crate::sensor::spec_emissions_upto(post, s, q, ph, n - 1);
        let t = choose|t: int| 0 <= t < rest.len() && rest[t].0 == s.elements[j].defined[k];
        assert(em[t].0 == s.elements[j].defined[k]);
    }
}

/// Insert into the sensor at slot `i`, pinning the whole vector's model.
fn sensor_insert_at(v: &mut Vec<SensorConatiner>, i: usize, item: &DataValue) -> (r: Result<
    usize,
    MagdsError,
>)
    requires
        i < old(v)@.len(),
        wf_sensor(old(v)@.map_values(|s: SensorConatiner| s@)[i as int]),
        counter_sum(old(v)@.map_values(|s: SensorConatiner| s@)[i as int].elements) < u64::MAX,
    ensures
        ({
            let m1 = old(v)@.map_values(|s: SensorConatiner| s@);
            let m2 = final(v)@.map_values(|s: SensorConatiner| s@);
            let s1 = m1[i as int];
            &&& m2.len() == m1.len()
            &&& wf_sensor(m2[i as int])
            &&& (r is Err <==> crate::value::tag_of(item@) != s1.data_type)
            &&& (r is Err ==> m2 == m1 && (r matches Err(MagdsError::TypeMismatch { .. })))
            &&& (r is Ok ==> m2 == m1.update(
                i as int,
                SensorModel {
                    id: s1.id,
                    data_type: s1.data_type,
                    elements: crate::sensor::spec_insert_elems(s1.elements, item@),
                },
            ))
            &&& (r is Ok ==> counter_sum(m2[i as int].elements) == counter_sum(s1.elements) + 1
                && r.unwrap() < m2[i as int].elements.len() && m2[i as int].elements[r.unwrap()
                as int].key == item@)
        }),
{
    let ghost m1 = v@.map_values(|s: SensorConatiner| s@);
    let sref = vstd::std_specs::vec::vec_index_mut(v, i);
    let r = sref.insert(item);
    proof {
        if r is Err {
            assert(final(v)@.map_values(|s: SensorConatiner| s@) =~~= m1);
        } else {
            assert(final(v)@.map_values(|s: SensorConatiner| s@) =~~= m1.update(
                i as int,
                SensorModel {
                    id: m1[i as int].id,
                    data_type: m1[i as int].data_type,
                    elements: crate::sensor::spec_insert_elems(m1[i as int].elements, item@),
                },
            ));
        }
    }
    r
}

/// Activate on the sensor at slot `i`, pinning the whole vector's model.
fn sensor_activate_at(
    v: &mut Vec<SensorConatiner>,
    i: usize,
    item: &DataValue,
    signal: i64,
    ph: bool,
    pv: bool,
) -> (r: Result<(Vec<usize>, Vec<(NeuronId, i64)>), MagdsError>)
    requires
        i < old(v)@.len(),
        signal >= 0,
        wf_sensor(old(v)@.map_values(|s: SensorConatiner| s@)[i as int]),
    ensures
        ({
            let m1 = old(v)@.map_values(|s: SensorConatiner| s@);
            let m2 = final(v)@.map_values(|s: SensorConatiner| s@);
            let s1 = m1[i as int];
            &&& m2.len() == m1.len()
            &&& forall|j: int| 0 <= j < m1.len() && j != i ==> m2[j] == #[trigger] m1[j]
            &&& wf_sensor(m2[i as int])
            &&& same_sensor_topology(s1, m2[i as int])
            &&& (r is Err <==> crate::value::tag_of(item@) != s1.data_type)
            &&& (r is Err ==> m2 == m1 && (r matches Err(MagdsError::TypeMismatch { .. })))
            &&& (r is Ok && crate::sensor::small_range(s1) ==> {
                let post = crate::sensor::spec_activated_elems(s1, item@, ph, signal as int);
                &&& m2 == m1.update(
                    i as int,
                    SensorModel { id: s1.id, data_type: s1.data_type, elements: post },
                )
                &&& r.unwrap().0@.map_values(|u: usize| u as int)
                    == crate::sensor::spec_fired_upto(s1, item@, ph, s1.elements.len() as int)
                &&& (pv ==> r.unwrap().1@.map_values(|p: (NeuronId, i64)| (p.0@, p.1 as int))
                    == crate::sensor::spec_emissions_upto(
                    post,
                    s1,
                    item@,
                    ph,
                    s1.elements.len() as int,
                ))
            })
            &&& (r is Ok && !pv ==> r.unwrap().1@.len() == 0)
            &&& (r is Ok ==> forall|p: int|
                0 <= p < r.unwrap().1@.len() ==> (#[trigger] r.unwrap().1@[p]).1 >= 0)
        }),
{
    let ghost m1 = v@.map_values(|s: SensorConatiner| s@);
    let sref = vstd::std_specs::vec::vec_index_mut(v, i);
    let out = sref.activate(item, signal, ph, pv);
    match out {
        Ok((fired, emissions)) => {
            proof {
                let m2 = final(v)@.map_values(|s: SensorConatiner| s@);
                assert(m2 =~~= m1.update(i as int, final(sref)@));
                if crate::sensor::small_range(m1[i as int]) {
                    assert(m2 =~~= m1.update(
                        i as int,
                        SensorModel {
                            id: m1[i as int].id,
                            data_type: m1[i as int].data_type,
                            elements: crate::sensor::spec_activated_elems(
                                m1[i as int],
                                item@,
                                ph,
                                signal as int,
                            ),
                        },
                    ));
                }
            }
            Ok((fired, emissions))
        },
        Err(e) => {
            proof {
                assert(final(v)@.map_values(|s: SensorConatiner| s@) =~~= m1);
            }
            Err(e)
        },
    }
}

/// Deactivate on the sensor at slot `i`, pinning the whole vector's model.
fn sensor_deactivate_at(
    v: &mut Vec<SensorConatiner>,
    i: usize,
    item: &DataValue,
    ph: bool,
    pv: bool,
) -> (r: Result<Vec<NeuronId>, MagdsError>)
    requires
        i < old(v)@.len(),
        wf_sensor(old(v)@.map_values(|s: SensorConatiner| s@)[i as int]),
    ensures
        ({
            let m1 = old(v)@.map_values(|s: SensorConatiner| s@);
            let m2 = final(v)@.map_values(|s: SensorConatiner| s@);
            let s1 = m1[i as int];
            &&& m2.len() == m1.len()
            &&& forall|j: int| 0 <= j < m1.len() && j != i ==> m2[j] == #[trigger] m1[j]
            &&& wf_sensor(m2[i as int])
            &&& same_sensor_topology(s1, m2[i as int])
            &&& (r is Err <==> crate::value::tag_of(item@) != s1.data_type)
            &&& (r is Err ==> m2 == m1 && (r matches Err(MagdsError::TypeMismatch { .. })))
            &&& (r is Ok && crate::sensor::small_range(s1) ==> {
                &&& m2 == m1.update(
                    i as int,
                    SensorModel {
                        id: s1.id,
                        data_type: s1.data_type,
                        elements: crate::sensor::spec_deactivated_elems(s1, item@, ph),
                    },
                )
                &&& (pv ==> r.unwrap()@.map_values(|n: NeuronId| n@)
                    == crate::sensor::spec_targets_upto(s1, item@, ph, s1.elements.len() as int))
            })
        }),
{
    let ghost m1 = v@.map_values(|s: SensorConatiner| s@);
    let sref = vstd::std_specs::vec::vec_index_mut(v, i);
    let out = sref.deactivate(item, ph, pv);
    match out {
        Ok(targets) => {
            proof {
                let m2 = final(v)@.map_values(|s: SensorConatiner| s@);
                assert(m2 =~~= m1.update(i as int, final(sref)@));
                if crate::sensor::small_range(m1[i as int]) {
                    assert(m2 =~~= m1.update(
                        i as int,
                        SensorModel {
                            id: m1[i as int].id,
                            data_type: m1[i as int].data_type,
                            elements: crate::sensor::spec_deactivated_elems(
                                m1[i as int],
                                item@,
                                ph,
                            ),
                        },
                    ));
                }
            }
            Ok(targets)
        },
        Err(e) => {
            proof {
                assert(final(v)@.map_values(|s: SensorConatiner| s@) =~~= m1);
            }
            Err(e)
        },
    }
}

/// Clear every element activation of the sensor at slot `i`.
fn sensor_clear_at(v: &mut Vec<SensorConatiner>, i: usize)
    requires
        i < old(v)@.len(),
        wf_sensor(old(v)@.map_values(|s: SensorConatiner| s@)[i as int]),
    ensures
        ({
            let m1 = old(v)@.map_values(|s: SensorConatiner| s@);
            let m2 = final(v)@.map_values(|s: SensorConatiner| s@);
            &&& m2.len() == m1.len()
            &&& forall|j: int| 0 <= j < m1.len() && j != i ==> m2[j] == #[trigger] m1[j]
            &&& wf_sensor(m2[i as int])
            &&& same_sensor_topology(m1[i as int], m2[i as int])
            &&& forall|ei: int|
                0 <= ei < m2[i as int].elements.len() ==> (#[trigger] m2[i
                    as int].elements[ei]).activation == 0
        }),
{
    let ghost m1 = v@.map_values(|s: SensorConatiner| s@);
    let sref = vstd::std_specs::vec::vec_index_mut(v, i);
    sref.deactivate_sensor();
    proof {
        assert(final(v)@.map_values(|s: SensorConatiner| s@) =~~= m1.update(
            i as int,
            final(sref)@,
        ));
    }
}

/// Record the object end of a defining edge inside element `ei` of the
/// sensor at slot `si`.
fn connect_elem(v: &mut Vec<SensorConatiner>, si: usize, ei: usize, oid: &NeuronId)
    requires
        si < old(v)@.len(),
        ei < old(v)@.map_values(|s: SensorConatiner| s@)[si as int].elements.len(),
        wf_sensor(old(v)@.map_values(|s: SensorConatiner| s@)[si as int]),
    ensures
        ({
            let m1 = old(v)@.map_values(|s: SensorConatiner| s@);
            let m2 = final(v)@.map_values(|s: SensorConatiner| s@);
            let s1 = m1[si as int];
            let e1 = s1.elements[ei as int];
            &&& m2 == m1.update(
                si as int,
                SensorModel {
                    id: s1.id,
                    data_type: s1.data_type,
                    elements: s1.elements.update(
                        ei as int,
                        ElemModel {
                            key: e1.key,
                            activation: e1.activation,
                            counter: e1.counter,
                            defined: if e1.defined.contains(oid@) {
                                e1.defined
                            } else {
                                e1.defined.push(oid@)
                            },
                        },
                    ),
                },
            )
            &&& wf_sensor(m2[si as int])
            &&& m2[si as int].elements[ei as int].defined.contains(oid@)
        }),
{
    let ghost m1 = v@.map_values(|s: SensorConatiner| s@);
    let sref = vstd::std_specs::vec::vec_index_mut(v, si);
    let ghost s1 = sref@;
    let eref = vstd::std_specs::vec::vec_index_mut(&mut sref.elements, ei);
    let ghost e1 = eref@;
    push_defined(&mut eref.defined, oid);
    proof {
        assert(final(eref)@ =~~= ElemModel {
            key: e1.key,
            activation: e1.activation,
            counter: e1.counter,
            defined: if e1.defined.contains(oid@) {
                e1.defined
            } else {
                e1.defined.push(oid@)
            },
        });
        assert(final(sref)@ =~~= SensorModel {
            id: s1.id,
            data_type: s1.data_type,
            elements: s1.elements.update(ei as int, final(eref)@),
        });
        assert(final(v)@.map_values(|s: SensorConatiner| s@) =~~= m1.update(
            si as int,
            final(sref)@,
        ));
        let m2 = final(v)@.map_values(|s: SensorConatiner| s@);
        assert(wf_sensor(m2[si as int])) by {
            assert(forall|j: int|
                0 <= j < s1.elements.len() && j != ei ==> m2[si as int].elements[j]
                    == #[trigger] s1.elements[j]);
            assert(m2[si as int].elements[ei as int].key == s1.elements[ei as int].key);
            if !e1.defined.contains(oid@) {
                assert forall|a: int, b: int|
                    0 <= a < b < m2[si as int].elements[ei as int].defined.len() implies m2[si
                    as int].elements[ei as int].defined[a] != m2[si as int].elements[ei
                    as int].defined[b] by {
                    if b == e1.defined.len() {
                        assert(m2[si as int].elements[ei as int].defined[a] == e1.defined[a]);
                        if e1.defined[a] == oid@ {
                            assert(e1.defined.contains(oid@));
                        }
                    }
                }
            }
            assert(crate::sensor::wf_sorted(m2[si as int].elements)) by {
                assert(forall|j: int|
                    0 <= j < s1.elements.len() ==> (#[trigger] m2[si as int].elements[j]).key
                        == s1.elements[j].key);
            }
        }
        assert(m2[si as int].elements[ei as int].defined.contains(oid@)) by {
            if e1.defined.contains(oid@) {
            } else {
                assert(m2[si as int].elements[ei as int].defined.last() == oid@);
            }
        }
    }
}

/// Record the sensor end of a defining edge on the neuron at slot `ni`.
fn connect_neuron(v: &mut Vec<SimpleNeuron>, ni: usize, eid: NeuronId)
    requires
        ni < old(v)@.len(),
    ensures
        ({
            let m1 = old(v)@.map_values(|n: SimpleNeuron| n@);
            let m2 = final(v)@.map_values(|n: SimpleNeuron| n@);
            let n1 = m1[ni as int];
            m2 == m1.update(
                ni as int,
                NeuronModel {
                    id: n1.id,
                    activation: n1.activation,
                    from_edges: n1.from_edges,
                    to_edges: if spec_has_edge(n1.to_edges, eid@) {
                        n1.to_edges
                    } else {
                        n1.to_edges.push(EdgeModel { other: eid@, other_is_sensor: true })
                    },
                },
            )
        }),
{
    let ghost m1 = v@.map_values(|n: SimpleNeuron| n@);
    let ghost eidv = eid@;
    let nref = vstd::std_specs::vec::vec_index_mut(v, ni);
    let ghost n1 = nref@;
    let res = nref.connect_from(eid, true, ConnectionKind::Defining);
    proof {
        assert(res is Ok);
        assert(final(nref)@ =~~= NeuronModel {
            id: n1.id,
            activation: n1.activation,
            from_edges: n1.from_edges,
            to_edges: if spec_has_edge(n1.to_edges, eidv) {
                n1.to_edges
            } else {
                n1.to_edges.push(EdgeModel { other: eidv, other_is_sensor: true })
            },
        });
        assert(final(v)@.map_values(|n: SimpleNeuron| n@) =~~= m1.update(
            ni as int,
            final(nref)@,
        ));
    }
}

/// The two halves of a bilateral connection restore edge symmetry.
proof fn connect_finish(m1: StoreModel, m2: StoreModel, m3: StoreModel, si: int, ei: int, ni: int)
    requires
        wf_store(m1),
        wf_conn(m1),
        0 <= si < m1.sensors.len(),
        0 <= ei < m1.sensors[si].elements.len(),
        0 <= ni < m1.neurons.len(),
        m2.neurons == m1.neurons,
        m2.sensors == m1.sensors.update(
            si,
            SensorModel {
                id: m1.sensors[si].id,
                data_type: m1.sensors[si].data_type,
                elements: m1.sensors[si].elements.update(
                    ei,
                    ElemModel {
                        key: m1.sensors[si].elements[ei].key,
                        activation: m1.sensors[si].elements[ei].activation,
                        counter: m1.sensors[si].elements[ei].counter,
                        defined: if m1.sensors[si].elements[ei].defined.contains(
                            m1.neurons[ni].id,
                        ) {
                            m1.sensors[si].elements[ei].defined
                        } else {
                            m1.sensors[si].elements[ei].defined.push(m1.neurons[ni].id)
                        },
                    },
                ),
            },
        ),
        wf_sensor(m2.sensors[si]),
        m3.sensors == m2.sensors,
        m3.neurons == m2.neurons.update(
            ni,
            NeuronModel {
                id: m1.neurons[ni].id,
                activation: m1.neurons[ni].activation,
                from_edges: m1.neurons[ni].from_edges,
                to_edges: if spec_has_edge(m1.neurons[ni].to_edges, spec_elem_id(
                    m1.sensors[si],
                    ei,
                )) {
                    m1.neurons[ni].to_edges
                } else {
                    m1.neurons[ni].to_edges.push(
                        EdgeModel {
                            other: spec_elem_id(m1.sensors[si], ei),
                            other_is_sensor: true,
                        },
                    )
                },
            },
        ),
    ensures
        wf_store(m3),
        wf_conn(m3),
        m3.sensors[si].elements[ei].defined.contains(m1.neurons[ni].id),
        spec_has_edge(m3.neurons[ni].to_edges, spec_elem_id(m1.sensors[si], ei)),
{
    let eid = spec_elem_id(m1.sensors[si], ei);
    let oid = m1.neurons[ni].id;
    let d1 = m1.sensors[si].elements[ei].defined;
    let d3 = m3.sensors[si].elements[ei].defined;
    let t1 = m1.neurons[ni].to_edges;
    let t3 = m3.neurons[ni].to_edges;
    assert(d3 == if d1.contains(oid) {
        d1
    } else {
        d1.push(oid)
    });
    assert(d3.contains(oid)) by {
        if d1.contains(oid) {
            let w = choose|w: int| 0 <= w < d1.len() && d1[w] == oid;
            assert(d3[w] == oid);
        } else {
            assert(d3.last() == oid);
        }
    }
    assert(spec_has_edge(t3, eid)) by {
        if spec_has_edge(t1, eid) {
            assert(t3 == t1);
        } else {
            assert(t3.last() == EdgeModel { other: eid, other_is_sensor: true });
            assert(t3[t3.len() - 1].other == eid);
        }
    }
    assert(wf_store(m3)) by {
        assert(forall|j: int|
            0 <= j < m1.sensors.len() && j != si ==> m3.sensors[j] == #[trigger] m1.sensors[j]);
        assert(forall|j: int|
            0 <= j < m1.neurons.len() && j != ni ==> m3.neurons[j] == #[trigger] m1.neurons[j]);
        assert(m3.neurons[ni].id == m1.neurons[ni].id);
        assert(m3.sensors[si].id == m1.sensors[si].id);
        if !spec_has_edge(t1, eid) {
            assert forall|a: int, b: int| 0 <= a < b < t3.len() implies t3[a].other
                != t3[b].other by {
                if b == t1.len() {
                    assert(t3[a] == t1[a]);
                    if t1[a].other == eid {
                        assert(spec_has_edge(t1, eid));
                    }
                }
            }
        }
    }
    assert forall|sj: int, ej: int, k: int|
        0 <= sj < m3.sensors.len() && 0 <= ej < m3.sensors[sj].elements.len() && 0 <= k
            < m3.sensors[sj].elements[ej].defined.len() implies #[trigger] defined_ok(
        m3,
        sj,
        ej,
        k,
    ) by {
        if sj == si && ej == ei && k == d1.len() && !d1.contains(oid) {
            assert(m3.sensors[sj].elements[ej].defined[k] == oid);
            assert(m3.neurons[ni].id == oid);
            assert(spec_elem_id(m3.sensors[si], ei) == eid);
            assert(spec_has_edge(m3.neurons[ni].to_edges, eid));
        } else {
            assert(m3.sensors[sj].elements[ej].defined[k] == m1.sensors[sj].elements[ej].defined[k]);
            assert(defined_ok(m1, sj, ej, k));
            let nw = choose|nw: int|
                0 <= nw < m1.neurons.len() && (#[trigger] m1.neurons[nw]).id
                    == m1.sensors[sj].elements[ej].defined[k] && spec_has_edge(
                    m1.neurons[nw].to_edges,
                    spec_elem_id(m1.sensors[sj], ej),
                );
            assert(spec_elem_id(m3.sensors[sj], ej) == spec_elem_id(m1.sensors[sj], ej));
            assert(m3.neurons[nw].id == m1.neurons[nw].id);
            assert(spec_has_edge(m3.neurons[nw].to_edges, spec_elem_id(m1.sensors[sj], ej)))
                by {
                let w = choose|w: int|
                    0 <= w < m1.neurons[nw].to_edges.len() && (#[trigger] m1.neurons[nw].to_edges[w]).other
                        == spec_elem_id(m1.sensors[sj], ej);
                assert(m3.neurons[nw].to_edges[w] == m1.neurons[nw].to_edges[w]);
            }
        }
    }
    assert forall|nj: int, t: int|
        0 <= nj < m3.neurons.len() && 0 <= t < m3.neurons[nj].to_edges.len()
            && m3.neurons[nj].to_edges[t].other_is_sensor implies #[trigger] to_edge_ok(
        m3,
        nj,
        t,
    ) by {
        if nj == ni && t == t1.len() && !spec_has_edge(t1, eid) {
            assert(m3.neurons[nj].to_edges[t] == EdgeModel {
                other: eid,
                other_is_sensor: true,
            });
            assert(m3.sensors[si].id == eid.parent_id);
            assert(spec_value_str(m3.sensors[si].elements[ei].key) == eid.id);
            assert(m3.sensors[si].elements[ei].defined.contains(m3.neurons[nj].id));
        } else {
            assert(m3.neurons[nj].to_edges[t] == m1.neurons[nj].to_edges[t]);
            assert(to_edge_ok(m1, nj, t));
            let (sw, ew): (int, int) = choose|sw: int, ew: int|
                #![trigger m1.sensors[sw].elements[ew]]
                0 <= sw < m1.sensors.len() && 0 <= ew < m1.sensors[sw].elements.len()
                    && m1.sensors[sw].id == m1.neurons[nj].to_edges[t].other.parent_id
                    && spec_value_str(m1.sensors[sw].elements[ew].key)
                    == m1.neurons[nj].to_edges[t].other.id
                    && m1.sensors[sw].elements[ew].defined.contains(m1.neurons[nj].id);
            assert(m3.sensors[sw].id == m1.sensors[sw].id);
            assert(m3.sensors[sw].elements[ew].key == m1.sensors[sw].elements[ew].key);
            assert(m3.neurons[nj].id == m1.neurons[nj].id);
            assert(m3.sensors[sw].elements[ew].defined.contains(m3.neurons[nj].id)) by {
                let w = choose|w: int|
                    0 <= w < m1.sensors[sw].elements[ew].defined.len()
                        && m1.sensors[sw].elements[ew].defined[w] == m1.neurons[nj].id;
                assert(m3.sensors[sw].elements[ew].defined[w] == m1.neurons[nj].id);
            }
        }
    }
}

} // verus!
