//! The global laws of the store, stated once and proved from the
//! contracts of the operations.
//!
//! Counter conservation and ingest completeness are stated directly on
//! the operations: `insert` raises the counter sum by exactly one every
//! time (see [`crate::sensor::SensorConatiner::insert`]), a column ingest
//! ends with a counter sum equal to its number of values (see
//! [`crate::parser`]), and a table ingest ends with exactly one object
//! neuron per row and at most one sensor per column (see
//! [`crate::parser::magds_from_df`]). The remaining laws live here.

use vstd::prelude::*;

use crate::magds::{defined_ok, to_edge_ok, wf_conn, StoreModel};
use crate::neuron::NeuronModel;
use crate::num::{sat64, SCALE};
use crate::sensor::{
    spec_deactivated_elems, spec_fired, spec_insert_elems, spec_lb, wf_sensor, SensorModel,
};
use crate::value::{lemma_value_order, tag_of, value_lt, DataType, ValueModel};

verus! {

/// Key uniqueness: no two distinct elements of one well-formed sensor
/// share a key.
pub proof fn lemma_key_uniqueness(s: SensorModel, i: int, j: int)
    requires
        wf_sensor(s),
        0 <= i < s.elements.len(),
        0 <= j < s.elements.len(),
        i != j,
    ensures
        s.elements[i].key != s.elements[j].key,
{
    let (a, b) = if i < j {
        (i, j)
    } else {
        (j, i)
    };
    assert(value_lt(s.elements[a].key, s.elements[b].key));
    if s.elements[a].key == s.elements[b].key {
        lemma_value_order(s.elements[a].key, s.elements[a].key, s.elements[a].key);
    }
}

/// Order linkage: the horizontal order of a sensor — the physical order
/// of its element vector — agrees with the key order.
pub proof fn lemma_order_linkage(s: SensorModel, i: int, j: int)
    requires
        wf_sensor(s),
        0 <= i < j < s.elements.len(),
    ensures
        value_lt(s.elements[i].key, s.elements[j].key),
{
}

/// Edge symmetry, element to object: every object an element records
/// exists and records the element back.
pub proof fn lemma_edge_symmetry_defined(m: StoreModel, si: int, ei: int, k: int)
    requires
        wf_conn(m),
        0 <= si < m.sensors.len(),
        0 <= ei < m.sensors[si].elements.len(),
        0 <= k < m.sensors[si].elements[ei].defined.len(),
    ensures
        defined_ok(m, si, ei, k),
{
}

/// Edge symmetry, object to element: every sensor edge an object records
/// resolves to an element that records the object back.
pub proof fn lemma_edge_symmetry_to_edge(m: StoreModel, ni: int, t: int)
    requires
        wf_conn(m),
        0 <= ni < m.neurons.len(),
        0 <= t < m.neurons[ni].to_edges.len(),
        m.neurons[ni].to_edges[t].other_is_sensor,
    ensures
        to_edge_ok(m, ni, t),
{
}

/// Activation additivity: two activations accumulate to the sum of their
/// signals whenever the sum stays representable, in either order.
pub proof fn lemma_activation_additive(a: int, s1: int, s2: int)
    requires
        0 <= a,
        0 <= s1,
        0 <= s2,
        a + s1 + s2 <= i64::MAX,
    ensures
        sat64(sat64(a + s1) + s2) == a + s1 + s2,
        sat64(sat64(a + s1) + s2) == sat64(sat64(a + s2) + s1),
{
}

/// Activation commutativity: two activations of one sensor land on the
/// same final levels in either order — the bump an element receives
/// depends only on the keys, never on the activation state, so the sums
/// commute whenever they stay representable.
pub proof fn lemma_activation_commutative(
    s: SensorModel,
    q1: ValueModel,
    sg1: int,
    q2: ValueModel,
    sg2: int,
    ph: bool,
)
    requires
        wf_sensor(s),
        sg1 >= 0,
        sg2 >= 0,
        forall|j: int|
            0 <= j < s.elements.len() ==> (#[trigger] s.elements[j]).activation
                + crate::sensor::spec_bump(s, q1, ph, sg1, j) + crate::sensor::spec_bump(
                s,
                q2,
                ph,
                sg2,
                j,
            ) <= i64::MAX,
    ensures
        ({
            let s12 = SensorModel {
                id: s.id,
                data_type: s.data_type,
                elements: crate::sensor::spec_activated_elems(s, q1, ph, sg1),
            };
            let s21 = SensorModel {
                id: s.id,
                data_type: s.data_type,
                elements: crate::sensor::spec_activated_elems(s, q2, ph, sg2),
            };
            crate::sensor::spec_activated_elems(s12, q2, ph, sg2)
                == crate::sensor::spec_activated_elems(s21, q1, ph, sg1)
        }),
{
    let s12 = SensorModel {
        id: s.id,
        data_type: s.data_type,
        elements: crate::sensor::spec_activated_elems(s, q1, ph, sg1),
    };
    let s21 = SensorModel {
        id: s.id,
        data_type: s.data_type,
        elements: crate::sensor::spec_activated_elems(s, q2, ph, sg2),
    };
    let a = crate::sensor::spec_activated_elems(s12, q2, ph, sg2);
    let b = crate::sensor::spec_activated_elems(s21, q1, ph, sg1);
    assert forall|j: int| 0 <= j < a.len() implies a[j] =~~= b[j] by {
        assert(s12.elements[j].key == s.elements[j].key);
        assert(s21.elements[j].key == s.elements[j].key);
        assert(crate::sensor::spec_range(s12.elements) == crate::sensor::spec_range(s.elements))
            by {
            if s.elements.len() > 1 {
                assert(s12.elements[0].key == s.elements[0].key);
                assert(s12.elements[s.elements.len() - 1].key == s.elements[s.elements.len()
                    - 1].key);
            }
        }
        assert(crate::sensor::spec_range(s21.elements) == crate::sensor::spec_range(s.elements))
            by {
            if s.elements.len() > 1 {
                assert(s21.elements[0].key == s.elements[0].key);
                assert(s21.elements[s.elements.len() - 1].key == s.elements[s.elements.len()
                    - 1].key);
            }
        }
        assert(crate::sensor::spec_fired(s12, q2, ph, j) == crate::sensor::spec_fired(
            s,
            q2,
            ph,
            j,
        ));
        assert(crate::sensor::spec_fired(s21, q1, ph, j) == crate::sensor::spec_fired(
            s,
            q1,
            ph,
            j,
        ));
        assert(crate::sensor::spec_bump(s12, q2, ph, sg2, j) == crate::sensor::spec_bump(
            s,
            q2,
            ph,
            sg2,
            j,
        ));
        assert(crate::sensor::spec_bump(s21, q1, ph, sg1, j) == crate::sensor::spec_bump(
            s,
            q1,
            ph,
            sg1,
            j,
        ));
        let a0 = s.elements[j].activation;
        let b1 = crate::sensor::spec_bump(s, q1, ph, sg1, j);
        let b2 = crate::sensor::spec_bump(s, q2, ph, sg2, j);
        assert(b1 >= 0) by {
            lemma_bump_nonneg(s, q1, ph, sg1, j);
        }
        assert(b2 >= 0) by {
            lemma_bump_nonneg(s, q2, ph, sg2, j);
        }
        assert(a0 >= 0);
        assert(sat64(sat64(a0 + b1) + b2) == a0 + b1 + b2);
        assert(sat64(sat64(a0 + b2) + b1) == a0 + b1 + b2);
    }
    assert(a =~~= b);
}

/// A bump is never negative: the signal and the similarity both are at
/// least zero.
proof fn lemma_bump_nonneg(s: SensorModel, q: ValueModel, ph: bool, sg: int, j: int)
    requires
        sg >= 0,
        0 <= j < s.elements.len(),
    ensures
        crate::sensor::spec_bump(s, q, ph, sg, j) >= 0,
{
    if crate::sensor::spec_fired(s, q, ph, j) {
        if crate::value::spec_category(s.data_type) == crate::value::DataCategory::Categorical {
            assert(sg * (SCALE as int) / (SCALE as int) >= 0) by (nonlinear_arith)
                requires
                    sg >= 0,
            ;
        } else {
            let sim = crate::sensor::spec_sim_q(s, q, j);
            assert(sim > 0 || sim <= 0);
            if ph {
                assert(sim > 0);
                assert(sg * sim / (SCALE as int) >= 0) by (nonlinear_arith)
                    requires
                        sg >= 0,
                        sim > 0,
                ;
            } else {
                assert(s.elements[j].key == q);
                assert(crate::value::spec_delta(q, s.elements[j].key) == 0);
                lemma_sim_q_nonneg(s, q, j);
                assert(sg * sim / (SCALE as int) >= 0) by (nonlinear_arith)
                    requires
                        sg >= 0,
                        sim >= 0,
                ;
            }
        }
    }
}

/// Similarity is never negative.
proof fn lemma_sim_q_nonneg(s: SensorModel, q: ValueModel, j: int)
    requires
        0 <= j < s.elements.len(),
    ensures
        crate::sensor::spec_sim_q(s, q, j) >= 0,
{
    let delta = crate::value::spec_delta(q, s.elements[j].key);
    let range = crate::sensor::spec_range(s.elements);
    if range != 0 && delta < range && delta >= 0 && range > 0 {
        assert(delta * (SCALE as int) >= 0) by (nonlinear_arith)
            requires
                delta >= 0,
        ;
        vstd::arithmetic::div_mod::lemma_div_is_ordered(0, delta * (SCALE as int), range);
        assert(delta * (SCALE as int) / range < SCALE as int) by {
            vstd::arithmetic::mul::lemma_mul_strict_inequality(delta, range, SCALE as int);
            assert(delta * (SCALE as int) == (SCALE as int) * delta) by (nonlinear_arith);
            assert(range * (SCALE as int) == (SCALE as int) * range) by (nonlinear_arith);
            vstd::arithmetic::div_mod::lemma_div_is_ordered(
                delta * (SCALE as int),
                range * (SCALE as int) - 1,
                range,
            );
            vstd::arithmetic::div_mod::lemma_fundamental_div_mod_converse(
                range * (SCALE as int) - 1,
                range,
                SCALE as int - 1,
                range - 1,
            );
        }
    }
}

/// Deactivation idempotence: deactivating a sensor twice with one query
/// leaves exactly the state of a single deactivation.
pub proof fn lemma_deactivation_idempotent(s: SensorModel, q: ValueModel, ph: bool)
    ensures
        ({
            let once = SensorModel {
                id: s.id,
                data_type: s.data_type,
                elements: spec_deactivated_elems(s, q, ph),
            };
            spec_deactivated_elems(once, q, ph) == spec_deactivated_elems(s, q, ph)
        }),
{
    let once = SensorModel {
        id: s.id,
        data_type: s.data_type,
        elements: spec_deactivated_elems(s, q, ph),
    };
    let d1 = spec_deactivated_elems(s, q, ph);
    let d2 = spec_deactivated_elems(once, q, ph);
    assert forall|j: int| 0 <= j < d2.len() implies d2[j] =~~= d1[j] by {
        assert(once.elements[j].key == s.elements[j].key);
        assert(crate::sensor::spec_range(once.elements) == crate::sensor::spec_range(s.elements))
            by {
            if s.elements.len() > 1 {
                assert(once.elements[0].key == s.elements[0].key);
                assert(once.elements[s.elements.len() - 1].key == s.elements[s.elements.len()
                    - 1].key);
            }
        }
        assert(spec_fired(once, q, ph, j) == spec_fired(s, q, ph, j));
    }
    assert(d2 =~~= d1);
}

/// Insert / search round trip: after inserting `v`, some element carries
/// exactly the key `v` — and exact search, whose contract returns an
/// element precisely when one carries the key, therefore finds it.
pub proof fn lemma_insert_search_roundtrip(s: SensorModel, v: ValueModel)
    requires
        wf_sensor(s),
        tag_of(v) == s.data_type,
    ensures
        exists|i: int|
            0 <= i < spec_insert_elems(s.elements, v).len() && (#[trigger] spec_insert_elems(
                s.elements,
                v,
            )[i]).key == v,
{
    let p = spec_lb(s.elements, v);
    crate::sensor::lemma_lb_bounds(s.elements, v);
    let after = spec_insert_elems(s.elements, v);
    if p < s.elements.len() && s.elements[p].key == v {
        assert(after[p].key == v);
    } else {
        assert(after[p].key == v);
    }
}

} // verus!
