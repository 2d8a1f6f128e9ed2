//! Prediction by spreading activation.
//!
//! A query activates, for every given feature, the matching values of the
//! feature's sensor; the activation flows to the object neurons those
//! values define. The object with the highest activation wins — ties go to
//! the lexicographically smallest identifier — and the value the winner
//! carries for the target attribute is the prediction. The probability is
//! the winner's activation over the sum of the feature weights, clamped
//! into `[0, 1]`.

use vstd::prelude::*;
use vstd::string::*;

use crate::magds::{same_topology, wf_conn, wf_store, MAGDS};
use crate::neuron::NeuronId;
use crate::num::{isqrt, sat_plus_u128, square_sat, SCALE};
use crate::text::{seq_lt, str_eq, str_lt};
use crate::value::{distance, DataValue, ValueModel};

verus! {

/// Identifier order: by local identifier, then by parent.
fn id_lt(a: &NeuronId, b: &NeuronId) -> (r: bool)
    ensures
        r == (seq_lt(a@.id, b@.id) || (a@.id == b@.id && seq_lt(a@.parent_id, b@.parent_id))),
{
    if str_lt(a.id.as_str(), b.id.as_str()) {
        true
    } else if str_eq(a.id.as_str(), b.id.as_str()) {
        str_lt(a.parent_id.as_str(), b.parent_id.as_str())
    } else {
        false
    }
}

/// The activation level the store holds for the neuron named `x`: the
/// object neuron of that identifier, or the sensor-value neuron addressed
/// by its sensor's name and its key's text form; zero for an unknown name.
pub open spec fn spec_activation_of(m: crate::magds::StoreModel, x: crate::neuron::IdModel) -> int {
    let ni = crate::magds::spec_find_neuron(m.neurons, x);
    if ni >= 0 {
        m.neurons[ni].activation
    } else {
        let si = crate::magds::spec_find_sensor(m.sensors, x.parent_id);
        if si < 0 {
            0
        } else {
            let ei = crate::sensor::spec_find_elem(m.sensors[si].elements, x.id);
            if ei < 0 {
                0
            } else if m.sensors[si].elements[ei].activation >= 0 {
                m.sensors[si].elements[ei].activation
            } else {
                0
            }
        }
    }
}

impl MAGDS {
    /// The current activation of the neuron named `id`: an object neuron,
    /// or a sensor-value neuron addressed by its sensor's name and its
    /// key's text form. Zero for an unknown name.
    pub fn activation_of(&self, id: &NeuronId) -> (r: i64)
        requires
            wf_store(self@),
        ensures
            r == spec_activation_of(self@, id@),
            r >= 0,
    {
        match self.neuron_index(id) {
            Some(ni) => self.neurons[ni].activation(),
            None => {
                match self.sensor_index(id.parent_id.as_str()) {
                    Some(si) => {
                        match self.sensors[si].element_by_local_id(id.id.as_str()) {
                            Some(ei) => {
                                let a = self.sensors[si].elements[ei].activation;
                                if a >= 0 {
                                    a
                                } else {
                                    0
                                }
                            },
                            None => 0,
                        }
                    },
                    None => 0,
                }
            },
        }
    }
}

/// The features as a sequence of plain (attribute, value) pairs.
pub open spec fn features_model(fs: Seq<(String, DataValue, i64)>) -> Seq<(Seq<char>, ValueModel)> {
    fs.map_values(|f: (String, DataValue, i64)| (f.0@, f.1@))
}

/// The unweighted features as the same plain pairs.
pub open spec fn plain_features_model(fs: Seq<(String, DataValue)>) -> Seq<(Seq<char>, ValueModel)> {
    fs.map_values(|f: (String, DataValue)| (f.0@, f.1@))
}

/// Whether one feature touches the neuron named `x`: its sensor exists,
/// its value carries the sensor's type, and activating the value reaches
/// `x` — as a fired element or as an object a fired element defines.
pub open spec fn feature_touches(
    m0: crate::magds::StoreModel,
    name: Seq<char>,
    v: ValueModel,
    fuzzy: bool,
    x: crate::neuron::IdModel,
) -> bool {
    let si = crate::magds::spec_find_sensor(m0.sensors, name);
    si >= 0 && crate::value::tag_of(v) == m0.sensors[si].data_type
        && crate::magds::spec_touched_id(m0.sensors[si], v, fuzzy, true, x)
}

/// Whether some of the first `n` features touches `x`.
pub open spec fn spec_candidate_upto(
    m0: crate::magds::StoreModel,
    fs: Seq<(Seq<char>, ValueModel)>,
    fuzzy: bool,
    n: int,
    x: crate::neuron::IdModel,
) -> bool {
    exists|f: int|
        0 <= f < n && feature_touches(m0, (#[trigger] fs[f]).0, fs[f].1, fuzzy, x)
}

/// The candidates of a query: the neurons touched by some feature.
pub open spec fn spec_candidate(
    m0: crate::magds::StoreModel,
    fs: Seq<(Seq<char>, ValueModel)>,
    fuzzy: bool,
    x: crate::neuron::IdModel,
) -> bool {
    spec_candidate_upto(m0, fs, fuzzy, fs.len() as int, x)
}

/// Whether every sensor of the store has an exactly representable span.
pub open spec fn all_small(m: crate::magds::StoreModel) -> bool {
    forall|si: int|
        0 <= si < m.sensors.len() ==> crate::sensor::small_range(#[trigger] m.sensors[si])
}

/// Being touched depends only on a sensor's topology.
proof fn lemma_touched_topology(
    a: crate::sensor::SensorModel,
    b: crate::sensor::SensorModel,
    q: ValueModel,
    ph: bool,
    pv: bool,
    x: crate::neuron::IdModel,
)
    requires
        crate::magds::same_sensor_topology(a, b),
    ensures
        crate::magds::spec_touched_id(a, q, ph, pv, x) == crate::magds::spec_touched_id(
            b,
            q,
            ph,
            pv,
            x,
        ),
        crate::sensor::small_range(a) == crate::sensor::small_range(b),
{
    assert(crate::sensor::spec_range(a.elements) == crate::sensor::spec_range(b.elements)) by {
        if a.elements.len() > 1 {
            assert(a.elements[0].key == b.elements[0].key);
            assert(a.elements[a.elements.len() - 1].key == b.elements[a.elements.len() - 1].key);
        }
    }
    assert forall|j: int| 0 <= j < a.elements.len() implies crate::sensor::spec_fired(a, q, ph, j)
        == crate::sensor::spec_fired(b, q, ph, j) && crate::sensor::spec_elem_id(a, j)
        == crate::sensor::spec_elem_id(b, j) && a.elements[j].defined == b.elements[j].defined by {
        assert(a.elements[j].key == b.elements[j].key);
    }
    if crate::magds::spec_touched_id(a, q, ph, pv, x) {
        if exists|j: int|
            0 <= j < a.elements.len() && crate::sensor::spec_fired(a, q, ph, j) && x
                == crate::sensor::spec_elem_id(a, j) {
            let j = choose|j: int|
                0 <= j < a.elements.len() && crate::sensor::spec_fired(a, q, ph, j) && x
                    == crate::sensor::spec_elem_id(a, j);
            assert(crate::sensor::spec_fired(b, q, ph, j) && x == crate::sensor::spec_elem_id(
                b,
                j,
            ));
        } else {
            let (j, k): (int, int) = choose|j: int, k: int|
                #![trigger a.elements[j].defined[k]]
                0 <= j < a.elements.len() && crate::sensor::spec_fired(a, q, ph, j) && 0 <= k
                    < a.elements[j].defined.len() && x == a.elements[j].defined[k];
            assert(b.elements[j].defined[k] == x);
        }
    }
    if crate::magds::spec_touched_id(b, q, ph, pv, x) {
        if exists|j: int|
            0 <= j < b.elements.len() && crate::sensor::spec_fired(b, q, ph, j) && x
                == crate::sensor::spec_elem_id(b, j) {
            let j = choose|j: int|
                0 <= j < b.elements.len() && crate::sensor::spec_fired(b, q, ph, j) && x
                    == crate::sensor::spec_elem_id(b, j);
            assert(crate::sensor::spec_fired(a, q, ph, j) && x == crate::sensor::spec_elem_id(
                a,
                j,
            ));
        } else {
            let (j, k): (int, int) = choose|j: int, k: int|
                #![trigger b.elements[j].defined[k]]
                0 <= j < b.elements.len() && crate::sensor::spec_fired(b, q, ph, j) && 0 <= k
                    < b.elements[j].defined.len() && x == b.elements[j].defined[k];
            assert(a.elements[j].defined[k] == x);
        }
    }
}

/// One sensor slot of two topologically equal stores agrees.
proof fn lemma_same_topology_at(a: crate::magds::StoreModel, b: crate::magds::StoreModel, si: int)
    requires
        same_topology(a, b),
        0 <= si < a.sensors.len(),
    ensures
        crate::magds::same_sensor_topology(a.sensors[si], b.sensors[si]),
{
    assert(a.sensors[si].id == b.sensors[si].id);
    assert forall|ei: int| 0 <= ei < a.sensors[si].elements.len() implies (
    #[trigger] a.sensors[si].elements[ei]).key == b.sensors[si].elements[ei].key
        && a.sensors[si].elements[ei].defined == b.sensors[si].elements[ei].defined
        && a.sensors[si].elements[ei].counter == b.sensors[si].elements[ei].counter by {}
}

/// Sensor lookup depends only on the names.
proof fn lemma_find_sensor_same(
    a: Seq<crate::sensor::SensorModel>,
    b: Seq<crate::sensor::SensorModel>,
    name: Seq<char>,
)
    requires
        a.len() == b.len(),
        forall|j: int| 0 <= j < a.len() ==> (#[trigger] a[j]).id == b[j].id,
    ensures
        crate::magds::spec_find_sensor(a, name) == crate::magds::spec_find_sensor(b, name),
    decreases a.len(),
{
    if a.len() > 0 {
        assert(forall|j: int|
            0 <= j < a.len() - 1 ==> (#[trigger] a.skip(1)[j]).id == a[j + 1].id);
        assert(forall|j: int|
            0 <= j < b.len() - 1 ==> (#[trigger] b.skip(1)[j]).id == b[j + 1].id);
        assert(forall|j: int|
            0 <= j < a.len() - 1 ==> (#[trigger] a.skip(1)[j]).id == b.skip(1)[j].id);
        lemma_find_sensor_same(a.skip(1), b.skip(1), name);
    }
}

/// The weighted features as plain (attribute, value, weight) triples.
pub open spec fn features_model3(fs: Seq<(String, DataValue, i64)>) -> Seq<
    (Seq<char>, ValueModel, int),
> {
    fs.map_values(|f: (String, DataValue, i64)| (f.0@, f.1@, f.2 as int))
}

/// The unweighted features as the same triples, each at full weight.
pub open spec fn plain_features_model3(fs: Seq<(String, DataValue)>) -> Seq<
    (Seq<char>, ValueModel, int),
> {
    fs.map_values(|f: (String, DataValue)| (f.0@, f.1@, SCALE as int))
}

/// A weight clamped below at zero.
pub open spec fn clamp0(w: int) -> int {
    if w >= 0 {
        w
    } else {
        0
    }
}

/// The saturating sum of the first `n` feature weights.
pub open spec fn spec_wsum(fs: Seq<(Seq<char>, ValueModel, int)>, n: int) -> int
    decreases n,
{
    if n <= 0 {
        0
    } else {
        crate::num::sat64(spec_wsum(fs, n - 1) + clamp0(fs[n - 1].2))
    }
}

/// The store after one feature lands: nothing for an unresolved name or a
/// mismatched tag; otherwise the feature's sensor is activated with the
/// feature's weight as the signal (vertical propagation on, horizontal
/// when fuzzy) and the emissions land on the object registry.
pub open spec fn spec_apply_feature(
    m: crate::magds::StoreModel,
    name: Seq<char>,
    v: ValueModel,
    w: int,
    fuzzy: bool,
) -> crate::magds::StoreModel {
    let si = crate::magds::spec_find_sensor(m.sensors, name);
    if si < 0 || crate::value::tag_of(v) != m.sensors[si].data_type {
        m
    } else {
        let s1 = m.sensors[si];
        let post = crate::sensor::spec_activated_elems(s1, v, fuzzy, clamp0(w));
        crate::magds::StoreModel {
            sensors: m.sensors.update(
                si,
                crate::sensor::SensorModel {
                    id: s1.id,
                    data_type: s1.data_type,
                    elements: post,
                },
            ),
            neurons: crate::magds::spec_apply_emissions(
                m.neurons,
                crate::sensor::spec_emissions_upto(
                    post,
                    s1,
                    v,
                    fuzzy,
                    s1.elements.len() as int,
                ),
            ),
        }
    }
}

/// The store after every feature lands, in order.
pub open spec fn spec_apply_features(
    m0: crate::magds::StoreModel,
    fs: Seq<(Seq<char>, ValueModel, int)>,
    fuzzy: bool,
) -> crate::magds::StoreModel
    decreases fs.len(),
{
    if fs.len() == 0 {
        m0
    } else {
        spec_apply_feature(
            spec_apply_features(m0, fs.drop_last(), fuzzy),
            fs.last().0,
            fs.last().1,
            fs.last().2,
            fuzzy,
        )
    }
}

/// Identifier order: by local identifier, then by parent.
pub open spec fn spec_id_lt(a: crate::neuron::IdModel, b: crate::neuron::IdModel) -> bool {
    seq_lt(a.id, b.id) || (a.id == b.id && seq_lt(a.parent_id, b.parent_id))
}

/// The identifier order is strict and total on distinct identifiers, and
/// transitive.
pub proof fn lemma_id_lt_props(a: crate::neuron::IdModel, b: crate::neuron::IdModel)
    ensures
        !(spec_id_lt(a, b) && spec_id_lt(b, a)),
        a != b ==> spec_id_lt(a, b) || spec_id_lt(b, a),
{
    crate::text::lemma_seq_lt_connex(a.id, b.id);
    crate::text::lemma_seq_lt_connex(a.parent_id, b.parent_id);
}

/// Transitivity of the identifier order.
pub proof fn lemma_id_lt_trans(
    a: crate::neuron::IdModel,
    b: crate::neuron::IdModel,
    c: crate::neuron::IdModel,
)
    requires
        spec_id_lt(a, b),
        spec_id_lt(b, c),
    ensures
        spec_id_lt(a, c),
{
    if seq_lt(a.id, b.id) && seq_lt(b.id, c.id) {
        crate::text::lemma_seq_lt_trans(a.id, b.id, c.id);
    } else if seq_lt(a.id, b.id) && b.id == c.id {
    } else if a.id == b.id && seq_lt(b.id, c.id) {
    } else {
        crate::text::lemma_seq_lt_trans(a.parent_id, b.parent_id, c.parent_id);
    }
}

/// The winner of a query: the candidate whose final activation beats every
/// other candidate, ties resolved toward the smaller identifier. At most
/// one identifier satisfies this.
pub open spec fn is_winner(
    m0: crate::magds::StoreModel,
    fs: Seq<(Seq<char>, ValueModel)>,
    fuzzy: bool,
    mfin: crate::magds::StoreModel,
    wid: crate::neuron::IdModel,
) -> bool {
    &&& spec_candidate(m0, fs, fuzzy, wid)
    &&& forall|y: crate::neuron::IdModel|
        #![trigger spec_candidate(m0, fs, fuzzy, y)]
        spec_candidate(m0, fs, fuzzy, y) && y != wid ==> spec_activation_of(mfin, y)
            < spec_activation_of(mfin, wid) || (spec_activation_of(mfin, y)
            == spec_activation_of(mfin, wid) && spec_id_lt(wid, y))
}

/// Two winners are the same identifier.
pub proof fn lemma_winner_unique(
    m0: crate::magds::StoreModel,
    fs: Seq<(Seq<char>, ValueModel)>,
    fuzzy: bool,
    mfin: crate::magds::StoreModel,
    x: crate::neuron::IdModel,
    y: crate::neuron::IdModel,
)
    requires
        is_winner(m0, fs, fuzzy, mfin, x),
        is_winner(m0, fs, fuzzy, mfin, y),
    ensures
        x == y,
{
    if x != y {
        lemma_id_lt_props(x, y);
    }
}

/// The probability read off a winner: its activation over the weight sum,
/// clamped into `[0, 1]`; a zero weight sum caps at one.
pub open spec fn spec_proba(act: int, wsum: int) -> int {
    if wsum <= 0 {
        SCALE as int
    } else {
        let q = act * (SCALE as int) / wsum;
        if q < 0 {
            0
        } else if q > SCALE as int {
            SCALE as int
        } else {
            q
        }
    }
}

/// What a prediction returns, as a function of the starting store and the
/// query: the final store is the feature-by-feature activation transition,
/// and the result reads the target value and the clamped probability off
/// the winner — nothing when no feature touches anything, when the winner
/// is not an object neuron, or when it carries no target value.
pub open spec fn spec_predict_res(
    m0: crate::magds::StoreModel,
    fs3: Seq<(Seq<char>, ValueModel, int)>,
    target: Seq<char>,
    fuzzy: bool,
) -> Option<(ValueModel, int)> {
    let fs = fs3.map_values(|f: (Seq<char>, ValueModel, int)| (f.0, f.1));
    let mfin = spec_apply_features(m0, fs3, fuzzy);
    if exists|wid: crate::neuron::IdModel|
        #![trigger is_winner(m0, fs, fuzzy, mfin, wid)]
        is_winner(m0, fs, fuzzy, mfin, wid) && crate::magds::spec_find_neuron(mfin.neurons, wid)
            >= 0 && crate::magds::spec_explain_one(
            mfin,
            crate::magds::spec_find_neuron(mfin.neurons, wid),
            target,
        ) is Some {
        let wid = choose|wid: crate::neuron::IdModel|
            #![trigger is_winner(m0, fs, fuzzy, mfin, wid)]
            is_winner(m0, fs, fuzzy, mfin, wid) && crate::magds::spec_find_neuron(
                mfin.neurons,
                wid,
            ) >= 0 && crate::magds::spec_explain_one(
                mfin,
                crate::magds::spec_find_neuron(mfin.neurons, wid),
                target,
            ) is Some;
        Some(
            (
                crate::magds::spec_explain_one(
                    mfin,
                    crate::magds::spec_find_neuron(mfin.neurons, wid),
                    target,
                ).unwrap(),
                spec_proba(spec_activation_of(mfin, wid), spec_wsum(fs3, fs3.len() as int)),
            ),
        )
    } else {
        None
    }
}

/// Predict the target value from unweighted features: every feature
/// carries weight `1.0`.
pub fn predict(
    magds: &mut MAGDS,
    features: &Vec<(String, DataValue)>,
    target: &str,
    fuzzy: bool,
) -> (r: Option<(DataValue, i64)>)
    requires
        wf_store(old(magds)@),
    ensures
        wf_store(final(magds)@),
        same_topology(old(magds)@, final(magds)@),
        wf_conn(old(magds)@) ==> wf_conn(final(magds)@),
        r is Some ==> 0 <= r.unwrap().1 <= SCALE,
        r is Some ==> exists|si: int, ei: int|
            #![trigger final(magds)@.sensors[si].elements[ei]]
            0 <= si < final(magds)@.sensors.len() && 0 <= ei
                < final(magds)@.sensors[si].elements.len() && final(magds)@.sensors[si].id
                == target@
                && r.unwrap().0@ == final(magds)@.sensors[si].elements[ei].key,
        features@.len() == 0 ==> r is None,
        all_small(old(magds)@) ==> {
            &&& final(magds)@ == spec_apply_features(
                old(magds)@,
                plain_features_model3(features@),
                fuzzy,
            )
            &&& ((forall|x: crate::neuron::IdModel|
                !spec_candidate(old(magds)@, plain_features_model(features@), fuzzy, x))
                ==> r is None)
            &&& (r is Some ==> exists|wid: crate::neuron::IdModel|
                {
                    let ni = crate::magds::spec_find_neuron(final(magds)@.neurons, wid);
                    &&& #[trigger] is_winner(
                        old(magds)@,
                        plain_features_model(features@),
                        fuzzy,
                        final(magds)@,
                        wid,
                    )
                    &&& ni >= 0
                    &&& crate::magds::spec_explain_one(final(magds)@, ni, target@) == Some(
                        r.unwrap().0@,
                    )
                    &&& r.unwrap().1 == spec_proba(
                        spec_activation_of(final(magds)@, wid),
                        spec_wsum(plain_features_model3(features@), features@.len() as int),
                    )
                })
            &&& (forall|wid: crate::neuron::IdModel|
                #![trigger is_winner(old(magds)@, plain_features_model(features@), fuzzy, final(magds)@, wid)]
                (is_winner(
                    old(magds)@,
                    plain_features_model(features@),
                    fuzzy,
                    final(magds)@,
                    wid,
                ) && crate::magds::spec_find_neuron(final(magds)@.neurons, wid) >= 0
                    && crate::magds::spec_explain_one(
                    final(magds)@,
                    crate::magds::spec_find_neuron(final(magds)@.neurons, wid),
                    target@,
                ) is Some) ==> r is Some)
            &&& (r is Some <==> spec_predict_res(
                old(magds)@,
                plain_features_model3(features@),
                target@,
                fuzzy,
            ) is Some)
            &&& (r is Some ==> (r.unwrap().0@, r.unwrap().1 as int) == spec_predict_res(
                old(magds)@,
                plain_features_model3(features@),
                target@,
                fuzzy,
            ).unwrap())
        },
{
    let mut weighted: Vec<(String, DataValue, i64)> = Vec::new();
    let mut i: usize = 0;
    while i < features.len()
        invariant
            0 <= i <= features@.len(),
            weighted@.len() == i,
            forall|k: int| 0 <= k < weighted@.len() ==> (#[trigger] weighted@[k]).2 >= 0,
            forall|k: int|
                0 <= k < i ==> (#[trigger] weighted@[k]).0@ == features@[k].0@ && weighted@[k].1@
                    == features@[k].1@ && weighted@[k].2 == SCALE,
        decreases features@.len() - i,
    {
        let name = features[i].0.clone();
        let value = features[i].1.clone_value();
        weighted.push((name, value, SCALE));
        i += 1;
    }
    proof {
        assert(features_model(weighted@) =~~= plain_features_model(features@));
        assert(features_model3(weighted@) =~~= plain_features_model3(features@));
    }
    predict_weighted(magds, &weighted, target, fuzzy)
}

/// Predict the target value from weighted features.
///
/// Every feature activates its sensor with its weight as the signal, with
/// vertical propagation on and horizontal propagation when `fuzzy`; a
/// feature naming no sensor, or mismatching its sensor's type, is passed
/// over. The winner is the touched neuron with the highest activation
/// (ties to the smallest identifier); the prediction is the value the
/// winner carries for `target`, with probability
/// `winner activation / weight sum` clamped into `[0, 1]`.
pub fn predict_weighted(
    magds: &mut MAGDS,
    features: &Vec<(String, DataValue, i64)>,
    target: &str,
    fuzzy: bool,
) -> (r: Option<(DataValue, i64)>)
    requires
        wf_store(old(magds)@),
        forall|k: int| 0 <= k < features@.len() ==> (#[trigger] features@[k]).2 >= 0,
    ensures
        wf_store(final(magds)@),
        same_topology(old(magds)@, final(magds)@),
        wf_conn(old(magds)@) ==> wf_conn(final(magds)@),
        r is Some ==> 0 <= r.unwrap().1 <= SCALE,
        r is Some ==> exists|si: int, ei: int|
            #![trigger final(magds)@.sensors[si].elements[ei]]
            0 <= si < final(magds)@.sensors.len() && 0 <= ei
                < final(magds)@.sensors[si].elements.len() && final(magds)@.sensors[si].id
                == target@
                && r.unwrap().0@ == final(magds)@.sensors[si].elements[ei].key,
        features@.len() == 0 ==> r is None,
        all_small(old(magds)@) ==> {
            &&& final(magds)@ == spec_apply_features(
                old(magds)@,
                features_model3(features@),
                fuzzy,
            )
            &&& ((forall|x: crate::neuron::IdModel|
                !spec_candidate(old(magds)@, features_model(features@), fuzzy, x)) ==> r is None)
            &&& (r is Some ==> exists|wid: crate::neuron::IdModel|
                {
                    let ni = crate::magds::spec_find_neuron(final(magds)@.neurons, wid);
                    &&& #[trigger] is_winner(
                        old(magds)@,
                        features_model(features@),
                        fuzzy,
                        final(magds)@,
                        wid,
                    )
                    &&& ni >= 0
                    &&& crate::magds::spec_explain_one(final(magds)@, ni, target@) == Some(
                        r.unwrap().0@,
                    )
                    &&& r.unwrap().1 == spec_proba(
                        spec_activation_of(final(magds)@, wid),
                        spec_wsum(features_model3(features@), features@.len() as int),
                    )
                })
            &&& (forall|wid: crate::neuron::IdModel|
                #![trigger is_winner(old(magds)@, features_model(features@), fuzzy, final(magds)@, wid)]
                (is_winner(old(magds)@, features_model(features@), fuzzy, final(magds)@, wid)
                    && crate::magds::spec_find_neuron(final(magds)@.neurons, wid) >= 0
                    && crate::magds::spec_explain_one(
                    final(magds)@,
                    crate::magds::spec_find_neuron(final(magds)@.neurons, wid),
                    target@,
                ) is Some) ==> r is Some)
            &&& (r is Some <==> spec_predict_res(
                old(magds)@,
                features_model3(features@),
                target@,
                fuzzy,
            ) is Some)
            &&& (r is Some ==> (r.unwrap().0@, r.unwrap().1 as int) == spec_predict_res(
                old(magds)@,
                features_model3(features@),
                target@,
                fuzzy,
            ).unwrap())
        },
{
    let ghost m0 = magds@;
    let ghost fm3 = features_model3(features@);
    let mut candidates: Vec<NeuronId> = Vec::new();
    let mut wsum: i64 = 0;
    let mut i: usize = 0;
    proof {
        assert(m0 == old(magds)@);
        assert(fm3.subrange(0, 0) =~= Seq::<(Seq<char>, ValueModel, int)>::empty());
    }
    while i < features.len()
        invariant
            0 <= i <= features@.len(),
            wf_store(magds@),
            m0 == old(magds)@,
            same_topology(m0, magds@),
            wf_conn(m0) ==> wf_conn(magds@),
            wsum >= 0,
            forall|k: int| 0 <= k < features@.len() ==> (#[trigger] features@[k]).2 >= 0,
            i == 0 ==> candidates@.len() == 0,
            fm3 == features_model3(features@),
            wsum == spec_wsum(fm3, i as int),
            forall|a: int, b: int|
                0 <= a < b < candidates@.len() ==> (#[trigger] candidates@[a])@ != (
                #[trigger] candidates@[b])@,
            all_small(m0) ==> {
                &&& magds@ == spec_apply_features(m0, fm3.subrange(0, i as int), fuzzy)
                &&& forall|j: int|
                    0 <= j < candidates@.len() ==> spec_candidate_upto(
                        m0,
                        features_model(features@),
                        fuzzy,
                        i as int,
                        (#[trigger] candidates@[j])@,
                    )
                &&& forall|x: crate::neuron::IdModel|
                    #![trigger spec_candidate_upto(m0, features_model(features@), fuzzy, i as int, x)]
                    spec_candidate_upto(m0, features_model(features@), fuzzy, i as int, x)
                        ==> crate::magds::covered_id(candidates@, x)
            },
        decreases features@.len() - i,
    {
        let ghost mpre = magds@;
        let ghost cpre = candidates@;
        let ghost fm = features_model(features@);
        let ghost namev = features@[i as int].0@;
        let ghost qv = features@[i as int].1@;
        proof {
            assert(fm[i as int].0 == namev && fm[i as int].1 == qv);
            assert forall|j: int| 0 <= j < m0.sensors.len() implies (
            #[trigger] m0.sensors[j]).id == mpre.sensors[j].id by {}
            lemma_find_sensor_same(m0.sensors, mpre.sensors, namev);
        }
        let ghost si_spec = crate::magds::spec_find_sensor(m0.sensors, namev);
        proof {
            crate::magds::lemma_find_sensor_bounds(m0.sensors, namev);
            if si_spec >= 0 {
                lemma_same_topology_at(m0, mpre, si_spec);
                lemma_touched_topology(
                    m0.sensors[si_spec],
                    mpre.sensors[si_spec],
                    qv,
                    fuzzy,
                    true,
                    crate::neuron::IdModel { id: Seq::empty(), parent_id: Seq::empty() },
                );
                assert(m0.sensors[si_spec].data_type == mpre.sensors[si_spec].data_type);
            }
        }
        let fname = features[i].0.as_str();
        proof {
            assert(fname@ == namev);
        }
        match magds.sensor_activate(fname, &features[i].1, features[i].2, fuzzy, true) {
            Ok(touched) => {
                proof {
                    if all_small(m0) {
                        assert(si_spec >= 0);
                        assert(crate::value::tag_of(qv) == mpre.sensors[si_spec].data_type);
                        assert(crate::value::tag_of(qv) == m0.sensors[si_spec].data_type);
                        assert(crate::sensor::small_range(mpre.sensors[si_spec]));
                        assert(crate::magds::spec_find_sensor(mpre.sensors, namev) == si_spec);
                        assert(clamp0(features@[i as int].2 as int) == features@[i as int].2
                            as int);
                        assert(magds@ =~~= spec_apply_feature(
                            mpre,
                            namev,
                            qv,
                            features@[i as int].2 as int,
                            fuzzy,
                        ));
                    }
                }
                let mut t: usize = 0;
                while t < touched.len()
                    invariant
                        0 <= t <= touched@.len(),
                        forall|a: int, b: int|
                            0 <= a < b < candidates@.len() ==> (#[trigger] candidates@[a])@ != (
                            #[trigger] candidates@[b])@,
                        same_topology(m0, mpre),
                        fm == features_model(features@),
                        i < features@.len(),
                        namev == fm[i as int].0,
                        qv == fm[i as int].1,
                        all_small(m0) ==> {
                            &&& si_spec == crate::magds::spec_find_sensor(m0.sensors, namev)
                            &&& 0 <= si_spec < m0.sensors.len()
                            &&& crate::value::tag_of(qv) == m0.sensors[si_spec].data_type
                            &&& si_spec >= 0
                            &&& candidates@.len() >= cpre.len()
                            &&& forall|j: int|
                                0 <= j < cpre.len() ==> (#[trigger] candidates@[j])@ == cpre[j]@
                            &&& forall|j: int|
                                0 <= j < touched@.len() ==> crate::magds::spec_touched_id(
                                    mpre.sensors[si_spec],
                                    qv,
                                    fuzzy,
                                    true,
                                    (#[trigger] touched@[j])@,
                                )
                            &&& forall|j: int|
                                0 <= j < candidates@.len() ==> spec_candidate_upto(
                                    m0,
                                    fm,
                                    fuzzy,
                                    i as int + 1,
                                    (#[trigger] candidates@[j])@,
                                )
                            &&& forall|tt: int|
                                0 <= tt < t ==> crate::magds::covered_id(
                                    candidates@,
                                    (#[trigger] touched@[tt])@,
                                )
                            &&& forall|x: crate::neuron::IdModel|
                                #![trigger spec_candidate_upto(m0, fm, fuzzy, i as int, x)]
                                spec_candidate_upto(m0, fm, fuzzy, i as int, x)
                                    ==> crate::magds::covered_id(candidates@, x)
                        },
                    decreases touched@.len() - t,
                {
                    let id = touched[t].duplicate();
                    let ghost c0 = candidates@;
                    let ghost nv = id@;
                    proof {
                        if all_small(m0) {
                            lemma_same_topology_at(m0, mpre, si_spec);
                            lemma_touched_topology(
                                mpre.sensors[si_spec],
                                m0.sensors[si_spec],
                                qv,
                                fuzzy,
                                true,
                                nv,
                            );
                            assert(feature_touches(m0, namev, qv, fuzzy, nv));
                            assert(spec_candidate_upto(m0, fm, fuzzy, i as int + 1, nv)) by {
                                assert(feature_touches(
                                    m0,
                                    (fm[i as int]).0,
                                    fm[i as int].1,
                                    fuzzy,
                                    nv,
                                ));
                            }
                        }
                    }
                    push_candidate(&mut candidates, id);
                    proof {
                        assert forall|a: int, b: int|
                            0 <= a < b < candidates@.len() implies (#[trigger] candidates@[a])@
                            != (#[trigger] candidates@[b])@ by {
                            if b >= c0.len() {
                                assert(candidates@[a]@ == c0[a]@);
                                assert(candidates@[b]@ == nv);
                            } else {
                                assert(candidates@[a]@ == c0[a]@);
                                assert(candidates@[b]@ == c0[b]@);
                            }
                        }
                        if all_small(m0) {
                            assert forall|j: int| 0 <= j < candidates@.len() implies
                                spec_candidate_upto(
                                m0,
                                fm,
                                fuzzy,
                                i as int + 1,
                                (#[trigger] candidates@[j])@,
                            ) by {
                                if j < c0.len() {
                                    assert(candidates@[j]@ == c0[j]@);
                                } else {
                                    assert(candidates@[j]@ == nv);
                                }
                            }
                            assert forall|tt: int| 0 <= tt < t + 1 implies
                                crate::magds::covered_id(
                                candidates@,
                                (#[trigger] touched@[tt])@,
                            ) by {
                                if tt < t {
                                    lemma_covered_mono_pred(c0, candidates@, touched@[tt]@);
                                } else {
                                    let w = choose|w: int|
                                        0 <= w < candidates@.len() && (
                                        #[trigger] candidates@[w])@ == nv;
                                    assert((candidates@[w])@ == touched@[tt]@);
                                }
                            }
                            assert forall|x: crate::neuron::IdModel|
                                spec_candidate_upto(m0, fm, fuzzy, i as int, x) implies
                                crate::magds::covered_id(candidates@, x) by {
                                lemma_covered_mono_pred(c0, candidates@, x);
                            }
                        }
                    }
                    t += 1;
                }
                proof {
                    if all_small(m0) {
                        assert forall|x: crate::neuron::IdModel|
                            spec_candidate_upto(m0, fm, fuzzy, i as int + 1, x) implies
                            crate::magds::covered_id(candidates@, x) by {
                            let f = choose|f: int|
                                0 <= f < i as int + 1 && feature_touches(
                                    m0,
                                    (#[trigger] fm[f]).0,
                                    fm[f].1,
                                    fuzzy,
                                    x,
                                );
                            if f < i as int {
                                assert(spec_candidate_upto(m0, fm, fuzzy, i as int, x));
                            } else {
                                lemma_same_topology_at(m0, mpre, si_spec);
                                lemma_touched_topology(
                                    m0.sensors[si_spec],
                                    mpre.sensors[si_spec],
                                    qv,
                                    fuzzy,
                                    true,
                                    x,
                                );
                                assert(crate::magds::spec_touched_id(
                                    mpre.sensors[si_spec],
                                    qv,
                                    fuzzy,
                                    true,
                                    x,
                                ));
                                assert(crate::magds::covered_id(touched@, x));
                                let w = choose|w: int|
                                    0 <= w < touched@.len() && (#[trigger] touched@[w])@ == x;
                                assert(crate::magds::covered_id(candidates@, touched@[w]@));
                            }
                        }
                    }
                }
            },
            Err(_) => {
                proof {
                    if all_small(m0) {
                        assert(magds@ =~~= spec_apply_feature(
                            mpre,
                            namev,
                            qv,
                            features@[i as int].2 as int,
                            fuzzy,
                        )) by {
                            assert(crate::magds::spec_find_sensor(mpre.sensors, namev)
                                == si_spec);
                            if si_spec >= 0 {
                                assert(crate::value::tag_of(qv)
                                    != mpre.sensors[si_spec].data_type);
                            }
                            assert(magds@ =~~= mpre);
                        }
                        assert forall|x: crate::neuron::IdModel|
                            #![trigger spec_candidate_upto(m0, fm, fuzzy, i as int + 1, x)]
                            spec_candidate_upto(m0, fm, fuzzy, i as int + 1, x) implies
                            crate::magds::covered_id(candidates@, x) by {
                            let f = choose|f: int|
                                0 <= f < i as int + 1 && feature_touches(
                                    m0,
                                    (#[trigger] fm[f]).0,
                                    fm[f].1,
                                    fuzzy,
                                    x,
                                );
                            if f == i as int {
                                if si_spec >= 0 {
                                    assert(crate::value::tag_of(qv)
                                        != mpre.sensors[si_spec].data_type);
                                    assert(crate::value::tag_of(qv)
                                        != m0.sensors[si_spec].data_type);
                                }
                                assert(!feature_touches(m0, namev, qv, fuzzy, x));
                            } else {
                                assert(spec_candidate_upto(m0, fm, fuzzy, i as int, x));
                            }
                        }
                        assert forall|j: int| 0 <= j < candidates@.len() implies
                            spec_candidate_upto(
                            m0,
                            fm,
                            fuzzy,
                            i as int + 1,
                            (#[trigger] candidates@[j])@,
                        ) by {
                            assert(spec_candidate_upto(
                                m0,
                                fm,
                                fuzzy,
                                i as int,
                                candidates@[j]@,
                            ));
                            let f = choose|f: int|
                                0 <= f < i as int && feature_touches(
                                    m0,
                                    (#[trigger] fm[f]).0,
                                    fm[f].1,
                                    fuzzy,
                                    candidates@[j]@,
                                );
                            assert(0 <= f < i as int + 1 && feature_touches(
                                m0,
                                fm[f].0,
                                fm[f].1,
                                fuzzy,
                                candidates@[j]@,
                            ));
                        }
                    }
                }
            },
        }
        proof {
            lemma_topology_trans(m0, mpre, magds@);
            assert(fm3[i as int].0 == namev && fm3[i as int].1 == qv && fm3[i as int].2
                == features@[i as int].2 as int);
            if all_small(m0) {
                let pre = fm3.subrange(0, i as int);
                let cur = fm3.subrange(0, i as int + 1);
                assert(cur.drop_last() =~= pre);
                assert(cur.last() == fm3[i as int]);
                assert(magds@ == spec_apply_features(m0, cur, fuzzy));
            }
        }
        wsum = crate::num::sat_plus(wsum, features[i].2);
        i += 1;
    }
    proof {
        if all_small(m0) {
            assert(features_model(features@).len() == features@.len());
            assert(fm3.subrange(0, features@.len() as int) =~= fm3);
        }
    }
    if candidates.len() == 0 {
        proof {
            if all_small(m0) {
                let fm = features_model(features@);
                assert(fm3.map_values(|f: (Seq<char>, ValueModel, int)| (f.0, f.1)) =~= fm);
                assert forall|wid: crate::neuron::IdModel|
                    #![trigger is_winner(m0, fm, fuzzy, magds@, wid)]
                    is_winner(m0, fm, fuzzy, magds@, wid) implies false by {
                    assert(spec_candidate(m0, fm, fuzzy, wid));
                    assert(crate::magds::covered_id(candidates@, wid));
                }
                assert(spec_predict_res(m0, fm3, target@, fuzzy) is None);
            }
        }
        return None;
    }
    // Winner selection: the highest activation, ties to the smallest
    // identifier.
    let mut best: usize = 0;
    let mut best_act: i64 = magds.activation_of(&candidates[0]);
    let mut c: usize = 1;
    while c < candidates.len()
        invariant
            1 <= c <= candidates@.len(),
            0 <= best < c,
            wf_store(magds@),
            forall|a: int, b: int|
                0 <= a < b < candidates@.len() ==> (#[trigger] candidates@[a])@ != (
                #[trigger] candidates@[b])@,
            best_act == spec_activation_of(magds@, candidates@[best as int]@),
            forall|cc: int|
                0 <= cc < c ==> spec_activation_of(magds@, (#[trigger] candidates@[cc])@)
                    <= best_act,
            forall|cc: int|
                0 <= cc < c && cc != best ==> spec_activation_of(
                    magds@,
                    (#[trigger] candidates@[cc])@,
                ) < best_act || (spec_activation_of(magds@, candidates@[cc]@) == best_act
                    && spec_id_lt(candidates@[best as int]@, candidates@[cc]@)),
        decreases candidates@.len() - c,
    {
        let ghost oldbest = best as int;
        let ghost oldact = best_act;
        let act = magds.activation_of(&candidates[c]);
        if act > best_act || (act == best_act && id_lt(&candidates[c], &candidates[best])) {
            best = c;
            best_act = act;
            proof {
                assert forall|cc: int|
                    0 <= cc < c + 1 && cc != best implies spec_activation_of(
                    magds@,
                    (#[trigger] candidates@[cc])@,
                ) < best_act || (spec_activation_of(magds@, candidates@[cc]@) == best_act
                    && spec_id_lt(candidates@[best as int]@, candidates@[cc]@)) by {
                    if cc == oldbest {
                    } else {
                        if spec_activation_of(magds@, candidates@[cc]@) == oldact && act
                            == oldact {
                            lemma_id_lt_trans(
                                candidates@[best as int]@,
                                candidates@[oldbest]@,
                                candidates@[cc]@,
                            );
                        }
                    }
                }
            }
        } else {
            proof {
                if act == best_act {
                    assert(candidates@[c as int]@ != candidates@[best as int]@);
                    lemma_id_lt_props(candidates@[c as int]@, candidates@[best as int]@);
                }
            }
        }
        c += 1;
    }
    let ghost mdone = magds@;
    let ghost fm = features_model(features@);
    let ghost wid = candidates@[best as int]@;
    proof {
        if all_small(m0) {
            assert(spec_candidate(m0, fm, fuzzy, wid));
            assert forall|y: crate::neuron::IdModel|
                #![trigger spec_candidate(m0, fm, fuzzy, y)]
                spec_candidate(m0, fm, fuzzy, y) && y != wid implies spec_activation_of(mdone, y)
                < spec_activation_of(mdone, wid) || (spec_activation_of(mdone, y)
                == spec_activation_of(mdone, wid) && spec_id_lt(wid, y)) by {
                assert(crate::magds::covered_id(candidates@, y));
                let idx = choose|idx: int|
                    0 <= idx < candidates@.len() && (#[trigger] candidates@[idx])@ == y;
                assert(idx != best as int);
                assert(spec_activation_of(mdone, candidates@[idx]@) < best_act || (
                spec_activation_of(mdone, candidates@[idx]@) == best_act && spec_id_lt(
                    wid,
                    candidates@[idx]@,
                )));
            }
            assert(is_winner(m0, fm, fuzzy, mdone, wid));
            assert(spec_activation_of(mdone, wid) == best_act);
        }
    }
    // Probability: winner activation over the weight sum, clamped.
    let proba: i64 = if wsum <= 0 {
        SCALE
    } else {
        let wide: i128 = (best_act as i128) * (SCALE as i128) / (wsum as i128);
        if wide < 0 {
            0
        } else if wide > SCALE as i128 {
            SCALE
        } else {
            wide as i64
        }
    };
    proof {
        if all_small(m0) {
            assert(proba == spec_proba(spec_activation_of(mdone, wid), spec_wsum(
                fm3,
                features@.len() as int,
            )));
        }
    }
    // Read the target value back from the winner.
    let ni = match magds.neuron_from_id(&candidates[best]) {
        Some(ni) => ni,
        None => {
            proof {
                if all_small(m0) {
                    assert forall|w2: crate::neuron::IdModel|
                        #![trigger is_winner(m0, fm, fuzzy, mdone, w2)]
                        is_winner(m0, fm, fuzzy, mdone, w2) && crate::magds::spec_find_neuron(
                            mdone.neurons,
                            w2,
                        ) >= 0 implies false by {
                        lemma_winner_unique(m0, fm, fuzzy, mdone, w2, wid);
                    }
                    assert(fm3.map_values(|f: (Seq<char>, ValueModel, int)| (f.0, f.1)) =~= fm);
                    assert(spec_predict_res(m0, fm3, target@, fuzzy) is None);
                }
            }
            return None;
        },
    };
    match magds.explain_one(ni, target) {
        Some(v) => {
            proof {
                if all_small(m0) {
                    assert(crate::magds::spec_find_neuron(mdone.neurons, wid) == ni);
                    assert(crate::magds::spec_explain_one(mdone, ni as int, target@) == Some(
                        v@,
                    ));
                    assert(fm3.map_values(|f: (Seq<char>, ValueModel, int)| (f.0, f.1)) =~= fm);
                    assert(is_winner(m0, fm, fuzzy, mdone, wid)
                        && crate::magds::spec_find_neuron(mdone.neurons, wid) >= 0
                        && crate::magds::spec_explain_one(
                        mdone,
                        crate::magds::spec_find_neuron(mdone.neurons, wid),
                        target@,
                    ) is Some);
                    let w2 = choose|w2: crate::neuron::IdModel|
                        #![trigger is_winner(m0, fm, fuzzy, mdone, w2)]
                        is_winner(m0, fm, fuzzy, mdone, w2) && crate::magds::spec_find_neuron(
                            mdone.neurons,
                            w2,
                        ) >= 0 && crate::magds::spec_explain_one(
                            mdone,
                            crate::magds::spec_find_neuron(mdone.neurons, w2),
                            target@,
                        ) is Some;
                    lemma_winner_unique(m0, fm, fuzzy, mdone, w2, wid);
                    assert(spec_predict_res(m0, fm3, target@, fuzzy) == Some((v@, proba as int)));
                }
            }
            Some((v, proba))
        },
        None => {
            proof {
                if all_small(m0) {
                    assert forall|w2: crate::neuron::IdModel|
                        #![trigger is_winner(m0, fm, fuzzy, mdone, w2)]
                        is_winner(m0, fm, fuzzy, mdone, w2) && crate::magds::spec_find_neuron(
                            mdone.neurons,
                            w2,
                        ) >= 0 && crate::magds::spec_explain_one(
                            mdone,
                            crate::magds::spec_find_neuron(mdone.neurons, w2),
                            target@,
                        ) is Some implies false by {
                        lemma_winner_unique(m0, fm, fuzzy, mdone, w2, wid);
                    }
                    assert(fm3.map_values(|f: (Seq<char>, ValueModel, int)| (f.0, f.1)) =~= fm);
                    assert(spec_predict_res(m0, fm3, target@, fuzzy) is None);
                }
            }
            None
        },
    }
}

/// Add a candidate unless it is already listed; either way it is listed
/// afterwards, nothing else moves, and distinctness of the listed
/// identifiers is preserved.
fn push_candidate(v: &mut Vec<NeuronId>, id: NeuronId)
    ensures
        final(v)@.len() >= old(v)@.len(),
        forall|j: int| 0 <= j < old(v)@.len() ==> (#[trigger] final(v)@[j])@ == old(v)@[j]@,
        forall|j: int|
            old(v)@.len() <= j < final(v)@.len() ==> (#[trigger] final(v)@[j])@ == id@,
        exists|k: int| 0 <= k < final(v)@.len() && (#[trigger] final(v)@[k])@ == id@,
        final(v)@.len() > old(v)@.len() ==> final(v)@.len() == old(v)@.len() + 1 && (forall|
            j: int,
        |
            0 <= j < old(v)@.len() ==> (#[trigger] final(v)@[j])@ != id@),
{
    let mut i: usize = 0;
    while i < v.len()
        invariant
            0 <= i <= v@.len(),
            v@.len() == old(v)@.len(),
            forall|j: int| 0 <= j < v@.len() ==> (#[trigger] v@[j])@ == old(v)@[j]@,
            forall|j: int| 0 <= j < i ==> (#[trigger] v@[j])@ != id@,
        decreases v@.len() - i,
    {
        if v[i].eq_id(&id) {
            proof {
                assert((v@[i as int])@ == id@);
            }
            return ;
        }
        i += 1;
    }
    v.push(id);
    proof {
        assert((final(v)@[old(v)@.len() as int])@ == id@);
    }
}

/// Growing a candidate list while keeping its prefix keeps every listed
/// identifier listed.
proof fn lemma_covered_mono_pred(r0: Seq<NeuronId>, r1: Seq<NeuronId>, x: crate::neuron::IdModel)
    requires
        r1.len() >= r0.len(),
        forall|j: int| 0 <= j < r0.len() ==> (#[trigger] r1[j])@ == r0[j]@,
        crate::magds::covered_id(r0, x),
    ensures
        crate::magds::covered_id(r1, x),
{
    let idx = choose|idx: int| 0 <= idx < r0.len() && (#[trigger] r0[idx])@ == x;
    assert((r1[idx])@ == x);
}

/// Topological agreement is reflexive.
proof fn lemma_topology_refl(a: crate::magds::StoreModel)
    ensures
        same_topology(a, a),
{
}

/// Topological agreement composes.
proof fn lemma_topology_trans(
    a: crate::magds::StoreModel,
    b: crate::magds::StoreModel,
    c: crate::magds::StoreModel,
)
    requires
        same_topology(a, b),
        same_topology(b, c),
    ensures
        same_topology(a, c),
{
    assert forall|si: int| 0 <= si < a.sensors.len() implies {
        let x = #[trigger] a.sensors[si];
        let y = #[trigger] c.sensors[si];
        &&& x.id == y.id
        &&& x.data_type == y.data_type
        &&& x.elements.len() == y.elements.len()
        &&& forall|ei: int|
            0 <= ei < x.elements.len() ==> (#[trigger] x.elements[ei]).key == y.elements[ei].key
                && x.elements[ei].defined == y.elements[ei].defined && x.elements[ei].counter
                == y.elements[ei].counter
    } by {
        assert(a.sensors[si].id == b.sensors[si].id);
        assert(b.sensors[si].id == c.sensors[si].id);
        assert forall|ei: int|
            0 <= ei < a.sensors[si].elements.len() implies (#[trigger] a.sensors[si].elements[ei]).key
            == c.sensors[si].elements[ei].key && a.sensors[si].elements[ei].defined
            == c.sensors[si].elements[ei].defined && a.sensors[si].elements[ei].counter
            == c.sensors[si].elements[ei].counter by {
            assert(a.sensors[si].elements[ei].key == b.sensors[si].elements[ei].key);
            assert(b.sensors[si].elements[ei].key == c.sensors[si].elements[ei].key);
            assert(a.sensors[si].elements[ei].defined == b.sensors[si].elements[ei].defined);
            assert(b.sensors[si].elements[ei].defined == c.sensors[si].elements[ei].defined);
            assert(a.sensors[si].elements[ei].counter == b.sensors[si].elements[ei].counter);
            assert(b.sensors[si].elements[ei].counter == c.sensors[si].elements[ei].counter);
        }
    }
    assert forall|ni: int| 0 <= ni < a.neurons.len() implies (#[trigger] a.neurons[ni]).id
        == c.neurons[ni].id && a.neurons[ni].to_edges == c.neurons[ni].to_edges by {
        assert(a.neurons[ni].id == b.neurons[ni].id);
        assert(b.neurons[ni].id == c.neurons[ni].id);
        assert(a.neurons[ni].to_edges == b.neurons[ni].to_edges);
        assert(b.neurons[ni].to_edges == c.neurons[ni].to_edges);
    }
}

/// Whether two sensors span representable ranges together survives any
/// topology-preserving step.
proof fn lemma_all_small_topology(a: crate::magds::StoreModel, b: crate::magds::StoreModel)
    requires
        same_topology(a, b),
        all_small(a),
    ensures
        all_small(b),
{
    assert forall|si: int|
        0 <= si < b.sensors.len() implies crate::sensor::small_range(
        #[trigger] b.sensors[si],
    ) by {
        lemma_same_topology_at(a, b, si);
        lemma_touched_topology(
            a.sensors[si],
            b.sensors[si],
            ValueModel::Unknown,
            false,
            false,
            crate::neuron::IdModel { id: Seq::empty(), parent_id: Seq::empty() },
        );
    }
}

/// The features a test row hands back to prediction, walking its defining
/// sensor identifiers in order: every identifier that resolves in the test
/// store contributes its element's key — under its attribute name for a
/// non-target attribute, as the reference value for the target. A target
/// identifier that does not resolve poisons the row (`skip`).
pub open spec fn spec_row_feats(
    m: crate::magds::StoreModel,
    ids: Seq<crate::neuron::IdModel>,
    target: Seq<char>,
) -> (Seq<(Seq<char>, ValueModel)>, Option<ValueModel>, bool)
    decreases ids.len(),
{
    if ids.len() == 0 {
        (Seq::<(Seq<char>, ValueModel)>::empty(), None::<ValueModel>, false)
    } else {
        let (feats, refv, skip) = spec_row_feats(m, ids.drop_last(), target);
        let e = ids.last();
        let si = crate::magds::spec_find_sensor(m.sensors, e.parent_id);
        let looked: Option<ValueModel> = if si >= 0 && crate::sensor::spec_find_elem(
            m.sensors[si].elements,
            e.id,
        ) >= 0 {
            Some(
                m.sensors[si].elements[crate::sensor::spec_find_elem(
                    m.sensors[si].elements,
                    e.id,
                )].key,
            )
        } else {
            None
        };
        if e.parent_id == target {
            if looked is Some {
                (feats, Some(looked.unwrap()), skip)
            } else {
                (feats, refv, true)
            }
        } else {
            if looked is Some {
                (feats.push((e.parent_id, looked.unwrap())), refv, skip)
            } else {
                (feats, refv, skip)
            }
        }
    }
}

/// A probability clamped into `[0, SCALE]`.
pub open spec fn clamp_proba(p: int) -> int {
    if p < 0 {
        0
    } else if p > SCALE as int {
        SCALE as int
    } else {
        p
    }
}

/// The scoring fold over the first `n` test rows: the train store it
/// leaves behind, the accumulated squared distance and probability sum,
/// and whether every usable row predicted something. A failing row
/// freezes the fold.
pub open spec fn spec_score_rows(
    train0: crate::magds::StoreModel,
    test: crate::magds::StoreModel,
    target: Seq<char>,
    fuzzy: bool,
    n: int,
) -> (crate::magds::StoreModel, int, int, bool)
    decreases n,
{
    if n <= 0 {
        (train0, 0int, 0int, true)
    } else {
        let (tm, sq, p, ok) = spec_score_rows(train0, test, target, fuzzy, n - 1);
        if !ok {
            (tm, sq, p, false)
        } else {
            let ids = crate::neuron::spec_sensor_ends(test.neurons[n - 1].to_edges);
            let (feats, refv, skip) = spec_row_feats(test, ids, target);
            if skip || refv is None {
                (tm, sq, p, ok)
            } else if refv.unwrap() is Unknown {
                (tm, sq, p, false)
            } else {
                let fs3 = feats.map_values(
                    |f: (Seq<char>, ValueModel)| (f.0, f.1, SCALE as int),
                );
                let res = spec_predict_res(tm, fs3, target, fuzzy);
                if res is None {
                    (tm, sq, p, false)
                } else {
                    let v = res.unwrap().0;
                    let rv = refv.unwrap();
                    let sq2 = if crate::value::tag_of(v) == crate::value::tag_of(rv) {
                        crate::num::sat128(
                            sq + crate::num::sat128(
                                crate::value::spec_distance(v, rv) * crate::value::spec_distance(
                                    v,
                                    rv,
                                ),
                            ),
                        )
                    } else {
                        sq
                    };
                    (
                        crate::magds::spec_store_cleared(
                            spec_apply_features(tm, fs3, fuzzy),
                        ),
                        sq2,
                        p + clamp_proba(res.unwrap().1),
                        true,
                    )
                }
            }
        }
    }
}

/// Once the fold fails, it stays failed.
proof fn lemma_score_not_ok(
    train0: crate::magds::StoreModel,
    test: crate::magds::StoreModel,
    target: Seq<char>,
    fuzzy: bool,
    a: int,
    b: int,
)
    requires
        0 <= a <= b,
        !spec_score_rows(train0, test, target, fuzzy, a).3,
    ensures
        !spec_score_rows(train0, test, target, fuzzy, b).3,
    decreases b - a,
{
    if a < b {
        lemma_score_not_ok(train0, test, target, fuzzy, a, b - 1);
    }
}

/// Score a trained store against a held-out one: for every test object,
/// rebuild its features from its defining values, predict the target on
/// the trained store, accumulate the squared distance to the recorded
/// target together with the prediction probability, and clear the trained
/// store's activations before the next row. Returns the floor of the
/// square root of the accumulated squared distance (in millionths) and
/// the mean probability over the test rows.
///
/// The whole run is the fold [`spec_score_rows`]: something is returned
/// exactly when the fold succeeds, and then the result and the trained
/// store's final state equal the fold's. A test row without a recorded
/// target is passed over; a row on which prediction finds nothing fails
/// the whole scoring, as does a recorded target that decodes to the
/// `Unknown` poison value.
pub fn prediction_score(train: &mut MAGDS, test: &MAGDS, target: &str, fuzzy: bool) -> (r: Option<
    (u128, i64),
>)
    requires
        wf_store(old(train)@),
        wf_store(test@),
    ensures
        wf_store(final(train)@),
        same_topology(old(train)@, final(train)@),
        wf_conn(old(train)@) ==> wf_conn(final(train)@),
        r is Some ==> 0 <= r.unwrap().1 <= SCALE,
        all_small(old(train)@) ==> (r is Some <==> spec_score_rows(
            old(train)@,
            test@,
            target@,
            fuzzy,
            test@.neurons.len() as int,
        ).3),
        all_small(old(train)@) && r is Some ==> final(train)@ == spec_score_rows(
            old(train)@,
            test@,
            target@,
            fuzzy,
            test@.neurons.len() as int,
        ).0,
        all_small(old(train)@) && r is Some ==> r.unwrap().0 * r.unwrap().0 <= spec_score_rows(
            old(train)@,
            test@,
            target@,
            fuzzy,
            test@.neurons.len() as int,
        ).1 && (r.unwrap().0 + 1) * (r.unwrap().0 + 1) > spec_score_rows(
            old(train)@,
            test@,
            target@,
            fuzzy,
            test@.neurons.len() as int,
        ).1,
        all_small(old(train)@) && r is Some ==> r.unwrap().1 as int == (
        if test@.neurons.len() == 0 {
            0int
        } else {
            spec_score_rows(
                old(train)@,
                test@,
                target@,
                fuzzy,
                test@.neurons.len() as int,
            ).2 / (test@.neurons.len() as int)
        }),
{
    let ghost m0 = train@;
    proof {
        lemma_topology_refl(m0);
    }
    let rows = test.neurons.len();
    if rows == 0 {
        proof {
            if all_small(old(train)@) {
                assert(test@.neurons.len() == 0);
                assert(spec_score_rows(
                    old(train)@,
                    test@,
                    target@,
                    fuzzy,
                    test@.neurons.len() as int,
                ) == (old(train)@, 0int, 0int, true));
                assert((0int) * (0int) <= 0 && (0int + 1) * (0int + 1) > 0) by (nonlinear_arith);
            }
        }
        return Some((0, 0));
    }
    let mut total_sq: u128 = 0;
    let mut total_proba: i128 = 0;
    let mut ni: usize = 0;
    while ni < rows
        invariant
            0 <= ni <= rows,
            rows == test@.neurons.len(),
            wf_store(test@),
            wf_store(train@),
            m0 == old(train)@,
            same_topology(m0, train@),
            same_topology(old(train)@, train@),
            wf_conn(m0) ==> wf_conn(train@),
            wf_conn(old(train)@) ==> wf_conn(train@),
            0 <= total_proba <= ni * (SCALE as int),
            all_small(m0) ==> {
                let fold = spec_score_rows(m0, test@, target@, fuzzy, ni as int);
                &&& fold.3
                &&& train@ == fold.0
                &&& total_sq as int == fold.1
                &&& total_proba as int == fold.2
            },
        decreases rows - ni,
    {
        let ghost foldpre = spec_score_rows(m0, test@, target@, fuzzy, ni as int);
        let sensors = test.neurons[ni].defining_sensors();
        let ghost idsm = sensors@.map_values(|n: NeuronId| n@);
        let mut feats: Vec<(String, DataValue)> = Vec::new();
        let mut reference: Option<DataValue> = None;
        let mut skip = false;
        let mut e: usize = 0;
        proof {
            assert(idsm.subrange(0, 0) =~= Seq::<crate::neuron::IdModel>::empty());
            assert(feats@.map_values(|p: (String, DataValue)| (p.0@, p.1@)) =~= Seq::<(
                Seq<char>,
                ValueModel,
            )>::empty());
        }
        while e < sensors.len()
            invariant
                0 <= e <= sensors@.len(),
                wf_store(test@),
                idsm == sensors@.map_values(|n: NeuronId| n@),
                ({
                    let triple = spec_row_feats(test@, idsm.subrange(0, e as int), target@);
                    &&& feats@.map_values(|p: (String, DataValue)| (p.0@, p.1@)) == triple.0
                    &&& (reference is Some <==> triple.1 is Some)
                    &&& (reference is Some ==> reference.unwrap()@ == triple.1.unwrap())
                    &&& skip == triple.2
                }),
            decreases sensors@.len() - e,
        {
            let ghost pre = idsm.subrange(0, e as int);
            let ghost cur = idsm.subrange(0, e as int + 1);
            let ghost featsm0 = feats@.map_values(|p: (String, DataValue)| (p.0@, p.1@));
            proof {
                assert(cur.drop_last() =~= pre);
                assert(cur.last() == idsm[e as int]);
                assert(idsm[e as int] == sensors@[e as int]@);
            }
            let eid = &sensors[e];
            let looked: Option<DataValue> = match test.sensor_index(eid.parent_id.as_str()) {
                Some(si) => {
                    match test.sensors[si].element_by_local_id(eid.id.as_str()) {
                        Some(ei) => Some(test.sensors[si].elements[ei].key.clone_value()),
                        None => None,
                    }
                },
                None => None,
            };
            if str_eq(eid.parent_id.as_str(), target) {
                match looked {
                    Some(v) => {
                        reference = Some(v);
                    },
                    None => {
                        skip = true;
                    },
                }
            } else {
                match looked {
                    Some(v) => {
                        feats.push((eid.parent_id.clone(), v));
                        proof {
                            assert(feats@.map_values(|p: (String, DataValue)| (p.0@, p.1@))
                                =~= featsm0.push(
                                (eid@.parent_id, spec_row_feats(test@, cur, target@).0.last().1),
                            ));
                        }
                    },
                    None => {},
                }
            }
            e += 1;
            proof {
                assert(feats@.map_values(|p: (String, DataValue)| (p.0@, p.1@)) =~= spec_row_feats(
                    test@,
                    cur,
                    target@,
                ).0);
            }
        }
        proof {
            assert(idsm.subrange(0, idsm.len() as int) =~= idsm);
            assert(idsm == crate::neuron::spec_sensor_ends(test@.neurons[ni as int].to_edges));
        }
        let ghost triple = spec_row_feats(test@, idsm, target@);
        let usable = !skip && matches!(reference, Some(_));
        if usable {
            let reference = match reference {
                Some(v) => v,
                None => DataValue::Unknown,
            };
            if reference.is_unknown() {
                proof {
                    if all_small(m0) {
                        assert(!spec_score_rows(m0, test@, target@, fuzzy, ni as int + 1).3);
                        lemma_score_not_ok(
                            m0,
                            test@,
                            target@,
                            fuzzy,
                            ni as int + 1,
                            rows as int,
                        );
                    }
                }
                return None;
            }
            let ghost mpre = train@;
            let ghost fs3 = triple.0.map_values(
                |f: (Seq<char>, ValueModel)| (f.0, f.1, SCALE as int),
            );
            proof {
                if all_small(m0) {
                    lemma_all_small_topology(m0, mpre);
                }
                assert(plain_features_model3(feats@) =~= fs3);
                assert(plain_features_model(feats@) =~= triple.0);
            }
            let outcome = predict(train, &feats, target, fuzzy);
            proof {
                lemma_topology_trans(m0, mpre, train@);
            }
            let (value, proba) = match outcome {
                Some(p) => p,
                None => {
                    proof {
                        if all_small(m0) {
                            assert(spec_predict_res(mpre, fs3, target@, fuzzy) is None);
                            assert(!spec_score_rows(m0, test@, target@, fuzzy, ni as int + 1).3);
                            lemma_score_not_ok(
                                m0,
                                test@,
                                target@,
                                fuzzy,
                                ni as int + 1,
                                rows as int,
                            );
                        }
                    }
                    return None;
                },
            };
            match distance(&value, &reference) {
                Ok(d) => {
                    total_sq = sat_plus_u128(total_sq, square_sat(d));
                },
                Err(_) => {},
            }
            let p_clamped: i128 = if proba < 0 {
                0
            } else if proba > SCALE {
                SCALE as i128
            } else {
                proba as i128
            };
            total_proba = total_proba + p_clamped;
            let ghost mpre2 = train@;
            train.deactivate();
            proof {
                lemma_topology_trans(m0, mpre2, train@);
                if all_small(m0) {
                    let res = spec_predict_res(mpre, fs3, target@, fuzzy);
                    assert(res == Some((value@, proba as int)));
                    assert(mpre2 == spec_apply_features(mpre, fs3, fuzzy));
                    assert(train@ == crate::magds::spec_store_cleared(mpre2));
                    assert(p_clamped as int == clamp_proba(proba as int));
                    let foldnext = spec_score_rows(m0, test@, target@, fuzzy, ni as int + 1);
                    assert(foldnext.3);
                    assert(train@ == foldnext.0);
                    assert(total_sq as int == foldnext.1);
                    assert(total_proba as int == foldnext.2);
                }
            }
        } else {
            proof {
                if all_small(m0) {
                    assert(spec_score_rows(m0, test@, target@, fuzzy, ni as int + 1)
                        == spec_score_rows(m0, test@, target@, fuzzy, ni as int));
                }
            }
        }
        proof {
            assert((ni + 1) * (SCALE as int) == ni * (SCALE as int) + (SCALE as int))
                by (nonlinear_arith);
            assert(total_proba <= (ni + 1) * (SCALE as int));
        }
        ni += 1;
    }
    let rmse = isqrt(total_sq);
    proof {
        assert(total_proba <= rows * (SCALE as int));
        vstd::arithmetic::div_mod::lemma_div_is_ordered(
            total_proba as int,
            rows * (SCALE as int),
            rows as int,
        );
        vstd::arithmetic::div_mod::lemma_div_multiples_vanish(SCALE as int, rows as int);
        assert(rows * (SCALE as int) == (rows as int) * (SCALE as int));
        assert((rows as int) * (SCALE as int) / (rows as int) == SCALE as int) by {
            assert((rows as int) * (SCALE as int) == (SCALE as int) * (rows as int))
                by (nonlinear_arith);
        }
        vstd::arithmetic::div_mod::lemma_div_pos_is_pos(total_proba as int, rows as int);
    }
    let mean: i128 = total_proba / (rows as i128);
    Some((rmse, mean as i64))
}

} // verus!
