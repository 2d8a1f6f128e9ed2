//! The sensor graph: an ordered index over the values of one attribute in
//! which every distinct value is itself a neuron.
//!
//! The elements are kept sorted by key, so the horizontal neighbour links of
//! the design are the physical adjacency in the element vector: the
//! predecessor and successor of an element are the elements beside it.
//! Re-inserting an existing key only raises its duplicate counter.

use vstd::prelude::*;
use vstd::std_specs::vec::vec_index_mut;
use vstd::string::*;

use crate::error::MagdsError;
use crate::neuron::{IdModel, NeuronId};
use crate::num::{sat64, sat_plus, scale_product, sim_micros, spec_sim, SCALE};
use crate::text::str_eq;
use crate::value::{
    data_category_of, spec_category, spec_delta, spec_value_str, tag_of, value_delta, value_lt,
    lemma_value_order, DataCategory, DataType, DataValue, ValueModel,
};

verus! {

/// A sensor-value neuron: one distinct key of the attribute, its duplicate
/// counter, its activation level, and the objects it defines.
#[derive(Debug)]
pub struct Element {
    pub key: DataValue,
    pub activation: i64,
    pub counter: u64,
    pub defined: Vec<NeuronId>,
}

/// The mathematical model of a sensor-value neuron.
#[verifier::ext_equal]
pub struct ElemModel {
    pub key: ValueModel,
    pub activation: int,
    pub counter: int,
    pub defined: Seq<IdModel>,
}

impl View for Element {
    type V = ElemModel;

    open spec fn view(&self) -> ElemModel {
        ElemModel {
            key: self.key@,
            activation: self.activation as int,
            counter: self.counter as int,
            defined: self.defined@.map_values(|n: NeuronId| n@),
        }
    }
}

/// The neuron identifier of the element at index `i` of sensor `s`: the
/// text form of its key under the sensor's name.
pub open spec fn spec_elem_id(s: SensorModel, i: int) -> IdModel {
    IdModel { id: spec_value_str(s.elements[i].key), parent_id: s.id }
}

/// A typed sensor: the attribute name, the key type, and the sorted
/// elements.
#[derive(Debug)]
pub struct SensorConatiner {
    pub id: String,
    pub data_type: DataType,
    pub elements: Vec<Element>,
}

/// The mathematical model of a sensor.
#[verifier::ext_equal]
pub struct SensorModel {
    pub id: Seq<char>,
    pub data_type: DataType,
    pub elements: Seq<ElemModel>,
}

impl View for SensorConatiner {
    type V = SensorModel;

    open spec fn view(&self) -> SensorModel {
        SensorModel {
            id: self.id@,
            data_type: self.data_type,
            elements: self.elements@.map_values(|e: Element| e@),
        }
    }
}

/// Keys strictly increase along the element vector; in particular they are
/// pairwise distinct and the horizontal order is the key order.
pub open spec fn wf_sorted(elems: Seq<ElemModel>) -> bool {
    forall|i: int, j: int|
        0 <= i < j < elems.len() ==> value_lt(#[trigger] elems[i].key, #[trigger] elems[j].key)
}

/// Every key carries the sensor's tag.
pub open spec fn wf_tags(elems: Seq<ElemModel>, t: DataType) -> bool {
    forall|i: int| 0 <= i < elems.len() ==> tag_of(#[trigger] elems[i].key) == t
}

/// Counters count at least the first insertion; activations never go below
/// zero; no element records the same defined object twice.
pub open spec fn wf_elems(elems: Seq<ElemModel>) -> bool {
    forall|i: int|
        0 <= i < elems.len() ==> (#[trigger] elems[i]).counter >= 1 && elems[i].activation >= 0
            && (forall|a: int, b: int|
            0 <= a < b < elems[i].defined.len() ==> elems[i].defined[a] != elems[i].defined[b])
}

/// The well-formedness of a sensor.
pub open spec fn wf_sensor(s: SensorModel) -> bool {
    &&& s.data_type != DataType::Unknown
    &&& wf_sorted(s.elements)
    &&& wf_tags(s.elements, s.data_type)
    &&& wf_elems(s.elements)
}

/// The sum of all duplicate counters of a sensor: with each insertion it
/// grows by exactly one, so it always equals the number of insertions
/// performed.
pub open spec fn counter_sum(elems: Seq<ElemModel>) -> int
    decreases elems.len(),
{
    if elems.len() == 0 {
        0
    } else {
        elems[0].counter + counter_sum(elems.skip(1))
    }
}

/// Replacing one element changes the sum by the counter difference.
pub proof fn lemma_counter_sum_update(elems: Seq<ElemModel>, i: int, e: ElemModel)
    requires
        0 <= i < elems.len(),
    ensures
        counter_sum(elems.update(i, e)) == counter_sum(elems) - elems[i].counter + e.counter,
    decreases elems.len(),
{
    let u = elems.update(i, e);
    if i == 0 {
        assert(u.skip(1) =~= elems.skip(1));
    } else {
        assert(u.skip(1) =~= elems.skip(1).update(i - 1, e));
        lemma_counter_sum_update(elems.skip(1), i - 1, e);
    }
}

/// Inserting an element adds its counter to the sum.
pub proof fn lemma_counter_sum_insert(elems: Seq<ElemModel>, i: int, e: ElemModel)
    requires
        0 <= i <= elems.len(),
    ensures
        counter_sum(elems.insert(i, e)) == counter_sum(elems) + e.counter,
    decreases elems.len(),
{
    let u = elems.insert(i, e);
    if i == 0 {
        assert(u.skip(1) =~= elems);
        assert(u[0] == e);
    } else {
        assert(u[0] == elems[0]);
        assert(u.skip(1) =~= elems.skip(1).insert(i - 1, e));
        lemma_counter_sum_insert(elems.skip(1), i - 1, e);
    }
}

/// Every counter is at most the whole sum.
pub proof fn lemma_counter_le_sum(elems: Seq<ElemModel>, i: int)
    requires
        0 <= i < elems.len(),
        wf_elems(elems),
    ensures
        elems[i].counter <= counter_sum(elems),
        counter_sum(elems) >= 0,
    decreases elems.len(),
{
    assert(wf_elems(elems.skip(1))) by {
        assert(forall|k: int|
            0 <= k < elems.len() - 1 ==> elems.skip(1)[k] == #[trigger] elems[k + 1]);
    }
    if elems.len() > 0 {
        if i == 0 {
            lemma_counter_sum_nonneg(elems.skip(1));
        } else {
            lemma_counter_le_sum(elems.skip(1), i - 1);
        }
    }
}

/// With well-formed elements the sum is non-negative.
pub proof fn lemma_counter_sum_nonneg(elems: Seq<ElemModel>)
    requires
        wf_elems(elems),
    ensures
        counter_sum(elems) >= 0,
    decreases elems.len(),
{
    if elems.len() > 0 {
        assert(wf_elems(elems.skip(1))) by {
            assert(forall|k: int|
                0 <= k < elems.len() - 1 ==> elems.skip(1)[k] == #[trigger] elems[k + 1]);
        }
        lemma_counter_sum_nonneg(elems.skip(1));
    }
}

/// The number of keys below `v`: the position at which `v` lives or would
/// be inserted.
pub open spec fn spec_lb(elems: Seq<ElemModel>, v: ValueModel) -> int
    decreases elems.len(),
{
    if elems.len() == 0 {
        0
    } else if value_lt(elems[0].key, v) {
        1 + spec_lb(elems.skip(1), v)
    } else {
        0
    }
}

/// The bound always lies within the element vector.
pub proof fn lemma_lb_bounds(elems: Seq<ElemModel>, v: ValueModel)
    ensures
        0 <= spec_lb(elems, v) <= elems.len(),
    decreases elems.len(),
{
    if elems.len() > 0 && value_lt(elems[0].key, v) {
        lemma_lb_bounds(elems.skip(1), v);
    }
}

/// In a sorted sensor the keys split at the bound: strictly below it
/// before, not below it from there on.
pub proof fn lemma_lb_props(elems: Seq<ElemModel>, v: ValueModel, t: DataType)
    requires
        wf_sorted(elems),
        wf_tags(elems, t),
        tag_of(v) == t,
        t != DataType::Unknown,
    ensures
        0 <= spec_lb(elems, v) <= elems.len(),
        forall|i: int| 0 <= i < spec_lb(elems, v) ==> value_lt(#[trigger] elems[i].key, v),
        forall|i: int|
            spec_lb(elems, v) <= i < elems.len() ==> !value_lt(#[trigger] elems[i].key, v),
    decreases elems.len(),
{
    if elems.len() > 0 {
        let rest = elems.skip(1);
        assert(wf_sorted(rest) && wf_tags(rest, t)) by {
            assert(forall|k: int| 0 <= k < elems.len() - 1 ==> rest[k] == #[trigger] elems[k + 1]);
        }
        lemma_lb_props(rest, v, t);
        let p = spec_lb(elems, v);
        if value_lt(elems[0].key, v) {
            assert(forall|i: int|
                1 <= i < p ==> value_lt(#[trigger] elems[i].key, v) == value_lt(
                    rest[i - 1].key,
                    v,
                ));
            assert(forall|i: int|
                p <= i < elems.len() ==> value_lt(#[trigger] elems[i].key, v) == value_lt(
                    rest[i - 1].key,
                    v,
                ));
        } else {
            assert forall|i: int| 0 <= i < elems.len() implies !value_lt(
                #[trigger] elems[i].key,
                v,
            ) by {
                if i > 0 {
                    if value_lt(elems[i].key, v) {
                        lemma_value_order(elems[0].key, elems[i].key, v);
                    }
                }
            }
        }
    }
}

/// A freshly observed key: counter one, no activation, no edges yet.
pub open spec fn spec_new_elem(v: ValueModel) -> ElemModel {
    ElemModel { key: v, activation: 0, counter: 1, defined: Seq::<IdModel>::empty() }
}

/// The elements after inserting `v`: an existing key has its counter
/// raised, a new key is spliced in at its ordered position.
pub open spec fn spec_insert_elems(elems: Seq<ElemModel>, v: ValueModel) -> Seq<ElemModel> {
    let p = spec_lb(elems, v);
    if p < elems.len() && elems[p].key == v {
        elems.update(
            p,
            ElemModel {
                key: elems[p].key,
                activation: elems[p].activation,
                counter: elems[p].counter + 1,
                defined: elems[p].defined,
            },
        )
    } else {
        elems.insert(p, spec_new_elem(v))
    }
}

impl SensorConatiner {
    /// An empty sensor for one attribute; the `Unknown` tag is refused.
    pub fn new(id: &str, data_type: DataType) -> (r: Result<SensorConatiner, MagdsError>)
        ensures
            r is Ok <==> data_type != DataType::Unknown,
            r is Err ==> (r matches Err(MagdsError::InvalidType)),
            r is Ok ==> {
                &&& r.unwrap()@.id == id@
                &&& r.unwrap()@.data_type == data_type
                &&& r.unwrap()@.elements.len() == 0
                &&& wf_sensor(r.unwrap()@)
            },
    {
        if matches!(data_type, DataType::Unknown) {
            Err(MagdsError::InvalidType)
        } else {
            let r = SensorConatiner {
                id: String::from_str(id),
                data_type,
                elements: Vec::new(),
            };
            proof {
                assert(r@.elements =~= Seq::<ElemModel>::empty());
            }
            Ok(r)
        }
    }

    /// The attribute name.
    pub fn id(&self) -> (r: String)
        ensures
            r@ == self@.id,
    {
        self.id.clone()
    }

    /// The key type.
    pub fn data_type(&self) -> (r: DataType)
        ensures
            r == self@.data_type,
    {
        self.data_type
    }

    /// The data category of the key type.
    pub fn data_category(&self) -> (r: DataCategory)
        ensures
            r == spec_category(self@.data_type),
    {
        data_category_of(self.data_type)
    }

    /// The number of distinct keys.
    pub fn len(&self) -> (r: usize)
        ensures
            r == self@.elements.len(),
    {
        self.elements.len()
    }

    /// The position of the first key not below `item`, by binary search.
    fn lower_bound(&self, item: &DataValue) -> (r: usize)
        requires
            wf_sensor(self@),
            tag_of(item@) == self@.data_type,
        ensures
            r == spec_lb(self@.elements, item@),
    {
        let ghost elems = self@.elements;
        proof {
            lemma_lb_props(elems, item@, self@.data_type);
        }
        let mut lo: usize = 0;
        let mut hi: usize = self.elements.len();
        while lo < hi
            invariant
                0 <= lo <= hi <= elems.len(),
                elems == self@.elements,
                wf_sensor(self@),
                tag_of(item@) == self@.data_type,
                forall|i: int| 0 <= i < lo ==> value_lt(#[trigger] elems[i].key, item@),
                forall|i: int| hi <= i < elems.len() ==> !value_lt(#[trigger] elems[i].key, item@),
            decreases hi - lo,
        {
            let mid = lo + (hi - lo) / 2;
            if self.elements[mid].key.lt_value(item) {
                proof {
                    assert forall|i: int| 0 <= i < mid + 1 implies value_lt(
                        #[trigger] elems[i].key,
                        item@,
                    ) by {
                        if i < mid {
                            lemma_value_order(elems[i].key, elems[mid as int].key, item@);
                        }
                    }
                }
                lo = mid + 1;
            } else {
                proof {
                    assert forall|i: int| mid <= i < elems.len() implies !value_lt(
                        #[trigger] elems[i].key,
                        item@,
                    ) by {
                        if i > mid {
                            if value_lt(elems[i].key, item@) {
                                lemma_value_order(elems[mid as int].key, elems[i].key, item@);
                            }
                        }
                    }
                }
                hi = mid;
            }
        }
        proof {
            let p = spec_lb(elems, item@);
            if p < lo {
                assert(value_lt(elems[p].key, item@));
            }
            if p > lo {
                assert(value_lt(elems[lo as int].key, item@));
            }
        }
        lo
    }

    /// Insert a key: an existing key has its counter raised and nothing
    /// else changes, a new key joins at its ordered position with counter
    /// one. Returns the index of the key's element.
    ///
    /// The counter sum rises by exactly one: the sum over a sensor always
    /// equals the number of insertions it has taken.
    pub fn insert(&mut self, item: &DataValue) -> (r: Result<usize, MagdsError>)
        requires
            wf_sensor(old(self)@),
            counter_sum(old(self)@.elements) < u64::MAX,
        ensures
            final(self)@.id == old(self)@.id,
            final(self)@.data_type == old(self)@.data_type,
            r is Err <==> tag_of(item@) != old(self)@.data_type,
            r is Err ==> final(self)@.elements == old(self)@.elements && (r matches Err(
                MagdsError::TypeMismatch { .. },
            )),
            r is Ok ==> {
                &&& final(self)@.elements == spec_insert_elems(old(self)@.elements, item@)
                &&& r.unwrap() == spec_lb(old(self)@.elements, item@)
                &&& r.unwrap() < final(self)@.elements.len()
                &&& final(self)@.elements[r.unwrap() as int].key == item@
                &&& counter_sum(final(self)@.elements) == counter_sum(old(self)@.elements) + 1
            },
            wf_sensor(final(self)@),
    {
        let tag = item.data_type();
        if !self.same_tag(item) {
            return Err(
                MagdsError::TypeMismatch { expected: self.data_type, actual: tag },
            );
        }
        let ghost elems = self@.elements;
        let ghost v = item@;
        proof {
            lemma_lb_props(elems, v, self@.data_type);
        }
        let p = self.lower_bound(item);
        if p < self.elements.len() && self.elements[p].key.eq_value(item) {
            proof {
                lemma_counter_le_sum(elems, p as int);
                lemma_counter_sum_update(
                    elems,
                    p as int,
                    ElemModel {
                        key: elems[p as int].key,
                        activation: elems[p as int].activation,
                        counter: elems[p as int].counter + 1,
                        defined: elems[p as int].defined,
                    },
                );
            }
            let e = vec_index_mut(&mut self.elements, p);
            let c = e.counter;
            e.counter = c + 1;
            proof {
                assert(final(self)@.elements =~= spec_insert_elems(elems, v));
                assert(wf_sorted(final(self)@.elements)) by {
                    assert(forall|i: int|
                        0 <= i < elems.len() ==> (#[trigger] final(self)@.elements[i]).key
                            == elems[i].key);
                }
            }
            Ok(p)
        } else {
            proof {
                lemma_counter_sum_insert(elems, p as int, spec_new_elem(v));
            }
            self.elements.insert(
                p,
                Element { key: item.clone_value(), activation: 0, counter: 1, defined: Vec::new() },
            );
            proof {
                let after = self@.elements;
                let target = elems.insert(p as int, spec_new_elem(v));
                assert forall|i: int| 0 <= i < after.len() implies after[i] =~~= target[i] by {}
                assert(after =~~= target);
                assert(after == spec_insert_elems(elems, v));
                assert(wf_sorted(after)) by {
                    assert forall|i: int, j: int|
                        0 <= i < j < after.len() implies value_lt(
                        #[trigger] after[i].key,
                        #[trigger] after[j].key,
                    ) by {
                        let pi = p as int;
                        if i < pi && j == pi {
                            assert(value_lt(elems[i].key, v));
                        } else if i == pi && j > pi {
                            assert(!value_lt(elems[j - 1].key, v));
                            assert(elems[j - 1].key != v);
                            lemma_value_order(v, elems[j - 1].key, v);
                        } else if i < pi && j > pi {
                            assert(value_lt(elems[i].key, elems[j - 1].key));
                        } else if i > pi && j > pi {
                            assert(value_lt(elems[i - 1].key, elems[j - 1].key));
                        }
                    }
                }
            }
            Ok(p)
        }
    }

    /// Whether `item` carries this sensor's tag.
    fn same_tag(&self, item: &DataValue) -> (r: bool)
        ensures
            r == (tag_of(item@) == self@.data_type),
    {
        let t = item.data_type();
        t == self.data_type
    }

    /// Exact search: the index of the element whose key is `item`, if the
    /// key has been inserted. A tag mismatch finds nothing.
    pub fn search(&self, item: &DataValue) -> (r: Option<usize>)
        requires
            wf_sensor(self@),
        ensures
            r is Some <==> exists|i: int|
                0 <= i < self@.elements.len() && (#[trigger] self@.elements[i]).key == item@,
            r is Some ==> 0 <= r.unwrap() < self@.elements.len()
                && self@.elements[r.unwrap() as int].key == item@,
    {
        let ghost elems = self@.elements;
        if !self.same_tag(item) {
            proof {
                assert forall|i: int|
                    0 <= i < elems.len() implies (#[trigger] elems[i]).key != item@ by {
                    assert(tag_of(elems[i].key) == self@.data_type);
                }
            }
            return None;
        }
        proof {
            lemma_lb_props(elems, item@, self@.data_type);
        }
        let p = self.lower_bound(item);
        if p < self.elements.len() && self.elements[p].key.eq_value(item) {
            Some(p)
        } else {
            proof {
                assert forall|i: int|
                    0 <= i < elems.len() implies (#[trigger] elems[i]).key != item@ by {
                    let pi = p as int;
                    if i < pi {
                        if elems[i].key == item@ {
                            lemma_value_order(elems[i].key, item@, item@);
                        }
                    } else if i > pi {
                        if elems[i].key == item@ {
                            assert(!value_lt(elems[pi].key, item@));
                            assert(value_lt(elems[pi].key, elems[i].key));
                        }
                    }
                }
            }
            None
        }
    }

    /// Fuzzy search: the index of the element whose key lies nearest to
    /// `item` numerically, ties resolved toward the smaller key. Nothing on
    /// an empty sensor.
    pub fn nearest(&self, item: &DataValue) -> (r: Option<usize>)
        requires
            wf_sensor(self@),
            tag_of(item@) == self@.data_type,
            crate::value::num_of(item@) is Some,
        ensures
            r is Some <==> self@.elements.len() > 0,
            r is Some ==> {
                &&& 0 <= r.unwrap() < self@.elements.len()
                &&& forall|j: int|
                    0 <= j < self@.elements.len() ==> spec_delta(
                        item@,
                        self@.elements[r.unwrap() as int].key,
                    ) <= spec_delta(item@, (#[trigger] self@.elements[j]).key)
                &&& forall|j: int|
                    0 <= j < r.unwrap() ==> spec_delta(item@, (#[trigger] self@.elements[j]).key)
                        > spec_delta(item@, self@.elements[r.unwrap() as int].key)
            },
    {
        let ghost elems = self@.elements;
        if self.elements.len() == 0 {
            return None;
        }
        let mut best: usize = 0;
        let mut best_delta: u128 = match value_delta(item, &self.elements[0].key) {
            Some(d) => d,
            None => {
                proof {
                    crate::value::lemma_numeric_tag(item@);
                    crate::value::lemma_numeric_tag(elems[0].key);
                    assert(false);
                }
                0
            },
        };
        let mut j: usize = 1;
        while j < self.elements.len()
            invariant
                1 <= j <= elems.len(),
                0 <= best < j,
                elems == self@.elements,
                wf_sensor(self@),
                tag_of(item@) == self@.data_type,
                crate::value::num_of(item@) is Some,
                best_delta == spec_delta(item@, elems[best as int].key),
                forall|k: int|
                    0 <= k < j ==> best_delta <= spec_delta(item@, (#[trigger] elems[k]).key),
                forall|k: int|
                    0 <= k < best ==> spec_delta(item@, (#[trigger] elems[k]).key) > best_delta,
            decreases elems.len() - j,
        {
            let d = match value_delta(item, &self.elements[j].key) {
                Some(d) => d,
                None => {
                    proof {
                        crate::value::lemma_numeric_tag(item@);
                        crate::value::lemma_numeric_tag(elems[j as int].key);
                        assert(false);
                    }
                    0
                },
            };
            if d < best_delta {
                best = j;
                best_delta = d;
            }
            j += 1;
        }
        Some(best)
    }
}

/// The span of a sensor: the distance between its smallest and greatest
/// key. Zero for at most one distinct key.
pub open spec fn spec_range(elems: Seq<ElemModel>) -> int {
    if elems.len() <= 1 {
        0
    } else {
        spec_delta(elems[0].key, elems[elems.len() - 1].key)
    }
}

/// Similarity, in millionths, of the query `q` to the key of element `j`:
/// `1 - |q - key| / range`, clamped at zero.
pub open spec fn spec_sim_q(s: SensorModel, q: ValueModel, j: int) -> int {
    spec_sim(spec_delta(q, s.elements[j].key), spec_range(s.elements))
}

/// Whether the range arithmetic of this sensor is exactly representable;
/// it can only fail for integer keys more than `u128::MAX / SCALE` apart.
pub open spec fn small_range(s: SensorModel) -> bool {
    spec_range(s.elements) * (SCALE as int) + (SCALE as int) <= u128::MAX
}

/// Whether activating `q` fires element `j`: the exact key for categorical
/// sensors and for calls without horizontal propagation, every key with
/// positive similarity otherwise.
pub open spec fn spec_fired(s: SensorModel, q: ValueModel, ph: bool, j: int) -> bool {
    if spec_category(s.data_type) == DataCategory::Categorical || !ph {
        s.elements[j].key == q
    } else {
        spec_sim_q(s, q, j) > 0
    }
}

/// The activation a fired element receives: the signal weighted by the
/// similarity of its key to the query.
pub open spec fn spec_bump(s: SensorModel, q: ValueModel, ph: bool, signal: int, j: int) -> int {
    if spec_fired(s, q, ph, j) {
        if spec_category(s.data_type) == DataCategory::Categorical {
            signal * (SCALE as int) / (SCALE as int)
        } else {
            signal * spec_sim_q(s, q, j) / (SCALE as int)
        }
    } else {
        0
    }
}

/// The elements after activating `q`: each fired element's activation rises
/// by its bump, everything else stays.
pub open spec fn spec_activated_elems(
    s: SensorModel,
    q: ValueModel,
    ph: bool,
    signal: int,
) -> Seq<ElemModel> {
    Seq::new(
        s.elements.len(),
        |j: int|
            ElemModel {
                key: s.elements[j].key,
                activation: sat64(s.elements[j].activation + spec_bump(s, q, ph, signal, j)),
                counter: s.elements[j].counter,
                defined: s.elements[j].defined,
            },
    )
}

/// The elements after deactivating `q`: each fired element's activation is
/// reset to zero.
pub open spec fn spec_deactivated_elems(s: SensorModel, q: ValueModel, ph: bool) -> Seq<
    ElemModel,
> {
    Seq::new(
        s.elements.len(),
        |j: int|
            ElemModel {
                key: s.elements[j].key,
                activation: if spec_fired(s, q, ph, j) {
                    0
                } else {
                    s.elements[j].activation
                },
                counter: s.elements[j].counter,
                defined: s.elements[j].defined,
            },
    )
}

/// The indices of the elements fired among the first `n`, in order.
pub open spec fn spec_fired_upto(s: SensorModel, q: ValueModel, ph: bool, n: int) -> Seq<int>
    decreases n,
{
    if n <= 0 {
        Seq::<int>::empty()
    } else {
        let rest = spec_fired_upto(s, q, ph, n - 1);
        if spec_fired(s, q, ph, n - 1) {
            rest.push(n - 1)
        } else {
            rest
        }
    }
}

/// The vertical hand-off of an activation: for each fired element among the
/// first `n`, one pair per defined object carrying the element's new
/// activation level.
pub open spec fn spec_emissions_upto(
    post: Seq<ElemModel>,
    s: SensorModel,
    q: ValueModel,
    ph: bool,
    n: int,
) -> Seq<(IdModel, int)>
    decreases n,
{
    if n <= 0 {
        Seq::<(IdModel, int)>::empty()
    } else {
        let rest = spec_emissions_upto(post, s, q, ph, n - 1);
        if spec_fired(s, q, ph, n - 1) {
            rest + post[n - 1].defined.map_values(|d: IdModel| (d, post[n - 1].activation))
        } else {
            rest
        }
    }
}

/// The objects to clear in a vertical deactivation: the defined objects of
/// every fired element among the first `n`.
pub open spec fn spec_targets_upto(s: SensorModel, q: ValueModel, ph: bool, n: int) -> Seq<
    IdModel,
>
    decreases n,
{
    if n <= 0 {
        Seq::<IdModel>::empty()
    } else {
        let rest = spec_targets_upto(s, q, ph, n - 1);
        if spec_fired(s, q, ph, n - 1) {
            rest + s.elements[n - 1].defined
        } else {
            rest
        }
    }
}

/// Set the activation of element `i`, leaving everything else unchanged.
fn elem_set_activation(v: &mut Vec<Element>, i: usize, val: i64)
    requires
        i < old(v)@.len(),
    ensures
        final(v)@.map_values(|e: Element| e@) == old(v)@.map_values(|e: Element| e@).update(
            i as int,
            ElemModel {
                key: old(v)@.map_values(|e: Element| e@)[i as int].key,
                activation: val as int,
                counter: old(v)@.map_values(|e: Element| e@)[i as int].counter,
                defined: old(v)@.map_values(|e: Element| e@)[i as int].defined,
            },
        ),
{
    let ghost m0 = v@.map_values(|e: Element| e@);
    let e = vec_index_mut(v, i);
    e.activation = val;
    proof {
        assert(final(v)@.map_values(|e2: Element| e2@) =~~= m0.update(
            i as int,
            ElemModel {
                key: m0[i as int].key,
                activation: val as int,
                counter: m0[i as int].counter,
                defined: m0[i as int].defined,
            },
        ));
    }
}

impl SensorConatiner {
    /// Fire the elements matching `item` with `signal` and return the
    /// fired indices together with, when vertical propagation is on, one
    /// `(object, level)` pair for every defining edge of a fired element —
    /// the signals the store passes on to the object neurons.
    ///
    /// With horizontal propagation on a non-categorical sensor, every
    /// element with positive similarity to `item` fires at
    /// `signal * similarity`; otherwise only the exact key fires, at the
    /// full signal.
    #[verifier::rlimit(60)]
    pub fn activate(
        &mut self,
        item: &DataValue,
        signal: i64,
        propagate_horizontal: bool,
        propagate_vertical: bool,
    ) -> (r: Result<(Vec<usize>, Vec<(NeuronId, i64)>), MagdsError>)
        requires
            wf_sensor(old(self)@),
            signal >= 0,
        ensures
            final(self)@.id == old(self)@.id,
            final(self)@.data_type == old(self)@.data_type,
            wf_sensor(final(self)@),
            r is Err <==> tag_of(item@) != old(self)@.data_type,
            r is Err ==> final(self)@.elements == old(self)@.elements && (r matches Err(
                MagdsError::TypeMismatch { .. },
            )),
            r is Ok ==> final(self)@.elements.len() == old(self)@.elements.len(),
            r is Ok ==> forall|j: int|
                0 <= j < old(self)@.elements.len() ==> {
                    let e = #[trigger] final(self)@.elements[j];
                    &&& e.key == old(self)@.elements[j].key
                    &&& e.counter == old(self)@.elements[j].counter
                    &&& e.defined == old(self)@.elements[j].defined
                    &&& old(self)@.elements[j].activation <= e.activation <= sat64(
                        old(self)@.elements[j].activation + signal,
                    )
                },
            r is Ok && small_range(old(self)@) ==> {
                let s0 = old(self)@;
                let post = spec_activated_elems(s0, item@, propagate_horizontal, signal as int);
                &&& final(self)@.elements == post
                &&& r.unwrap().0@.map_values(|u: usize| u as int) == spec_fired_upto(
                    s0,
                    item@,
                    propagate_horizontal,
                    s0.elements.len() as int,
                )
                &&& propagate_vertical ==> r.unwrap().1@.map_values(
                    |p: (NeuronId, i64)| (p.0@, p.1 as int),
                ) == spec_emissions_upto(
                    post,
                    s0,
                    item@,
                    propagate_horizontal,
                    s0.elements.len() as int,
                )
            },
            r is Ok && !propagate_vertical ==> r.unwrap().1@.len() == 0,
            r is Ok ==> forall|p: int|
                0 <= p < r.unwrap().1@.len() ==> (#[trigger] r.unwrap().1@[p]).1 >= 0,
    {
        let ghost s0 = self@;
        let ghost q = item@;
        let tag = item.data_type();
        if !self.same_tag(item) {
            return Err(
                MagdsError::TypeMismatch { expected: self.data_type, actual: tag },
            );
        }
        let categorical = matches!(self.data_category(), DataCategory::Categorical);
        let n = self.elements.len();
        let range: u128 = if categorical || n <= 1 {
            0
        } else {
            proof {
                crate::value::lemma_numeric_tag(s0.elements[0].key);
                crate::value::lemma_numeric_tag(q);
            }
            match value_delta(&self.elements[0].key, &self.elements[n - 1].key) {
                Some(d) => d,
                None => {
                    proof {
                        assert(false);
                    }
                    0
                },
            }
        };
        let ghost post = spec_activated_elems(s0, q, propagate_horizontal, signal as int);
        let mut touched: Vec<usize> = Vec::new();
        let mut emissions: Vec<(NeuronId, i64)> = Vec::new();
        let mut j: usize = 0;
        proof {
            assert(touched@.map_values(|u: usize| u as int) =~= Seq::<int>::empty());
            assert(emissions@.map_values(|p: (NeuronId, i64)| (p.0@, p.1 as int)) =~= Seq::<(
                IdModel,
                int,
            )>::empty());
        }
        while j < n
            invariant
                0 <= j <= n,
                n == s0.elements.len(),
                signal >= 0,
                wf_sensor(s0),
                s0 == old(self)@,
                q == item@,
                post == spec_activated_elems(s0, q, propagate_horizontal, signal as int),
                tag_of(q) == s0.data_type,
                categorical == (spec_category(s0.data_type) == DataCategory::Categorical),
                !categorical ==> crate::value::num_of(q) is Some,
                !categorical && n > 1 ==> range == spec_range(s0.elements),
                categorical || n <= 1 ==> range == 0,
                self@.id == s0.id,
                self@.data_type == s0.data_type,
                self@.elements.len() == n,
                forall|k: int| j <= k < n ==> self@.elements[k] == #[trigger] s0.elements[k],
                forall|k: int|
                    0 <= k < j ==> {
                        let e = #[trigger] self@.elements[k];
                        &&& e.key == s0.elements[k].key
                        &&& e.counter == s0.elements[k].counter
                        &&& e.defined == s0.elements[k].defined
                        &&& s0.elements[k].activation <= e.activation <= sat64(
                            s0.elements[k].activation + signal,
                        )
                    },
                small_range(s0) ==> forall|k: int|
                    0 <= k < j ==> self@.elements[k] == #[trigger] post[k],
                small_range(s0) ==> touched@.map_values(|u: usize| u as int) == spec_fired_upto(
                    s0,
                    q,
                    propagate_horizontal,
                    j as int,
                ),
                small_range(s0) && propagate_vertical ==> emissions@.map_values(
                    |p: (NeuronId, i64)| (p.0@, p.1 as int),
                ) == spec_emissions_upto(post, s0, q, propagate_horizontal, j as int),
                !propagate_vertical ==> emissions@.len() == 0,
                forall|p: int| 0 <= p < emissions@.len() ==> (#[trigger] emissions@[p]).1 >= 0,
            decreases n - j,
        {
            let ghost touched0 = touched@.map_values(|u: usize| u as int);
            let ghost em0 = emissions@.map_values(|p: (NeuronId, i64)| (p.0@, p.1 as int));
            let pair: (bool, i64) = if categorical || !propagate_horizontal {
                let f = self.elements[j].key.eq_value(item);
                proof {
                    assert(self@.elements[j as int] == s0.elements[j as int]);
                    if !categorical && f {
                        assert(spec_delta(q, s0.elements[j as int].key) == 0);
                        if spec_range(s0.elements) != 0 {
                            vstd::arithmetic::div_mod::lemma_div_of0(spec_range(s0.elements));
                        }
                        assert(spec_sim_q(s0, q, j as int) == SCALE as int);
                    }
                    assert(f == spec_fired(s0, q, propagate_horizontal, j as int));
                }
                (f, SCALE)
            } else {
                proof {
                    assert(self@.elements[j as int] == s0.elements[j as int]);
                    crate::value::lemma_numeric_tag(q);
                    crate::value::lemma_numeric_tag(s0.elements[j as int].key);
                }
                let delta = match value_delta(item, &self.elements[j].key) {
                    Some(d) => d,
                    None => {
                        proof {
                            assert(false);
                        }
                        0
                    },
                };
                proof {
                    if n <= 1 {
                        assert(spec_range(s0.elements) == 0);
                    }
                    if small_range(s0) {
                        if delta < range {
                            assert(delta * (SCALE as int) <= range * (SCALE as int))
                                by (nonlinear_arith)
                                requires
                                    0 <= delta as int <= range as int,
                            ;
                        }
                    }
                }
                let s2 = sim_micros(delta, range);
                proof {
                    if small_range(s0) {
                        assert(s2 == spec_sim_q(s0, q, j as int));
                        assert((s2 > 0) == spec_fired(s0, q, propagate_horizontal, j as int));
                    }
                }
                (s2 > 0, s2)
            };
            let fired = pair.0;
            let sim = pair.1;
            proof {
                assert(0 <= sim <= SCALE);
                if categorical || !propagate_horizontal {
                    assert(fired == spec_fired(s0, q, propagate_horizontal, j as int));
                } else {
                    if small_range(s0) {
                        assert(sim == spec_sim_q(s0, q, j as int));
                        assert(fired == spec_fired(s0, q, propagate_horizontal, j as int));
                    }
                }
            }
            if fired {
                let bump = scale_product(signal, sim);
                let cur = self.elements[j].activation;
                let na = sat_plus(cur, bump);
                elem_set_activation(&mut self.elements, j, na);
                proof {
                    assert(self@.elements.len() == n);
                }
                touched.push(j);
                proof {
                    assert(touched@.map_values(|u: usize| u as int) =~= touched0.push(j as int));
                }
                if propagate_vertical {
                    let m = self.elements[j].defined.len();
                    let mut k: usize = 0;
                    proof {
                        let defined = self@.elements[j as int].defined;
                        assert(defined.subrange(0, 0).map_values(|d2: IdModel| (d2, na as int))
                            =~= Seq::<(IdModel, int)>::empty());
                        assert(emissions@.map_values(|p: (NeuronId, i64)| (p.0@, p.1 as int))
                            =~= em0 + defined.subrange(0, 0).map_values(
                            |d2: IdModel| (d2, na as int),
                        ));
                    }
                    while k < m
                        invariant
                            0 <= k <= m,
                            0 <= (j as int) < self@.elements.len(),
                            m == self@.elements[j as int].defined.len(),
                            na == self@.elements[j as int].activation,
                            na >= 0,
                            forall|p: int|
                                0 <= p < emissions@.len() ==> (#[trigger] emissions@[p]).1 >= 0,
                            emissions@.map_values(|p: (NeuronId, i64)| (p.0@, p.1 as int)) == em0
                                + self@.elements[j as int].defined.subrange(0, k as int).map_values(
                                |d: IdModel| (d, na as int),
                            ),
                        decreases m - k,
                    {
                        let ghost emk = emissions@.map_values(
                            |p: (NeuronId, i64)| (p.0@, p.1 as int),
                        );
                        let d = self.elements[j].defined[k].duplicate();
                        emissions.push((d, na));
                        proof {
                            let defined = self@.elements[j as int].defined;
                            assert(emissions@.map_values(|p: (NeuronId, i64)| (p.0@, p.1 as int))
                                =~= emk.push((defined[k as int], na as int)));
                            assert(defined.subrange(0, k as int + 1) =~= defined.subrange(
                                0,
                                k as int,
                            ).push(defined[k as int]));
                            assert(emk.push((defined[k as int], na as int)) =~= em0
                                + defined.subrange(0, k as int + 1).map_values(
                                |d2: IdModel| (d2, na as int),
                            ));
                        }
                        k += 1;
                    }
                    proof {
                        let defined = self@.elements[j as int].defined;
                        assert(defined.subrange(0, m as int) =~= defined);
                    }
                }
            }
            j += 1;
            proof {
                if small_range(s0) {
                    if fired {
                        assert(self@.elements[j - 1] =~~= post[j - 1]);
                    } else {
                        assert(self@.elements[j - 1] =~~= post[j - 1]);
                    }
                    assert(touched@.map_values(|u: usize| u as int) =~= spec_fired_upto(
                        s0,
                        q,
                        propagate_horizontal,
                        j as int,
                    ));
                    if propagate_vertical {
                        assert(emissions@.map_values(|p: (NeuronId, i64)| (p.0@, p.1 as int)) =~=
                            spec_emissions_upto(post, s0, q, propagate_horizontal, j as int));
                    }
                }
            }
        }
        proof {
            if small_range(s0) {
                assert(self@.elements =~~= post);
            }
            assert(wf_sorted(self@.elements)) by {
                assert(forall|k: int|
                    0 <= k < n ==> (#[trigger] self@.elements[k]).key == s0.elements[k].key);
            }
        }
        Ok((touched, emissions))
    }

    /// Clear the activation of the elements matching `item` and return the
    /// objects a vertical deactivation must clear next.
    #[verifier::rlimit(60)]
    pub fn deactivate(
        &mut self,
        item: &DataValue,
        propagate_horizontal: bool,
        propagate_vertical: bool,
    ) -> (r: Result<Vec<NeuronId>, MagdsError>)
        requires
            wf_sensor(old(self)@),
        ensures
            final(self)@.id == old(self)@.id,
            final(self)@.data_type == old(self)@.data_type,
            wf_sensor(final(self)@),
            r is Err <==> tag_of(item@) != old(self)@.data_type,
            r is Err ==> final(self)@.elements == old(self)@.elements && (r matches Err(
                MagdsError::TypeMismatch { .. },
            )),
            r is Ok ==> final(self)@.elements.len() == old(self)@.elements.len(),
            r is Ok ==> forall|j: int|
                0 <= j < old(self)@.elements.len() ==> {
                    let e = #[trigger] final(self)@.elements[j];
                    &&& e.key == old(self)@.elements[j].key
                    &&& e.counter == old(self)@.elements[j].counter
                    &&& e.defined == old(self)@.elements[j].defined
                    &&& (e.activation == 0 || e.activation == old(self)@.elements[j].activation)
                },
            r is Ok && small_range(old(self)@) ==> {
                let s0 = old(self)@;
                &&& final(self)@.elements == spec_deactivated_elems(
                    s0,
                    item@,
                    propagate_horizontal,
                )
                &&& propagate_vertical ==> r.unwrap()@.map_values(|d: NeuronId| d@)
                    == spec_targets_upto(
                    s0,
                    item@,
                    propagate_horizontal,
                    s0.elements.len() as int,
                )
            },
            r is Ok && !propagate_vertical ==> r.unwrap()@.len() == 0,
    {
        let ghost s0 = self@;
        let ghost q = item@;
        let tag = item.data_type();
        if !self.same_tag(item) {
            return Err(
                MagdsError::TypeMismatch { expected: self.data_type, actual: tag },
            );
        }
        let categorical = matches!(self.data_category(), DataCategory::Categorical);
        let n = self.elements.len();
        let range: u128 = if categorical || n <= 1 {
            0
        } else {
            proof {
                crate::value::lemma_numeric_tag(s0.elements[0].key);
                crate::value::lemma_numeric_tag(q);
            }
            match value_delta(&self.elements[0].key, &self.elements[n - 1].key) {
                Some(d) => d,
                None => {
                    proof {
                        assert(false);
                    }
                    0
                },
            }
        };
        let ghost post = spec_deactivated_elems(s0, q, propagate_horizontal);
        let mut targets: Vec<NeuronId> = Vec::new();
        let mut j: usize = 0;
        proof {
            assert(targets@.map_values(|d: NeuronId| d@) =~= Seq::<IdModel>::empty());
        }
        while j < n
            invariant
                0 <= j <= n,
                n == s0.elements.len(),
                wf_sensor(s0),
                s0 == old(self)@,
                q == item@,
                post == spec_deactivated_elems(s0, q, propagate_horizontal),
                tag_of(q) == s0.data_type,
                categorical == (spec_category(s0.data_type) == DataCategory::Categorical),
                !categorical ==> crate::value::num_of(q) is Some,
                !categorical && n > 1 ==> range == spec_range(s0.elements),
                categorical || n <= 1 ==> range == 0,
                self@.id == s0.id,
                self@.data_type == s0.data_type,
                self@.elements.len() == n,
                forall|k: int| j <= k < n ==> self@.elements[k] == #[trigger] s0.elements[k],
                forall|k: int|
                    0 <= k < j ==> {
                        let e = #[trigger] self@.elements[k];
                        &&& e.key == s0.elements[k].key
                        &&& e.counter == s0.elements[k].counter
                        &&& e.defined == s0.elements[k].defined
                        &&& (e.activation == 0 || e.activation == s0.elements[k].activation)
                    },
                small_range(s0) ==> forall|k: int|
                    0 <= k < j ==> self@.elements[k] == #[trigger] post[k],
                small_range(s0) && propagate_vertical ==> targets@.map_values(|d: NeuronId| d@)
                    == spec_targets_upto(s0, q, propagate_horizontal, j as int),
                !propagate_vertical ==> targets@.len() == 0,
            decreases n - j,
        {
            let ghost tg0 = targets@.map_values(|d: NeuronId| d@);
            let fired: bool = if categorical || !propagate_horizontal {
                let f = self.elements[j].key.eq_value(item);
                proof {
                    assert(self@.elements[j as int] == s0.elements[j as int]);
                    if !categorical && f {
                        assert(spec_delta(q, s0.elements[j as int].key) == 0);
                        if spec_range(s0.elements) != 0 {
                            vstd::arithmetic::div_mod::lemma_div_of0(spec_range(s0.elements));
                        }
                        assert(spec_sim_q(s0, q, j as int) == SCALE as int);
                    }
                    assert(f == spec_fired(s0, q, propagate_horizontal, j as int));
                }
                f
            } else {
                proof {
                    assert(self@.elements[j as int] == s0.elements[j as int]);
                    crate::value::lemma_numeric_tag(q);
                    crate::value::lemma_numeric_tag(s0.elements[j as int].key);
                }
                let delta = match value_delta(item, &self.elements[j].key) {
                    Some(d) => d,
                    None => {
                        proof {
                            assert(false);
                        }
                        0
                    },
                };
                proof {
                    if n <= 1 {
                        assert(spec_range(s0.elements) == 0);
                    }
                    if small_range(s0) {
                        if delta < range {
                            assert(delta * (SCALE as int) <= range * (SCALE as int))
                                by (nonlinear_arith)
                                requires
                                    0 <= delta as int <= range as int,
                            ;
                        }
                    }
                }
                let sim = sim_micros(delta, range);
                proof {
                    if small_range(s0) {
                        assert(sim == spec_sim_q(s0, q, j as int));
                        assert((sim > 0) == spec_fired(s0, q, propagate_horizontal, j as int));
                    }
                }
                sim > 0
            };
            proof {
                if categorical || !propagate_horizontal {
                    assert(fired == spec_fired(s0, q, propagate_horizontal, j as int));
                } else {
                    if small_range(s0) {
                        assert(fired == spec_fired(s0, q, propagate_horizontal, j as int));
                    }
                }
            }
            if fired {
                elem_set_activation(&mut self.elements, j, 0);
                proof {
                    assert(self@.elements.len() == n);
                }
                if propagate_vertical {
                    let m = self.elements[j].defined.len();
                    let mut k: usize = 0;
                    proof {
                        let defined = self@.elements[j as int].defined;
                        assert(defined.subrange(0, 0) =~= Seq::<IdModel>::empty());
                        assert(targets@.map_values(|d: NeuronId| d@) =~= tg0 + defined.subrange(
                            0,
                            0,
                        ));
                    }
                    while k < m
                        invariant
                            0 <= k <= m,
                            0 <= (j as int) < self@.elements.len(),
                            m == self@.elements[j as int].defined.len(),
                            targets@.map_values(|d: NeuronId| d@) == tg0 + self@.elements[j
                                as int].defined.subrange(0, k as int),
                        decreases m - k,
                    {
                        let ghost tk = targets@.map_values(|d: NeuronId| d@);
                        let d = self.elements[j].defined[k].duplicate();
                        targets.push(d);
                        proof {
                            let defined = self@.elements[j as int].defined;
                            assert(targets@.map_values(|d2: NeuronId| d2@) =~= tk.push(
                                defined[k as int],
                            ));
                            assert(defined.subrange(0, k as int + 1) =~= defined.subrange(
                                0,
                                k as int,
                            ).push(defined[k as int]));
                            assert(tk.push(defined[k as int]) =~= tg0 + defined.subrange(
                                0,
                                k as int + 1,
                            ));
                        }
                        k += 1;
                    }
                    proof {
                        let defined = self@.elements[j as int].defined;
                        assert(defined.subrange(0, m as int) =~= defined);
                    }
                }
            }
            j += 1;
            proof {
                assert forall|k: int| j <= k < n implies self@.elements[k] == #[trigger] s0.elements[k] by {}
                assert forall|k: int| 0 <= k < j implies {
                    let e = #[trigger] self@.elements[k];
                    &&& e.key == s0.elements[k].key
                    &&& e.counter == s0.elements[k].counter
                    &&& e.defined == s0.elements[k].defined
                    &&& (e.activation == 0 || e.activation == s0.elements[k].activation)
                } by {}
                if small_range(s0) {
                    assert(self@.elements[j - 1] =~~= post[j - 1]);
                    if propagate_vertical {
                        assert(targets@.map_values(|d: NeuronId| d@) =~= spec_targets_upto(
                            s0,
                            q,
                            propagate_horizontal,
                            j as int,
                        ));
                    }
                }
            }
        }
        proof {
            if small_range(s0) {
                assert(self@.elements =~~= post);
            }
            assert(wf_sorted(self@.elements)) by {
                assert(forall|k: int|
                    0 <= k < n ==> (#[trigger] self@.elements[k]).key == s0.elements[k].key);
            }
        }
        Ok(targets)
    }

    /// Clear the activation of every element of this sensor.
    pub fn deactivate_sensor(&mut self)
        requires
            wf_sensor(old(self)@),
        ensures
            final(self)@.id == old(self)@.id,
            final(self)@.data_type == old(self)@.data_type,
            wf_sensor(final(self)@),
            final(self)@.elements.len() == old(self)@.elements.len(),
            forall|j: int|
                0 <= j < old(self)@.elements.len() ==> {
                    let e = #[trigger] final(self)@.elements[j];
                    &&& e.key == old(self)@.elements[j].key
                    &&& e.counter == old(self)@.elements[j].counter
                    &&& e.defined == old(self)@.elements[j].defined
                    &&& e.activation == 0
                },
    {
        let ghost s0 = self@;
        let n = self.elements.len();
        let mut j: usize = 0;
        while j < n
            invariant
                0 <= j <= n,
                n == s0.elements.len(),
                s0 == old(self)@,
                self@.id == s0.id,
                self@.data_type == s0.data_type,
                self@.elements.len() == n,
                forall|k: int| j <= k < n ==> self@.elements[k] == #[trigger] s0.elements[k],
                forall|k: int|
                    0 <= k < j ==> {
                        let e = #[trigger] self@.elements[k];
                        &&& e.key == s0.elements[k].key
                        &&& e.counter == s0.elements[k].counter
                        &&& e.defined == s0.elements[k].defined
                        &&& e.activation == 0
                    },
            decreases n - j,
        {
            elem_set_activation(&mut self.elements, j, 0);
            proof {
                assert(self@.elements.len() == n);
            }
            j += 1;
            proof {
                assert forall|k: int| j <= k < n implies self@.elements[k] == #[trigger] s0.elements[k] by {}
                assert forall|k: int| 0 <= k < j implies {
                    let e2 = #[trigger] self@.elements[k];
                    &&& e2.key == s0.elements[k].key
                    &&& e2.counter == s0.elements[k].counter
                    &&& e2.defined == s0.elements[k].defined
                    &&& e2.activation == 0
                } by {}
            }
        }
        proof {
            assert(wf_sorted(self@.elements)) by {
                assert(forall|k: int|
                    0 <= k < n ==> (#[trigger] self@.elements[k]).key == s0.elements[k].key);
            }
        }
    }

    /// The element whose key has the text form `local`, if any: the lookup
    /// behind neuron identifiers.
    pub fn element_by_local_id(&self, local: &str) -> (r: Option<usize>)
        ensures
            r is Some <==> spec_find_elem(self@.elements, local@) >= 0,
            r is Some ==> r.unwrap() == spec_find_elem(self@.elements, local@),
            r is Some <==> exists|i: int|
                0 <= i < self@.elements.len() && spec_value_str(
                    (#[trigger] self@.elements[i]).key,
                ) == local@,
            r is Some ==> 0 <= r.unwrap() < self@.elements.len() && spec_value_str(
                self@.elements[r.unwrap() as int].key,
            ) == local@ && forall|i: int|
                0 <= i < r.unwrap() ==> spec_value_str((#[trigger] self@.elements[i]).key)
                    != local@,
    {
        let n = self.elements.len();
        let mut j: usize = 0;
        while j < n
            invariant
                0 <= j <= n,
                n == self@.elements.len(),
                forall|i: int|
                    0 <= i < j ==> spec_value_str((#[trigger] self@.elements[i]).key) != local@,
            decreases n - j,
        {
            let s = self.elements[j].key.to_str();
            if str_eq(s.as_str(), local) {
                proof {
                    lemma_find_elem_at(self@.elements, local@, j as int);
                }
                return Some(j);
            }
            j += 1;
        }
        proof {
            lemma_find_elem_none(self@.elements, local@);
        }
        None
    }
}

/// The first element whose key has the text form `local`, or `-1`.
pub open spec fn spec_find_elem(elems: Seq<ElemModel>, local: Seq<char>) -> int
    decreases elems.len(),
{
    if elems.len() == 0 {
        -1
    } else if spec_value_str(elems[0].key) == local {
        0
    } else {
        let r = spec_find_elem(elems.skip(1), local);
        if r < 0 {
            -1
        } else {
            r + 1
        }
    }
}

/// A witness position characterises [`spec_find_elem`].
pub proof fn lemma_find_elem_at(elems: Seq<ElemModel>, local: Seq<char>, i: int)
    requires
        0 <= i < elems.len(),
        spec_value_str(elems[i].key) == local,
        forall|j: int| 0 <= j < i ==> spec_value_str((#[trigger] elems[j]).key) != local,
    ensures
        spec_find_elem(elems, local) == i,
    decreases elems.len(),
{
    if i > 0 {
        assert(forall|j: int|
            0 <= j < elems.len() - 1 ==> elems.skip(1)[j] == #[trigger] elems[j + 1]);
        lemma_find_elem_at(elems.skip(1), local, i - 1);
    }
}

/// Without a matching text form the position is `-1`.
pub proof fn lemma_find_elem_none(elems: Seq<ElemModel>, local: Seq<char>)
    requires
        forall|j: int| 0 <= j < elems.len() ==> spec_value_str((#[trigger] elems[j]).key) != local,
    ensures
        spec_find_elem(elems, local) == -1,
    decreases elems.len(),
{
    if elems.len() > 0 {
        assert(forall|j: int|
            0 <= j < elems.len() - 1 ==> elems.skip(1)[j] == #[trigger] elems[j + 1]);
        lemma_find_elem_none(elems.skip(1), local);
    }
}

} // verus!
