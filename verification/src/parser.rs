//! Ingest of columnar tables into a store.
//!
//! A table of `R` rows becomes `R` object neurons named by their row
//! ordinal; every column becomes one sensor, and every non-null cell is
//! inserted into its column's sensor and connected to its row's neuron by
//! a defining edge. Reading files and inferring column types is the
//! caller's business: the core only consumes plain columnar data.

use vstd::prelude::*;
use vstd::string::*;

use crate::magds::{spec_find_sensor, wf_conn, wf_store, MAGDS};
use crate::neuron::IdModel;
use crate::sensor::{counter_sum, SensorConatiner};
use crate::text::{dec_string, spec_dec};
use crate::value::{DataType, DataVec, DataVecOption, ValueModel};

verus! {

/// One named column of nullable values.
#[derive(Debug)]
pub struct Column {
    pub name: String,
    pub data: DataVecOption,
}

/// A columnar table: a row count and the columns, each as long as the
/// row count.
#[derive(Debug)]
pub struct DataFrame {
    pub rows: usize,
    pub columns: Vec<Column>,
}

/// The mathematical model of a table: each column as its name and cells.
pub open spec fn frame_cols(df: DataFrame) -> Seq<(Seq<char>, Seq<Option<ValueModel>>)> {
    df.columns@.map_values(|c: Column| (c.name@, c.data@))
}

/// Every column has one cell per row.
pub open spec fn wf_frame(df: DataFrame) -> bool {
    forall|j: int|
        0 <= j < frame_cols(df).len() ==> (#[trigger] frame_cols(df)[j]).1.len() == df.rows
}

/// Build a standalone sensor from a dense column and register it; nothing
/// happens for an untyped column.
///
/// The counter sum of the new sensor equals the number of values in the
/// column: every insertion is accounted for.
pub fn sensor_from_datavec(magds: &mut MAGDS, id: &str, data: &DataVec) -> (r: Option<()>)
    requires
        wf_store(old(magds)@),
        spec_find_sensor(old(magds)@.sensors, id@) < 0,
    ensures
        wf_store(final(magds)@),
        wf_conn(old(magds)@) ==> wf_conn(final(magds)@),
        r is Some <==> !(data is Unknown),
        r is None ==> final(magds)@ == old(magds)@,
        r is Some ==> {
            &&& final(magds)@.neurons == old(magds)@.neurons
            &&& final(magds)@.sensors == old(magds)@.sensors.push(
                final(magds)@.sensors.last(),
            )
            &&& final(magds)@.sensors.last().id == id@
            &&& counter_sum(final(magds)@.sensors.last().elements) == data@.len()
            &&& ({
                let s_new = final(magds)@.sensors.last();
                forall|ei: int|
                    0 <= ei < s_new.elements.len() ==> (#[trigger] s_new.elements[ei]).counter
                        == count_value_dense(data@, s_new.elements[ei].key, data@.len() as int)
            })
        },
{
    let tag = data.data_type();
    if matches!(tag, DataType::Unknown) {
        return None;
    }
    let mut sensor = match SensorConatiner::new(id, tag) {
        Ok(s) => s,
        Err(_) => {
            proof {
                assert(false);
            }
            return None;
        },
    };
    let n = data.len();
    let mut i: usize = 0;
    proof {
        assert(counter_sum(sensor@.elements) == 0);
    }
    while i < n
        invariant
            0 <= i <= n,
            n == data@.len(),
            crate::sensor::wf_sensor(sensor@),
            sensor@.id == id@,
            sensor@.data_type == crate::value::tag_of(data@[0int]) || n == 0,
            counter_sum(sensor@.elements) == i,
            forall|e: int|
                0 <= e < sensor@.elements.len() ==> (#[trigger] sensor@.elements[e]).defined.len()
                    == 0,
            forall|e: int|
                0 <= e < sensor@.elements.len() ==> (#[trigger] sensor@.elements[e]).counter
                    == count_value_dense(data@, sensor@.elements[e].key, i as int),
            forall|k: int|
                #![trigger data@[k]]
                0 <= k < i ==> exists|e: int|
                    0 <= e < sensor@.elements.len() && (#[trigger] sensor@.elements[e]).key
                        == data@[k],
            forall|k: int|
                0 <= k < data@.len() ==> crate::value::tag_of(#[trigger] data@[k])
                    == sensor@.data_type,
        decreases n - i,
    {
        let cell = data.get(i);
        let ghost spre = sensor@;
        let ghost pre = sensor@.elements;
        let ei_ret = match sensor.insert(&cell) {
            Ok(e) => e,
            Err(_) => {
                proof {
                    assert(false);
                }
                0
            },
        };
        proof {
            let p = crate::sensor::spec_lb(pre, cell@);
            crate::sensor::lemma_lb_bounds(pre, cell@);
            crate::sensor::lemma_lb_props(pre, cell@, spre.data_type);
            let post = sensor@.elements;
            let matched = p < pre.len() && pre[p].key == cell@;
            assert(data@[i as int] == cell@);
            assert forall|e2: int|
                0 <= e2 < post.len() implies (#[trigger] post[e2]).counter == count_value_dense(
                data@,
                post[e2].key,
                i as int + 1,
            ) by {
                if matched {
                    if e2 != p {
                        if post[e2].key == cell@ {
                            crate::laws::lemma_key_uniqueness(spre, e2, p);
                        }
                    }
                } else {
                    if e2 == p {
                        assert(count_value_dense(data@, cell@, i as int) == 0) by {
                            lemma_count_dense_nonneg(data@, cell@, i as int);
                            if count_value_dense(data@, cell@, i as int) > 0 {
                                lemma_count_dense_pos(data@, cell@, i as int);
                                let k = choose|k: int|
                                    0 <= k < i as int && data@[k] == cell@;
                                let ew = choose|ew: int|
                                    0 <= ew < pre.len() && (#[trigger] pre[ew]).key == data@[k];
                                assert(crate::value::tag_of(cell@) == spre.data_type);
                                if ew < p {
                                    assert(crate::value::value_lt(pre[ew].key, cell@));
                                    crate::value::lemma_value_order(cell@, cell@, cell@);
                                } else if ew == p {
                                    assert(pre[p].key == cell@);
                                } else {
                                    assert(crate::value::value_lt(pre[p].key, pre[ew].key));
                                    assert(!crate::value::value_lt(pre[p].key, cell@));
                                }
                            }
                        }
                    } else {
                        let e0 = if e2 < p {
                            e2
                        } else {
                            e2 - 1
                        };
                        assert(post[e2].key == pre[e0].key);
                        assert(post[e2].counter == pre[e0].counter);
                        if post[e2].key == cell@ {
                            if e0 < p {
                                assert(crate::value::value_lt(pre[e0].key, cell@));
                                crate::value::lemma_value_order(cell@, cell@, cell@);
                            } else {
                                assert(crate::value::value_lt(pre[p].key, pre[e0].key));
                                assert(!crate::value::value_lt(pre[p].key, cell@));
                            }
                        }
                    }
                }
            }
            assert forall|k: int|
                #![trigger data@[k]]
                0 <= k < i + 1 implies exists|e2: int|
                0 <= e2 < post.len() && (#[trigger] post[e2]).key == data@[k] by {
                if k == i {
                    assert(post[ei_ret as int].key == data@[k]);
                } else {
                    let ew = choose|ew: int|
                        0 <= ew < pre.len() && (#[trigger] pre[ew]).key == data@[k];
                    if matched {
                        assert(post[ew].key == pre[ew].key);
                    } else {
                        let e2 = if ew < p {
                            ew
                        } else {
                            ew + 1
                        };
                        assert(post[e2].key == pre[ew].key);
                    }
                }
            }
            assert forall|e: int|
                0 <= e < sensor@.elements.len() implies (#[trigger] sensor@.elements[e]).defined.len()
                == 0 by {
                if p < pre.len() && pre[p].key == cell@ {
                } else {
                    if e == p {
                    } else {
                        let e0 = if e < p {
                            e
                        } else {
                            e - 1
                        };
                        assert(sensor@.elements[e] == pre.insert(
                            p,
                            crate::sensor::spec_new_elem(cell@),
                        )[e]);
                        assert(pre.insert(p, crate::sensor::spec_new_elem(cell@))[e]
                            == pre[e0]);
                    }
                }
            }
        }
        i += 1;
    }
    let prev = magds.add_sensor(sensor);
    proof {
        assert(prev is None);
    }
    Some(())
}

/// Build a sensor from a nullable column, inserting every present cell
/// and connecting it to its row's object neuron by a defining edge.
///
/// The rows are the first `data.len()` object neurons of the store, in
/// order; the counter sum of the new sensor equals the number of present
/// cells.
#[verifier::rlimit(100)]
pub fn connected_sensor_from_datavec(magds: &mut MAGDS, id: &str, data: &DataVecOption) -> (r:
    Option<()>)
    requires
        wf_store(old(magds)@),
        wf_conn(old(magds)@),
        spec_find_sensor(old(magds)@.sensors, id@) < 0,
        data@.len() <= old(magds)@.neurons.len(),
    ensures
        wf_store(final(magds)@),
        wf_conn(final(magds)@),
        r is Some <==> !(data is Unknown),
        r is None ==> final(magds)@ == old(magds)@,
        final(magds)@.neurons.len() == old(magds)@.neurons.len(),
        forall|k: int|
            0 <= k < old(magds)@.neurons.len() ==> (#[trigger] final(magds)@.neurons[k]).id
                == old(magds)@.neurons[k].id,
        forall|k: int|
            0 <= k < old(magds)@.neurons.len() && (k >= data@.len() || data@[k] is None)
                ==> final(magds)@.neurons[k] == #[trigger] old(magds)@.neurons[k],
        forall|j: int|
            0 <= j < old(magds)@.sensors.len() ==> final(magds)@.sensors[j] == #[trigger] old(
                magds,
            )@.sensors[j],
        r is Some ==> {
            &&& final(magds)@.sensors.len() == old(magds)@.sensors.len() + 1
            &&& final(magds)@.sensors[old(magds)@.sensors.len() as int].id == id@
            &&& counter_sum(
                final(magds)@.sensors[old(magds)@.sensors.len() as int].elements,
            ) == count_present(data@, data@.len() as int)
            &&& ({
                let s_new = final(magds)@.sensors[old(magds)@.sensors.len() as int];
                forall|row: int|
                    0 <= row < data@.len() && #[trigger] data@[row] is Some ==> exists|ei: int|
                        0 <= ei < s_new.elements.len() && (#[trigger] s_new.elements[ei]).key
                            == data@[row].unwrap() && s_new.elements[ei].defined.contains(
                            old(magds)@.neurons[row].id,
                        )
            })
            &&& ({
                let s_new = final(magds)@.sensors[old(magds)@.sensors.len() as int];
                forall|ei: int|
                    0 <= ei < s_new.elements.len() ==> (#[trigger] s_new.elements[ei]).counter
                        == count_value(data@, s_new.elements[ei].key, data@.len() as int)
            })
        },
        r is None ==> final(magds)@.sensors == old(magds)@.sensors,
{
    let tag = data.data_type();
    if matches!(tag, DataType::Unknown) {
        return None;
    }
    let ghost m0 = magds@;
    let si = match magds.create_sensor(id, tag) {
        Ok(i) => i,
        Err(_) => {
            proof {
                assert(false);
            }
            return None;
        },
    };
    proof {
        assert(magds@.sensors == m0.sensors.push(magds@.sensors[si as int]));
        assert(si == m0.sensors.len());
        assert(counter_sum(magds@.sensors[si as int].elements) == 0);
        crate::magds::lemma_find_sensor_stable(magds@.sensors, id@, si as int);
    }
    let n = data.len();
    let mut i: usize = 0;
    while i < n
        invariant
            0 <= i <= n,
            n == data@.len(),
            wf_store(magds@),
            wf_conn(magds@),
            si == m0.sensors.len(),
            magds@.sensors.len() == m0.sensors.len() + 1,
            forall|j: int| 0 <= j < m0.sensors.len() ==> magds@.sensors[j] == #[trigger] m0.sensors[j],
            magds@.sensors[si as int].id == id@,
            magds@.neurons.len() == m0.neurons.len(),
            forall|k: int|
                0 <= k < m0.neurons.len() ==> (#[trigger] magds@.neurons[k]).id
                    == m0.neurons[k].id,
            forall|k: int|
                0 <= k < m0.neurons.len() && (k >= data@.len() || data@[k] is None)
                    ==> magds@.neurons[k] == #[trigger] m0.neurons[k],
            n <= m0.neurons.len(),
            counter_sum(magds@.sensors[si as int].elements) == count_present(data@, i as int),
            forall|k: int|
                0 <= k < data@.len() && #[trigger] data@[k] is Some ==> crate::value::tag_of(
                    data@[k].unwrap(),
                ) == magds@.sensors[si as int].data_type,
            spec_find_sensor(magds@.sensors, id@) == si,
            forall|row: int|
                0 <= row < i && #[trigger] data@[row] is Some ==> exists|ei: int|
                    0 <= ei < magds@.sensors[si as int].elements.len() && (
                    #[trigger] magds@.sensors[si as int].elements[ei]).key
                        == data@[row].unwrap() && magds@.sensors[si
                        as int].elements[ei].defined.contains(m0.neurons[row].id),
            forall|ei: int|
                0 <= ei < magds@.sensors[si as int].elements.len() ==> (
                #[trigger] magds@.sensors[si as int].elements[ei]).counter == count_value(
                    data@,
                    magds@.sensors[si as int].elements[ei].key,
                    i as int,
                ),
        decreases n - i,
    {
        let cell = data.get(i);
        proof {
            lemma_count_present_step(data@, i as int);
        }
        match cell {
            Some(v) => {
                let ghost scur = magds@.sensors[si as int];
                proof {
                    lemma_count_present_bound(data@, i as int);
                    assert(count_present(data@, i as int) <= i as int);
                    assert((i as int) < (n as int));
                    assert(n <= usize::MAX);
                    assert(count_present(data@, i as int) < u64::MAX);
                }
                let ei = match magds.sensor_insert(id, &v) {
                    Ok(e) => e,
                    Err(_) => {
                        proof {
                            assert(false);
                        }
                        return None;
                    },
                };
                proof {
                    assert(magds@.sensors[si as int].elements
                        == crate::sensor::spec_insert_elems(scur.elements, v@));
                    assert(spec_find_sensor(magds@.sensors, id@) == si) by {
                        crate::magds::lemma_find_sensor_stable(
                            magds@.sensors,
                            id@,
                            si as int,
                        );
                    }
                }
                let ghost pre_insert_elems = scur.elements;
                proof {
                    // the ordered splice moves the old witnesses without
                    // changing their keys or their recorded objects
                    let post = magds@.sensors[si as int].elements;
                    let p = crate::sensor::spec_lb(pre_insert_elems, v@);
                    crate::sensor::lemma_lb_bounds(pre_insert_elems, v@);
                    assert forall|row: int|
                        0 <= row < i && #[trigger] data@[row] is Some implies exists|e2: int|
                        0 <= e2 < post.len() && (#[trigger] post[e2]).key == data@[row].unwrap()
                            && post[e2].defined.contains(m0.neurons[row].id) by {
                        let e0 = choose|e0: int|
                            0 <= e0 < pre_insert_elems.len() && (
                            #[trigger] pre_insert_elems[e0]).key == data@[row].unwrap()
                                && pre_insert_elems[e0].defined.contains(m0.neurons[row].id);
                        if p < pre_insert_elems.len() && pre_insert_elems[p].key == v@ {
                            assert(post[e0].key == pre_insert_elems[e0].key);
                            assert(post[e0].defined == pre_insert_elems[e0].defined);
                        } else {
                            let e2 = if e0 < p {
                                e0
                            } else {
                                e0 + 1
                            };
                            assert(post[e2] == pre_insert_elems.insert(
                                p,
                                crate::sensor::spec_new_elem(v@),
                            )[e2]);
                            assert(post[e2].key == pre_insert_elems[e0].key);
                            assert(post[e2].defined == pre_insert_elems[e0].defined);
                        }
                    }
                }
                let ghost pre_connect = magds@;
                magds.connect_bilateral(si, ei, i);
                proof {
                    crate::sensor::lemma_counter_sum_update(
                        pre_connect.sensors[si as int].elements,
                        ei as int,
                        magds@.sensors[si as int].elements[ei as int],
                    );
                    assert(spec_find_sensor(magds@.sensors, id@) == si) by {
                        crate::magds::lemma_find_sensor_stable(
                            magds@.sensors,
                            id@,
                            si as int,
                        );
                    }
                    // the new edge keeps every old witness and gives row `i` its own
                    let post = magds@.sensors[si as int].elements;
                    let pre = pre_connect.sensors[si as int].elements;
                    assert forall|row: int|
                        0 <= row < i + 1 && #[trigger] data@[row] is Some implies exists|e2: int|
                        0 <= e2 < post.len() && (#[trigger] post[e2]).key == data@[row].unwrap()
                            && post[e2].defined.contains(m0.neurons[row].id) by {
                        if row == i {
                            assert(post[ei as int].key == data@[row].unwrap());
                            assert(post[ei as int].defined.contains(
                                pre_connect.neurons[i as int].id,
                            ));
                            assert(pre_connect.neurons[i as int].id == m0.neurons[i as int].id);
                        } else {
                            let e0 = choose|e0: int|
                                0 <= e0 < pre.len() && (#[trigger] pre[e0]).key
                                    == data@[row].unwrap() && pre[e0].defined.contains(
                                    m0.neurons[row].id,
                                );
                            if e0 == ei {
                                assert(post[e0].key == pre[e0].key);
                                assert(post[e0].defined.contains(m0.neurons[row].id)) by {
                                    let w = choose|w: int|
                                        0 <= w < pre[e0 as int].defined.len() && pre[e0
                                            as int].defined[w] == m0.neurons[row].id;
                                    assert(post[e0].defined[w] == m0.neurons[row].id);
                                }
                            } else {
                                assert(post[e0] == pre[e0]);
                            }
                        }
                    }
                    // counters after the splice and the edge: the matched
                    // key's multiplicity rises by the new cell, every other
                    // key's stays
                    let p = crate::sensor::spec_lb(scur.elements, v@);
                    crate::sensor::lemma_lb_bounds(scur.elements, v@);
                    crate::sensor::lemma_lb_props(
                        scur.elements,
                        v@,
                        scur.data_type,
                    );
                    assert forall|e2: int|
                        0 <= e2 < post.len() implies (#[trigger] post[e2]).counter
                        == count_value(data@, post[e2].key, i as int + 1) by {
                        let matched = p < scur.elements.len() && scur.elements[p].key == v@;
                        assert(data@[i as int] == Some(v@));
                        if matched {
                            if e2 == p {
                                assert(post[e2].key == v@);
                                assert(post[e2].counter == scur.elements[p].counter + 1);
                            } else {
                                assert(post[e2].key == scur.elements[e2].key);
                                assert(post[e2].counter == scur.elements[e2].counter);
                                if post[e2].key == v@ {
                                    crate::laws::lemma_key_uniqueness(scur, e2, p);
                                }
                            }
                        } else {
                            if e2 == p {
                                assert(post[e2].key == v@);
                                assert(post[e2].counter == 1);
                                assert(count_value(data@, v@, i as int) == 0) by {
                                    lemma_count_value_nonneg(data@, v@, i as int);
                                    if count_value(data@, v@, i as int) > 0 {
                                        lemma_count_value_pos(data@, v@, i as int);
                                        let k = choose|k: int|
                                            0 <= k < i as int && data@[k] == Some(v@);
                                        let ew = choose|ew: int|
                                            0 <= ew < scur.elements.len() && (
                                            #[trigger] scur.elements[ew]).key
                                                == data@[k].unwrap() && scur.elements[ew].defined.contains(
                                                m0.neurons[k].id,
                                            );
                                        assert(crate::value::tag_of(v@) == scur.data_type);
                                        if ew < p {
                                            assert(crate::value::value_lt(
                                                scur.elements[ew].key,
                                                v@,
                                            ));
                                            crate::value::lemma_value_order(v@, v@, v@);
                                        } else if ew == p {
                                            assert(scur.elements[p].key == v@);
                                        } else {
                                            assert(crate::value::value_lt(
                                                scur.elements[p].key,
                                                scur.elements[ew].key,
                                            ));
                                            assert(!crate::value::value_lt(
                                                scur.elements[p].key,
                                                v@,
                                            ));
                                        }
                                    }
                                }
                            } else {
                                let e0 = if e2 < p {
                                    e2
                                } else {
                                    e2 - 1
                                };
                                assert(post[e2].key == scur.elements[e0].key);
                                assert(post[e2].counter == scur.elements[e0].counter);
                                if post[e2].key == v@ {
                                    if e0 < p {
                                        crate::value::lemma_value_order(v@, v@, v@);
                                    } else {
                                        assert(crate::value::value_lt(
                                            scur.elements[p].key,
                                            scur.elements[e0].key,
                                        ));
                                    }
                                }
                            }
                        }
                    }
                }
            },
            None => {
                proof {
                    assert forall|e2: int|
                        0 <= e2 < magds@.sensors[si as int].elements.len() implies (
                    #[trigger] magds@.sensors[si as int].elements[e2]).counter == count_value(
                        data@,
                        magds@.sensors[si as int].elements[e2].key,
                        i as int + 1,
                    ) by {
                        assert(data@[i as int] is None);
                    }
                }
            },
        }
        i += 1;
    }
    Some(())
}

/// The number of the first `n` values of a dense column equal to `v`.
pub open spec fn count_value_dense(cells: Seq<ValueModel>, v: ValueModel, n: int) -> int
    decreases n,
{
    if n <= 0 {
        0
    } else {
        count_value_dense(cells, v, n - 1) + if cells[n - 1] == v {
            1int
        } else {
            0int
        }
    }
}

/// A dense multiplicity is never negative.
pub proof fn lemma_count_dense_nonneg(cells: Seq<ValueModel>, v: ValueModel, n: int)
    ensures
        count_value_dense(cells, v, n) >= 0,
    decreases n,
{
    if n > 0 {
        lemma_count_dense_nonneg(cells, v, n - 1);
    }
}

/// A positive dense multiplicity names a cell.
pub proof fn lemma_count_dense_pos(cells: Seq<ValueModel>, v: ValueModel, n: int)
    requires
        count_value_dense(cells, v, n) > 0,
        n >= 0,
    ensures
        exists|k: int| 0 <= k < n && cells[k] == v,
    decreases n,
{
    if n > 0 && cells[n - 1] != v {
        lemma_count_dense_pos(cells, v, n - 1);
    }
}

/// The number of present cells among the first `n` of a column that hold
/// exactly the value `v`: the multiplicity every duplicate counter must
/// match.
pub open spec fn count_value(cells: Seq<Option<ValueModel>>, v: ValueModel, n: int) -> int
    decreases n,
{
    if n <= 0 {
        0
    } else {
        count_value(cells, v, n - 1) + if cells[n - 1] == Some(v) {
            1int
        } else {
            0int
        }
    }
}

/// A multiplicity is never negative.
pub proof fn lemma_count_value_nonneg(cells: Seq<Option<ValueModel>>, v: ValueModel, n: int)
    ensures
        count_value(cells, v, n) >= 0,
    decreases n,
{
    if n > 0 {
        lemma_count_value_nonneg(cells, v, n - 1);
    }
}

/// A positive multiplicity names a cell.
pub proof fn lemma_count_value_pos(cells: Seq<Option<ValueModel>>, v: ValueModel, n: int)
    requires
        count_value(cells, v, n) > 0,
        n >= 0,
    ensures
        exists|k: int| 0 <= k < n && cells[k] == Some(v),
    decreases n,
{
    if n > 0 && cells[n - 1] != Some(v) {
        lemma_count_value_pos(cells, v, n - 1);
    }
}

/// The number of present cells among the first `n` of a column.
pub open spec fn count_present(cells: Seq<Option<ValueModel>>, n: int) -> int
    decreases n,
{
    if n <= 0 {
        0
    } else {
        count_present(cells, n - 1) + if cells[n - 1] is Some {
            1int
        } else {
            0int
        }
    }
}

/// Unfolding step for the present-cell count.
pub proof fn lemma_count_present_step(cells: Seq<Option<ValueModel>>, i: int)
    requires
        0 <= i,
    ensures
        count_present(cells, i + 1) == count_present(cells, i) + if cells[i] is Some {
            1int
        } else {
            0int
        },
{
}

/// The present-cell count never exceeds the prefix length.
pub proof fn lemma_count_present_bound(cells: Seq<Option<ValueModel>>, n: int)
    requires
        n >= 0,
    ensures
        0 <= count_present(cells, n) <= n,
    decreases n,
{
    if n > 0 {
        lemma_count_present_bound(cells, n - 1);
    }
}

/// The claim a successfully ingested column leaves behind: its sensor is
/// registered under the column name, its counter sum counts the present
/// cells, and every present cell left a defining edge between its value's
/// element and its row's neuron.
pub open spec fn column_ingested(
    m: crate::magds::StoreModel,
    name: Seq<char>,
    cells: Seq<Option<ValueModel>>,
    table: Seq<char>,
) -> bool {
    let si = spec_find_sensor(m.sensors, name);
    &&& si >= 0
    &&& counter_sum(m.sensors[si].elements) == count_present(cells, cells.len() as int)
    &&& forall|row: int|
        0 <= row < cells.len() && #[trigger] cells[row] is Some ==> exists|ei: int|
            0 <= ei < m.sensors[si].elements.len() && (#[trigger] m.sensors[si].elements[ei]).key
                == cells[row].unwrap() && m.sensors[si].elements[ei].defined.contains(
                IdModel { id: spec_dec((row + 1) as nat), parent_id: table },
            )
    &&& forall|ei: int|
        0 <= ei < m.sensors[si].elements.len() ==> (#[trigger] m.sensors[si].elements[ei]).counter
            == count_value(cells, m.sensors[si].elements[ei].key, cells.len() as int)
}

/// Ingest a whole table: one object neuron per row, named by its row
/// ordinal under the table's name, then one connected sensor per column.
///
/// The store ends with exactly one neuron per row and at most one sensor
/// per column; a column whose type cannot be resolved, or whose name
/// collides with an earlier sensor, is passed over.
pub fn magds_from_df(df_name: &str, df: &DataFrame) -> (r: MAGDS)
    requires
        wf_frame(*df),
    ensures
        wf_store(r@),
        wf_conn(r@),
        r@.neurons.len() == df.rows,
        forall|k: int|
            0 <= k < df.rows ==> (#[trigger] r@.neurons[k]).id == (IdModel {
                id: spec_dec((k + 1) as nat),
                parent_id: df_name@,
            }),
        r@.sensors.len() <= df.columns@.len(),
        forall|j: int|
            #![trigger df.columns@[j]]
            0 <= j < df.columns@.len() && !(df.columns@[j].data is Unknown) && (forall|j2: int|
                0 <= j2 < j ==> (#[trigger] df.columns@[j2]).name@ != df.columns@[j].name@)
                ==> column_ingested(r@, df.columns@[j].name@, df.columns@[j].data@, df_name@),
{
    let mut magds = MAGDS::new();
    let rows = df.rows;
    let mut i: usize = 0;
    while i < rows
        invariant
            0 <= i <= rows,
            wf_store(magds@),
            wf_conn(magds@),
            magds@.sensors.len() == 0,
            magds@.neurons.len() == i,
            forall|k: int|
                0 <= k < i ==> (#[trigger] magds@.neurons[k]).id == (IdModel {
                    id: spec_dec((k + 1) as nat),
                    parent_id: df_name@,
                }),
        decreases rows - i,
    {
        let local = dec_string((i as u128) + 1);
        let ghost newid = IdModel { id: spec_dec((i + 1) as nat), parent_id: df_name@ };
        proof {
            assert forall|k: int| 0 <= k < magds@.neurons.len() implies (
            #[trigger] magds@.neurons[k]).id != newid by {
                if magds@.neurons[k].id == newid {
                    crate::text::lemma_dec_injective((k + 1) as nat, (i + 1) as nat);
                }
            }
            crate::magds::lemma_find_neuron_none(magds@.neurons, newid);
        }
        magds.create_neuron(local.as_str(), df_name);
        i += 1;
    }
    let ncols = df.columns.len();
    let mut j: usize = 0;
    while j < ncols
        invariant
            0 <= j <= ncols,
            ncols == df.columns@.len(),
            wf_store(magds@),
            wf_conn(magds@),
            magds@.neurons.len() == rows,
            rows == df.rows,
            wf_frame(*df),
            forall|k: int|
                0 <= k < rows ==> (#[trigger] magds@.neurons[k]).id == (IdModel {
                    id: spec_dec((k + 1) as nat),
                    parent_id: df_name@,
                }),
            magds@.sensors.len() <= j,
            forall|si: int|
                0 <= si < magds@.sensors.len() ==> exists|j3: int|
                    0 <= j3 < j && (#[trigger] df.columns@[j3]).name@ == (
                    #[trigger] magds@.sensors[si]).id,
            forall|j2: int|
                #![trigger df.columns@[j2]]
                0 <= j2 < j && !(df.columns@[j2].data is Unknown) && (forall|j3: int|
                    0 <= j3 < j2 ==> (#[trigger] df.columns@[j3]).name@ != df.columns@[j2].name@)
                    ==> column_ingested(
                    magds@,
                    df.columns@[j2].name@,
                    df.columns@[j2].data@,
                    df_name@,
                ),
        decreases ncols - j,
    {
        let ghost mprev = magds@;
        let cname = df.columns[j].name.clone();
        match magds.sensor_index(cname.as_str()) {
            Some(si_hit) => {
                proof {
                    // a repeated name is passed over: the store is unchanged
                    // and the column that first owned the name keeps its claim
                    assert(magds@.sensors[si_hit as int].id == cname@);
                    assert(exists|j3: int|
                        0 <= j3 < j && (#[trigger] df.columns@[j3]).name@ == cname@);
                }
            },
            None => {
                proof {
                    assert(frame_cols(*df)[j as int].1.len() == df.rows);
                    assert(df.columns@[j as int].data@.len() == df.rows);
                }
                let _ = connected_sensor_from_datavec(
                    &mut magds,
                    cname.as_str(),
                    &df.columns[j].data,
                );
                proof {
                    assert forall|si: int|
                        0 <= si < magds@.sensors.len() implies exists|j3: int|
                        0 <= j3 < j + 1 && (#[trigger] df.columns@[j3]).name@ == (
                        #[trigger] magds@.sensors[si]).id by {
                        if si < mprev.sensors.len() {
                            assert(magds@.sensors[si] == mprev.sensors[si]);
                            let j3 = choose|j3: int|
                                0 <= j3 < j && (#[trigger] df.columns@[j3]).name@
                                    == mprev.sensors[si].id;
                            assert(df.columns@[j3].name@ == magds@.sensors[si].id);
                        } else {
                            assert(magds@.sensors[si].id == cname@);
                            assert(df.columns@[j as int].name@ == magds@.sensors[si].id);
                        }
                    }
                    if !(df.columns@[j as int].data is Unknown) {
                        assert(spec_find_sensor(magds@.sensors, cname@) == mprev.sensors.len())
                            by {
                            crate::magds::lemma_find_sensor_stable(
                                magds@.sensors,
                                cname@,
                                mprev.sensors.len() as int,
                            );
                        }
                        assert(column_ingested(
                            magds@,
                            df.columns@[j as int].name@,
                            df.columns@[j as int].data@,
                            df_name@,
                        )) by {
                            let cells = df.columns@[j as int].data@;
                            assert forall|row: int|
                                0 <= row < cells.len() && #[trigger] cells[row] is Some implies
                                mprev.neurons[row].id == (IdModel {
                                id: spec_dec((row + 1) as nat),
                                parent_id: df_name@,
                            }) by {}
                        }
                    }
                    assert forall|j2: int|
                        #![trigger df.columns@[j2]]
                        0 <= j2 < j && !(df.columns@[j2].data is Unknown) && (forall|j3: int|
                            0 <= j3 < j2 ==> (#[trigger] df.columns@[j3]).name@
                                != df.columns@[j2].name@) implies column_ingested(
                        magds@,
                        df.columns@[j2].name@,
                        df.columns@[j2].data@,
                        df_name@,
                    ) by {
                        assert(column_ingested(
                            mprev,
                            df.columns@[j2].name@,
                            df.columns@[j2].data@,
                            df_name@,
                        ));
                        let si2 = spec_find_sensor(mprev.sensors, df.columns@[j2].name@);
                        crate::magds::lemma_find_sensor_found(
                            mprev.sensors,
                            df.columns@[j2].name@,
                        );
                        assert(magds@.sensors[si2] == mprev.sensors[si2]);
                        assert(spec_find_sensor(magds@.sensors, df.columns@[j2].name@) == si2)
                            by {
                            crate::magds::lemma_find_sensor_stable(
                                magds@.sensors,
                                df.columns@[j2].name@,
                                si2,
                            );
                        }
                    }
                }
            },
        }
        j += 1;
    }
    magds
}

} // verus!
