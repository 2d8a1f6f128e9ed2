//! End-to-end runs on the classic iris table: ingest, prediction, scoring.
//!
//! The measurements are carried in millionths, exactly as parsed from the
//! usual one-decimal text forms; one of the Setosa rows has a missing
//! variety cell.

use magds::magds::MAGDS;
use magds::num::SCALE;
use magds::parser::{
    connected_sensor_from_datavec, magds_from_df, sensor_from_datavec, Column, DataFrame,
};
use magds::predict::{predict, predict_weighted, prediction_score};
use magds::value::{DataValue, DataVec, DataVecOption};

/// The 150 rows: sepal length, sepal width, petal length, petal width (in
/// tenths), and the variety; `None` marks the one missing variety cell.
fn iris_rows() -> Vec<(i64, i64, i64, i64, Option<&'static str>)> {
    let setosa: &[(i64, i64, i64, i64)] = &[
        (51, 35, 14, 2),
        (49, 30, 14, 2),
        (47, 32, 13, 2),
        (46, 31, 15, 2),
        (50, 36, 14, 2),
        (54, 39, 17, 4),
        (46, 34, 14, 3),
        (50, 34, 15, 2),
        (44, 29, 14, 2),
        (49, 31, 15, 1),
        (54, 37, 15, 2),
        (48, 34, 16, 2),
        (48, 30, 14, 1),
        (43, 30, 11, 1),
        (58, 40, 12, 2),
        (57, 44, 15, 4),
        (54, 39, 13, 4),
        (51, 35, 14, 3),
        (57, 38, 17, 3),
        (51, 38, 15, 3),
        (54, 34, 17, 2),
        (51, 37, 15, 4),
        (46, 36, 10, 2),
        (51, 33, 17, 5),
        (48, 34, 19, 2),
        (50, 30, 16, 2),
        (50, 34, 16, 4),
        (52, 35, 15, 2),
        (52, 34, 14, 2),
        (47, 32, 16, 2),
        (48, 31, 16, 2),
        (54, 34, 15, 4),
        (52, 41, 15, 1),
        (55, 42, 14, 2),
        (49, 31, 15, 2),
        (50, 32, 12, 2),
        (55, 35, 13, 2),
        (49, 36, 14, 1),
        (44, 30, 13, 2),
        (51, 34, 15, 2),
        (50, 35, 13, 3),
        (45, 23, 13, 3),
        (44, 32, 13, 2),
        (50, 35, 16, 6),
        (51, 38, 19, 4),
        (48, 30, 14, 3),
        (51, 38, 16, 2),
        (46, 32, 14, 2),
        (53, 37, 15, 2),
        (50, 33, 14, 2),
    ];
    let versicolor: &[(i64, i64, i64, i64)] = &[
        (70, 32, 47, 14),
        (64, 32, 45, 15),
        (69, 31, 49, 15),
        (55, 23, 40, 13),
        (65, 28, 46, 15),
        (57, 28, 45, 13),
        (63, 33, 47, 16),
        (49, 24, 33, 10),
        (66, 29, 46, 13),
        (52, 27, 39, 14),
        (50, 20, 35, 10),
        (59, 30, 42, 15),
        (60, 22, 40, 10),
        (61, 29, 47, 14),
        (56, 29, 36, 13),
        (67, 31, 44, 14),
        (56, 30, 45, 15),
        (58, 27, 41, 10),
        (62, 22, 45, 15),
        (56, 25, 39, 11),
        (59, 32, 48, 18),
        (61, 28, 40, 13),
        (63, 25, 49, 15),
        (61, 28, 47, 12),
        (64, 29, 43, 13),
        (66, 30, 44, 14),
        (68, 28, 48, 14),
        (67, 30, 50, 17),
        (60, 29, 45, 15),
        (57, 26, 35, 10),
        (55, 24, 38, 11),
        (55, 24, 37, 10),
        (58, 27, 39, 12),
        (60, 27, 51, 16),
        (54, 30, 45, 15),
        (60, 34, 45, 16),
        (67, 31, 47, 15),
        (63, 23, 44, 13),
        (56, 30, 41, 13),
        (55, 25, 40, 13),
        (55, 26, 44, 12),
        (61, 30, 46, 14),
        (58, 26, 40, 12),
        (50, 23, 33, 10),
        (56, 27, 42, 13),
        (57, 30, 42, 12),
        (57, 29, 42, 13),
        (62, 29, 43, 13),
        (51, 25, 30, 11),
        (57, 28, 41, 13),
    ];
    let virginica: &[(i64, i64, i64, i64)] = &[
        (63, 33, 60, 25),
        (58, 27, 51, 19),
        (71, 30, 59, 21),
        (63, 29, 56, 18),
        (65, 30, 58, 22),
        (76, 30, 66, 21),
        (49, 25, 45, 17),
        (73, 29, 63, 18),
        (67, 25, 58, 18),
        (72, 36, 61, 25),
        (65, 32, 51, 20),
        (64, 27, 53, 19),
        (68, 30, 55, 21),
        (57, 25, 50, 20),
        (58, 28, 51, 24),
        (64, 32, 53, 23),
        (65, 30, 55, 18),
        (77, 38, 67, 22),
        (77, 26, 69, 23),
        (60, 22, 50, 15),
        (69, 32, 57, 23),
        (56, 28, 49, 20),
        (77, 28, 67, 20),
        (63, 27, 49, 18),
        (67, 33, 57, 21),
        (72, 32, 60, 18),
        (62, 28, 48, 18),
        (61, 30, 49, 18),
        (64, 28, 56, 21),
        (72, 30, 58, 16),
        (74, 28, 61, 19),
        (79, 38, 64, 20),
        (64, 28, 56, 22),
        (63, 28, 51, 15),
        (61, 26, 56, 14),
        (77, 30, 61, 23),
        (63, 34, 56, 24),
        (64, 31, 55, 18),
        (60, 30, 48, 18),
        (69, 31, 54, 21),
        (67, 31, 56, 24),
        (69, 31, 51, 23),
        (58, 27, 51, 19),
        (68, 32, 59, 23),
        (67, 33, 57, 25),
        (67, 30, 52, 23),
        (63, 25, 50, 19),
        (65, 30, 52, 20),
        (62, 34, 54, 23),
        (59, 30, 51, 18),
    ];
    let mut rows = Vec::new();
    for (i, &(a, b, c, d)) in setosa.iter().enumerate() {
        // the last Setosa row has a missing variety cell
        let variety = if i == 49 { None } else { Some("Setosa") };
        rows.push((a, b, c, d, variety));
    }
    for &(a, b, c, d) in versicolor.iter() {
        rows.push((a, b, c, d, Some("Versicolor")));
    }
    for &(a, b, c, d) in virginica.iter() {
        rows.push((a, b, c, d, Some("Virginica")));
    }
    rows
}

/// Tenths to millionths.
fn micros(tenths: i64) -> i64 {
    tenths * SCALE / 10
}

fn iris_frame_of(rows: &[(i64, i64, i64, i64, Option<&'static str>)]) -> DataFrame {
    let mut sl = Vec::new();
    let mut sw = Vec::new();
    let mut pl = Vec::new();
    let mut pw = Vec::new();
    let mut variety = Vec::new();
    for &(a, b, c, d, v) in rows.iter() {
        sl.push(Some(micros(a)));
        sw.push(Some(micros(b)));
        pl.push(Some(micros(c)));
        pw.push(Some(micros(d)));
        variety.push(v.map(|s| s.to_string()));
    }
    DataFrame {
        rows: rows.len(),
        columns: vec![
            Column {
                name: "sepal.length".to_string(),
                data: DataVecOption::Float64Vec(sl),
            },
            Column {
                name: "sepal.width".to_string(),
                data: DataVecOption::Float64Vec(sw),
            },
            Column {
                name: "petal.length".to_string(),
                data: DataVecOption::Float64Vec(pl),
            },
            Column {
                name: "petal.width".to_string(),
                data: DataVecOption::Float64Vec(pw),
            },
            Column {
                name: "variety".to_string(),
                data: DataVecOption::Utf8Vec(variety),
            },
        ],
    }
}

fn iris_magds() -> MAGDS {
    let rows = iris_rows();
    let df = iris_frame_of(&rows);
    magds_from_df("iris", &df)
}

fn counter_of(magds: &MAGDS, sensor: &str, value: &DataValue) -> Option<u64> {
    let ei = magds.sensor_search(sensor, value)?;
    let si = magds.sensor_index(sensor)?;
    Some(magds.sensors[si].elements[ei].counter)
}

#[test]
fn df_to_magds() {
    let magds = iris_magds();
    assert_eq!(magds.neurons.len(), 150);
    assert_eq!(magds.sensors.len(), 5);
    assert_eq!(
        counter_of(
            &magds,
            "variety",
            &DataValue::OwnedString("Versicolor".to_string())
        ),
        Some(50)
    );
    assert_eq!(
        counter_of(
            &magds,
            "variety",
            &DataValue::OwnedString("Setosa".to_string())
        ),
        Some(49)
    );
    assert_eq!(
        counter_of(
            &magds,
            "variety",
            &DataValue::OwnedString("Virginica".to_string())
        ),
        Some(50)
    );
    assert_eq!(
        counter_of(&magds, "sepal.length", &DataValue::F64(5_800_000)),
        Some(7)
    );
    // row neurons are named by their ordinal
    assert!(magds.neuron("1", "iris").is_some());
    assert!(magds.neuron("150", "iris").is_some());
    assert!(magds.neuron("151", "iris").is_none());
}

#[test]
fn csv_to_sensors() {
    // dense columns, nulls skipped, loaded sensor by sensor
    let rows = iris_rows();
    let mut magds = MAGDS::new();
    let mut variety = Vec::new();
    for &(_, _, _, _, v) in rows.iter() {
        if let Some(s) = v {
            variety.push(s.to_string());
        }
    }
    let r = sensor_from_datavec(&mut magds, "variety", &DataVec::Utf8Vec(variety));
    assert!(r.is_some());
    assert_eq!(
        counter_of(
            &magds,
            "variety",
            &DataValue::OwnedString("Versicolor".to_string())
        ),
        Some(50)
    );

    let mut sl = Vec::new();
    for &(a, _, _, _, _) in rows.iter() {
        sl.push(micros(a));
    }
    let r = sensor_from_datavec(&mut magds, "sepal.length", &DataVec::Float64Vec(sl));
    assert!(r.is_some());
    assert_eq!(
        counter_of(&magds, "sepal.length", &DataValue::F64(5_800_000)),
        Some(7)
    );
    // an untyped column is rejected
    assert!(sensor_from_datavec(&mut magds, "broken", &DataVec::Unknown).is_none());
}

fn first_row_features() -> Vec<(String, DataValue)> {
    vec![
        ("sepal.length".to_string(), DataValue::F64(5_100_000)),
        ("sepal.width".to_string(), DataValue::F64(3_500_000)),
        ("petal.length".to_string(), DataValue::F64(1_400_000)),
        ("petal.width".to_string(), DataValue::F64(200_000)),
    ]
}

#[test]
fn predict_present_target() {
    let mut magds = iris_magds();
    let features = first_row_features();
    let (value, proba) = predict(&mut magds, &features, "variety", true).unwrap();
    assert_eq!(value.to_str(), "Setosa");
    assert!(proba > 0 && proba <= SCALE);
}

#[test]
fn predict_weighted_wins_same() {
    let mut magds = iris_magds();
    let features = first_row_features();
    let (_, p_plain) = predict(&mut magds, &features, "variety", true).unwrap();
    magds.deactivate();
    let weighted = vec![
        (
            "petal.length".to_string(),
            DataValue::F64(1_400_000),
            2 * SCALE,
        ),
        (
            "petal.width".to_string(),
            DataValue::F64(200_000),
            2 * SCALE,
        ),
        (
            "sepal.length".to_string(),
            DataValue::F64(5_100_000),
            SCALE,
        ),
        ("sepal.width".to_string(), DataValue::F64(3_500_000), SCALE),
    ];
    let (value, p_weighted) = predict_weighted(&mut magds, &weighted, "variety", true).unwrap();
    assert_eq!(value.to_str(), "Setosa");
    assert!(p_weighted >= p_plain);
}

#[test]
fn prediction_score_deterministic() {
    let rows = iris_rows();
    let mut train_rows = Vec::new();
    let mut test_rows = Vec::new();
    for (i, row) in rows.into_iter().enumerate() {
        // four of five rows of each class train, the fifth is held out
        if i % 5 == 4 {
            test_rows.push(row);
        } else {
            train_rows.push(row);
        }
    }
    let train_df = iris_frame_of(&train_rows);
    let test_df = iris_frame_of(&test_rows);
    let mut train = magds_from_df("iris", &train_df);
    let test = magds_from_df("iris", &test_df);

    let (rmse_1, mean_1) = prediction_score(&mut train, &test, "variety", true).unwrap();
    let (rmse_2, mean_2) = prediction_score(&mut train, &test, "variety", true).unwrap();
    assert!(mean_1 >= 0 && mean_1 <= SCALE);
    assert_eq!(rmse_1, rmse_2);
    assert_eq!(mean_1, mean_2);
}

#[test]
fn ingest_passes_over_bad_columns() {
    // an untyped column and a repeated name leave the rest of the ingest intact
    let df = DataFrame {
        rows: 2,
        columns: vec![
            Column {
                name: "a".to_string(),
                data: DataVecOption::Int32Vec(vec![Some(1), Some(2)]),
            },
            Column {
                name: "broken".to_string(),
                data: DataVecOption::Unknown,
            },
            Column {
                name: "a".to_string(),
                data: DataVecOption::Int32Vec(vec![Some(7), None]),
            },
        ],
    };
    let magds = magds_from_df("t", &df);
    assert_eq!(magds.neurons.len(), 2);
    assert_eq!(magds.sensors.len(), 1);
    assert_eq!(counter_of(&magds, "a", &DataValue::I32(1)), Some(1));
    assert_eq!(counter_of(&magds, "a", &DataValue::I32(7)), None);
}

#[test]
fn connected_column_counts_every_present_cell() {
    let mut magds = MAGDS::new();
    for i in 0..4 {
        // the rows the column will connect to
        let _ = i;
    }
    let mut store = MAGDS::new();
    store.create_neuron("1", "t");
    store.create_neuron("2", "t");
    store.create_neuron("3", "t");
    store.create_neuron("4", "t");
    let data = DataVecOption::Int32Vec(vec![Some(5), None, Some(5), Some(9)]);
    let r = connected_sensor_from_datavec(&mut store, "col", &data);
    assert!(r.is_some());
    assert_eq!(counter_of(&store, "col", &DataValue::I32(5)), Some(2));
    assert_eq!(counter_of(&store, "col", &DataValue::I32(9)), Some(1));
    // the edge stands on both sides
    let si = store.sensor_index("col").unwrap();
    let ei = store.sensor_search("col", &DataValue::I32(9)).unwrap();
    let ni = store.neuron("4", "t").unwrap();
    assert!(store.sensors[si].elements[ei]
        .defined
        .iter()
        .any(|d| d.eq_id(&store.neurons[ni].id)));
    assert!(store.neurons[ni]
        .definitions_to_self
        .iter()
        .any(|e| e.other.parent_id == "col" && e.other.id == "9" && e.other_is_sensor));
    let _ = magds;
}
