//! Text forms, parsing, and distances of tagged values.

use magds::num::SCALE;
use magds::value::{distance, from_text, DataType, DataValue};

#[test]
fn parse_integers_round_trip() {
    let v = from_text("42", DataType::U8).unwrap();
    assert!(matches!(v, DataValue::U8(42)));
    assert_eq!(v.to_str(), "42");

    let v = from_text("-128", DataType::I8).unwrap();
    assert!(matches!(v, DataValue::I8(-128)));
    assert_eq!(v.to_str(), "-128");

    let v = from_text("340282366920938463463374607431768211455", DataType::U128).unwrap();
    assert!(matches!(v, DataValue::U128(u128::MAX)));

    assert!(from_text("256", DataType::U8).is_none());
    assert!(from_text("abc", DataType::U32).is_none());
    assert!(from_text("", DataType::U32).is_none());
    assert!(from_text("-1", DataType::U64).is_none());
}

#[test]
fn parse_fixed_point() {
    let v = from_text("5.8", DataType::F64).unwrap();
    assert!(matches!(v, DataValue::F64(5_800_000)));
    assert_eq!(v.to_str(), "5.8");

    let v = from_text("-0.25", DataType::F64).unwrap();
    assert!(matches!(v, DataValue::F64(-250_000)));
    assert_eq!(v.to_str(), "-0.25");

    let v = from_text("7", DataType::F32).unwrap();
    assert!(matches!(v, DataValue::F32(7_000_000)));
    assert_eq!(v.to_str(), "7");

    assert!(from_text("1.2345678", DataType::F64).is_none());
    assert!(from_text(".5", DataType::F64).is_none());
    assert!(from_text("5.", DataType::F64).is_none());
    assert!(from_text("NaN", DataType::F64).is_none());
}

#[test]
fn parse_bool_and_strings() {
    assert!(matches!(
        from_text("true", DataType::Bool),
        Some(DataValue::Bool(true))
    ));
    assert!(matches!(
        from_text("false", DataType::Bool),
        Some(DataValue::Bool(false))
    ));
    assert!(from_text("yes", DataType::Bool).is_none());

    let v = from_text("Setosa", DataType::OwnedString).unwrap();
    assert_eq!(v.to_str(), "Setosa");
    assert!(from_text("anything", DataType::Unknown).is_none());
}

#[test]
fn value_text_forms() {
    assert_eq!(DataValue::Bool(true).to_str(), "true");
    assert_eq!(DataValue::I32(-250).to_str(), "-250");
    assert_eq!(DataValue::F64(875_000).to_str(), "0.875");
    assert_eq!(DataValue::F64(5_000_000).to_str(), "5");
    assert_eq!(DataValue::F64(-5_800_000).to_str(), "-5.8");
    assert_eq!(DataValue::F64(123_450).to_str(), "0.12345");
}

#[test]
fn distances() {
    // numeric distance is the difference in millionths
    let d = distance(&DataValue::I32(7), &DataValue::I32(3)).unwrap();
    assert_eq!(d, 4 * SCALE as u128);
    let d = distance(&DataValue::F64(5_800_000), &DataValue::F64(5_100_000)).unwrap();
    assert_eq!(d, 700_000);
    // categorical distance is all or nothing
    let a = DataValue::OwnedString("Setosa".to_string());
    let b = DataValue::OwnedString("Virginica".to_string());
    assert_eq!(distance(&a, &a.clone_value()).unwrap(), 0);
    assert_eq!(distance(&a, &b).unwrap(), SCALE as u128);
    // a tag mismatch is an error
    assert!(distance(&DataValue::I32(1), &DataValue::I64(1)).is_err());
}
