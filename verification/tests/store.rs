//! The store: registries, sensors, activation and the error discipline.

use magds::connection::{SimpleAGDSConnection, SimpleMAGDSConnection};
use magds::error::MagdsError;
use magds::magds::MAGDS;
use magds::neuron::{ConnectionKind, NeuronId, SimpleNeuron};
use magds::num::SCALE;
use magds::sensor::SensorConatiner;
use magds::value::{DataType, DataValue};

#[test]
fn create_magds() {
    let mut magds = MAGDS::new();

    let mut sensor_1 = SensorConatiner::new("test", DataType::I32).unwrap();
    for i in 1..=9 {
        sensor_1.insert(&DataValue::I32(i)).unwrap();
    }
    let mut sensor_2 = SensorConatiner::new("test_string", DataType::OwnedString).unwrap();
    for i in 1..=9 {
        sensor_2
            .insert(&DataValue::OwnedString(i.to_string()))
            .unwrap();
    }

    let parent_name = "test";
    let neuron_1 = SimpleNeuron::new("neuron_1", parent_name);
    let neuron_2 = SimpleNeuron::new("neuron_2", parent_name);

    assert!(magds.add_sensor(sensor_1).is_none());
    assert!(magds.add_sensor(sensor_2).is_none());
    magds.add_neuron(neuron_1);
    magds.add_neuron(neuron_2);

    for v in [10, 11, 12] {
        magds.sensor_insert("test", &DataValue::I32(v)).unwrap();
    }
    assert!(matches!(
        magds.sensor_data_type("test"),
        Some(DataType::I32)
    ));

    let mut sum = 0;
    for i in 1..=12 {
        let ei = magds.sensor_search("test", &DataValue::I32(i)).unwrap();
        let sensor = magds.sensor("test").unwrap();
        assert_eq!(sensor.elements[ei].key.to_str(), i.to_string());
        let counter = sensor.elements[ei].counter;
        sum += counter;
        assert_eq!(counter, 1);
    }
    assert_eq!(sum, 12);

    for v in [10, 11, 12] {
        magds
            .sensor_insert("test_string", &DataValue::OwnedString(v.to_string()))
            .unwrap();
    }
    let mut sum = 0;
    for i in 1..=12 {
        let ei = magds
            .sensor_search("test_string", &DataValue::OwnedString(i.to_string()))
            .unwrap();
        let sensor = magds.sensor("test_string").unwrap();
        assert_eq!(sensor.elements[ei].key.to_str(), i.to_string());
        let counter = sensor.elements[ei].counter;
        sum += counter;
        assert_eq!(counter, 1);
    }
    assert_eq!(sum, 12);

    let neuron_1_id = NeuronId::new("neuron_1", "test");
    let ni = magds.neuron_from_id(&neuron_1_id).unwrap();
    assert!(magds.neurons[ni].id.eq_id(&neuron_1_id));
    let ni = magds.neuron("neuron_1", "test").unwrap();
    assert!(magds.neurons[ni].id.eq_id(&neuron_1_id));

    magds
        .create_sensor("rcstr_test", DataType::InternedString)
        .unwrap();
    let element = magds.sensor_insert("rcstr_test", &DataValue::InternedString("test".to_string()));
    assert!(element.is_ok());
}

#[test]
fn tiny_numeric_sensor() {
    // a continuous sensor over the keys 1 .. 9, in millionths
    let mut magds = MAGDS::new();
    magds.create_sensor("x", DataType::F64).unwrap();
    for i in 1..=9i64 {
        magds
            .sensor_insert("x", &DataValue::F64(i * SCALE))
            .unwrap();
    }
    let sensor = magds.sensor("x").unwrap();
    assert_eq!(sensor.elements.len(), 9);

    // exact search lands on the neuron whose local identifier is "5"
    let ei = magds
        .sensor_search("x", &DataValue::F64(5 * SCALE))
        .unwrap();
    assert_eq!(magds.sensor("x").unwrap().elements[ei].key.to_str(), "5");

    // fuzzy search of 5.4 lands on the same neuron
    let near = magds
        .sensor("x")
        .unwrap()
        .nearest(&DataValue::F64(5_400_000))
        .unwrap();
    assert_eq!(near, ei);

    // activating 5 with signal 1.0 and horizontal propagation puts the
    // neighbours 4 and 6 at 1 - 1/8 = 0.875
    magds
        .sensor_activate("x", &DataValue::F64(5 * SCALE), SCALE, true, false)
        .unwrap();
    let sensor = magds.sensor("x").unwrap();
    let e5 = magds
        .sensor_search("x", &DataValue::F64(5 * SCALE))
        .unwrap();
    let e4 = magds
        .sensor_search("x", &DataValue::F64(4 * SCALE))
        .unwrap();
    let e6 = magds
        .sensor_search("x", &DataValue::F64(6 * SCALE))
        .unwrap();
    assert_eq!(sensor.elements[e5].activation, SCALE);
    assert_eq!(sensor.elements[e4].activation, 875_000);
    assert_eq!(sensor.elements[e6].activation, 875_000);
}

#[test]
fn duplicate_counting() {
    let mut magds = MAGDS::new();
    magds
        .create_sensor("variety", DataType::OwnedString)
        .unwrap();
    for _ in 0..50 {
        magds
            .sensor_insert(
                "variety",
                &DataValue::OwnedString("Versicolor".to_string()),
            )
            .unwrap();
    }
    let sensor = magds.sensor("variety").unwrap();
    assert_eq!(sensor.elements.len(), 1);
    let ei = magds
        .sensor_search(
            "variety",
            &DataValue::OwnedString("Versicolor".to_string()),
        )
        .unwrap();
    assert_eq!(sensor.elements[ei].counter, 50);
}

#[test]
fn error_discipline() {
    let mut magds = MAGDS::new();
    // the poison tag cannot make a sensor
    assert!(matches!(
        magds.create_sensor("bad", DataType::Unknown),
        Err(MagdsError::InvalidType)
    ));
    // inserting into a missing sensor names the sensor
    assert!(matches!(
        magds.sensor_insert("absent", &DataValue::I32(1)),
        Err(MagdsError::UnknownSensor(_))
    ));
    // a tag mismatch is refused and searching with it finds nothing
    magds.create_sensor("n", DataType::I32).unwrap();
    assert!(matches!(
        magds.sensor_insert("n", &DataValue::I64(1)),
        Err(MagdsError::TypeMismatch { .. })
    ));
    magds.sensor_insert("n", &DataValue::I32(1)).unwrap();
    assert!(magds.sensor_search("n", &DataValue::I64(1)).is_none());
    // a non-defining connection is refused without change
    let mut neuron = SimpleNeuron::new("n1", "t");
    let other = NeuronId::new("n2", "t");
    assert!(matches!(
        neuron.connect_to(other, false, ConnectionKind::Inhibition),
        Err(MagdsError::UnsupportedConnectionKind)
    ));
    assert_eq!(neuron.definitions_from_self.len(), 0);
}

#[test]
fn activation_additivity_and_deactivation() {
    // two activations accumulate; deactivating twice equals once
    let mut neuron = SimpleNeuron::new("row", "table");
    neuron.activate(300_000, false, false);
    neuron.activate(450_000, false, false);
    assert_eq!(neuron.activation(), 750_000);
    neuron.activate(450_000, false, false);
    assert_eq!(neuron.activation(), 1_200_000);
    neuron.deactivate(false, false);
    assert_eq!(neuron.activation(), 0);
    neuron.deactivate(false, false);
    assert_eq!(neuron.activation(), 0);

    // the same holds for a whole sensor
    let mut magds = MAGDS::new();
    magds.create_sensor("x", DataType::I32).unwrap();
    for i in [1, 2, 3] {
        magds.sensor_insert("x", &DataValue::I32(i)).unwrap();
    }
    magds
        .sensor_activate("x", &DataValue::I32(2), SCALE, false, false)
        .unwrap();
    magds
        .sensor_activate("x", &DataValue::I32(2), SCALE / 2, false, false)
        .unwrap();
    let ei = magds.sensor_search("x", &DataValue::I32(2)).unwrap();
    assert_eq!(
        magds.sensor("x").unwrap().elements[ei].activation,
        SCALE + SCALE / 2
    );
    magds
        .sensor_deactivate("x", &DataValue::I32(2), false, false)
        .unwrap();
    assert_eq!(magds.sensor("x").unwrap().elements[ei].activation, 0);
    magds
        .sensor_deactivate("x", &DataValue::I32(2), false, false)
        .unwrap();
    assert_eq!(magds.sensor("x").unwrap().elements[ei].activation, 0);
}

#[test]
fn insert_search_round_trip() {
    let mut magds = MAGDS::new();
    magds.create_sensor("k", DataType::I64).unwrap();
    for v in [5, -3, 12, 0, 7, -3] {
        magds.sensor_insert("k", &DataValue::I64(v)).unwrap();
    }
    for v in [5, -3, 12, 0, 7] {
        let ei = magds.sensor_search("k", &DataValue::I64(v)).unwrap();
        assert_eq!(
            magds.sensor("k").unwrap().elements[ei].key.to_str(),
            v.to_string()
        );
    }
    assert!(magds.sensor_search("k", &DataValue::I64(99)).is_none());
    // the keys stand in their numeric order
    let sensor = magds.sensor("k").unwrap();
    assert_eq!(sensor.elements[0].key.to_str(), "-3");
    assert_eq!(sensor.elements[4].key.to_str(), "12");
    // the duplicate raised a counter instead of adding a key
    assert_eq!(sensor.elements.len(), 5);
}

#[test]
fn connection_weights() {
    let a = NeuronId::new("5", "x");
    let b = NeuronId::new("1", "rows");
    let conn = SimpleAGDSConnection::new(a, true, b, false);
    assert!(matches!(conn.kind(), ConnectionKind::Definition));
    // a definition weighs the reciprocal of the source counter
    assert_eq!(conn.weight(4), SCALE / 4);
    let a = NeuronId::new("5", "x");
    let b = NeuronId::new("1", "rows");
    let conn = SimpleMAGDSConnection::new(b, a, ConnectionKind::Explanation);
    assert_eq!(conn.weight(4), SCALE);
}
