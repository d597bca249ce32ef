use feature_pipe::config::{DataType, Feature, PipeConfig};
use feature_pipe::error::FeatureError;
use feature_pipe::input::{transform_based_on_pipe, JsonRecord, JsonValue};
use feature_pipe::transformers::Encoded;

fn to_f64(e: Encoded) -> f64 {
    match e {
        Encoded::One => 1.0,
        Encoded::Zero => 0.0,
        Encoded::Float(bits) => f64::from_bits(bits),
        Encoded::Long(i) => i as f64,
        Encoded::Hash(h) => h as f64,
    }
}

fn float(x: f64) -> JsonValue {
    JsonValue::Number { bits: x.to_bits(), as_long: None }
}

fn integer(i: i64) -> JsonValue {
    JsonValue::Number { bits: (i as f64).to_bits(), as_long: Some(i) }
}

#[test]
fn test_transforming() {
    let config = PipeConfig {
        features: vec![
            Feature::new("A", DataType::Float, true),
            Feature::new("B", DataType::Long, false),
            Feature::new("C", DataType::Object, false),
            Feature::new("D", DataType::Float, true),
        ],
        is_prepared: true,
    };

    let mut json_map = JsonRecord::new();
    json_map.insert("A".to_string(), float(100.4));
    json_map.insert("B".to_string(), integer(100));
    json_map.insert("C".to_string(), JsonValue::Text("Hello World".to_string()));

    let result: Vec<f64> = transform_based_on_pipe(&config, &json_map)
        .unwrap()
        .into_iter()
        .map(to_f64)
        .collect();

    assert_eq!(result, vec![1., 100.4, 100., 7.982898449168957e18, 0., 0.,])
}

#[test]
fn encoded_row_is_exact() {
    let config = PipeConfig {
        features: vec![
            Feature::new("A", DataType::Float, true),
            Feature::new("B", DataType::Long, false),
            Feature::new("D", DataType::Float, true),
        ],
        is_prepared: true,
    };
    let mut data = JsonRecord::new();
    data.insert("A".to_string(), float(2.5));
    data.insert("B".to_string(), integer(-7));
    let row = transform_based_on_pipe(&config, &data).unwrap();
    assert_eq!(
        row,
        vec![
            Encoded::One,
            Encoded::Float(2.5f64.to_bits()),
            Encoded::Long(-7),
            Encoded::Zero,
            Encoded::Zero
        ]
    );
}

#[test]
fn integer_accepted_as_float() {
    let config = PipeConfig {
        features: vec![Feature::new("n", DataType::Float, false)],
        is_prepared: true,
    };
    let mut data = JsonRecord::new();
    data.insert("n".to_string(), integer(3));
    let row = transform_based_on_pipe(&config, &data).unwrap();
    assert_eq!(row, vec![Encoded::Float(3f64.to_bits())]);
}

#[test]
fn wrong_value_is_reported() {
    let config = PipeConfig {
        features: vec![
            Feature::new("A", DataType::Float, false),
            Feature::new("B", DataType::Long, false),
        ],
        is_prepared: true,
    };
    let mut data = JsonRecord::new();
    data.insert("A".to_string(), float(1.0));
    data.insert("B".to_string(), float(1.5));
    match transform_based_on_pipe(&config, &data) {
        Err(FeatureError::WrongValue(e)) => {
            assert_eq!(e.message(), "Wrong value for field: B, expected a Long")
        }
        other => panic!("unexpected result {:?}", other),
    }
}

#[test]
fn text_is_wrong_for_numbers_and_numbers_wrong_for_text() {
    let config = PipeConfig {
        features: vec![Feature::new("A", DataType::Object, true)],
        is_prepared: true,
    };
    let mut data = JsonRecord::new();
    data.insert("A".to_string(), integer(1));
    let err = transform_based_on_pipe(&config, &data).unwrap_err();
    assert_eq!(err.message(), "Wrong value for field: A, expected a Object");

    let config = PipeConfig {
        features: vec![Feature::new("A", DataType::Float, true)],
        is_prepared: true,
    };
    let mut data = JsonRecord::new();
    data.insert("A".to_string(), JsonValue::Other);
    let err = transform_based_on_pipe(&config, &data).unwrap_err();
    assert_eq!(err.message(), "Wrong value for field: A, expected a Float");
}

#[test]
fn missing_required_feature_is_not_found() {
    let config = PipeConfig {
        features: vec![
            Feature::new("A", DataType::Float, true),
            Feature::new("B", DataType::Long, false),
        ],
        is_prepared: true,
    };
    let err = transform_based_on_pipe(&config, &JsonRecord::new()).unwrap_err();
    match &err {
        FeatureError::NotFound(e) => assert_eq!(e.message(), "Feature with name B not found!"),
        _ => panic!("expected a not-found error"),
    }
    assert_eq!(err.message(), "Feature with name B not found!");
}

#[test]
fn first_error_wins() {
    let config = PipeConfig {
        features: vec![
            Feature::new("A", DataType::Long, false),
            Feature::new("B", DataType::Long, false),
        ],
        is_prepared: true,
    };
    let mut data = JsonRecord::new();
    data.insert("A".to_string(), JsonValue::Text("x".to_string()));
    let err = transform_based_on_pipe(&config, &data).unwrap_err();
    assert_eq!(err.message(), "Wrong value for field: A, expected a Long");
}

#[test]
fn row_width_is_fixed() {
    let config = PipeConfig {
        features: vec![
            Feature::new("A", DataType::Float, true),
            Feature::new("B", DataType::Float, false),
            Feature::new("C", DataType::Long, true),
        ],
        is_prepared: true,
    };
    let mut full = JsonRecord::new();
    full.insert("A".to_string(), float(1.0));
    full.insert("B".to_string(), float(2.0));
    full.insert("C".to_string(), integer(3));
    let mut sparse = JsonRecord::new();
    sparse.insert("B".to_string(), float(2.0));
    assert_eq!(transform_based_on_pipe(&config, &full).unwrap().len(), 5);
    assert_eq!(transform_based_on_pipe(&config, &sparse).unwrap().len(), 5);
}

#[test]
fn record_insert_replaces_and_get_reads_back() {
    let mut data = JsonRecord::new();
    assert!(data.get(&"k".to_string()).is_none());
    data.insert("k".to_string(), integer(1));
    data.insert("j".to_string(), integer(2));
    data.insert("k".to_string(), JsonValue::Text("v".to_string()));
    assert_eq!(data.entries.len(), 2);
    assert_eq!(
        data.get(&"k".to_string()),
        Some(&JsonValue::Text("v".to_string()))
    );
    assert_eq!(data.get(&"j".to_string()), Some(&integer(2)));
    assert!(data.get(&"K".to_string()).is_none());
}

#[test]
fn first_occurrence_of_a_key_counts() {
    let data = JsonRecord {
        entries: vec![
            ("a".to_string(), integer(1)),
            ("a".to_string(), integer(2)),
        ],
    };
    assert_eq!(data.get(&"a".to_string()), Some(&integer(1)));
}

#[test]
fn transformation_is_deterministic() {
    let config = PipeConfig {
        features: vec![
            Feature::new("city", DataType::Object, true),
            Feature::new("n", DataType::Long, false),
        ],
        is_prepared: true,
    };
    let mut data = JsonRecord::new();
    data.insert("city".to_string(), JsonValue::Text("Amsterdam".to_string()));
    data.insert("n".to_string(), integer(12));
    let first = transform_based_on_pipe(&config, &data).unwrap();
    let second = transform_based_on_pipe(&config, &data).unwrap();
    assert_eq!(first, second);
}
