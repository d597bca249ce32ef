use feature_pipe::config::{DataType, Feature, PipeConfig};
use feature_pipe::error::FeatureError;
use feature_pipe::input::{JsonRecord, JsonValue};
use feature_pipe::transformers::Encoded;

fn to_f64(e: Encoded) -> f64 {
    match e {
        Encoded::One => 1.0,
        Encoded::Zero => 0.0,
        Encoded::Float(bits) => f64::from_bits(bits),
        Encoded::Long(i) => i as f64,
        Encoded::Hash(h) => h as f64,
    }
}

fn float(x: f64) -> JsonValue {
    JsonValue::Number { bits: x.to_bits(), as_long: None }
}

fn integer(i: i64) -> JsonValue {
    JsonValue::Number { bits: (i as f64).to_bits(), as_long: Some(i) }
}

fn names(config: PipeConfig) -> Vec<String> {
    config.features.into_iter().map(|f| f.name).collect()
}

#[test]
fn test_sorting() {
    let mut config = PipeConfig {
        features: vec![
            Feature::new("B", DataType::Long, false),
            Feature::new("D", DataType::Float, true),
            Feature::new("C", DataType::Object, false),
            Feature::new("A", DataType::Float, true),
        ],
        is_prepared: true,
    };

    config.sort_features();
    let result: Vec<String> = config.features.into_iter().map(|f| f.name).collect();

    assert_eq!(
        result,
        vec![
            "A".to_string(),
            "B".to_string(),
            "C".to_string(),
            "D".to_string()
        ]
    );
}

#[test]
fn test_end_to_end_transforming() {
    let mut config = PipeConfig {
        features: vec![
            Feature::new("A", DataType::Float, true),
            Feature::new("B", DataType::Long, false),
            Feature::new("C", DataType::Object, false),
            Feature::new("D", DataType::Float, true),
        ],
        is_prepared: false,
    };
    let mut data = JsonRecord::new();
    data.insert("A".to_string(), float(100.4));
    data.insert("B".to_string(), integer(100));
    data.insert("C".to_string(), JsonValue::Text("Hello World".to_string()));

    config.prepare();

    let result: Vec<f64> = config.transform(&data).unwrap().into_iter().map(to_f64).collect();

    assert_eq!(result, vec![1., 100.4, 100., 7.982898449168957e18, 0., 0.,]);
}

#[test]
fn sorting_ignores_case() {
    let mut config = PipeConfig {
        features: vec![
            Feature::new("b", DataType::Long, false),
            Feature::new("C", DataType::Float, true),
            Feature::new("A", DataType::Object, false),
        ],
        is_prepared: false,
    };
    config.sort_features();
    assert!(!config.is_prepared);
    assert_eq!(names(config), vec!["A".to_string(), "b".to_string(), "C".to_string()]);
}

#[test]
fn sorting_is_stable_for_equal_lowercase_names() {
    let mut config = PipeConfig {
        features: vec![
            Feature::new("x", DataType::Long, false),
            Feature::new("a", DataType::Long, false),
            Feature::new("X", DataType::Float, true),
            Feature::new("A", DataType::Object, true),
        ],
        is_prepared: false,
    };
    config.sort_features();
    assert_eq!(
        names(config),
        vec!["a".to_string(), "A".to_string(), "x".to_string(), "X".to_string()]
    );
}

#[test]
fn sorting_puts_prefixes_first() {
    let mut config = PipeConfig {
        features: vec![
            Feature::new("ab", DataType::Long, false),
            Feature::new("a", DataType::Long, false),
            Feature::new("", DataType::Long, false),
            Feature::new("aa", DataType::Long, false),
        ],
        is_prepared: false,
    };
    config.sort_features();
    assert_eq!(
        names(config),
        vec!["".to_string(), "a".to_string(), "aa".to_string(), "ab".to_string()]
    );
}

#[test]
fn preparing_twice_changes_nothing() {
    let mut config = PipeConfig {
        features: vec![
            Feature::new("Zeta", DataType::Long, false),
            Feature::new("alpha", DataType::Long, false),
            Feature::new("ALPHA", DataType::Float, false),
        ],
        is_prepared: false,
    };
    config.prepare();
    assert!(config.is_prepared);
    let once: Vec<String> = config.features.iter().map(|f| f.name.clone()).collect();
    config.prepare();
    assert_eq!(names(config), once);
}

#[test]
fn transform_before_prepare_is_refused() {
    let config = PipeConfig {
        features: vec![Feature::new("A", DataType::Float, true)],
        is_prepared: false,
    };
    let result = config.transform(&JsonRecord::new());
    match result {
        Err(FeatureError::NotPrepared(e)) => {
            assert_eq!(e.message(), "features are not prepared")
        }
        _ => panic!("expected a not-prepared error"),
    }
}

#[test]
fn feature_new_keeps_its_arguments() {
    let f = Feature::new("height", DataType::Object, true);
    assert_eq!(f.name, "height");
    assert_eq!(f.datatype, DataType::Object);
    assert!(f.nullable);
}

#[test]
fn data_type_names() {
    assert_eq!(DataType::Float.name(), "Float");
    assert_eq!(DataType::Long.name(), "Long");
    assert_eq!(DataType::Object.name(), "Object");
}

#[test]
fn listing_order_does_not_matter_after_prepare() {
    let make = |order: &[&str]| PipeConfig {
        features: order.iter().map(|n| Feature::new(n, DataType::Long, false)).collect(),
        is_prepared: false,
    };
    let mut first = make(&["delta", "Bravo", "alpha", "Charlie"]);
    let mut second = make(&["Charlie", "alpha", "delta", "Bravo"]);
    first.prepare();
    second.prepare();
    assert_eq!(names(first), names(second));
}
