use feature_pipe::error::{FeatureError, NotFoundError, NotPreparedError, WrongValueError};
use feature_pipe::config::DataType;
use feature_pipe::order::lex_less_exec;
use feature_pipe::predictor::{flatten_rows, reshape_output};
use feature_pipe::transformers::{check_null, make_nullable, null, string_hash, Encoded};

#[test]
fn test_string_hashing() {
    let result = string_hash(&"Hello World".to_string()) as f64;
    assert_eq!(result, 7.982898449168957e18);
}

#[test]
fn hash_depends_on_the_string() {
    assert_eq!(string_hash("abc"), string_hash("abc"));
    assert_ne!(string_hash("abc"), string_hash("abd"));
}

#[test]
fn nullable_pairs() {
    assert_eq!(null(), [Encoded::Zero, Encoded::Zero]);
    assert_eq!(make_nullable(Encoded::Long(4)), [Encoded::One, Encoded::Long(4)]);
    assert_eq!(check_null(None), [Encoded::Zero, Encoded::Zero]);
    assert_eq!(
        check_null(Some("Hello World")),
        [Encoded::One, Encoded::Hash(string_hash("Hello World"))]
    );
}

#[test]
fn error_messages_and_conversions() {
    let e = WrongValueError::new("age", &DataType::Long);
    assert_eq!(e.message(), "Wrong value for field: age, expected a Long");
    let f = FeatureError::from(e);
    assert_eq!(f.message(), "Wrong value for field: age, expected a Long");
    assert!(matches!(f, FeatureError::WrongValue(_)));

    let e = NotFoundError::new("name");
    assert_eq!(e.message(), "Feature with name name not found!");
    assert!(matches!(FeatureError::from(e), FeatureError::NotFound(_)));

    let e = NotPreparedError::new();
    assert_eq!(e.message(), "features are not prepared");
    assert!(matches!(FeatureError::from(e), FeatureError::NotPrepared(_)));
}

#[test]
fn lexicographic_order() {
    let v = |s: &str| s.chars().collect::<Vec<char>>();
    assert!(lex_less_exec(&v("a"), &v("b")));
    assert!(!lex_less_exec(&v("b"), &v("a")));
    assert!(lex_less_exec(&v("ab"), &v("abc")));
    assert!(!lex_less_exec(&v("abc"), &v("abc")));
    assert!(lex_less_exec(&v(""), &v("a")));
    assert!(lex_less_exec(&v("B"), &v("a")));
}

#[test]
fn multiclass_output_is_cut_into_rows() {
    let flat = vec![1, 2, 3, 4, 5, 6];
    assert_eq!(reshape_output(flat.clone(), 3), vec![vec![1, 2, 3], vec![4, 5, 6]]);
    assert_eq!(reshape_output(flat.clone(), 1), vec![flat.clone()]);
    assert_eq!(reshape_output(flat.clone(), 0), vec![flat.clone()]);
    assert_eq!(reshape_output(flat.clone(), 4), vec![vec![1, 2, 3, 4], vec![5, 6]]);
    assert_eq!(reshape_output(Vec::<i32>::new(), 2), Vec::<Vec<i32>>::new());
}

#[test]
fn rows_are_laid_out_in_order_and_back() {
    let rows = vec![vec![1.5f64, 2.5], vec![3.5, 4.5]];
    let flat = flatten_rows(&rows);
    assert_eq!(flat, vec![1.5, 2.5, 3.5, 4.5]);
    assert_eq!(reshape_output(flat, 2), rows);
    assert_eq!(flatten_rows(&Vec::<Vec<u8>>::new()), Vec::<u8>::new());
}
