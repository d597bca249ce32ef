//! The input record and its transformation into a row, following the
//! pipeline configuration.
use vstd::prelude::*;

use crate::config::{DataType, Feature, PipeConfig};
use crate::error::{ErrorView, FeatureError, NotFoundError, WrongValueError};
use crate::transformers::{
    Encoded, make_nullable, null, nullable_text_pair, string_hash, string_hash_of,
};

verus! {

/// A value of the input, as far as the transformation reads it.
/// A number carries the bit pattern of its floating-point value and, when it
/// is an integer in range, its value as an `i64`. Null, booleans, arrays and
/// objects are all `Other`.
#[derive(Clone, Debug, PartialEq)]
pub enum JsonValue {
    Number { bits: u64, as_long: Option<i64> },
    Text(String),
    Other,
}

/// The input: named values. A key that occurs twice stands for its first
/// occurrence.
#[derive(Clone, Debug)]
pub struct JsonRecord {
    pub entries: Vec<(String, JsonValue)>,
}

/// The map from names to values that a list of entries stands for.
pub open spec fn entries_map(e: Seq<(String, JsonValue)>) -> Map<Seq<char>, JsonValue>
    decreases e.len(),
{
    if e.len() == 0 {
        Map::empty()
    } else {
        entries_map(e.drop_first()).insert(e[0].0@, e[0].1)
    }
}

impl View for JsonRecord {
    type V = Map<Seq<char>, JsonValue>;

    open spec fn view(&self) -> Map<Seq<char>, JsonValue> {
        entries_map(self.entries@)
    }
}

proof fn lemma_entries_skip(e: Seq<(String, JsonValue)>, i: int, k: Seq<char>)
    requires
        0 <= i < e.len(),
        e[i].0@ != k,
    ensures
        entries_map(e.skip(i)).contains_key(k) == entries_map(e.skip(i + 1)).contains_key(k),
        entries_map(e.skip(i)).contains_key(k) ==> entries_map(e.skip(i))[k] == entries_map(
            e.skip(i + 1),
        )[k],
{
    assert(e.skip(i).drop_first() =~= e.skip(i + 1));
}

proof fn lemma_entries_prefix(e: Seq<(String, JsonValue)>, end: int, k: Seq<char>)
    requires
        0 <= end <= e.len(),
        forall|q: int| 0 <= q < end ==> (#[trigger] e[q]).0@ != k,
    ensures
        entries_map(e).contains_key(k) == entries_map(e.skip(end)).contains_key(k),
        entries_map(e).contains_key(k) ==> entries_map(e)[k] == entries_map(e.skip(end))[k],
    decreases end,
{
    if end == 0 {
        assert(e.skip(0) =~= e);
    } else {
        lemma_entries_prefix(e, end - 1, k);
        lemma_entries_skip(e, end - 1, k);
    }
}

proof fn lemma_entries_push(e: Seq<(String, JsonValue)>, x: (String, JsonValue))
    requires
        forall|m: int| 0 <= m < e.len() ==> (#[trigger] e[m]).0@ != x.0@,
    ensures
        entries_map(e.push(x)) == entries_map(e).insert(x.0@, x.1),
    decreases e.len(),
{
    if e.len() == 0 {
        assert(e.push(x).drop_first() =~= e);
        assert(entries_map(e.push(x)) =~= entries_map(e).insert(x.0@, x.1));
    } else {
        let t = e.drop_first();
        assert forall|m: int| 0 <= m < t.len() implies (#[trigger] t[m]).0@ != x.0@ by {
            assert(t[m] == e[m + 1]);
        }
        lemma_entries_push(t, x);
        assert(e.push(x).drop_first() =~= t.push(x));
        assert(e[0].0@ != x.0@);
        assert(entries_map(e.push(x)) =~= entries_map(e).insert(x.0@, x.1));
    }
}

proof fn lemma_entries_update(e: Seq<(String, JsonValue)>, j: int, x: (String, JsonValue))
    requires
        0 <= j < e.len(),
        e[j].0@ == x.0@,
        forall|m: int| 0 <= m < j ==> (#[trigger] e[m]).0@ != x.0@,
    ensures
        entries_map(e.update(j, x)) == entries_map(e).insert(x.0@, x.1),
    decreases j,
{
    if j == 0 {
        assert(e.update(0, x).drop_first() =~= e.drop_first());
        assert(entries_map(e.update(j, x)) =~= entries_map(e).insert(x.0@, x.1));
    } else {
        let t = e.drop_first();
        assert forall|m: int| 0 <= m < j - 1 implies (#[trigger] t[m]).0@ != x.0@ by {
            assert(t[m] == e[m + 1]);
        }
        lemma_entries_update(t, j - 1, x);
        assert(e.update(j, x).drop_first() =~= t.update(j - 1, x));
        assert(e[0].0@ != x.0@);
        assert(entries_map(e.update(j, x)) =~= entries_map(e).insert(x.0@, x.1));
    }
}

impl JsonRecord {
    /// A record without entries.
    pub fn new() -> (r: Self)
        ensures
            r@ == Map::<Seq<char>, JsonValue>::empty(),
    {
        JsonRecord { entries: Vec::new() }
    }

    /// Position of the first entry with the given name, if any.
    fn position(&self, key: &String) -> (r: Option<usize>)
        ensures
            r matches Some(j) ==> j < self.entries@.len() && self.entries@[j as int].0@ == key@,
            r matches Some(j) ==> forall|m: int|
                0 <= m < j ==> (#[trigger] self.entries@[m]).0@ != key@,
            r is None ==> forall|m: int|
                0 <= m < self.entries@.len() ==> (#[trigger] self.entries@[m]).0@ != key@,
    {
        let mut i: usize = 0;
        while i < self.entries.len()
            invariant
                i <= self.entries@.len(),
                forall|m: int| 0 <= m < i ==> (#[trigger] self.entries@[m]).0@ != key@,
            decreases self.entries@.len() - i,
        {
            if self.entries[i].0 == *key {
                return Some(i);
            }
            i = i + 1;
        }
        None
    }

    /// The value stored under the given name.
    pub fn get(&self, key: &String) -> (r: Option<&JsonValue>)
        ensures
            r is Some <==> self@.contains_key(key@),
            r matches Some(v) ==> *v == self@[key@],
    {
        let p = self.position(key);
        proof {
            let e = self.entries@;
            let end: int = match p {
                Some(j) => j as int,
                None => e.len() as int,
            };
            lemma_entries_prefix(e, end, key@);
            if let Some(j) = p {
                assert(e.skip(j as int).drop_first() =~= e.skip(j + 1));
                assert(e.skip(j as int)[0] == e[j as int]);
            } else {
                assert(e.skip(e.len() as int) =~= Seq::<(String, JsonValue)>::empty());
            }
        }
        match p {
            Some(j) => Some(&self.entries[j].1),
            None => None,
        }
    }

    /// Stores a value under a name, replacing the value stored there before.
    pub fn insert(&mut self, key: String, value: JsonValue)
        ensures
            final(self)@ == old(self)@.insert(key@, value),
    {
        let p = self.position(&key);
        match p {
            Some(j) => {
                proof {
                    lemma_entries_update(self.entries@, j as int, (key, value));
                }
                self.entries.set(j, (key, value));
            },
            None => {
                proof {
                    lemma_entries_push(self.entries@, (key, value));
                }
                self.entries.push((key, value));
            },
        }
    }
}

/// The number that a value of the given type stands for, if it fits the type:
/// any number for `Float`, an integer in `i64` range for `Long`, a string
/// (by its hash) for `Object`.
pub open spec fn extract(v: JsonValue, t: DataType) -> Option<Encoded> {
    match t {
        DataType::Float => match v {
            JsonValue::Number { bits, .. } => Some(Encoded::Float(bits)),
            _ => None,
        },
        DataType::Long => match v {
            JsonValue::Number { as_long: Some(i), .. } => Some(Encoded::Long(i)),
            _ => None,
        },
        DataType::Object => match v {
            JsonValue::Text(s) => Some(Encoded::Hash(string_hash_of(s@))),
            _ => None,
        },
    }
}

/// What one feature contributes to the row, or the error it raises.
/// A present value that fits gives the value, preceded by 1 when the feature
/// is nullable; a present value that does not fit is a wrong value; a
/// missing nullable feature gives 0, 0; a missing other feature is not found.
pub open spec fn feature_values(f: Feature, data: Map<Seq<char>, JsonValue>) -> Result<
    Seq<Encoded>,
    ErrorView,
> {
    if data.contains_key(f.name@) {
        match extract(data[f.name@], f.datatype) {
            Some(v) => Ok(
                if f.nullable {
                    seq![Encoded::One, v]
                } else {
                    seq![v]
                },
            ),
            None => Err(ErrorView::WrongValue { field: f.name@, expected_type: f.datatype }),
        }
    } else if f.nullable {
        Ok(seq![Encoded::Zero, Encoded::Zero])
    } else {
        Err(ErrorView::NotFound { field: f.name@ })
    }
}

/// The row for a list of features: the features' contributions in order,
/// or the error of the first feature that raises one.
pub open spec fn transform_spec(fs: Seq<Feature>, data: Map<Seq<char>, JsonValue>) -> Result<
    Seq<Encoded>,
    ErrorView,
>
    decreases fs.len(),
{
    if fs.len() == 0 {
        Ok(Seq::empty())
    } else {
        match transform_spec(fs.drop_last(), data) {
            Err(e) => Err(e),
            Ok(prev) => match feature_values(fs.last(), data) {
                Err(e) => Err(e),
                Ok(c) => Ok(prev + c),
            },
        }
    }
}

/// A transformation's outcome as a mathematical value.
pub open spec fn outcome_view(r: Result<Vec<Encoded>, FeatureError>) -> Result<
    Seq<Encoded>,
    ErrorView,
> {
    match r {
        Ok(v) => Ok(v@),
        Err(e) => Err(e@),
    }
}

/// The width of the row for a list of features: two numbers for a nullable
/// feature, one for another.
pub open spec fn row_width(fs: Seq<Feature>) -> nat
    decreases fs.len(),
{
    if fs.len() == 0 {
        0
    } else {
        row_width(fs.drop_last()) + if fs.last().nullable {
            2nat
        } else {
            1nat
        }
    }
}

/// Every row produced for a list of features has the same width, whatever
/// the input.
pub proof fn lemma_row_width(fs: Seq<Feature>, data: Map<Seq<char>, JsonValue>)
    ensures
        transform_spec(fs, data) matches Ok(row) ==> row.len() == row_width(fs),
    decreases fs.len(),
{
    if fs.len() > 0 {
        lemma_row_width(fs.drop_last(), data);
    }
}

/// A nullable `Object` feature is encoded as the column transformation for
/// nullable strings encodes its entry: missing values and strings alike.
pub proof fn lemma_nullable_object_matches_column(f: Feature, data: Map<Seq<char>, JsonValue>)
    requires
        f.nullable,
        f.datatype == DataType::Object,
        !data.contains_key(f.name@) || data[f.name@] is Text,
    ensures
        feature_values(f, data) == Ok::<Seq<Encoded>, ErrorView>(
            nullable_text_pair(
                if data.contains_key(f.name@) {
                    Some(data[f.name@]->Text_0@)
                } else {
                    None
                },
            ),
        ),
{
}

proof fn lemma_transform_push(fs: Seq<Feature>, f: Feature, data: Map<Seq<char>, JsonValue>)
    ensures
        transform_spec(fs.push(f), data) == (match transform_spec(fs, data) {
            Err(e) => Err(e),
            Ok(prev) => match feature_values(f, data) {
                Err(e) => Err(e),
                Ok(c) => Ok(prev + c),
            },
        }),
{
    assert(fs.push(f).drop_last() =~= fs);
    assert(fs.push(f).last() == f);
}

/// An integer value of a `Long` feature appends the integer to the row,
/// after a 1 when the feature is nullable.
pub proof fn lemma_row_long_value(
    fs: Seq<Feature>,
    f: Feature,
    data: Map<Seq<char>, JsonValue>,
    prev: Seq<Encoded>,
    bits: u64,
    n: i64,
)
    requires
        transform_spec(fs, data) == Ok::<Seq<Encoded>, ErrorView>(prev),
        f.datatype == DataType::Long,
        data.contains_key(f.name@),
        data[f.name@] == (JsonValue::Number { bits, as_long: Some(n) }),
    ensures
        transform_spec(fs.push(f), data) == Ok::<Seq<Encoded>, ErrorView>(
            if f.nullable {
                prev + seq![Encoded::One, Encoded::Long(n)]
            } else {
                prev + seq![Encoded::Long(n)]
            },
        ),
{
    lemma_transform_push(fs, f, data);
}

/// A number value of a `Float` feature appends the number (by its bits) to
/// the row, after a 1 when the feature is nullable.
pub proof fn lemma_row_float_value(
    fs: Seq<Feature>,
    f: Feature,
    data: Map<Seq<char>, JsonValue>,
    prev: Seq<Encoded>,
    bits: u64,
    as_long: Option<i64>,
)
    requires
        transform_spec(fs, data) == Ok::<Seq<Encoded>, ErrorView>(prev),
        f.datatype == DataType::Float,
        data.contains_key(f.name@),
        data[f.name@] == (JsonValue::Number { bits, as_long }),
    ensures
        transform_spec(fs.push(f), data) == Ok::<Seq<Encoded>, ErrorView>(
            if f.nullable {
                prev + seq![Encoded::One, Encoded::Float(bits)]
            } else {
                prev + seq![Encoded::Float(bits)]
            },
        ),
{
    lemma_transform_push(fs, f, data);
}

/// A string value of an `Object` feature appends the hash of the whole
/// string to the row, after a 1 when the feature is nullable.
pub proof fn lemma_row_text_value(
    fs: Seq<Feature>,
    f: Feature,
    data: Map<Seq<char>, JsonValue>,
    prev: Seq<Encoded>,
    text: String,
)
    requires
        transform_spec(fs, data) == Ok::<Seq<Encoded>, ErrorView>(prev),
        f.datatype == DataType::Object,
        data.contains_key(f.name@),
        data[f.name@] == JsonValue::Text(text),
    ensures
        transform_spec(fs.push(f), data) == Ok::<Seq<Encoded>, ErrorView>(
            if f.nullable {
                prev + seq![Encoded::One, Encoded::Hash(string_hash_of(text@))]
            } else {
                prev + seq![Encoded::Hash(string_hash_of(text@))]
            },
        ),
{
    lemma_transform_push(fs, f, data);
}

/// A feature missing from the input appends 0, 0 when it is nullable,
/// whatever its type; otherwise the row is refused as not found.
pub proof fn lemma_row_missing_value(
    fs: Seq<Feature>,
    f: Feature,
    data: Map<Seq<char>, JsonValue>,
    prev: Seq<Encoded>,
)
    requires
        transform_spec(fs, data) == Ok::<Seq<Encoded>, ErrorView>(prev),
        !data.contains_key(f.name@),
    ensures
        f.nullable ==> transform_spec(fs.push(f), data) == Ok::<Seq<Encoded>, ErrorView>(
            prev + seq![Encoded::Zero, Encoded::Zero],
        ),
        !f.nullable ==> transform_spec(fs.push(f), data) == Err::<Seq<Encoded>, ErrorView>(
            ErrorView::NotFound { field: f.name@ },
        ),
{
    lemma_transform_push(fs, f, data);
}

/// A present value that does not fit the feature's type refuses the row as a
/// wrong value: anything but a number for `Float`, anything but an integer
/// in range for `Long`, anything but a string for `Object`.
pub proof fn lemma_row_wrong_value(
    fs: Seq<Feature>,
    f: Feature,
    data: Map<Seq<char>, JsonValue>,
    prev: Seq<Encoded>,
)
    requires
        transform_spec(fs, data) == Ok::<Seq<Encoded>, ErrorView>(prev),
        data.contains_key(f.name@),
        f.datatype == DataType::Float ==> !(data[f.name@] is Number),
        f.datatype == DataType::Long ==> !(data[f.name@] matches JsonValue::Number {
            as_long: Some(_),
            ..
        }),
        f.datatype == DataType::Object ==> !(data[f.name@] is Text),
    ensures
        transform_spec(fs.push(f), data) == Err::<Seq<Encoded>, ErrorView>(
            ErrorView::WrongValue { field: f.name@, expected_type: f.datatype },
        ),
{
    lemma_transform_push(fs, f, data);
}

/// Once a feature refuses the row, features after it change nothing.
pub proof fn lemma_row_error_stays(
    fs: Seq<Feature>,
    f: Feature,
    data: Map<Seq<char>, JsonValue>,
    e: ErrorView,
)
    requires
        transform_spec(fs, data) == Err::<Seq<Encoded>, ErrorView>(e),
    ensures
        transform_spec(fs.push(f), data) == Err::<Seq<Encoded>, ErrorView>(e),
{
    lemma_transform_push(fs, f, data);
}

/// The row for no features is empty.
pub proof fn lemma_row_empty(data: Map<Seq<char>, JsonValue>)
    ensures
        transform_spec(Seq::<Feature>::empty(), data) == Ok::<Seq<Encoded>, ErrorView>(
            Seq::empty(),
        ),
{
}

proof fn lemma_error_persists(
    fs: Seq<Feature>,
    data: Map<Seq<char>, JsonValue>,
    i: int,
    e: ErrorView,
)
    requires
        0 <= i <= fs.len(),
        transform_spec(fs.take(i), data) == Err::<Seq<Encoded>, ErrorView>(e),
    ensures
        transform_spec(fs, data) == Err::<Seq<Encoded>, ErrorView>(e),
    decreases fs.len() - i,
{
    if i == fs.len() {
        assert(fs.take(i) =~= fs);
    } else {
        assert(fs.take(i + 1).drop_last() =~= fs.take(i));
        lemma_error_persists(fs, data, i + 1, e);
    }
}

/// The number that a value of the given type stands for, if it fits.
fn extract_value(value: &JsonValue, data_type: &DataType) -> (r: Option<Encoded>)
    ensures
        r == extract(*value, *data_type),
{
    match data_type {
        DataType::Float => match value {
            JsonValue::Number { bits, .. } => Some(Encoded::Float(*bits)),
            _ => None,
        },
        DataType::Long => match value {
            JsonValue::Number { as_long: Some(i), .. } => Some(Encoded::Long(*i)),
            _ => None,
        },
        DataType::Object => match value {
            JsonValue::Text(s) => Some(Encoded::Hash(string_hash(s.as_str()))),
            _ => None,
        },
    }
}

/// Lays out the input values of the configured features, in the order of
/// the features, as a row of numbers.
pub fn transform_based_on_pipe(config: &PipeConfig, data: &JsonRecord) -> (r: Result<
    Vec<Encoded>,
    FeatureError,
>)
    ensures
        outcome_view(r) == transform_spec(config.features@, data@),
{
    let ghost fs = config.features@;
    let mut output: Vec<Encoded> = Vec::new();
    let n = config.features.len();
    let mut i: usize = 0;
    assert(fs.take(0) =~= Seq::<Feature>::empty());
    while i < n
        invariant
            n == fs.len(),
            fs == config.features@,
            i <= n,
            transform_spec(fs.take(i as int), data@) == Ok::<Seq<Encoded>, ErrorView>(output@),
        decreases n - i,
    {
        let feature = &config.features[i];
        let ghost prev = output@;
        proof {
            assert(fs.take(i + 1).drop_last() =~= fs.take(i as int));
            assert(fs.take(i + 1).last() == fs[i as int]);
        }
        match data.get(&feature.name) {
            Some(v) => {
                match extract_value(v, &feature.datatype) {
                    Some(x) => {
                        if feature.nullable {
                            let pair = make_nullable(x);
                            output.push(pair[0]);
                            output.push(pair[1]);
                            assert(output@ =~= prev + seq![Encoded::One, x]);
                        } else {
                            output.push(x);
                            assert(output@ =~= prev + seq![x]);
                        }
                    },
                    None => {
                        let err = FeatureError::from(
                            WrongValueError::new(feature.name.as_str(), &feature.datatype),
                        );
                        proof {
                            lemma_error_persists(fs, data@, i + 1, err@);
                        }
                        return Err(err);
                    },
                }
            },
            None => {
                if feature.nullable {
                    let pair = null();
                    output.push(pair[0]);
                    output.push(pair[1]);
                    assert(output@ =~= prev + seq![Encoded::Zero, Encoded::Zero]);
                } else {
                    let err = FeatureError::from(NotFoundError::new(feature.name.as_str()));
                    proof {
                        lemma_error_persists(fs, data@, i + 1, err@);
                    }
                    return Err(err);
                }
            },
        }
        i = i + 1;
    }
    assert(fs.take(n as int) =~= fs);
    Ok(output)
}

} // verus!
