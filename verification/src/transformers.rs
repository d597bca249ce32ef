//! The deterministic value transformations. A row of model input is a
//! sequence of `Encoded` values; each stands for one number of the row.
use vstd::prelude::*;

use std::collections::hash_map::DefaultHasher;
use std::hash::BuildHasher;
use std::hash::BuildHasherDefault;

verus! {

/// One number of a transformed row, described exactly:
/// `One` and `Zero` are the numbers 1 and 0, `Float(bits)` is the
/// floating-point number with the given IEEE-754 bit pattern, `Long(i)` is
/// the integer `i` widened to floating point, and `Hash(h)` is the string
/// hash `h` widened to floating point.
#[derive(Clone, Copy, Debug, PartialEq, Eq, Structural)]
pub enum Encoded {
    One,
    Zero,
    Float(u64),
    Long(i64),
    Hash(u64),
}

/// What hashing a string with `DefaultHasher::new()` gives, for a string with
/// the given characters.
pub uninterp spec fn string_hash_of(s: Seq<char>) -> u64;

/// Hashes the string with a fresh `DefaultHasher` (std's
/// `BuildHasher::hash_one` on `BuildHasherDefault<DefaultHasher>`): writes the
/// string into the hasher and returns `finish()`. Every `DefaultHasher`
/// made by `new` or `default` starts in the same state, so the result depends
/// on the string alone; its value is not stated.
#[verifier::external_body]
fn hash_str(input: &str) -> (r: u64)
    ensures
        r == string_hash_of(input@),
{
    BuildHasherDefault::<DefaultHasher>::default().hash_one(input)
}

/// The hash of a string that the `Object` data type is encoded by.
pub fn string_hash(input: &str) -> (r: u64)
    ensures
        r == string_hash_of(input@),
{
    hash_str(input)
}

/// The two numbers that stand for a missing nullable value: 0 and 0.
pub fn null() -> (r: [Encoded; 2])
    ensures
        r@ == seq![Encoded::Zero, Encoded::Zero],
{
    [Encoded::Zero, Encoded::Zero]
}

/// The two numbers that stand for a present nullable value: 1, then the value.
pub fn make_nullable(input: Encoded) -> (r: [Encoded; 2])
    ensures
        r@ == seq![Encoded::One, input],
{
    [Encoded::One, input]
}

/// The pair for a nullable string entry: 0, 0 when it is missing, else 1
/// and the hash of the string.
pub open spec fn nullable_text_pair(data: Option<Seq<char>>) -> Seq<Encoded> {
    match data {
        None => seq![Encoded::Zero, Encoded::Zero],
        Some(s) => seq![Encoded::One, Encoded::Hash(string_hash_of(s))],
    }
}

/// A present string entry is marked present and carries the hash of the
/// whole string; a missing entry is two zeros. Two present entries carry the
/// same number exactly when the hashes of the whole strings agree.
pub proof fn lemma_nullable_text_pair_whole(s: Seq<char>, t: Seq<char>)
    ensures
        nullable_text_pair(Some(s)).len() == 2,
        nullable_text_pair(Some(s))[0] == Encoded::One,
        nullable_text_pair(Some(s))[1] == Encoded::Hash(string_hash_of(s)),
        nullable_text_pair(None) == seq![Encoded::Zero, Encoded::Zero],
        nullable_text_pair(Some(s)) == nullable_text_pair(Some(t)) <==> string_hash_of(s)
            == string_hash_of(t),
{
    if string_hash_of(s) != string_hash_of(t) {
        assert(nullable_text_pair(Some(s))[1] != nullable_text_pair(Some(t))[1]);
    }
}

/// A nullable string column entry: `null()` for a missing value, else a
/// present marker followed by the hash of the string.
pub fn check_null(data: Option<&str>) -> (r: [Encoded; 2])
    ensures
        r@ == nullable_text_pair(
            match data {
                None => None,
                Some(s) => Some(s@),
            },
        ),
        data is None ==> r[0] == Encoded::Zero && r[1] == Encoded::Zero,
        data matches Some(s) ==> r[0] == Encoded::One && r[1] == Encoded::Hash(
            string_hash_of(s@),
        ),
{
    match data {
        None => null(),
        Some(s) => make_nullable(Encoded::Hash(hash_str(s))),
    }
}

} // verus!
