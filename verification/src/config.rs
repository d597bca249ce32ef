//! The feature pipeline configuration and its preparation: features are put
//! in order of their lowercased names, stably.
use vstd::prelude::*;
use vstd::string::StringExecFns;

use crate::error::{ErrorView, FeatureError, NotPreparedError};
use crate::input::{JsonRecord, outcome_view, transform_based_on_pipe, transform_spec};
use crate::transformers::Encoded;
use crate::order::{
    lex_less, lex_less_exec, lowercase_chars, lowercase_of, lemma_lex_irreflexive,
    lemma_lex_le_transitive, lemma_lex_total,
};

verus! {

broadcast use vstd::seq_lib::group_to_multiset_ensures;

/// The type of a feature's value in the input.
#[derive(Clone, Copy, Debug, PartialEq, Eq, Structural)]
pub enum DataType {
    Float,
    Long,
    Object,
}

/// The name by which a data type is shown.
pub open spec fn datatype_name(t: DataType) -> Seq<char> {
    match t {
        DataType::Float => "Float"@,
        DataType::Long => "Long"@,
        DataType::Object => "Object"@,
    }
}

impl DataType {
    pub fn name(&self) -> (r: &'static str)
        ensures
            r@ == datatype_name(*self),
    {
        match self {
            DataType::Float => "Float",
            DataType::Long => "Long",
            DataType::Object => "Object",
        }
    }
}

/// One named feature of the pipeline.
#[derive(Clone, Debug)]
pub struct Feature {
    pub name: String,
    pub datatype: DataType,
    pub nullable: bool,
}

impl Feature {
    pub fn new(name: &str, datatype: DataType, nullable: bool) -> (r: Self)
        ensures
            r.name@ == name@,
            r.datatype == datatype,
            r.nullable == nullable,
    {
        Feature { name: String::from_str(name), datatype, nullable }
    }
}

/// The pipeline configuration: the features, in the order in which their
/// values are laid out, and whether they have been put in order.
#[derive(Debug)]
pub struct PipeConfig {
    pub features: Vec<Feature>,
    pub is_prepared: bool,
}

/// The key by which features are ordered: the lowercased name.
pub open spec fn sort_key(f: Feature) -> Seq<char> {
    lowercase_of(f.name@)
}

/// `s` with `f` placed after every element whose key is not greater than
/// `f`'s, the search going from the back.
pub open spec fn insert_by_key(s: Seq<Feature>, f: Feature) -> Seq<Feature>
    decreases s.len(),
{
    if s.len() == 0 {
        seq![f]
    } else if lex_less(sort_key(f), sort_key(s.last())) {
        insert_by_key(s.drop_last(), f).push(s.last())
    } else {
        s.push(f)
    }
}

/// The stable ordering of features by key: each feature in turn goes after
/// all earlier ones whose key is not greater than its own.
pub open spec fn sorted_by_key(s: Seq<Feature>) -> Seq<Feature>
    decreases s.len(),
{
    if s.len() == 0 {
        s
    } else {
        insert_by_key(sorted_by_key(s.drop_last()), s.last())
    }
}

/// Keys never decrease along the sequence.
pub open spec fn keys_ascending(s: Seq<Feature>) -> bool {
    forall|i: int, j: int|
        0 <= i < j < s.len() ==> !lex_less(#[trigger] sort_key(s[j]), #[trigger] sort_key(s[i]))
}

/// The features of `s` whose key is `k`, in their order in `s`.
pub open spec fn with_key(s: Seq<Feature>, k: Seq<char>) -> Seq<Feature>
    decreases s.len(),
{
    if s.len() == 0 {
        s
    } else if sort_key(s.last()) == k {
        with_key(s.drop_last(), k).push(s.last())
    } else {
        with_key(s.drop_last(), k)
    }
}

/// Inserting where the backward search stops is `insert_by_key`.
proof fn lemma_insert_at(s: Seq<Feature>, f: Feature, j: int)
    requires
        0 <= j <= s.len(),
        forall|m: int| j <= m < s.len() ==> lex_less(sort_key(f), #[trigger] sort_key(s[m])),
        j > 0 ==> !lex_less(sort_key(f), sort_key(s[j - 1])),
    ensures
        insert_by_key(s, f) == s.insert(j, f),
    decreases s.len(),
{
    if s.len() == 0 {
        assert(s.insert(j, f) =~= seq![f]);
    } else if j == s.len() {
        assert(s.insert(j, f) =~= s.push(f));
    } else {
        assert(lex_less(sort_key(f), sort_key(s[s.len() - 1])));
        let t = s.drop_last();
        assert forall|m: int| j <= m < t.len() implies lex_less(
            sort_key(f),
            #[trigger] sort_key(t[m]),
        ) by {
            assert(t[m] == s[m]);
        }
        if j > 0 {
            assert(t[j - 1] == s[j - 1]);
        }
        lemma_insert_at(t, f, j);
        assert(t.insert(j, f).push(s.last()) =~= s.insert(j, f));
    }
}

/// `insert_by_key` puts `f` somewhere in `s`.
proof fn lemma_insert_somewhere(s: Seq<Feature>, f: Feature) -> (j: int)
    ensures
        0 <= j <= s.len(),
        insert_by_key(s, f) == s.insert(j, f),
    decreases s.len(),
{
    if s.len() == 0 {
        assert(s.insert(0, f) =~= seq![f]);
        0
    } else if lex_less(sort_key(f), sort_key(s.last())) {
        let j = lemma_insert_somewhere(s.drop_last(), f);
        assert(s.drop_last().insert(j, f).push(s.last()) =~= s.insert(j, f));
        j
    } else {
        assert(s.insert(s.len() as int, f) =~= s.push(f));
        s.len() as int
    }
}

proof fn lemma_insert_keeps_order(s: Seq<Feature>, f: Feature)
    requires
        keys_ascending(s),
    ensures
        keys_ascending(insert_by_key(s, f)),
    decreases s.len(),
{
    if s.len() == 0 {
    } else if lex_less(sort_key(f), sort_key(s.last())) {
        let t = s.drop_last();
        assert(keys_ascending(t)) by {
            assert forall|i: int, j: int| 0 <= i < j < t.len() implies !lex_less(
                #[trigger] sort_key(t[j]),
                #[trigger] sort_key(t[i]),
            ) by {
                assert(t[i] == s[i] && t[j] == s[j]);
            }
        }
        lemma_insert_keeps_order(t, f);
        let u = insert_by_key(t, f);
        let j = lemma_insert_somewhere(t, f);
        let last = s.last();
        // every element of u is not greater than the last element of s
        assert forall|i: int| 0 <= i < u.len() implies !lex_less(
            sort_key(last),
            #[trigger] sort_key(u[i]),
        ) by {
            if i < j {
                assert(u[i] == s[i]);
            } else if i == j {
                assert(u[i] == f);
                lemma_lex_total(sort_key(f), sort_key(last));
                if lex_less(sort_key(last), sort_key(f)) {
                    crate::order::lemma_lex_transitive(sort_key(last), sort_key(f), sort_key(last));
                    lemma_lex_irreflexive(sort_key(last));
                }
            } else {
                assert(u[i] == s[i - 1]);
            }
        }
        let r = u.push(last);
        assert forall|a: int, b: int| 0 <= a < b < r.len() implies !lex_less(
            #[trigger] sort_key(r[b]),
            #[trigger] sort_key(r[a]),
        ) by {
            if b < u.len() {
                assert(r[a] == u[a] && r[b] == u[b]);
            } else {
                assert(r[a] == u[a]);
                assert(r[b] == last);
            }
        }
    } else {
        let r = s.push(f);
        assert forall|a: int, b: int| 0 <= a < b < r.len() implies !lex_less(
            #[trigger] sort_key(r[b]),
            #[trigger] sort_key(r[a]),
        ) by {
            if b < s.len() {
                assert(r[a] == s[a] && r[b] == s[b]);
            } else {
                assert(r[a] == s[a]);
                assert(r[b] == f);
                if a < s.len() - 1 {
                    assert(!lex_less(sort_key(s[s.len() - 1]), sort_key(s[a])));
                    lemma_lex_le_transitive(sort_key(s[a]), sort_key(s[s.len() - 1]), sort_key(f));
                }
            }
        }
    }
}

/// The ordered features have ascending keys.
pub proof fn lemma_sorted_ascending(s: Seq<Feature>)
    ensures
        keys_ascending(sorted_by_key(s)),
    decreases s.len(),
{
    if s.len() > 0 {
        lemma_sorted_ascending(s.drop_last());
        lemma_insert_keeps_order(sorted_by_key(s.drop_last()), s.last());
    }
}

/// Ordering the features neither adds nor drops any.
pub proof fn lemma_sorted_permutation(s: Seq<Feature>)
    ensures
        sorted_by_key(s).to_multiset() == s.to_multiset(),
    decreases s.len(),
{
    if s.len() > 0 {
        let t = s.drop_last();
        lemma_sorted_permutation(t);
        let j = lemma_insert_somewhere(sorted_by_key(t), s.last());
        vstd::seq_lib::to_multiset_insert(sorted_by_key(t), j, s.last());
        assert(s =~= t.push(s.last()));
    }
}

proof fn lemma_with_key_insert(s: Seq<Feature>, f: Feature, k: Seq<char>)
    ensures
        with_key(insert_by_key(s, f), k) == (if sort_key(f) == k {
            with_key(s, k).push(f)
        } else {
            with_key(s, k)
        }),
    decreases s.len(),
{
    if s.len() == 0 {
        let r = seq![f];
        assert(insert_by_key(s, f) == r);
        assert(r.drop_last() =~= s);
        assert(r.last() == f);
        assert(with_key(s, k) == s);
        assert(s.push(f) =~= r);
    } else if lex_less(sort_key(f), sort_key(s.last())) {
        let t = s.drop_last();
        lemma_with_key_insert(t, f, k);
        let u = insert_by_key(t, f);
        assert(insert_by_key(s, f) == u.push(s.last()));
        assert(u.push(s.last()).drop_last() =~= u);
        assert(u.push(s.last()).last() == s.last());
        if sort_key(f) == k {
            lemma_lex_irreflexive(k);
            assert(sort_key(s.last()) != k);
        }
    } else {
        assert(insert_by_key(s, f) == s.push(f));
        assert(s.push(f).drop_last() =~= s);
        assert(s.push(f).last() == f);
    }
}

/// Features with equal keys keep their relative order: for every key, the
/// features with that key come in the same order before and after.
pub proof fn lemma_sorted_stable(s: Seq<Feature>, k: Seq<char>)
    ensures
        with_key(sorted_by_key(s), k) == with_key(s, k),
    decreases s.len(),
{
    if s.len() > 0 {
        let t = s.drop_last();
        lemma_sorted_stable(t, k);
        lemma_with_key_insert(sorted_by_key(t), s.last(), k);
    }
}

/// Features that are already in order stay as they are.
pub proof fn lemma_sorted_of_ascending(s: Seq<Feature>)
    requires
        keys_ascending(s),
    ensures
        sorted_by_key(s) == s,
    decreases s.len(),
{
    if s.len() > 0 {
        let t = s.drop_last();
        assert(keys_ascending(t)) by {
            assert forall|i: int, j: int| 0 <= i < j < t.len() implies !lex_less(
                #[trigger] sort_key(t[j]),
                #[trigger] sort_key(t[i]),
            ) by {
                assert(t[i] == s[i] && t[j] == s[j]);
            }
        }
        lemma_sorted_of_ascending(t);
        if t.len() > 0 {
            assert(t.last() == s[s.len() - 2]);
            assert(!lex_less(sort_key(s[s.len() - 1]), sort_key(s[s.len() - 2])));
        }
        assert(t.push(s.last()) =~= s);
    }
}

/// Ordering twice is ordering once: preparing a prepared configuration
/// leaves its features as they are.
pub proof fn lemma_sorted_idempotent(s: Seq<Feature>)
    ensures
        sorted_by_key(sorted_by_key(s)) == sorted_by_key(s),
{
    lemma_sorted_ascending(s);
    lemma_sorted_of_ascending(sorted_by_key(s));
}

/// Any two elements of `s` with the same key are the same feature.
pub open spec fn key_determines_feature(s: Seq<Feature>) -> bool {
    forall|x: Feature, y: Feature|
        #[trigger] s.contains(x) && #[trigger] s.contains(y) && sort_key(x) == sort_key(y) ==> x
            == y
}

/// No two positions of `s` hold features with the same key.
pub open spec fn keys_distinct(s: Seq<Feature>) -> bool {
    forall|i: int, j: int|
        0 <= i < j < s.len() ==> sort_key(#[trigger] s[i]) != sort_key(#[trigger] s[j])
}

/// Two sequences in ascending key order with the same elements, in which a
/// key determines the feature, are equal.
proof fn lemma_ascending_unique(t1: Seq<Feature>, t2: Seq<Feature>)
    requires
        keys_ascending(t1),
        keys_ascending(t2),
        t1.to_multiset() == t2.to_multiset(),
        key_determines_feature(t1),
    ensures
        t1 == t2,
    decreases t1.len(),
{
    broadcast use vstd::multiset::group_multiset_axioms;

    t1.to_multiset_ensures();
    t2.to_multiset_ensures();
    assert(t1.len() == t2.len());
    if t1.len() == 0 {
        assert(t1 =~= t2);
    } else {
        let n = t1.len() - 1;
        let a = t1[n];
        let b = t2[n];
        assert(t1.contains(a));
        assert(t1.to_multiset().count(a) > 0);
        assert(t2.contains(a));
        let j = choose|j: int| 0 <= j < t2.len() && t2[j] == a;
        if j < n {
            assert(!lex_less(sort_key(t2[n]), sort_key(t2[j])));
        } else {
            lemma_lex_irreflexive(sort_key(a));
        }
        assert(t2.contains(b));
        assert(t2.to_multiset().count(b) > 0);
        assert(t1.contains(b));
        let i = choose|i: int| 0 <= i < t1.len() && t1[i] == b;
        if i < n {
            assert(!lex_less(sort_key(t1[n]), sort_key(t1[i])));
        } else {
            lemma_lex_irreflexive(sort_key(b));
        }
        lemma_lex_total(sort_key(a), sort_key(b));
        assert(a == b);
        let u1 = t1.drop_last();
        let u2 = t2.drop_last();
        assert(t1 =~= u1.push(a));
        assert(t2 =~= u2.push(a));
        assert(u1.to_multiset() =~= t1.to_multiset().remove(a));
        assert(u2.to_multiset() =~= t2.to_multiset().remove(a));
        assert(keys_ascending(u1)) by {
            assert forall|p: int, q: int| 0 <= p < q < u1.len() implies !lex_less(
                #[trigger] sort_key(u1[q]),
                #[trigger] sort_key(u1[p]),
            ) by {
                assert(u1[p] == t1[p] && u1[q] == t1[q]);
            }
        }
        assert(keys_ascending(u2)) by {
            assert forall|p: int, q: int| 0 <= p < q < u2.len() implies !lex_less(
                #[trigger] sort_key(u2[q]),
                #[trigger] sort_key(u2[p]),
            ) by {
                assert(u2[p] == t2[p] && u2[q] == t2[q]);
            }
        }
        assert(key_determines_feature(u1)) by {
            assert forall|x: Feature, y: Feature|
                #[trigger] u1.contains(x) && #[trigger] u1.contains(y) && sort_key(x) == sort_key(
                    y,
                ) implies x == y by {
                let p = choose|p: int| 0 <= p < u1.len() && u1[p] == x;
                let q = choose|q: int| 0 <= q < u1.len() && u1[q] == y;
                assert(t1[p] == x && t1[q] == y);
                assert(t1.contains(x) && t1.contains(y));
            }
        }
        lemma_ascending_unique(u1, u2);
    }
}

/// Preparing two orderings of the same features whose lowercased names are
/// pairwise distinct gives the same order: after preparation the layout
/// follows the lowercased names, not the order in which the features were
/// listed.
pub proof fn lemma_prepare_ignores_listing_order(s1: Seq<Feature>, s2: Seq<Feature>)
    requires
        s1.to_multiset() == s2.to_multiset(),
        keys_distinct(s1),
    ensures
        sorted_by_key(s1) == sorted_by_key(s2),
{
    broadcast use vstd::multiset::group_multiset_axioms;

    let t1 = sorted_by_key(s1);
    let t2 = sorted_by_key(s2);
    lemma_sorted_ascending(s1);
    lemma_sorted_ascending(s2);
    lemma_sorted_permutation(s1);
    lemma_sorted_permutation(s2);
    assert forall|x: Feature, y: Feature|
        #[trigger] t1.contains(x) && #[trigger] t1.contains(y) && sort_key(x) == sort_key(y)
        implies x == y by {
        assert(t1.to_multiset().count(x) > 0 && t1.to_multiset().count(y) > 0);
        assert(s1.contains(x) && s1.contains(y));
        let p = choose|p: int| 0 <= p < s1.len() && s1[p] == x;
        let q = choose|q: int| 0 <= q < s1.len() && s1[q] == y;
        if p < q {
            assert(sort_key(s1[p]) != sort_key(s1[q]));
        } else if q < p {
            assert(sort_key(s1[q]) != sort_key(s1[p]));
        }
    }
    lemma_ascending_unique(t1, t2);
}

proof fn lemma_sorted_step(s: Seq<Feature>, i: int)
    requires
        0 <= i < s.len(),
    ensures
        sorted_by_key(s.take(i + 1)) == insert_by_key(sorted_by_key(s.take(i)), s[i]),
{
    assert(s.take(i + 1).drop_last() =~= s.take(i));
}

impl PipeConfig {
    /// Puts the features in the order of their lowercased names; features
    /// whose lowercased names are equal keep their relative order.
    pub fn sort_features(&mut self)
        ensures
            final(self).features@ == sorted_by_key(old(self).features@),
            final(self).is_prepared == old(self).is_prepared,
            keys_ascending(final(self).features@),
            final(self).features@.to_multiset() == old(self).features@.to_multiset(),
            forall|k: Seq<char>|
                #[trigger] with_key(final(self).features@, k) == with_key(old(self).features@, k),
    {
        let ghost orig = self.features@;
        let n = self.features.len();
        let mut keys: Vec<Vec<char>> = Vec::new();
        let mut i: usize = 0;
        while i < n
            invariant
                self.features@ == orig,
                n == orig.len(),
                i <= n,
                keys@.len() == i,
                forall|m: int| 0 <= m < i ==> #[trigger] keys@[m]@ == sort_key(orig[m]),
            decreases n - i,
        {
            let k = lowercase_chars(self.features[i].name.as_str());
            keys.push(k);
            i = i + 1;
        }
        assert(orig.take(0) =~= Seq::<Feature>::empty());
        assert(orig.skip(0) =~= orig);
        i = 0;
        while i < n
            invariant
                n == orig.len(),
                i <= n,
                self.features@.len() == n,
                keys@.len() == n,
                forall|m: int| 0 <= m < n ==> #[trigger] keys@[m]@ == sort_key(self.features@[m]),
                self.features@.take(i as int) == sorted_by_key(orig.take(i as int)),
                self.features@.skip(i as int) == orig.skip(i as int),
                self.is_prepared == old(self).is_prepared,
            decreases n - i,
        {
            let ghost before = self.features@;
            let ghost keys_before = keys@;
            assert(before[i as int] == before.skip(i as int)[0]);
            let f = self.features.remove(i);
            let k = keys.remove(i);
            assert(f == orig[i as int]);
            let ghost prefix = before.take(i as int);
            let mut j: usize = i;
            loop
                invariant
                    j <= i,
                    i < n,
                    keys@ == keys_before.remove(i as int),
                    keys_before.len() == n,
                    k@ == sort_key(f),
                    forall|m: int| 0 <= m < n ==> #[trigger] keys_before[m]@ == sort_key(before[m]),
                    prefix == before.take(i as int),
                    before.len() == n,
                    forall|m: int| j <= m < i ==> lex_less(sort_key(f), #[trigger] sort_key(prefix[m])),
                ensures
                    j <= i,
                    keys@ == keys_before.remove(i as int),
                    forall|m: int| j <= m < i ==> lex_less(sort_key(f), #[trigger] sort_key(prefix[m])),
                    j > 0 ==> !lex_less(sort_key(f), sort_key(prefix[j - 1])),
                decreases j,
            {
                if j == 0 {
                    break;
                }
                assert(keys@[j - 1] == keys_before[j - 1]);
                if !lex_less_exec(&k, &keys[j - 1]) {
                    assert(prefix[j - 1] == before[j - 1]);
                    break;
                }
                assert(prefix[j - 1] == before[j - 1]);
                j = j - 1;
            }
            proof {
                if j > 0 {
                    assert(keys_before[j - 1]@ == sort_key(before[j - 1]));
                    assert(prefix[j - 1] == before[j - 1]);
                }
                lemma_insert_at(prefix, f, j as int);
                lemma_sorted_step(orig, i as int);
            }
            self.features.insert(j, f);
            keys.insert(j, k);
            proof {
                let after = self.features@;
                assert(after.take(i + 1) =~= prefix.insert(j as int, f));
                assert forall|m: int| 0 <= m < n - (i + 1) implies #[trigger] after.skip(i + 1)[m]
                    == orig.skip(i + 1)[m] by {
                    assert(after[i + 1 + m] == before[i + 1 + m]);
                    assert(before[i + 1 + m] == before.skip(i as int)[m + 1]);
                    assert(orig[i + 1 + m] == orig.skip(i as int)[m + 1]);
                }
                assert(after.skip(i + 1) =~= orig.skip(i + 1));
                assert forall|m: int| 0 <= m < n implies #[trigger] keys@[m]@ == sort_key(
                    self.features@[m],
                ) by {
                    if m < j {
                        assert(keys@[m] == keys_before[m]);
                        assert(self.features@[m] == before[m]);
                    } else if m == j {
                    } else if m <= i {
                        assert(keys@[m] == keys_before[m - 1]);
                        assert(self.features@[m] == before[m - 1]);
                    } else {
                        assert(keys@[m] == keys_before[m]);
                        assert(self.features@[m] == before[m]);
                    }
                }
            }
            i = i + 1;
        }
        proof {
            assert(self.features@ =~= self.features@.take(n as int));
            assert(orig =~= orig.take(n as int));
            lemma_sorted_ascending(orig);
            lemma_sorted_permutation(orig);
            assert forall|k: Seq<char>|
                #[trigger] with_key(self.features@, k) == with_key(orig, k) by {
                lemma_sorted_stable(orig, k);
            }
        }
    }

    /// Puts the features in order and marks the configuration as prepared.
    pub fn prepare(&mut self)
        ensures
            final(self).features@ == sorted_by_key(old(self).features@),
            final(self).is_prepared,
    {
        self.sort_features();
        self.is_prepared = true;
    }

    /// The row for the input: refused until the configuration is prepared.
    pub fn transform(self, data: &JsonRecord) -> (r: Result<Vec<Encoded>, FeatureError>)
        ensures
            outcome_view(r) == (if !self.is_prepared {
                Err(ErrorView::NotPrepared)
            } else {
                transform_spec(self.features@, data@)
            }),
    {
        if !self.is_prepared {
            return Err(FeatureError::from(NotPreparedError::new()));
        }
        transform_based_on_pipe(&self, data)
    }
}

} // verus!
