//! The order in which feature names are arranged: names are compared after
//! lowercasing, character by character, as `String`s are ordered.
use vstd::prelude::*;

verus! {

/// What `str::to_lowercase` returns for a string with the given characters.
pub uninterp spec fn lowercase_of(s: Seq<char>) -> Seq<char>;

/// Lexicographic "strictly less" on character sequences: the first position
/// where the two differ decides, and a proper prefix comes first. This is
/// the order of `String` (UTF-8 byte order and character order agree).
pub open spec fn lex_less(a: Seq<char>, b: Seq<char>) -> bool
    decreases a.len(),
{
    if b.len() == 0 {
        false
    } else if a.len() == 0 {
        true
    } else if a[0] == b[0] {
        lex_less(a.drop_first(), b.drop_first())
    } else {
        a[0] < b[0]
    }
}

/// No sequence is less than itself.
pub proof fn lemma_lex_irreflexive(a: Seq<char>)
    ensures
        !lex_less(a, a),
    decreases a.len(),
{
    if a.len() > 0 {
        lemma_lex_irreflexive(a.drop_first());
    }
}

/// Of two different sequences, one is less than the other.
pub proof fn lemma_lex_total(a: Seq<char>, b: Seq<char>)
    ensures
        lex_less(a, b) || lex_less(b, a) || a == b,
    decreases a.len(),
{
    if a.len() > 0 && b.len() > 0 && a[0] == b[0] {
        lemma_lex_total(a.drop_first(), b.drop_first());
        if a.drop_first() == b.drop_first() {
            assert(a =~= seq![a[0]] + a.drop_first());
            assert(b =~= seq![b[0]] + b.drop_first());
        }
    } else if a.len() == 0 && b.len() == 0 {
        assert(a =~= b);
    }
}

/// "Less than" is transitive.
pub proof fn lemma_lex_transitive(a: Seq<char>, b: Seq<char>, c: Seq<char>)
    requires
        lex_less(a, b),
        lex_less(b, c),
    ensures
        lex_less(a, c),
    decreases a.len(),
{
    if a.len() > 0 && a[0] == b[0] && b[0] == c[0] {
        lemma_lex_transitive(a.drop_first(), b.drop_first(), c.drop_first());
    }
}

/// "Not greater than" is transitive.
pub proof fn lemma_lex_le_transitive(a: Seq<char>, b: Seq<char>, c: Seq<char>)
    requires
        !lex_less(b, a),
        !lex_less(c, b),
    ensures
        !lex_less(c, a),
{
    lemma_lex_total(a, b);
    if lex_less(c, a) && lex_less(a, b) {
        lemma_lex_transitive(c, a, b);
    }
}

/// At the first position where two sequences differ, the smaller character
/// decides, whatever follows and whatever the lengths.
pub proof fn lemma_lex_first_difference(
    p: Seq<char>,
    x: char,
    y: char,
    a: Seq<char>,
    b: Seq<char>,
)
    requires
        x < y,
    ensures
        lex_less(p + seq![x] + a, p + seq![y] + b),
        !lex_less(p + seq![y] + b, p + seq![x] + a),
    decreases p.len(),
{
    let l = p + seq![x] + a;
    let r = p + seq![y] + b;
    if p.len() == 0 {
        assert(l[0] == x);
        assert(r[0] == y);
    } else {
        lemma_lex_first_difference(p.drop_first(), x, y, a, b);
        assert(l[0] == p[0] && r[0] == p[0]);
        assert(l.drop_first() =~= p.drop_first() + seq![x] + a);
        assert(r.drop_first() =~= p.drop_first() + seq![y] + b);
    }
}

/// A proper prefix comes before every longer sequence that starts with it,
/// and nothing that starts with a sequence comes before it.
pub proof fn lemma_lex_prefix(p: Seq<char>, x: char, r: Seq<char>)
    ensures
        lex_less(p, p + seq![x] + r),
        !lex_less(p + seq![x] + r, p),
        !lex_less(p + r, p),
    decreases p.len(),
{
    let l = p + seq![x] + r;
    if p.len() == 0 {
        assert(l.len() > 0);
    } else {
        lemma_lex_prefix(p.drop_first(), x, r);
        assert(l[0] == p[0]);
        assert(l.drop_first() =~= p.drop_first() + seq![x] + r);
        assert((p + r)[0] == p[0]);
        assert((p + r).drop_first() =~= p.drop_first() + r);
    }
}

/// Calls `str::to_lowercase`: the lowercase equivalent of the string, by the
/// Unicode lowercase mapping. Its characters are named, not stated.
#[verifier::external_body]
fn lowercase(s: &str) -> (r: String)
    ensures
        r@ == lowercase_of(s@),
{
    s.to_lowercase()
}

/// The characters of a string.
fn chars_of(s: &str) -> (r: Vec<char>)
    ensures
        r@ == s@,
{
    broadcast use vstd::string::group_string_axioms;

    let mut r: Vec<char> = Vec::new();
    for c in it: s.chars()
        invariant
            r@ == it.seq().take(it.index() as int),
            it.seq() == s@,
    {
        r.push(c);
    }
    r
}

/// The characters of the lowercased string.
pub(crate) fn lowercase_chars(s: &str) -> (r: Vec<char>)
    ensures
        r@ == lowercase_of(s@),
{
    let lower = lowercase(s);
    chars_of(lower.as_str())
}

proof fn lemma_lex_skip_step(a: Seq<char>, b: Seq<char>, i: int)
    requires
        0 <= i < a.len(),
        i < b.len(),
        a[i] == b[i],
    ensures
        lex_less(a.skip(i), b.skip(i)) == lex_less(a.skip(i + 1), b.skip(i + 1)),
{
    assert(a.skip(i).drop_first() =~= a.skip(i + 1));
    assert(b.skip(i).drop_first() =~= b.skip(i + 1));
}

/// Whether `a` comes strictly before `b` in lexicographic character order.
pub fn lex_less_exec(a: &Vec<char>, b: &Vec<char>) -> (r: bool)
    ensures
        r == lex_less(a@, b@),
{
    let mut i: usize = 0;
    assert(a@.skip(0) =~= a@);
    assert(b@.skip(0) =~= b@);
    loop
        invariant
            i <= a.len(),
            i <= b.len(),
            lex_less(a@, b@) == lex_less(a@.skip(i as int), b@.skip(i as int)),
        decreases a.len() - i,
    {
        if i == b.len() {
            assert(b@.skip(i as int).len() == 0);
            return false;
        }
        if i == a.len() {
            assert(a@.skip(i as int).len() == 0);
            return true;
        }
        let x: char = a[i];
        let y: char = b[i];
        if x != y {
            assert(a@.skip(i as int)[0] == x);
            assert(b@.skip(i as int)[0] == y);
            return x < y;
        }
        proof {
            lemma_lex_skip_step(a@, b@, i as int);
        }
        i = i + 1;
    }
}

} // verus!
