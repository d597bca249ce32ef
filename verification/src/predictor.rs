//! The shape of the model's input and output: rows are laid out one after
//! another for the model, and its flat output is cut back into rows, one per
//! input row, with one value per class.
use vstd::prelude::*;

verus! {

/// The rows one after another.
pub open spec fn concat_rows<T>(rows: Seq<Seq<T>>) -> Seq<T>
    decreases rows.len(),
{
    if rows.len() == 0 {
        Seq::empty()
    } else {
        rows[0] + concat_rows(rows.drop_first())
    }
}

/// `s` cut into consecutive pieces of `n` elements; the last piece holds what
/// is left and may be shorter.
pub open spec fn chunks_of<T>(s: Seq<T>, n: nat) -> Seq<Seq<T>>
    decreases s.len(),
{
    if s.len() == 0 || n == 0 {
        Seq::empty()
    } else if s.len() <= n {
        seq![s]
    } else {
        seq![s.take(n as int)] + chunks_of(s.skip(n as int), n)
    }
}

/// The rows of the model's output: with more than one class, one row of
/// `num_class` values per prediction; otherwise the whole output as one row.
pub open spec fn reshape_spec<T>(flat: Seq<T>, num_class: i32) -> Seq<Seq<T>> {
    if num_class > 1 {
        chunks_of(flat, num_class as nat)
    } else {
        seq![flat]
    }
}

/// The views of a vector of rows.
pub open spec fn rows_view<T>(rows: Seq<Vec<T>>) -> Seq<Seq<T>> {
    rows.map_values(|r: Vec<T>| r@)
}

proof fn lemma_concat_push<T>(rows: Seq<Seq<T>>, r: Seq<T>)
    ensures
        concat_rows(rows.push(r)) == concat_rows(rows) + r,
    decreases rows.len(),
{
    if rows.len() == 0 {
        assert(rows.push(r).drop_first() =~= rows);
        assert(concat_rows(rows.push(r)) =~= concat_rows(rows) + r);
    } else {
        lemma_concat_push(rows.drop_first(), r);
        assert(rows.push(r).drop_first() =~= rows.drop_first().push(r));
        assert(concat_rows(rows.push(r)) =~= concat_rows(rows) + r);
    }
}

/// Cutting into pieces and laying the pieces out again gives back the whole.
pub proof fn lemma_chunks_concat<T>(s: Seq<T>, n: nat)
    requires
        n > 0,
    ensures
        concat_rows(chunks_of(s, n)) == s,
    decreases s.len(),
{
    if s.len() == 0 {
    } else if s.len() <= n {
        let c = seq![s];
        assert(c.drop_first() =~= Seq::<Seq<T>>::empty());
        assert(concat_rows(c.drop_first()) == Seq::<T>::empty());
        assert(c[0] == s);
        assert(concat_rows(c) =~= s);
    } else {
        lemma_chunks_concat(s.skip(n as int), n);
        let c = seq![s.take(n as int)] + chunks_of(s.skip(n as int), n);
        assert(c.drop_first() =~= chunks_of(s.skip(n as int), n));
        assert(s.take(n as int) + s.skip(n as int) =~= s);
    }
}

/// Laying out the rows of the output again gives back the flat output.
pub proof fn lemma_reshape_flatten<T>(flat: Seq<T>, num_class: i32)
    ensures
        concat_rows(reshape_spec(flat, num_class)) == flat,
{
    if num_class > 1 {
        lemma_chunks_concat(flat, num_class as nat);
    } else {
        let c = seq![flat];
        assert(c.drop_first() =~= Seq::<Seq<T>>::empty());
        assert(concat_rows(c.drop_first()) == Seq::<T>::empty());
        assert(c[0] == flat);
        assert(concat_rows(c) =~= flat);
    }
}

/// Every piece but the last holds exactly `n` elements; the last holds
/// between one and `n`; there are no pieces only for an empty whole.
pub proof fn lemma_chunks_lengths<T>(s: Seq<T>, n: nat)
    requires
        n > 0,
    ensures
        chunks_of(s, n).len() == 0 <==> s.len() == 0,
        forall|i: int|
            0 <= i < chunks_of(s, n).len() - 1 ==> (#[trigger] chunks_of(s, n)[i]).len() == n,
        chunks_of(s, n).len() > 0 ==> 0 < chunks_of(s, n).last().len() <= n,
    decreases s.len(),
{
    if s.len() == 0 {
    } else if s.len() <= n {
    } else {
        let rest = s.skip(n as int);
        lemma_chunks_lengths(rest, n);
        let c = chunks_of(s, n);
        assert(c == seq![s.take(n as int)] + chunks_of(rest, n));
        assert forall|i: int| 0 <= i < c.len() - 1 implies (#[trigger] c[i]).len() == n by {
            if i > 0 {
                assert(c[i] == chunks_of(rest, n)[i - 1]);
            }
        }
        assert(c.last() == chunks_of(rest, n).last());
    }
}

/// With more than one class, the output rows are consecutive: laid out
/// again they give the flat output, every row but the last holds exactly
/// `num_class` values, and the last holds between one and `num_class`.
/// With one class or fewer, the output is a single row holding everything.
pub proof fn lemma_reshape_rows<T>(flat: Seq<T>, num_class: i32)
    ensures
        concat_rows(reshape_spec(flat, num_class)) == flat,
        num_class > 1 ==> forall|i: int|
            0 <= i < reshape_spec(flat, num_class).len() - 1 ==> (#[trigger] reshape_spec(
                flat,
                num_class,
            )[i]).len() == num_class,
        num_class > 1 && reshape_spec(flat, num_class).len() > 0 ==> 0 < reshape_spec(
            flat,
            num_class,
        ).last().len() <= num_class,
        num_class > 1 ==> (reshape_spec(flat, num_class).len() == 0 <==> flat.len() == 0),
        num_class <= 1 ==> reshape_spec(flat, num_class).len() == 1 && reshape_spec(
            flat,
            num_class,
        )[0] == flat,
{
    lemma_reshape_flatten(flat, num_class);
    if num_class > 1 {
        lemma_chunks_lengths(flat, num_class as nat);
    }
}

/// Pieces of a whole made of rows of `n` elements are those rows.
pub proof fn lemma_concat_chunks<T>(rows: Seq<Seq<T>>, n: nat)
    requires
        n > 0,
        forall|i: int| 0 <= i < rows.len() ==> (#[trigger] rows[i]).len() == n,
    ensures
        chunks_of(concat_rows(rows), n) == rows,
    decreases rows.len(),
{
    if rows.len() == 0 {
        assert(rows =~= Seq::<Seq<T>>::empty());
    } else {
        let rest = rows.drop_first();
        assert forall|i: int| 0 <= i < rest.len() implies (#[trigger] rest[i]).len() == n by {
            assert(rest[i] == rows[i + 1]);
        }
        lemma_concat_chunks(rest, n);
        let s = concat_rows(rows);
        assert(s == rows[0] + concat_rows(rest));
        assert(s.take(n as int) =~= rows[0]);
        assert(s.skip(n as int) =~= concat_rows(rest));
        if s.len() <= n {
            assert(concat_rows(rest).len() == 0);
            if rest.len() > 0 {
                assert(rest[0].len() == n);
                assert(concat_rows(rest) == rest[0] + concat_rows(rest.drop_first()));
            }
            assert(rows =~= seq![s]);
        } else {
            assert(rows =~= seq![rows[0]] + rest);
        }
    }
}

/// A copy of `v[start..end]`.
fn copy_range<T: Copy>(v: &Vec<T>, start: usize, end: usize) -> (r: Vec<T>)
    requires
        start <= end <= v@.len(),
    ensures
        r@ == v@.subrange(start as int, end as int),
{
    let mut r: Vec<T> = Vec::new();
    let mut k: usize = start;
    while k < end
        invariant
            start <= k <= end,
            end <= v@.len(),
            r@ == v@.subrange(start as int, k as int),
        decreases end - k,
    {
        r.push(v[k]);
        k = k + 1;
        assert(r@ =~= v@.subrange(start as int, k as int));
    }
    r
}

/// All rows laid out one after another, as the model reads its input.
pub fn flatten_rows<T: Copy>(rows: &Vec<Vec<T>>) -> (r: Vec<T>)
    ensures
        r@ == concat_rows(rows_view(rows@)),
{
    let mut out: Vec<T> = Vec::new();
    let mut i: usize = 0;
    assert(rows_view(rows@.take(0)) =~= Seq::<Seq<T>>::empty());
    while i < rows.len()
        invariant
            i <= rows@.len(),
            out@ == concat_rows(rows_view(rows@.take(i as int))),
        decreases rows@.len() - i,
    {
        let row = &rows[i];
        let ghost before = out@;
        let mut k: usize = 0;
        while k < row.len()
            invariant
                k <= row@.len(),
                out@ == before + row@.take(k as int),
            decreases row@.len() - k,
        {
            out.push(row[k]);
            k = k + 1;
            assert(out@ =~= before + row@.take(k as int));
        }
        proof {
            assert(row@.take(row@.len() as int) =~= row@);
            assert(rows_view(rows@.take(i + 1)) =~= rows_view(rows@.take(i as int)).push(row@));
            lemma_concat_push(rows_view(rows@.take(i as int)), row@);
        }
        i = i + 1;
    }
    assert(rows@.take(rows@.len() as int) =~= rows@);
    out
}

/// The model's flat output cut into rows: with more than one class, rows of
/// `num_class` values; otherwise the whole output as a single row.
pub fn reshape_output<T: Copy>(flat: Vec<T>, num_class: i32) -> (r: Vec<Vec<T>>)
    ensures
        rows_view(r@) == reshape_spec(flat@, num_class),
{
    if num_class <= 1 {
        let mut r: Vec<Vec<T>> = Vec::new();
        let ghost f = flat@;
        r.push(flat);
        assert(rows_view(r@) =~= seq![f]);
        return r;
    }
    let n = num_class as usize;
    let len = flat.len();
    let mut rows: Vec<Vec<T>> = Vec::new();
    let mut start: usize = 0;
    assert(flat@.skip(0) =~= flat@);
    assert(rows_view(rows@) =~= Seq::<Seq<T>>::empty());
    while start < len
        invariant
            n == num_class as nat,
            n > 1,
            len == flat@.len(),
            start <= len,
            rows_view(rows@) + chunks_of(flat@.skip(start as int), n as nat) == chunks_of(
                flat@,
                n as nat,
            ),
        decreases len - start,
    {
        let remaining = len - start;
        let take = if remaining <= n {
            remaining
        } else {
            n
        };
        let row = copy_range(&flat, start, start + take);
        proof {
            let s = flat@.skip(start as int);
            assert(row@ =~= s.take(take as int));
            if remaining <= n {
                assert(s.take(take as int) =~= s);
                assert(chunks_of(s, n as nat) == seq![s]);
                assert(flat@.skip(start + take) =~= Seq::<T>::empty());
                assert(chunks_of(flat@.skip(start + take), n as nat) =~= Seq::<Seq<T>>::empty());
            } else {
                assert(s.skip(n as int) =~= flat@.skip(start + take));
            }
        }
        let ghost old_rows = rows@;
        rows.push(row);
        proof {
            assert(rows_view(rows@) =~= rows_view(old_rows).push(row@));
            let s = flat@.skip(start as int);
            assert(chunks_of(s, n as nat) =~= seq![row@] + chunks_of(
                flat@.skip(start + take),
                n as nat,
            ));
            assert(rows_view(rows@) + chunks_of(flat@.skip(start + take), n as nat)
                =~= rows_view(old_rows) + chunks_of(s, n as nat));
        }
        start = start + take;
    }
    proof {
        assert(flat@.skip(start as int) =~= Seq::<T>::empty());
        assert(rows_view(rows@) + Seq::<Seq<T>>::empty() =~= rows_view(rows@));
    }
    rows
}

} // verus!
