//! Row-major matrices as vectors of rows, whatever their element type: the
//! lookups, reshapes and growth that the layers do without arithmetic.
use vstd::prelude::*;

verus! {

/// The rows of `m`, each as a sequence.
pub open spec fn rows_of<T>(m: Seq<Vec<T>>) -> Seq<Seq<T>> {
    m.map_values(|row: Vec<T>| row@)
}

/// Every row of `m` has `cols` elements.
pub open spec fn is_rect<T>(m: Seq<Seq<T>>, cols: nat) -> bool {
    forall|i: int| 0 <= i < m.len() ==> #[trigger] m[i].len() == cols
}

/// `data` cut into pieces of `cols` elements, the last one possibly shorter.
pub open spec fn chunks<T>(data: Seq<T>, cols: nat) -> Seq<Seq<T>>
    recommends
        cols > 0,
    decreases data.len(),
{
    if cols == 0 || data.len() == 0 {
        Seq::empty()
    } else if data.len() <= cols {
        seq![data]
    } else {
        seq![data.take(cols as int)] + chunks(data.skip(cols as int), cols)
    }
}

/// A copy of `row`.
fn copy_row<T: Copy>(row: &Vec<T>) -> (r: Vec<T>)
    ensures
        r@ == row@,
{
    let mut out: Vec<T> = Vec::new();
    for j in 0..row.len()
        invariant
            out@ == row@.take(j as int),
    {
        out.push(row[j]);
        assert(out@ =~= row@.take(j + 1));
    }
    assert(row@.take(row.len() as int) =~= row@);
    out
}

/// The rows of `table` named by `ids`, in order (an embedding lookup).
pub fn gather_rows<T: Copy>(table: &Vec<Vec<T>>, ids: &[usize]) -> (r: Vec<Vec<T>>)
    requires
        forall|i: int| 0 <= i < ids.len() ==> #[trigger] ids[i] < table.len(),
    ensures
        r.len() == ids.len(),
        forall|i: int| 0 <= i < ids.len() ==> #[trigger] r[i]@ == table[ids[i] as int]@,
{
    let mut out: Vec<Vec<T>> = Vec::new();
    for k in 0..ids.len()
        invariant
            forall|i: int| 0 <= i < ids.len() ==> #[trigger] ids[i] < table.len(),
            out.len() == k,
            forall|i: int| 0 <= i < k ==> #[trigger] out[i]@ == table[ids[i] as int]@,
    {
        out.push(copy_row(&table[ids[k]]));
    }
    out
}

/// The elements of `m`, row after row.
pub fn flatten_rows<T: Copy>(m: &Vec<Vec<T>>) -> (r: Vec<T>)
    ensures
        r@ == rows_of(m@).flatten(),
{
    let mut out: Vec<T> = Vec::new();
    let ghost rs = rows_of(m@);
    for i in 0..m.len()
        invariant
            rs == rows_of(m@),
            out@ == rs.take(i as int).flatten(),
    {
        let row = &m[i];
        for j in 0..row.len()
            invariant
                rs == rows_of(m@),
                i < m.len(),
                *row == m[i as int],
                out@ == rs.take(i as int).flatten() + row@.take(j as int),
        {
            out.push(row[j]);
            assert(out@ =~= rs.take(i as int).flatten() + row@.take(j + 1));
        }
        proof {
            assert(row@.take(row.len() as int) =~= row@);
            assert(rs.take(i + 1) =~= rs.take(i as int).push(rs[i as int]));
            rs.take(i as int).lemma_flatten_push(rs[i as int]);
        }
    }
    assert(rs.take(m.len() as int) =~= rs);
    out
}

/// `data` cut into rows of `cols` elements, the last one possibly shorter.
pub fn chunk_rows<T: Copy>(data: &Vec<T>, cols: usize) -> (r: Vec<Vec<T>>)
    requires
        cols > 0,
    ensures
        rows_of(r@) == chunks(data@, cols as nat),
{
    let mut out: Vec<Vec<T>> = Vec::new();
    let mut start: usize = 0;
    assert(data@.skip(0) =~= data@);
    assert(rows_of(out@) + chunks(data@, cols as nat) =~= chunks(data@, cols as nat));
    while start < data.len()
        invariant
            cols > 0,
            start <= data.len(),
            rows_of(out@) + chunks(data@.skip(start as int), cols as nat) == chunks(data@, cols as nat),
        decreases data.len() - start,
    {
        let rest = data.len() - start;
        let end = if rest <= cols {
            data.len()
        } else {
            start + cols
        };
        let mut row: Vec<T> = Vec::new();
        let mut j = start;
        while j < end
            invariant
                start <= j <= end <= data.len(),
                row@ == data@.subrange(start as int, j as int),
            decreases end - j,
        {
            row.push(data[j]);
            assert(row@ =~= data@.subrange(start as int, j + 1));
            j = j + 1;
        }
        proof {
            let tail = data@.skip(start as int);
            let before = rows_of(out@);
            if rest <= cols {
                assert(row@ =~= tail);
                assert(tail.skip(rest as int) =~= data@.skip(end as int));
                assert(chunks(data@.skip(end as int), cols as nat) =~= Seq::<Seq<T>>::empty());
            } else {
                assert(row@ =~= tail.take(cols as int));
                assert(tail.skip(cols as int) =~= data@.skip(end as int));
            }
            assert(rows_of(out@.push(row)) =~= before.push(row@));
            assert(before.push(row@) + chunks(data@.skip(end as int), cols as nat) =~= before + chunks(tail, cols as nat));
        }
        out.push(row);
        start = end;
    }
    assert(data@.skip(start as int) =~= Seq::<T>::empty());
    assert(rows_of(out@) + Seq::<Seq<T>>::empty() =~= rows_of(out@));
    out
}

/// Cutting the elements of a matrix whose rows all have `cols > 0` elements
/// back into rows of `cols` gives the matrix again.
pub proof fn lemma_chunks_of_flatten<T>(m: Seq<Seq<T>>, cols: nat)
    requires
        cols > 0,
        is_rect(m, cols),
    ensures
        chunks(m.flatten(), cols) == m,
    decreases m.len(),
{
    if m.len() > 0 {
        let rest = m.drop_first();
        assert(is_rect(rest, cols)) by {
            assert forall|i: int| 0 <= i < rest.len() implies #[trigger] rest[i].len() == cols by {
                assert(rest[i] == m[i + 1]);
            }
        }
        lemma_chunks_of_flatten(rest, cols);
        lemma_flatten_len(rest, cols);
        let f = m.flatten();
        assert(f == m[0] + rest.flatten());
        assert(f.take(cols as int) =~= m[0]);
        assert(f.skip(cols as int) =~= rest.flatten());
        if rest.len() == 0 {
            assert(rest.flatten() =~= Seq::<T>::empty());
            assert(f =~= m[0]);
            assert(chunks(f, cols) == seq![m[0]]);
            assert(seq![m[0]] =~= m);
        } else {
            assert(rest.flatten().len() > 0) by {
                assert(rest.flatten().len() == rest.len() * cols) ;
                assert(rest.len() * cols > 0) by (nonlinear_arith)
                    requires
                        rest.len() > 0,
                        cols > 0,
                ;
            }
            assert(chunks(f, cols) == seq![m[0]] + chunks(rest.flatten(), cols));
            assert(seq![m[0]] + rest =~= m);
        }
    }
}

/// A matrix with rows of `cols` elements has `rows * cols` elements.
proof fn lemma_flatten_len<T>(m: Seq<Seq<T>>, cols: nat)
    requires
        is_rect(m, cols),
    ensures
        m.flatten().len() == m.len() * cols,
    decreases m.len(),
{
    if m.len() > 0 {
        let rest = m.drop_first();
        assert(is_rect(rest, cols)) by {
            assert forall|i: int| 0 <= i < rest.len() implies #[trigger] rest[i].len() == cols by {
                assert(rest[i] == m[i + 1]);
            }
        }
        lemma_flatten_len(rest, cols);
        assert(m.len() * cols == cols + rest.len() * cols) by (nonlinear_arith)
            requires
                rest.len() + 1 == m.len(),
        ;
    }
}

/// Appends a row of `width` copies of `fill` and returns its index, the old
/// number of rows (a new token's embedding row).
pub fn append_row<T: Copy>(m: &mut Vec<Vec<T>>, width: usize, fill: T) -> (r: usize)
    ensures
        r == old(m).len(),
        final(m)@.len() == old(m)@.len() + 1,
        final(m)@.take(r as int) == old(m)@,
        final(m)[r as int]@ == Seq::new(width as nat, |j: int| fill),
{
    let mut row: Vec<T> = Vec::new();
    for j in 0..width
        invariant
            row@ == Seq::new(j as nat, |k: int| fill),
    {
        row.push(fill);
        assert(row@ =~= Seq::new((j + 1) as nat, |k: int| fill));
    }
    let r = m.len();
    m.push(row);
    assert(m@.take(r as int) =~= old(m)@);
    r
}

/// Appends `fill` to the end of every row (a new output column).
pub fn append_column<T: Copy>(m: &mut Vec<Vec<T>>, fill: T)
    ensures
        final(m)@.len() == old(m)@.len(),
        forall|i: int| 0 <= i < final(m)@.len() ==> #[trigger] final(m)[i]@ == old(m)[i]@.push(fill),
{
    let ghost orig = m@;
    let n = m.len();
    let mut i: usize = 0;
    while i < n
        invariant
            n == orig.len(),
            i <= n,
            m@.len() == n,
            forall|k: int| 0 <= k < i ==> #[trigger] m@[k]@ == orig[k]@.push(fill),
            forall|k: int| i <= k < n ==> #[trigger] m@[k] == orig[k],
        decreases n - i,
    {
        let mut row = copy_row(&m[i]);
        row.push(fill);
        m.set(i, row);
        i = i + 1;
    }
}

} // verus!
