//! Rectangular two-dimensional fields and transposition.

use vstd::prelude::*;

verus! {

/// The rows of a vector-of-vectors, as a sequence of sequences.
pub open spec fn rows_view<T>(m: Seq<Vec<T>>) -> Seq<Seq<T>> {
    Seq::new(m.len(), |y: int| m[y]@)
}

/// Every row has the first row's length.
pub open spec fn rectangular<T>(m: Seq<Seq<T>>) -> bool {
    forall|y: int| 0 <= y < m.len() ==> #[trigger] m[y].len() == m[0].len()
}

/// `s` with the element at index `i` taken out.
pub open spec fn remove_at<T>(s: Seq<T>, i: int) -> Seq<T> {
    s.subrange(0, i) + s.subrange(i + 1, s.len() as int)
}

/// The transposed field: rows and columns swapped.
pub open spec fn transpose_spec(m: Seq<Seq<u64>>) -> Seq<Seq<u64>> {
    let cols = if m.len() == 0 {
        0
    } else {
        m[0].len()
    };
    Seq::new(cols, |x: int| Seq::new(m.len(), |y: int| m[y][x]))
}

/// Transposing twice gives back the original field: the transpose is its
/// own inverse on non-empty rectangular fields.
pub proof fn lemma_transpose_involutive(m: Seq<Seq<u64>>)
    requires
        rectangular(m),
        m.len() >= 1,
        m[0].len() >= 1,
    ensures
        transpose_spec(transpose_spec(m)) == m,
{
    let t = transpose_spec(m);
    let tt = transpose_spec(t);
    assert(t.len() == m[0].len());
    assert(tt.len() == m.len());
    assert forall|y: int| 0 <= y < m.len() implies tt[y] =~= m[y] by {
        assert(tt[y].len() == t.len());
        assert(m[y].len() == m[0].len());
    }
    assert(tt =~~= m);
}

/// Rows and columns swapped; the result's row `x` holds the input's column
/// `x`, top to bottom.
pub fn transpose(matrix: &Vec<Vec<u64>>) -> (r: Vec<Vec<u64>>)
    requires
        rectangular(rows_view(matrix@)),
        matrix.len() >= 1,
    ensures
        rows_view(r@) == transpose_spec(rows_view(matrix@)),
        rectangular(rows_view(r@)),
        r.len() == matrix@[0]@.len(),
        forall|x: int| 0 <= x < r.len() ==> #[trigger] r@[x]@.len() == matrix.len(),
{
    let ghost mv = rows_view(matrix@);
    let w: usize = matrix[0].len();
    let h: usize = matrix.len();
    let mut r: Vec<Vec<u64>> = Vec::new();
    let mut x: usize = 0;
    while x < w
        invariant
            x <= w,
            h == matrix.len() >= 1,
            w == matrix@[0]@.len(),
            rectangular(mv),
            mv == rows_view(matrix@),
            r.len() == x,
            forall|xi: int| 0 <= xi < x ==> #[trigger] r@[xi]@ =~= transpose_spec(mv)[xi],
        decreases w - x,
    {
        let mut row: Vec<u64> = Vec::new();
        let mut y: usize = 0;
        while y < h
            invariant
                y <= h,
                x < w,
                h == matrix.len(),
                w == matrix@[0]@.len(),
                rectangular(mv),
                mv == rows_view(matrix@),
                row.len() == y,
                forall|yi: int| 0 <= yi < y ==> #[trigger] row@[yi] == mv[yi][x as int],
            decreases h - y,
        {
            proof {
                assert(mv[y as int].len() == mv[0].len());
            }
            let v: u64 = matrix[y][x];
            row.push(v);
            y = y + 1;
        }
        proof {
            assert(row@ =~= transpose_spec(mv)[x as int]);
        }
        r.push(row);
        x = x + 1;
    }
    proof {
        assert(rows_view(r@) =~~= transpose_spec(mv));
    }
    r
}

} // verus!
