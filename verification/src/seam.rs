//! The seam locator: backtracking the accumulated cost field.

use vstd::prelude::*;

use crate::cost::acc_spec;
use crate::cost::calculate_accumulated_cost;
use crate::float_bits::INF_BITS;
use crate::matrix::rectangular;
use crate::matrix::rows_view;
use crate::matrix::transpose;
use crate::matrix::transpose_spec;
use crate::CarverMode;

verus! {

/// `i` is the index of the first minimum of `row`: no entry is smaller,
/// and every earlier entry is strictly larger.
pub open spec fn is_first_min(row: Seq<u64>, i: int) -> bool {
    &&& 0 <= i < row.len()
    &&& forall|j: int| 0 <= j < row.len() ==> row[i] <= #[trigger] row[j]
    &&& forall|j: int| 0 <= j < i ==> row[i] < #[trigger] row[j]
}

/// The index of the first minimum of `row`.
pub open spec fn first_min_idx(row: Seq<u64>) -> int {
    choose|i: int| is_first_min(row, i)
}

/// At most one index is the first minimum.
pub proof fn lemma_first_min_unique(row: Seq<u64>, i1: int, i2: int)
    requires
        is_first_min(row, i1),
        is_first_min(row, i2),
    ensures
        i1 == i2,
{
    if i1 < i2 {
        assert(row[i1] <= row[i2]);
        assert(row[i2] < row[i1]);
    }
    if i2 < i1 {
        assert(row[i2] <= row[i1]);
        assert(row[i1] < row[i2]);
    }
}

/// The column among `{x - 1, x, x + 1}`, clipped to the row, whose entry in
/// `prev` is smallest, the leftmost on ties: the cell the seam steps to in
/// the row above when it sits at column `x`.
pub open spec fn best_neighbor(prev: Seq<u64>, x: int) -> int {
    let w = prev.len() as int;
    let lo = if x == 0 {
        0
    } else {
        x - 1
    };
    let hi = if x + 1 >= w {
        w - 1
    } else {
        x + 1
    };
    if lo == hi {
        lo
    } else if hi == lo + 1 {
        if prev[lo] <= prev[hi] {
            lo
        } else {
            hi
        }
    } else if prev[lo] <= prev[lo + 1] && prev[lo] <= prev[lo + 2] {
        lo
    } else if prev[lo + 1] <= prev[lo + 2] {
        lo + 1
    } else {
        lo + 2
    }
}

/// The seam's neighbour step stays inside the row and moves at most one
/// column.
pub proof fn lemma_best_neighbor_adjacent(prev: Seq<u64>, x: int)
    requires
        prev.len() >= 1,
        0 <= x < prev.len(),
    ensures
        0 <= best_neighbor(prev, x) < prev.len(),
        best_neighbor(prev, x) <= x + 1,
        x - 1 <= best_neighbor(prev, x),
{
}

/// The seam's column at row `y`: at the last row, the first minimum of the
/// accumulated costs; above, the cheapest of the up-to-three neighbours of
/// the seam's column one row below.
pub open spec fn seam_col_spec(acc: Seq<Seq<u64>>, y: int) -> int
    decreases acc.len() - y,
{
    if y >= acc.len() - 1 {
        first_min_idx(acc[acc.len() - 1])
    } else {
        best_neighbor(acc[y], seam_col_spec(acc, y + 1))
    }
}

/// The whole seam, top to bottom: one column index per row of the
/// accumulated cost field.
pub open spec fn seam_spec(acc: Seq<Seq<u64>>) -> Seq<int> {
    Seq::new(acc.len(), |y: int| seam_col_spec(acc, y))
}

/// The seam the locator returns for an energy field in seam space: one
/// column per row of `energy`, each entry the spec seam's column.
pub open spec fn seam_matches(energy: Seq<Seq<u64>>, seam: Seq<usize>) -> bool {
    &&& seam.len() == energy.len()
    &&& forall|y: int|
        0 <= y < seam.len() ==> #[trigger] seam[y] == seam_col_spec(acc_spec(energy), y)
}

/// Index of the first minimum of a non-empty row.
fn first_min_index(row: &Vec<u64>) -> (i: usize)
    requires
        row.len() >= 1,
    ensures
        is_first_min(row@, i as int),
        i as int == first_min_idx(row@),
        i < row.len(),
{
    let mut best: usize = 0;
    let mut j: usize = 1;
    while j < row.len()
        invariant
            1 <= j <= row.len(),
            best < j,
            forall|t: int| 0 <= t < j ==> row@[best as int] <= #[trigger] row@[t],
            forall|t: int| 0 <= t < best ==> row@[best as int] < #[trigger] row@[t],
        decreases row.len() - j,
    {
        if row[j] < row[best] {
            best = j;
        }
        j = j + 1;
    }
    proof {
        assert(is_first_min(row@, best as int));
        let c = choose|i: int| is_first_min(row@, i);
        lemma_first_min_unique(row@, c, best as int);
    }
    best
}

/// Locates the minimal-cost seam of the energy field. In vertical mode the
/// field is walked as it stands; in horizontal mode it is transposed first,
/// so the result holds one row index per column of the original field.
/// Consecutive entries differ by at most one: the seam is a connected path.
pub fn find_seam(energy: &Vec<Vec<u64>>, mode: CarverMode) -> (seam: Vec<usize>)
    requires
        rectangular(rows_view(energy@)),
        energy.len() >= 1,
        energy@[0]@.len() >= 1,
        forall|y: int, x: int|
            0 <= y < energy.len() && 0 <= x < energy@[y]@.len() ==> #[trigger] energy@[y]@[x]
                <= INF_BITS,
    ensures
        mode == CarverMode::Vertical ==> seam_matches(rows_view(energy@), seam@),
        mode == CarverMode::Horizontal ==> seam_matches(
            transpose_spec(rows_view(energy@)),
            seam@,
        ),
        mode == CarverMode::Vertical ==> seam.len() == energy.len(),
        mode == CarverMode::Horizontal ==> seam.len() == energy@[0]@.len(),
        forall|y: int|
            0 <= y < seam.len() ==> #[trigger] seam@[y] < (if mode == CarverMode::Vertical {
                energy@[0]@.len() as int
            } else {
                energy.len() as int
            }),
        forall|y: int|
            0 <= y && y + 1 < seam.len() ==> #[trigger] seam@[y] <= seam@[y + 1] + 1 && seam@[y
                + 1] <= seam@[y] + 1,
{
    let oriented: Vec<Vec<u64>> = match mode {
        CarverMode::Vertical => clone_field(energy),
        CarverMode::Horizontal => transpose(energy),
    };
    let ghost ov = rows_view(oriented@);
    proof {
        let ev = rows_view(energy@);
        assert(ov[0] == oriented@[0]@);
        if mode == CarverMode::Horizontal {
            assert(oriented@[0]@.len() == energy.len());
        } else {
            assert(ov[0].len() == ev[0].len());
        }
        assert forall|y: int, x: int|
            0 <= y < oriented.len() && 0 <= x < oriented@[y]@.len() implies #[trigger] oriented@[y]@[x]
            <= INF_BITS by {
            assert(oriented@[y]@ == ov[y]);
            if mode == CarverMode::Horizontal {
                assert(ov[y][x] == ev[x][y]);
                assert(ev[x].len() == ev[0].len());
                assert(energy@[x]@[y] <= INF_BITS);
            } else {
                assert(ov[y][x] == ev[y][x]);
                assert(energy@[y]@[x] <= INF_BITS);
            }
        }
    }
    let acc = calculate_accumulated_cost(&oriented);
    let ghost av = acc_spec(ov);
    let h: usize = acc.len();
    let w: usize = acc[0].len();
    let last = &acc[h - 1];
    let mut x: usize = first_min_index(last);
    proof {
        assert(rows_view(acc@)[h - 1] == acc@[h - 1]@);
        assert(x as int == seam_col_spec(av, h - 1));
    }
    let mut back: Vec<usize> = Vec::new();
    back.push(x);
    let mut y: usize = h - 1;
    while y > 0
        invariant
            y < h,
            h == acc.len() >= 1,
            w == acc@[0]@.len() >= 1,
            av == acc_spec(ov),
            rows_view(acc@) == av,
            rectangular(av),
            forall|yi: int| 0 <= yi < h ==> #[trigger] acc@[yi]@.len() == w,
            back.len() == h - y,
            x < w,
            x as int == seam_col_spec(av, y as int),
            forall|i: int|
                0 <= i < back.len() ==> #[trigger] back@[i] == seam_col_spec(av, h - 1 - i),
        decreases y,
    {
        y = y - 1;
        let lo: usize = if x == 0 {
            0
        } else {
            x - 1
        };
        let hi: usize = if x + 1 >= w {
            w - 1
        } else {
            x + 1
        };
        let row = &acc[y];
        let mut b: usize = lo;
        if hi >= lo + 1 {
            if row[lo + 1] < row[b] {
                b = lo + 1;
            }
        }
        if hi >= lo + 2 {
            if row[lo + 2] < row[b] {
                b = lo + 2;
            }
        }
        proof {
            assert(row@ == av[y as int]);
            assert(b as int == best_neighbor(av[y as int], x as int));
            assert(b as int == seam_col_spec(av, y as int));
        }
        x = b;
        back.push(x);
    }
    // Reverse: the seam was collected bottom-up.
    let mut seam: Vec<usize> = Vec::new();
    let mut i: usize = back.len();
    while i > 0
        invariant
            i <= back.len(),
            back.len() == h,
            h == acc.len() >= 1,
            w == acc@[0]@.len() >= 1,
            av == acc_spec(ov),
            rows_view(acc@) == av,
            rectangular(av),
            forall|t: int|
                0 <= t < back.len() ==> #[trigger] back@[t] == seam_col_spec(av, h - 1 - t),
            seam.len() == back.len() - i,
            forall|t: int|
                0 <= t < seam.len() ==> #[trigger] seam@[t] == seam_col_spec(av, t),
        decreases i,
    {
        i = i - 1;
        let v: usize = back[i];
        seam.push(v);
    }
    proof {
        assert(seam@.len() == ov.len());
        assert forall|yy: int| 0 <= yy < seam@.len() implies #[trigger] seam@[yy] < ov[0].len() by {
            lemma_seam_col_in_range(av, yy);
            assert(av[0].len() == ov[0].len());
        }
        assert forall|yy: int|
            0 <= yy && yy + 1 < seam@.len() implies #[trigger] seam@[yy] <= seam@[yy + 1] + 1
            && seam@[yy + 1] <= seam@[yy] + 1 by {
            lemma_seam_col_in_range(av, yy + 1);
            assert(av[yy].len() == av[0].len());
            assert(seam_col_spec(av, yy) == best_neighbor(av[yy], seam_col_spec(av, yy + 1)));
            lemma_best_neighbor_adjacent(av[yy], seam_col_spec(av, yy + 1));
        }
        if mode == CarverMode::Horizontal {
            assert(ov == transpose_spec(rows_view(energy@)));
            assert(ov[0].len() == energy.len());
        }
    }
    seam
}

/// Every seam column lies inside its row.
proof fn lemma_seam_col_in_range(acc: Seq<Seq<u64>>, y: int)
    requires
        rectangular(acc),
        acc.len() >= 1,
        acc[0].len() >= 1,
        0 <= y < acc.len(),
    ensures
        0 <= seam_col_spec(acc, y) < acc[0].len(),
    decreases acc.len() - y,
{
    if y >= acc.len() - 1 {
        let last = acc[acc.len() - 1];
        assert(last.len() == acc[0].len());
        lemma_first_min_exists(last);
        let i = choose|i: int| is_first_min(last, i);
        assert(is_first_min(last, i));
    } else {
        lemma_seam_col_in_range(acc, y + 1);
        assert(acc[y].len() == acc[0].len());
        lemma_best_neighbor_adjacent(acc[y], seam_col_spec(acc, y + 1));
    }
}

/// A non-empty row has a first minimum.
proof fn lemma_first_min_exists(row: Seq<u64>)
    requires
        row.len() >= 1,
    ensures
        exists|i: int| is_first_min(row, i),
    decreases row.len(),
{
    if row.len() == 1 {
        assert(is_first_min(row, 0));
    } else {
        let head = row.subrange(0, row.len() - 1);
        lemma_first_min_exists(head);
        let i = choose|i: int| is_first_min(head, i);
        assert(is_first_min(head, i));
        if row[row.len() - 1] < row[i] {
            assert forall|j: int| 0 <= j < row.len() implies row[row.len() - 1] <= #[trigger] row[j] by {
                if j < row.len() - 1 {
                    assert(row[j] == head[j]);
                }
            }
            assert forall|j: int| 0 <= j < row.len() - 1 implies row[row.len() - 1] < #[trigger] row[j] by {
                assert(row[j] == head[j]);
            }
            assert(is_first_min(row, row.len() - 1));
        } else {
            assert forall|j: int| 0 <= j < row.len() implies row[i] <= #[trigger] row[j] by {
                if j < row.len() - 1 {
                    assert(row[j] == head[j]);
                }
            }
            assert forall|j: int| 0 <= j < i implies row[i] < #[trigger] row[j] by {
                assert(row[j] == head[j]);
            }
            assert(is_first_min(row, i));
        }
    }
}

/// A copy of the field, row by row.
fn clone_field(m: &Vec<Vec<u64>>) -> (r: Vec<Vec<u64>>)
    ensures
        rows_view(r@) == rows_view(m@),
        r.len() == m.len(),
{
    let mut r: Vec<Vec<u64>> = Vec::new();
    let mut y: usize = 0;
    while y < m.len()
        invariant
            y <= m.len(),
            r.len() == y,
            forall|yi: int| 0 <= yi < y ==> #[trigger] r@[yi]@ == m@[yi]@,
        decreases m.len() - y,
    {
        let row = m[y].clone();
        proof {
            assert(row@ == m@[y as int]@);
        }
        r.push(row);
        y = y + 1;
    }
    proof {
        assert(rows_view(r@) =~~= rows_view(m@));
    }
    r
}

} // verus!
