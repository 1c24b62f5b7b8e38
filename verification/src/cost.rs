//! The accumulated cost field: the dynamic program over the energy field.

use vstd::prelude::*;

use crate::float_bits::add_bits;
use crate::float_bits::add_f64_bits;
use crate::float_bits::INF_BITS;
use crate::matrix::rectangular;
use crate::matrix::rows_view;

verus! {

/// The smaller of two scalars; on bit patterns of non-negative doubles this
/// is exactly the numerically smaller double.
pub open spec fn min2_bits(a: u64, b: u64) -> u64 {
    if a <= b {
        a
    } else {
        b
    }
}

/// The least accumulated cost among the up-to-three cells of `prev` that
/// can reach column `x`: `x - 1`, `x` and `x + 1`, with out-of-range
/// columns left out rather than substituted.
pub open spec fn min_above(prev: Seq<u64>, x: int) -> u64 {
    let w = prev.len() as int;
    if x == 0 && w == 1 {
        prev[0]
    } else if x == 0 {
        min2_bits(prev[0], prev[1])
    } else if x == w - 1 {
        min2_bits(prev[x - 1], prev[x])
    } else {
        min2_bits(min2_bits(prev[x - 1], prev[x]), prev[x + 1])
    }
}

/// Row `y` of the accumulated cost field: row 0 is the energy row itself;
/// each later cell adds its energy to the least cost reaching it from the
/// row above.
pub open spec fn acc_row_spec(energy: Seq<Seq<u64>>, y: nat) -> Seq<u64>
    decreases y,
{
    if y == 0 {
        energy[0]
    } else {
        let prev = acc_row_spec(energy, (y - 1) as nat);
        Seq::new(
            energy[0].len(),
            |x: int| add_bits(energy[y as int][x], min_above(prev, x)),
        )
    }
}

/// The whole accumulated cost field.
pub open spec fn acc_spec(energy: Seq<Seq<u64>>) -> Seq<Seq<u64>> {
    Seq::new(energy.len(), |y: int| acc_row_spec(energy, y as nat))
}

/// Computes the accumulated cost field of a rectangular, non-empty energy
/// field whose cells are bit patterns of non-negative doubles. The first
/// row of the result equals the first row of the input exactly.
pub fn calculate_accumulated_cost(energy: &Vec<Vec<u64>>) -> (r: Vec<Vec<u64>>)
    requires
        rectangular(rows_view(energy@)),
        energy.len() >= 1,
        energy@[0]@.len() >= 1,
        forall|y: int, x: int|
            0 <= y < energy.len() && 0 <= x < energy@[y]@.len() ==> #[trigger] energy@[y]@[x]
                <= INF_BITS,
    ensures
        rows_view(r@) == acc_spec(rows_view(energy@)),
        r@[0]@ == energy@[0]@,
        rectangular(rows_view(r@)),
        r.len() == energy.len(),
        forall|y: int| 0 <= y < r.len() ==> #[trigger] r@[y]@.len() == energy@[0]@.len(),
        forall|y: int, x: int|
            0 <= y < r.len() && 0 <= x < r@[y]@.len() ==> #[trigger] r@[y]@[x] <= INF_BITS,
{
    let ghost ev = rows_view(energy@);
    let h: usize = energy.len();
    let w: usize = energy[0].len();
    let mut r: Vec<Vec<u64>> = Vec::new();
    let first = energy[0].clone();
    proof {
        assert(first@ == acc_row_spec(ev, 0));
    }
    r.push(first);
    let mut y: usize = 1;
    while y < h
        invariant
            1 <= y <= h,
            h == energy.len() >= 1,
            w == energy@[0]@.len() >= 1,
            rectangular(ev),
            ev == rows_view(energy@),
            forall|yi: int, x: int|
                0 <= yi < h && 0 <= x < ev[yi].len() ==> #[trigger] ev[yi][x] <= INF_BITS,
            r.len() == y,
            forall|yi: int| 0 <= yi < y ==> #[trigger] r@[yi]@ =~= acc_row_spec(ev, yi as nat),
            forall|yi: int| 0 <= yi < y ==> #[trigger] r@[yi]@.len() == w,
            forall|yi: int, x: int|
                0 <= yi < y && 0 <= x < w ==> #[trigger] r@[yi]@[x] <= INF_BITS,
        decreases h - y,
    {
        proof {
            assert(ev[y as int].len() == ev[0].len());
        }
        let mut row: Vec<u64> = Vec::new();
        let mut x: usize = 0;
        let ghost prev = acc_row_spec(ev, (y - 1) as nat);
        proof {
            assert(r@[y - 1]@ =~= acc_row_spec(ev, (y - 1) as nat));
            assert(r@[y - 1]@ == prev);
            assert forall|xi: int| 0 <= xi < w implies #[trigger] prev[xi] <= INF_BITS by {
                assert(prev[xi] == r@[y - 1]@[xi]);
            }
        }
        while x < w
            invariant
                x <= w,
                1 <= y < h,
                h == energy.len() >= 1,
                w == energy@[0]@.len() >= 1,
                rectangular(ev),
                ev == rows_view(energy@),
                ev[y as int].len() == w,
                forall|yi: int, xi: int|
                    0 <= yi < h && 0 <= xi < ev[yi].len() ==> #[trigger] ev[yi][xi] <= INF_BITS,
                r.len() == y,
                r@[y - 1]@ == prev,
                prev == acc_row_spec(ev, (y - 1) as nat),
                prev.len() == w,
                forall|xi: int| 0 <= xi < w ==> #[trigger] prev[xi] <= INF_BITS,
                row.len() == x,
                forall|xi: int|
                    0 <= xi < x ==> #[trigger] row@[xi] == add_bits(ev[y as int][xi], min_above(prev, xi)),
                forall|xi: int| 0 <= xi < x ==> #[trigger] row@[xi] <= INF_BITS,
            decreases w - x,
        {
            let mut mw: u64 = r[y - 1][x];
            if x > 0 {
                let v: u64 = r[y - 1][x - 1];
                if v < mw {
                    mw = v;
                }
            }
            if x + 1 < w {
                let v: u64 = r[y - 1][x + 1];
                if v < mw {
                    mw = v;
                }
            }
            proof {
                assert(mw == min_above(prev, x as int));
            }
            let c: u64 = add_f64_bits(energy[y][x], mw);
            row.push(c);
            x = x + 1;
        }
        proof {
            assert(row@ =~= acc_row_spec(ev, y as nat));
        }
        r.push(row);
        y = y + 1;
    }
    proof {
        assert(rows_view(r@) =~~= acc_spec(ev));
    }
    r
}

} // verus!
