//! The energy field: per-pixel importance from local color gradients.

use vstd::prelude::*;

use crate::float_bits::sqrt_bits_of;
use crate::float_bits::sqrt_to_bits;
use crate::float_bits::INF_BITS;
use crate::matrix::rectangular;
use crate::matrix::rows_view;
use crate::pixel::gradient;
use crate::pixel::gradient_spec;
use crate::pixel::lemma_gradient_bound;
use crate::pixel::Pixel;

verus! {

/// The index one step before `i`, wrapping below zero to `len - 1`.
pub open spec fn wrap_prev(i: int, len: int) -> int {
    if i == 0 {
        len - 1
    } else {
        i - 1
    }
}

/// The index one step past `i`, wrapping at `len` to zero.
pub open spec fn wrap_next(i: int, len: int) -> int {
    if i + 1 == len {
        0
    } else {
        i + 1
    }
}

/// The integer under the square root at cell `(y, x)`: the squared gradient
/// between the wrapped left and right neighbours plus the squared gradient
/// between the wrapped upper and lower neighbours.
pub open spec fn radicand_at(img: Seq<Seq<Pixel>>, y: int, x: int) -> int {
    let h = img.len() as int;
    let w = img[0].len() as int;
    gradient_spec(img[y][wrap_prev(x, w)], img[y][wrap_next(x, w)]) + gradient_spec(
        img[wrap_prev(y, h)][x],
        img[wrap_next(y, h)][x],
    )
}

/// The energy field of a pixel grid: each cell holds the bit pattern of the
/// double-precision square root of that cell's radicand.
pub open spec fn energy_spec(img: Seq<Seq<Pixel>>) -> Seq<Seq<u64>> {
    Seq::new(
        img.len(),
        |y: int| Seq::new(img[0].len(), |x: int| sqrt_bits_of(radicand_at(img, y, x) as u64)),
    )
}

/// The energy at column 0 takes column `w - 1` as its left neighbour, and
/// the energy at row 0 takes row `h - 1` as its upper neighbour: indices
/// wrap around rather than clamp.
pub proof fn lemma_energy_wraparound(img: Seq<Seq<Pixel>>, y: int, x: int)
    requires
        rectangular(img),
        img.len() >= 1,
        img[0].len() >= 1,
        0 <= y < img.len(),
        0 <= x < img[0].len(),
    ensures
        x == 0 ==> radicand_at(img, y, x) == gradient_spec(
            img[y][img[0].len() - 1],
            img[y][wrap_next(0, img[0].len() as int)],
        ) + gradient_spec(img[wrap_prev(y, img.len() as int)][x], img[wrap_next(y, img.len() as int)][x]),
        y == 0 ==> radicand_at(img, y, x) == gradient_spec(
            img[y][wrap_prev(x, img[0].len() as int)],
            img[y][wrap_next(x, img[0].len() as int)],
        ) + gradient_spec(img[img.len() - 1][x], img[wrap_next(0, img.len() as int)][x]),
{
}

/// Computes the energy field of a rectangular, non-empty pixel grid. Every
/// cell of the result is the bit pattern of a non-negative finite double.
pub fn calculate_energy(image: &Vec<Vec<Pixel>>) -> (r: Vec<Vec<u64>>)
    requires
        rectangular(rows_view(image@)),
        image.len() >= 1,
        image@[0]@.len() >= 1,
    ensures
        rows_view(r@) == energy_spec(rows_view(image@)),
        rectangular(rows_view(r@)),
        r.len() == image.len(),
        forall|y: int| 0 <= y < r.len() ==> #[trigger] r@[y]@.len() == image@[0]@.len(),
        forall|y: int, x: int|
            0 <= y < r.len() && 0 <= x < r@[y]@.len() ==> #[trigger] r@[y]@[x] < INF_BITS,
{
    let ghost iv = rows_view(image@);
    let h: usize = image.len();
    let w: usize = image[0].len();
    let mut r: Vec<Vec<u64>> = Vec::new();
    let mut y: usize = 0;
    while y < h
        invariant
            y <= h,
            h == image.len() >= 1,
            w == image@[0]@.len() >= 1,
            rectangular(iv),
            iv == rows_view(image@),
            r.len() == y,
            forall|yi: int| 0 <= yi < y ==> #[trigger] r@[yi]@ =~= energy_spec(iv)[yi],
            forall|yi: int| 0 <= yi < y ==> #[trigger] r@[yi]@.len() == w,
            forall|yi: int, x: int|
                0 <= yi < y && 0 <= x < w ==> #[trigger] r@[yi]@[x] < INF_BITS,
        decreases h - y,
    {
        let mut row: Vec<u64> = Vec::new();
        let mut x: usize = 0;
        let yu: usize = if y == 0 {
            h - 1
        } else {
            y - 1
        };
        let yd: usize = if y + 1 == h {
            0
        } else {
            y + 1
        };
        while x < w
            invariant
                x <= w,
                y < h,
                h == image.len() >= 1,
                w == image@[0]@.len() >= 1,
                rectangular(iv),
                iv == rows_view(image@),
                yu == wrap_prev(y as int, h as int),
                yd == wrap_next(y as int, h as int),
                row.len() == x,
                forall|xi: int|
                    0 <= xi < x ==> #[trigger] row@[xi] == sqrt_bits_of(
                        radicand_at(iv, y as int, xi) as u64,
                    ),
                forall|xi: int| 0 <= xi < x ==> #[trigger] row@[xi] < INF_BITS,
            decreases w - x,
        {
            let xl: usize = if x == 0 {
                w - 1
            } else {
                x - 1
            };
            let xr: usize = if x + 1 == w {
                0
            } else {
                x + 1
            };
            proof {
                assert(iv[y as int].len() == iv[0].len());
                assert(iv[yu as int].len() == iv[0].len());
                assert(iv[yd as int].len() == iv[0].len());
                lemma_gradient_bound(iv[y as int][xl as int], iv[y as int][xr as int]);
                lemma_gradient_bound(iv[yu as int][x as int], iv[yd as int][x as int]);
            }
            let xg: u64 = gradient(&image[y][xl], &image[y][xr]);
            let yg: u64 = gradient(&image[yu][x], &image[yd][x]);
            let e: u64 = sqrt_to_bits(xg + yg);
            row.push(e);
            x = x + 1;
        }
        proof {
            assert(row@ =~= energy_spec(iv)[y as int]);
        }
        r.push(row);
        y = y + 1;
    }
    proof {
        assert(rows_view(r@) =~~= energy_spec(iv));
    }
    r
}

} // verus!
