//! The seam remover: rebuilding the pixel grid without the seam.

use vstd::prelude::*;

use crate::matrix::rectangular;
use crate::matrix::remove_at;
use crate::matrix::rows_view;
use crate::pixel::Pixel;
use crate::CarverMode;

verus! {

/// The grid with a vertical seam taken out: row `y` loses the pixel at
/// column `seam[y]`.
pub open spec fn remove_vertical(img: Seq<Seq<Pixel>>, seam: Seq<int>) -> Seq<Seq<Pixel>> {
    Seq::new(img.len(), |y: int| remove_at(img[y], seam[y]))
}

/// The grid with a horizontal seam taken out: column `x` loses the pixel at
/// row `seam[x]`, so every pixel below the seam moves up one row.
pub open spec fn remove_horizontal(img: Seq<Seq<Pixel>>, seam: Seq<int>) -> Seq<Seq<Pixel>> {
    Seq::new(
        (img.len() - 1) as nat,
        |y: int|
            Seq::new(
                img[0].len(),
                |x: int|
                    if y < seam[x] {
                        img[y][x]
                    } else {
                        img[y + 1][x]
                    },
            ),
    )
}

/// Rebuilds the grid without the seam's pixels. In vertical mode every row
/// comes out exactly one pixel shorter and the height is unchanged; in
/// horizontal mode the grid comes out exactly one row shorter and every row
/// keeps its width.
pub fn remove_seam(image: &Vec<Vec<Pixel>>, seam: &Vec<usize>, mode: CarverMode) -> (r: Vec<
    Vec<Pixel>,
>)
    requires
        rectangular(rows_view(image@)),
        image.len() >= 1,
        image@[0]@.len() >= 1,
        mode == CarverMode::Vertical ==> seam.len() == image.len(),
        mode == CarverMode::Horizontal ==> seam.len() == image@[0]@.len(),
        forall|i: int|
            0 <= i < seam.len() ==> #[trigger] seam@[i] < (if mode == CarverMode::Vertical {
                image@[0]@.len() as int
            } else {
                image.len() as int
            }),
    ensures
        mode == CarverMode::Vertical ==> rows_view(r@) == remove_vertical(
            rows_view(image@),
            seam@.map_values(|u: usize| u as int),
        ),
        mode == CarverMode::Horizontal ==> rows_view(r@) == remove_horizontal(
            rows_view(image@),
            seam@.map_values(|u: usize| u as int),
        ),
        mode == CarverMode::Vertical ==> r.len() == image.len(),
        mode == CarverMode::Horizontal ==> r.len() == image.len() - 1,
        forall|y: int|
            0 <= y < r.len() ==> #[trigger] r@[y]@.len() == (if mode == CarverMode::Vertical {
                image@[0]@.len() - 1
            } else {
                image@[0]@.len() as int
            }),
        rectangular(rows_view(r@)),
{
    let ghost iv = rows_view(image@);
    let ghost sv = seam@.map_values(|u: usize| u as int);
    let h: usize = image.len();
    let w: usize = image[0].len();
    let mut r: Vec<Vec<Pixel>> = Vec::new();
    match mode {
        CarverMode::Vertical => {
            let mut y: usize = 0;
            while y < h
                invariant
                    y <= h,
                    h == image.len() >= 1,
                    w == image@[0]@.len() >= 1,
                    rectangular(iv),
                    iv == rows_view(image@),
                    seam.len() == h,
                    sv == seam@.map_values(|u: usize| u as int),
                    forall|i: int| 0 <= i < h ==> 0 <= #[trigger] sv[i] < w,
                    forall|i: int| 0 <= i < h ==> #[trigger] seam@[i] < w,
                    r.len() == y,
                    forall|yi: int|
                        0 <= yi < y ==> #[trigger] r@[yi]@ =~= remove_at(iv[yi], sv[yi]),
                    forall|yi: int| 0 <= yi < y ==> #[trigger] r@[yi]@.len() == w - 1,
                decreases h - y,
            {
                proof {
                    assert(iv[y as int].len() == iv[0].len());
                }
                let s: usize = seam[y];
                let mut row: Vec<Pixel> = Vec::new();
                let mut x: usize = 0;
                while x < w
                    invariant
                        x <= w,
                        y < h,
                        h == image.len(),
                        w == image@[0]@.len(),
                        iv == rows_view(image@),
                        iv[y as int].len() == w,
                        s < w,
                        s == sv[y as int],
                        row.len() == (if x <= s {
                            x as int
                        } else {
                            x - 1
                        }),
                        row@ =~= (if x <= s {
                            iv[y as int].subrange(0, x as int)
                        } else {
                            iv[y as int].subrange(0, s as int) + iv[y as int].subrange(
                                s + 1,
                                x as int,
                            )
                        }),
                    decreases w - x,
                {
                    if x != s {
                        let px: Pixel = image[y][x];
                        row.push(px);
                        proof {
                            if x < s {
                                assert(row@ =~= iv[y as int].subrange(0, x + 1));
                            } else {
                                assert(row@ =~= iv[y as int].subrange(0, s as int)
                                    + iv[y as int].subrange(s + 1, x + 1));
                            }
                        }
                    }
                    x = x + 1;
                }
                proof {
                    assert(row@ =~= remove_at(iv[y as int], sv[y as int]));
                }
                r.push(row);
                y = y + 1;
            }
            proof {
                assert(rows_view(r@) =~~= remove_vertical(iv, sv));
            }
        },
        CarverMode::Horizontal => {
            let mut y: usize = 0;
            while y < h - 1
                invariant
                    y <= h - 1,
                    h == image.len() >= 1,
                    w == image@[0]@.len() >= 1,
                    rectangular(iv),
                    iv == rows_view(image@),
                    seam.len() == w,
                    sv == seam@.map_values(|u: usize| u as int),
                    forall|i: int| 0 <= i < w ==> 0 <= #[trigger] sv[i] < h,
                    forall|i: int| 0 <= i < w ==> #[trigger] seam@[i] < h,
                    r.len() == y,
                    forall|yi: int|
                        0 <= yi < y ==> #[trigger] r@[yi]@ =~= remove_horizontal(iv, sv)[yi],
                    forall|yi: int| 0 <= yi < y ==> #[trigger] r@[yi]@.len() == w,
                decreases h - 1 - y,
            {
                let mut row: Vec<Pixel> = Vec::new();
                let mut x: usize = 0;
                while x < w
                    invariant
                        x <= w,
                        y < h - 1,
                        h == image.len(),
                        w == image@[0]@.len(),
                        rectangular(iv),
                        iv == rows_view(image@),
                        seam.len() == w,
                        sv == seam@.map_values(|u: usize| u as int),
                        forall|i: int| 0 <= i < w ==> 0 <= #[trigger] sv[i] < h,
                        forall|i: int| 0 <= i < w ==> #[trigger] seam@[i] < h,
                        row.len() == x,
                        forall|xi: int|
                            0 <= xi < x ==> #[trigger] row@[xi] == (if y < sv[xi] {
                                iv[y as int][xi]
                            } else {
                                iv[y + 1][xi]
                            }),
                    decreases w - x,
                {
                    proof {
                        assert(iv[y as int].len() == iv[0].len());
                        assert(iv[y + 1].len() == iv[0].len());
                    }
                    let px: Pixel = if y < seam[x] {
                        image[y][x]
                    } else {
                        image[y + 1][x]
                    };
                    row.push(px);
                    x = x + 1;
                }
                proof {
                    assert(row@ =~= remove_horizontal(iv, sv)[y as int]);
                }
                r.push(row);
                y = y + 1;
            }
            proof {
                assert(rows_view(r@) =~~= remove_horizontal(iv, sv));
            }
        },
    }
    r
}

} // verus!
