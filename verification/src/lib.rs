//! Content-aware image resizing by seam carving.
//!
//! The carver repeatedly removes the lowest-importance connected path of
//! pixels (a seam) from an image, shrinking it by one column or one row per
//! pass while preserving regions of rapid color change.
//!
//! Scalar importance values are IEEE-754 double-precision numbers. Inside the
//! library every such scalar is carried as its 64-bit pattern: for
//! non-negative finite doubles the unsigned integer order of the bit patterns
//! coincides with the numeric order of the doubles, so all minimum searches
//! and comparisons are ordinary `u64` comparisons, verified exactly. The
//! square root the energy field needs is computed and proved correct in
//! integer arithmetic; only double addition goes through a trusted wrapper
//! around a software IEEE-754 implementation, which returns the same bit
//! patterns as hardware double arithmetic.

use vstd::prelude::*;

pub mod carve;
pub mod cost;
pub mod energy;
pub mod float_bits;
pub mod matrix;
pub mod opts;
pub mod pixel;
pub mod seam;

use crate::carve::remove_horizontal;
use crate::carve::remove_seam;
use crate::carve::remove_vertical;
use crate::cost::acc_spec;
use crate::energy::calculate_energy;
use crate::energy::energy_spec;
use crate::matrix::rectangular;
use crate::matrix::rows_view;
use crate::matrix::transpose_spec;
use crate::pixel::Pixel;
use crate::seam::find_seam;
use crate::seam::seam_spec;

verus! {

/// Carving orientation: a vertical seam removes one column per pass, a
/// horizontal seam removes one row per pass.
#[derive(Debug, Copy, Clone, PartialEq, Eq, Structural)]
pub enum CarverMode {
    Vertical,
    Horizontal,
}

/// One pass of the carver: the energy field is built, the cheapest seam of
/// that field (of its transpose in horizontal mode) is located, and the
/// seam's pixels are removed.
pub open spec fn carve_pass_spec(img: Seq<Seq<Pixel>>, mode: CarverMode) -> Seq<Seq<Pixel>> {
    match mode {
        CarverMode::Vertical => remove_vertical(img, seam_spec(acc_spec(energy_spec(img)))),
        CarverMode::Horizontal => remove_horizontal(
            img,
            seam_spec(acc_spec(transpose_spec(energy_spec(img)))),
        ),
    }
}

/// The grid after `n` passes of the carver.
pub open spec fn carve_result(img: Seq<Seq<Pixel>>, mode: CarverMode, n: nat) -> Seq<Seq<Pixel>>
    decreases n,
{
    if n == 0 {
        img
    } else {
        carve_result(carve_pass_spec(img, mode), mode, (n - 1) as nat)
    }
}

/// Running zero passes returns the grid unchanged, pixel for pixel.
pub proof fn lemma_zero_passes(img: Seq<Seq<Pixel>>, mode: CarverMode)
    ensures
        carve_result(img, mode, 0) == img,
{
}

/// Running `k` passes and then `m` more on the outcome equals running
/// `k + m` passes at once: each pass is a pure function of the grid.
pub proof fn lemma_passes_compose(img: Seq<Seq<Pixel>>, mode: CarverMode, k: nat, m: nat)
    ensures
        carve_result(carve_result(img, mode, k), mode, m) == carve_result(img, mode, k + m),
    decreases k,
{
    if k > 0 {
        lemma_passes_compose(carve_pass_spec(img, mode), mode, (k - 1) as nat, m);
    }
}

/// One executable pass; the grid loses one column (vertical) or one row
/// (horizontal).
pub fn carve_pass(image: &Vec<Vec<Pixel>>, mode: CarverMode) -> (r: Vec<Vec<Pixel>>)
    requires
        rectangular(rows_view(image@)),
        image.len() >= 1,
        image@[0]@.len() >= 1,
    ensures
        rows_view(r@) == carve_pass_spec(rows_view(image@), mode),
        rectangular(rows_view(r@)),
        mode == CarverMode::Vertical ==> r.len() == image.len(),
        mode == CarverMode::Horizontal ==> r.len() == image.len() - 1,
        forall|y: int|
            0 <= y < r.len() ==> #[trigger] r@[y]@.len() == (if mode == CarverMode::Vertical {
                image@[0]@.len() - 1
            } else {
                image@[0]@.len() as int
            }),
{
    let traced = carve_pass_with_trace(image, mode);
    traced.2
}

/// One executable pass that also hands back what it computed on the way:
/// the pass's energy field and the seam it removed, for a diagnostic sink
/// to render. The grid result is exactly `carve_pass`'s.
pub fn carve_pass_with_trace(image: &Vec<Vec<Pixel>>, mode: CarverMode) -> (out: (
    Vec<Vec<u64>>,
    Vec<usize>,
    Vec<Vec<Pixel>>,
))
    requires
        rectangular(rows_view(image@)),
        image.len() >= 1,
        image@[0]@.len() >= 1,
    ensures
        rows_view(out.0@) == energy_spec(rows_view(image@)),
        mode == CarverMode::Vertical ==> crate::seam::seam_matches(
            energy_spec(rows_view(image@)),
            out.1@,
        ),
        mode == CarverMode::Horizontal ==> crate::seam::seam_matches(
            transpose_spec(energy_spec(rows_view(image@))),
            out.1@,
        ),
        rows_view(out.2@) == carve_pass_spec(rows_view(image@), mode),
        rectangular(rows_view(out.2@)),
        mode == CarverMode::Vertical ==> out.2.len() == image.len(),
        mode == CarverMode::Horizontal ==> out.2.len() == image.len() - 1,
        forall|y: int|
            0 <= y < out.2.len() ==> #[trigger] out.2@[y]@.len() == (
            if mode == CarverMode::Vertical {
                image@[0]@.len() - 1
            } else {
                image@[0]@.len() as int
            }),
{
    let ghost iv = rows_view(image@);
    let energy = calculate_energy(image);
    let seam = find_seam(&energy, mode);
    proof {
        let ghost ev = rows_view(energy@);
        assert(ev == energy_spec(iv));
        let ghost sv = seam@.map_values(|u: usize| u as int);
        let ghost target = if mode == CarverMode::Vertical {
            ev
        } else {
            transpose_spec(ev)
        };
        assert forall|i: int| 0 <= i < sv.len() implies #[trigger] sv[i] == seam_spec(
            acc_spec(target),
        )[i] by {
            assert(sv[i] == seam@[i] as int);
        }
        assert(sv =~= seam_spec(acc_spec(target)));
        assert forall|i: int| 0 <= i < seam.len() implies #[trigger] seam@[i] < (
        if mode == CarverMode::Vertical {
            iv[0].len() as int
        } else {
            iv.len() as int
        }) by {
            assert(seam@[i] < (if mode == CarverMode::Vertical {
                energy@[0]@.len() as int
            } else {
                energy.len() as int
            }));
        }
    }
    let carved = remove_seam(image, &seam, mode);
    (energy, seam, carved)
}

/// Runs `num_passes` carving passes in the chosen orientation and returns
/// the shrunken grid. With zero passes the grid comes back unchanged.
pub fn process(image: Vec<Vec<Pixel>>, mode: CarverMode, num_passes: u8) -> (r: Vec<Vec<Pixel>>)
    requires
        rectangular(rows_view(image@)),
        image.len() >= 1,
        image@[0]@.len() >= 1,
        mode == CarverMode::Vertical ==> num_passes < image@[0]@.len(),
        mode == CarverMode::Horizontal ==> num_passes < image.len(),
    ensures
        rows_view(r@) == carve_result(rows_view(image@), mode, num_passes as nat),
        mode == CarverMode::Vertical ==> r.len() == image.len() && (forall|y: int|
            0 <= y < r.len() ==> #[trigger] r@[y]@.len() == image@[0]@.len() - num_passes),
        mode == CarverMode::Horizontal ==> r.len() == image.len() - num_passes && (forall|y: int|
            0 <= y < r.len() ==> #[trigger] r@[y]@.len() == image@[0]@.len()),
{
    let ghost iv = rows_view(image@);
    let h: usize = image.len();
    let w: usize = image[0].len();
    let mut cur = image;
    proof {
        assert forall|y: int| 0 <= y < cur.len() implies #[trigger] cur@[y]@.len() == w by {
            assert(rows_view(cur@)[y].len() == rows_view(cur@)[0].len());
        }
    }
    let mut i: u8 = 0;
    while i < num_passes
        invariant
            i <= num_passes,
            h >= 1,
            w >= 1,
            mode == CarverMode::Vertical ==> num_passes < w,
            mode == CarverMode::Horizontal ==> num_passes < h,
            rectangular(rows_view(cur@)),
            rows_view(cur@) == carve_result(iv, mode, i as nat),
            mode == CarverMode::Vertical ==> cur.len() == h && (forall|y: int|
                0 <= y < cur.len() ==> #[trigger] cur@[y]@.len() == w - i),
            mode == CarverMode::Horizontal ==> cur.len() == h - i && (forall|y: int|
                0 <= y < cur.len() ==> #[trigger] cur@[y]@.len() == w),
            cur.len() >= 1,
            cur@[0]@.len() >= 1,
        decreases num_passes - i,
    {
        let next = carve_pass(&cur, mode);
        proof {
            let cv = carve_result(iv, mode, i as nat);
            lemma_passes_compose(iv, mode, i as nat, 1);
            assert(carve_result(cv, mode, 1) == carve_result(iv, mode, (i + 1) as nat));
            assert(carve_result(cv, mode, 1) == carve_result(carve_pass_spec(cv, mode), mode, 0));
            assert(carve_result(carve_pass_spec(cv, mode), mode, 0) == carve_pass_spec(cv, mode));
            assert(rows_view(next@) == carve_result(iv, mode, (i + 1) as nat));
        }
        cur = next;
        i = i + 1;
    }
    cur
}

} // verus!
