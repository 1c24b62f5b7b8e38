//! Three-channel 8-bit pixels and the local color gradient.

use vstd::prelude::*;

verus! {

/// One image sample: red, green and blue, 8 bits each.
#[derive(Debug, Copy, Clone, PartialEq, Eq, Structural)]
pub struct Pixel {
    pub r: u8,
    pub g: u8,
    pub b: u8,
}

/// Squared difference of two channel values, as a mathematical integer.
pub open spec fn sq_diff(a: u8, b: u8) -> int {
    (a - b) * (a - b)
}

/// Squared gradient between two pixels: the sum over the three color
/// channels of the squared signed channel difference.
pub open spec fn gradient_spec(p1: Pixel, p2: Pixel) -> int {
    sq_diff(p1.r, p2.r) + sq_diff(p1.g, p2.g) + sq_diff(p1.b, p2.b)
}

/// The squared gradient of any two pixels is at most `3 * 255 * 255`.
pub proof fn lemma_gradient_bound(p1: Pixel, p2: Pixel)
    ensures
        0 <= gradient_spec(p1, p2) <= 195075,
{
    assert(sq_diff(p1.r, p2.r) <= 65025) by (nonlinear_arith);
    assert(sq_diff(p1.g, p2.g) <= 65025) by (nonlinear_arith);
    assert(sq_diff(p1.b, p2.b) <= 65025) by (nonlinear_arith);
    assert(sq_diff(p1.r, p2.r) >= 0) by (nonlinear_arith);
    assert(sq_diff(p1.g, p2.g) >= 0) by (nonlinear_arith);
    assert(sq_diff(p1.b, p2.b) >= 0) by (nonlinear_arith);
}

/// Squared difference of one channel pair, executable form.
fn channel_sq_diff(a: u8, b: u8) -> (r: u64)
    ensures
        r == sq_diff(a, b),
        r <= 65025,
{
    let d: u64 = if a >= b {
        (a - b) as u64
    } else {
        (b - a) as u64
    };
    assert(d * d == sq_diff(a, b) && d * d <= 65025) by (nonlinear_arith)
        requires
            d <= 255,
            d == if a >= b { a - b } else { b - a },
    ;
    d * d
}

/// Squared gradient between two pixels.
pub fn gradient(p1: &Pixel, p2: &Pixel) -> (r: u64)
    ensures
        r == gradient_spec(*p1, *p2),
        r <= 195075,
{
    channel_sq_diff(p1.r, p2.r) + channel_sq_diff(p1.g, p2.g) + channel_sq_diff(p1.b, p2.b)
}

} // verus!
