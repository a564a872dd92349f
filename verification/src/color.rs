//! From accumulated light to the three bytes of a pixel.
use crate::fixed::{ONE, clamp, isqrt, lemma_mul_bound, sqrt_floor, tdiv};
use crate::vec3::{Color, V3};
use vstd::prelude::*;

verus! {

/// The brightest value that a channel is encoded from: 0.999.
pub const CHANNEL_MAX: i64 = 999_000;

/// The gamma-encoded value of the linear value `c`: its square root.
pub open spec fn gamma(c: int) -> int {
    isqrt(c * ONE)
}

/// The byte that stands for the linear value `c`: the square root of `c`,
/// held between 0 and 0.999, times 256, rounded down.
pub open spec fn quantize(c: int) -> int {
    (256 * clamp(gamma(c), 0, CHANNEL_MAX as int)) / (ONE as int)
}

/// The mean of `samples` samples that add up to `sum`; zero if there are
/// none.
pub open spec fn mean(sum: int, samples: int) -> int {
    if samples > 0 {
        tdiv(sum, samples)
    } else {
        0
    }
}

/// The three bytes of the pixel whose `samples` samples add up to `sum`.
pub open spec fn pixel_bytes(sum: V3, samples: int) -> Seq<u8> {
    seq![
        quantize(mean(sum.x, samples)) as u8,
        quantize(mean(sum.y, samples)) as u8,
        quantize(mean(sum.z, samples)) as u8,
    ]
}

/// A byte is never out of range.
pub proof fn lemma_quantize_range(c: int)
    ensures
        0 <= quantize(c) <= 255,
{
    let g = clamp(gamma(c), 0, CHANNEL_MAX as int);
    assert(0 <= 256 * g <= 255_744_000);
}

/// Encodes one channel.
pub fn encode(c: i64) -> (b: u8)
    ensures
        b == quantize(c as int),
{
    if c <= 0 {
        assert(isqrt(c * ONE) == 0) by {
            assert(c * ONE <= 0) by (nonlinear_arith)
                requires
                    c <= 0,
                    ONE == 1_000_000,
            ;
        }
        return 0;
    }
    proof {
        lemma_mul_bound(c as int, ONE as int, 0x8000_0000_0000_0000, ONE as int);
    }
    let root: u128 = sqrt_floor((c as u128) * (ONE as u128));
    let held: u128 = if root > CHANNEL_MAX as u128 {
        CHANNEL_MAX as u128
    } else {
        root
    };
    ((256 * held) / (ONE as u128)) as u8
}

/// Appends to `out` the three bytes of the pixel whose
/// `samples_per_pixel` samples add up to `pixel_color`.
pub fn write_color(out: &mut Vec<u8>, pixel_color: Color, samples_per_pixel: i32)
    ensures
        final(out)@ == old(out)@ + pixel_bytes(pixel_color@, samples_per_pixel as int),
{
    let (r, g, b) = if samples_per_pixel > 0 {
        let n: i64 = samples_per_pixel as i64;
        (encode(pixel_color.x / n), encode(pixel_color.y / n), encode(pixel_color.z / n))
    } else {
        (encode(0), encode(0), encode(0))
    };
    out.push(r);
    out.push(g);
    out.push(b);
    proof {
        assert(final(out)@ =~= old(out)@ + pixel_bytes(pixel_color@, samples_per_pixel as int));
    }
}

} // verus!
