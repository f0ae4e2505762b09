//! Gamma correction, the clamp-and-scale byte mapping, and the plain-text
//! "R G B" pixel line.

use vstd::prelude::*;

verus! {

use crate::fixed::{div_tz, fsqrt, fx_sqrt, lemma_div_tz_below, SCALE};
use crate::vec3::Vec3;

/// Gamma 2.0 correction: the square root of a positive linear intensity,
/// zero for anything else.
pub open spec fn linear_to_gamma_s(linear: int) -> int {
    if linear > 0 {
        fsqrt(linear)
    } else {
        0
    }
}

/// Gamma 2.0 correction.
pub fn linear_to_gamma(linear: i64) -> (r: i64)
    ensures
        r == linear_to_gamma_s(linear as int),
        r >= 0,
{
    if linear > 0 {
        fx_sqrt(linear)
    } else {
        0
    }
}

/// One channel's 8-bit value: gamma-correct, clamp to `[0, 0.999]`, scale
/// by `255.999` and truncate.
pub open spec fn channel_byte_s(c: int) -> int {
    let g = linear_to_gamma_s(c);
    let clamped = if g < 0 {
        0
    } else if g > 999_000 {
        999_000
    } else {
        g
    };
    div_tz(clamped * 255_999, 1_000 * (SCALE as int))
}

/// One channel mapped to its 8-bit value; never outside `[0, 255]` for any
/// input, however far outside the unit interval.
pub fn channel_byte(c: i64) -> (r: u8)
    ensures
        r == channel_byte_s(c as int),
{
    let g: i64 = linear_to_gamma(c);
    let clamped: i64 = if g > 999_000 {
        999_000
    } else {
        g
    };
    proof {
        assert(0 <= (clamped as int) * 255_999 && (clamped as int) * 255_999 < 256 * (1_000 * (
        SCALE as int))) by (nonlinear_arith)
            requires
                0 <= clamped <= 999_000,
                SCALE == 1_000_000,
        ;
        lemma_div_tz_below((clamped as int) * 255_999, 1_000 * (SCALE as int), 256);
    }
    let p: i128 = (clamped as i128) * 255_999;
    let q: i128 = crate::fixed::div_q(p, 1_000 * (SCALE as i128));
    q as u8
}

/// The decimal digits of a byte value, as ASCII.
pub open spec fn dec_s(n: int) -> Seq<u8> {
    if n < 10 {
        seq![(48 + n) as u8]
    } else if n < 100 {
        seq![(48 + n / 10) as u8, (48 + n % 10) as u8]
    } else {
        seq![(48 + n / 100) as u8, (48 + (n / 10) % 10) as u8, (48 + n % 10) as u8]
    }
}

/// The text of one pixel: the three channel bytes in decimal, separated by
/// spaces, with a trailing space and newline.
pub open spec fn color_line_s(c: Vec3) -> Seq<u8> {
    dec_s(channel_byte_s(c.x as int)) + seq![32u8] + dec_s(channel_byte_s(c.y as int))
        + seq![32u8] + dec_s(channel_byte_s(c.z as int)) + seq![32u8, 10u8]
}

/// Append the decimal digits of `n` to the buffer.
fn push_decimal(buf: &mut Vec<u8>, n: u8)
    ensures
        final(buf)@ == old(buf)@ + dec_s(n as int),
{
    if n < 10 {
        buf.push(48 + n);
    } else if n < 100 {
        buf.push(48 + n / 10);
        buf.push(48 + n % 10);
    } else {
        buf.push(48 + n / 100);
        buf.push(48 + (n / 10) % 10);
        buf.push(48 + n % 10);
    }
    proof {
        assert(buf@ =~= old(buf)@ + dec_s(n as int));
    }
}

/// Append one pixel's gamma-corrected "R G B" line to the image buffer.
pub fn write_color(buf: &mut Vec<u8>, color: Vec3)
    ensures
        final(buf)@ == old(buf)@ + color_line_s(color),
{
    push_decimal(buf, channel_byte(color.x));
    buf.push(32);
    push_decimal(buf, channel_byte(color.y));
    buf.push(32);
    push_decimal(buf, channel_byte(color.z));
    buf.push(32);
    buf.push(10);
    proof {
        assert(buf@ =~= old(buf)@ + color_line_s(color));
    }
}

} // verus!
