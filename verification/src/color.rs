//! Colours and the plain-text pixel encoding.
//!
//! A colour is a `Vec3` of channel intensities where `SCALE` is full
//! brightness.  `write_color` averages an accumulated colour over its sample
//! count, applies the square-root gamma correction, quantizes each channel
//! to `0..=255` and appends one `"R G B\n"` line of ASCII.

use vstd::prelude::*;

verus! {

use crate::fixed::{isqrt_s, lemma_div_bounds, SCALE};
use crate::vec3::{V3, Vec3};

/// A colour: three fixed-point channels.
pub type Color = Vec3;

/// One channel averaged, gamma-corrected, clamped just below full and
/// quantized to `0..=255`: the grid form of taking the floor of 255.999
/// times the root clamped into `[0, 0.999]` — the factor is 255999 parts
/// per 65536000 of full scale, and 65490 is the largest grid value not
/// above 0.999.
pub open spec fn quantize_s(c: int, samples: int) -> int {
    let avg = c / samples;
    let root = if avg <= 0 {
        0
    } else {
        isqrt_s(avg * (SCALE as int))
    };
    let clamped = if root > 65490 {
        65490
    } else {
        root
    };
    (clamped * 255999) / 65536000
}

/// The decimal ASCII digits of `n`, for `0 <= n <= 999`.
pub open spec fn dec_digits(n: int) -> Seq<u8> {
    if n < 10 {
        seq![(48 + n) as u8]
    } else if n < 100 {
        seq![(48 + n / 10) as u8, (48 + n % 10) as u8]
    } else {
        seq![(48 + n / 100) as u8, (48 + (n / 10) % 10) as u8, (48 + n % 10) as u8]
    }
}

/// The ASCII line written for one pixel.
pub open spec fn color_line_s(c: V3, samples: int) -> Seq<u8> {
    dec_digits(quantize_s(c.x, samples)) + seq![32u8] + dec_digits(quantize_s(c.y, samples))
        + seq![32u8] + dec_digits(quantize_s(c.z, samples)) + seq![10u8]
}

/// Append the decimal digits of `n`.
fn push_dec(out: &mut Vec<u8>, n: u8)
    ensures
        final(out)@ == old(out)@ + dec_digits(n as int),
{
    if n >= 100 {
        out.push(48 + n / 100);
        out.push(48 + (n / 10) % 10);
        out.push(48 + n % 10);
    } else if n >= 10 {
        out.push(48 + n / 10);
        out.push(48 + n % 10);
    } else {
        out.push(48 + n);
    }
    proof {
        assert(out@ =~= old(out)@ + dec_digits(n as int));
    }
}

/// Quantize one averaged channel.
fn quantize(c: i64, samples: i32) -> (r: u8)
    requires
        samples >= 1,
    ensures
        r as int == quantize_s(c as int, samples as int),
{
    proof {
        lemma_div_bounds(c as int, samples as int);
    }
    let avg: i128 = (c as i128).checked_div_euclid(samples as i128).unwrap();
    let root: i128 = if avg <= 0 {
        0
    } else {
        crate::fixed::fsqrt_wide(avg)
    };
    let clamped: i128 = if root > 65490 {
        65490
    } else {
        root
    };
    proof {
        lemma_div_bounds(clamped as int * 255999, 65536000);
        vstd::arithmetic::div_mod::lemma_div_is_ordered(
            clamped as int * 255999,
            (65490 * 255999) as int,
            65536000,
        );
        assert(((65490 * 255999) as int) / 65536000 == 255);
    }
    let scaled: i128 = (clamped * 255999).checked_div_euclid(65536000).unwrap();
    scaled as u8
}

/// Append the pixel line for an accumulated colour averaged over
/// `samples_per_pixel` samples.
pub fn write_color(out: &mut Vec<u8>, pixel_color: &Color, samples_per_pixel: i32)
    requires
        samples_per_pixel >= 1,
    ensures
        final(out)@ == old(out)@ + color_line_s(pixel_color@, samples_per_pixel as int),
{
    let ir = quantize(pixel_color.0, samples_per_pixel);
    let ig = quantize(pixel_color.1, samples_per_pixel);
    let ib = quantize(pixel_color.2, samples_per_pixel);
    push_dec(out, ir);
    out.push(32);
    push_dec(out, ig);
    out.push(32);
    push_dec(out, ib);
    out.push(10);
    proof {
        assert(out@ =~= old(out)@ + color_line_s(pixel_color@, samples_per_pixel as int));
    }
}

/// The ASCII lines written for a whole row of pixels.
pub open spec fn color_lines_s(colors: Seq<Vec3>, samples: int) -> Seq<u8>
    decreases colors.len(),
{
    if colors.len() == 0 {
        Seq::<u8>::empty()
    } else {
        color_lines_s(colors.drop_last(), samples) + color_line_s(colors.last()@, samples)
    }
}

/// Append one pixel line for each colour of a row, in order.
pub fn write_line(out: &mut Vec<u8>, colors: &Vec<Color>, samples_per_pixel: i32)
    requires
        samples_per_pixel >= 1,
    ensures
        final(out)@ == old(out)@ + color_lines_s(colors@, samples_per_pixel as int),
{
    let ghost base = out@;
    let n = colors.len();
    let mut i: usize = 0;
    while i < n
        invariant
            0 <= i <= n,
            n == colors@.len(),
            samples_per_pixel >= 1,
            out@ == base + color_lines_s(colors@.take(i as int), samples_per_pixel as int),
        decreases n - i,
    {
        write_color(out, &colors[i], samples_per_pixel);
        proof {
            assert(colors@.take(i as int + 1).drop_last() =~= colors@.take(i as int));
            assert(colors@.take(i as int + 1).last() == colors@[i as int]);
            assert(out@ =~= base + color_lines_s(
                colors@.take(i as int + 1),
                samples_per_pixel as int,
            ));
        }
        i = i + 1;
    }
    proof {
        assert(colors@.take(n as int) =~= colors@);
        assert(out@ =~= base + color_lines_s(colors@, samples_per_pixel as int));
    }
}

} // verus!
