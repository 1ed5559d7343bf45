//! Colours as text: gamma correction, the level of a channel, and the
//! lines of a plain raster image.
//!
//! The image is a plain-text PPM raster: a header with the width, the height
//! and the highest level, then one line for each pixel, top row first, with
//! the levels of red, green and blue in decimal.
use crate::fixed::{fx_sqrt, Fixed, SCALE};
use crate::utils::interval::{interval_clamp, Interval};
use crate::vec3::{Vec3, V3};
use vstd::prelude::*;

verus! {

/// A vector used as a colour: red, green and blue.
pub type Color3 = Vec3;

/// The highest level of a channel.
pub const MAX_LEVEL: u8 = 255;

/// The level of a channel: the channel, held to `[0, 1]`, times the highest
/// level, rounded down.
pub open spec fn channel_level(channel: int) -> int {
    (255 * interval_clamp(0, SCALE as int, channel)) / (SCALE as int)
}

/// The decimal digits of `n`, as characters.
pub open spec fn decimal(n: nat) -> Seq<u8>
    decreases n,
{
    if n < 10 {
        seq![(48 + n) as u8]
    } else {
        decimal(n / 10).push((48 + n % 10) as u8)
    }
}

/// The line of a pixel: the levels of its three channels, separated by
/// spaces.
pub open spec fn pixel_line(color: V3) -> Seq<u8> {
    decimal(channel_level(color.x) as nat) + seq![32u8] + decimal(channel_level(color.y) as nat)
        + seq![32u8] + decimal(channel_level(color.z) as nat) + seq![10u8]
}

/// The header of an image: the magic number, the width and the height, and
/// the highest level.
pub open spec fn header(width: nat, height: nat) -> Seq<u8> {
    seq![80u8, 51u8, 10u8] + decimal(width) + seq![32u8] + decimal(height) + seq![10u8] + decimal(
        255,
    ) + seq![10u8]
}

/// The lines of the first `n` pixels.
pub open spec fn pixel_lines(pixels: Seq<Vec3>, n: nat) -> Seq<u8>
    decreases n,
{
    if n == 0 {
        Seq::<u8>::empty()
    } else {
        pixel_lines(pixels, (n - 1) as nat) + pixel_line(pixels[n - 1]@)
    }
}

/// Gamma correction of a channel: its square root.
#[inline]
pub fn linear_to_gamma(linear: Fixed) -> (r: Fixed)
    ensures
        r@ == fx_sqrt(linear@),
{
    linear.sqrt()
}

/// The level of a channel.
pub fn channel_byte(channel: Fixed) -> (r: u8)
    ensures
        r == channel_level(channel@),
{
    let held = Interval::new(Fixed::zero(), Fixed::one()).clamp(channel);
    ((255 * held.raw() as i64) / 100_000) as u8
}

/// Appends the decimal digits of `n`.
pub fn push_decimal(out: &mut Vec<u8>, n: u32)
    ensures
        final(out)@ == old(out)@ + decimal(n as nat),
    decreases n,
{
    if n >= 10 {
        push_decimal(out, n / 10);
    }
    out.push(48 + (n % 10) as u8);
    assert(out@ =~= old(out)@ + decimal(n as nat));
}

/// Appends the line of a pixel that is already gamma corrected.
pub fn write_pixel(out: &mut Vec<u8>, color: Color3)
    ensures
        final(out)@ == old(out)@ + pixel_line(color@),
{
    push_decimal(out, channel_byte(color.x) as u32);
    out.push(32);
    push_decimal(out, channel_byte(color.y) as u32);
    out.push(32);
    push_decimal(out, channel_byte(color.z) as u32);
    out.push(10);
    assert(out@ =~= old(out)@ + pixel_line(color@));
}

/// Appends the line of a linear colour: the colour is gamma corrected
/// first.
pub fn write_color(out: &mut Vec<u8>, color: Color3)
    ensures
        final(out)@ == old(out)@ + pixel_line(
            V3 { x: fx_sqrt(color@.x), y: fx_sqrt(color@.y), z: fx_sqrt(color@.z) },
        ),
{
    let r = linear_to_gamma(color.x);
    let g = linear_to_gamma(color.y);
    let b = linear_to_gamma(color.z);
    write_pixel(out, Color3::new(r, g, b));
}

/// Appends the header of an image.
pub fn write_header(out: &mut Vec<u8>, width: u32, height: u32)
    ensures
        final(out)@ == old(out)@ + header(width as nat, height as nat),
{
    out.push(80);
    out.push(51);
    out.push(10);
    push_decimal(out, width);
    out.push(32);
    push_decimal(out, height);
    out.push(10);
    push_decimal(out, MAX_LEVEL as u32);
    out.push(10);
    assert(out@ =~= old(out)@ + header(width as nat, height as nat));
}

/// The text of an image: the header, then the line of every pixel in
/// order. The pixels are gamma corrected already.
pub fn write_image(width: u32, height: u32, pixels: &Vec<Color3>) -> (r: Vec<u8>)
    ensures
        r@ == header(width as nat, height as nat) + pixel_lines(pixels@, pixels@.len()),
{
    let mut out: Vec<u8> = Vec::new();
    write_header(&mut out, width, height);
    let mut i: usize = 0;
    while i < pixels.len()
        invariant
            i <= pixels.len(),
            out@ == header(width as nat, height as nat) + pixel_lines(pixels@, i as nat),
        decreases pixels.len() - i,
    {
        write_pixel(&mut out, pixels[i]);
        i += 1;
        assert(out@ =~= header(width as nat, height as nat) + pixel_lines(pixels@, i as nat));
    }
    out
}

} // verus!
