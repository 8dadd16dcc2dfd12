//! Pixel packing and damage decisions of the software renderer that paints
//! into a layer-shell surface's buffer (0xAARRGGBB words).

use vstd::prelude::*;

verus! {

/// A colour with premultiplied alpha.
#[derive(Copy, Clone, Debug, PartialEq, Eq, Structural)]
pub struct PremultipliedRgbaColor {
    pub red: u8,
    pub green: u8,
    pub blue: u8,
    pub alpha: u8,
}

/// A pixel of the surface buffer: alpha, red, green and blue from the high
/// byte down.
#[derive(Copy, Clone, Debug, PartialEq, Eq, Structural)]
pub struct SoftBufferPixel(pub u32);

/// The buffer word holding the four channels.
pub open spec fn pack_argb(alpha: u8, red: u8, green: u8, blue: u8) -> u32 {
    ((alpha as u32) << 24u32) | ((red as u32) << 16u32) | ((green as u32) << 8u32) | (blue as u32)
}

/// The colour that a buffer word holds.
pub open spec fn unpack_argb(v: u32) -> PremultipliedRgbaColor {
    PremultipliedRgbaColor {
        red: (v >> 16u32) as u8,
        green: (v >> 8u32) as u8,
        blue: v as u8,
        alpha: (v >> 24u32) as u8,
    }
}

impl From<SoftBufferPixel> for PremultipliedRgbaColor {
    fn from(pixel: SoftBufferPixel) -> (r: Self)
        ensures
            r == unpack_argb(pixel.0),
    {
        let v = pixel.0;
        PremultipliedRgbaColor {
            red: (v >> 16u32) as u8,
            green: (v >> 8u32) as u8,
            blue: v as u8,
            alpha: (v >> 24u32) as u8,
        }
    }
}

impl vstd::std_specs::convert::FromSpecImpl<SoftBufferPixel> for PremultipliedRgbaColor {
    open spec fn obeys_from_spec() -> bool {
        true
    }

    open spec fn from_spec(pixel: SoftBufferPixel) -> Self {
        unpack_argb(pixel.0)
    }
}

impl From<PremultipliedRgbaColor> for SoftBufferPixel {
    fn from(pixel: PremultipliedRgbaColor) -> (r: Self)
        ensures
            r.0 == pack_argb(pixel.alpha, pixel.red, pixel.green, pixel.blue),
    {
        SoftBufferPixel(
            ((pixel.alpha as u32) << 24u32) | ((pixel.red as u32) << 16u32) | ((pixel.green as u32)
                << 8u32) | (pixel.blue as u32),
        )
    }
}

impl vstd::std_specs::convert::FromSpecImpl<PremultipliedRgbaColor> for SoftBufferPixel {
    open spec fn obeys_from_spec() -> bool {
        true
    }

    open spec fn from_spec(pixel: PremultipliedRgbaColor) -> Self {
        SoftBufferPixel(pack_argb(pixel.alpha, pixel.red, pixel.green, pixel.blue))
    }
}

/// The buffer word of an opaque pixel.
pub fn opaque_argb(r: u8, g: u8, b: u8) -> (v: u32)
    ensures
        v == pack_argb(255u8, r, g, b),
{
    proof {
        assert(0xff000000u32 == (255u8 as u32) << 24u32) by (bit_vector);
    }
    0xff000000u32 | ((r as u32) << 16u32) | ((g as u32) << 8u32) | (b as u32)
}

impl SoftBufferPixel {
    /// An opaque pixel of the given colour.
    pub fn from_rgb(r: u8, g: u8, b: u8) -> (p: Self)
        ensures
            p.0 == pack_argb(255u8, r, g, b),
    {
        SoftBufferPixel(opaque_argb(r, g, b))
    }

    /// The pixel a fresh buffer starts with: fully transparent.
    pub fn background() -> (p: Self)
        ensures
            p.0 == 0,
    {
        SoftBufferPixel(0)
    }
}

/// A damaged rectangle of the surface, handed to the compositor on present.
#[derive(Copy, Clone, Debug, PartialEq, Eq, Structural)]
pub struct DamageRect {
    pub width: u32,
    pub height: u32,
    pub x: u32,
    pub y: u32,
}

/// The size of the buffer to paint for a window of the given size, or none
/// when a side is zero (then nothing is painted or presented).
pub fn buffer_size(width: u32, height: u32) -> (r: Option<(u32, u32)>)
    ensures
        r == if width != 0 && height != 0 { Some((width, height)) } else { None::<(u32, u32)> },
{
    if width != 0 && height != 0 {
        Some((width, height))
    } else {
        None
    }
}

/// The rectangle to present after painting a `width` x `height` buffer whose
/// repainted region has the given bounding box: the bounding box when it is
/// not empty; otherwise the whole buffer, so that the surface still gets a
/// buffer attached (needed for it to be mapped); nothing when the buffer
/// itself is empty.
pub fn damage_rect(width: u32, height: u32, bbox_width: u32, bbox_height: u32, origin_x: i32, origin_y: i32) -> (r: Option<DamageRect>)
    ensures
        r == if bbox_width != 0 && bbox_height != 0 {
            Some(DamageRect { width: bbox_width, height: bbox_height, x: origin_x as u32, y: origin_y as u32 })
        } else if width != 0 && height != 0 {
            Some(DamageRect { width, height, x: 0, y: 0 })
        } else {
            None::<DamageRect>
        },
{
    if bbox_width != 0 && bbox_height != 0 {
        Some(DamageRect { width: bbox_width, height: bbox_height, x: origin_x as u32, y: origin_y as u32 })
    } else if width != 0 && height != 0 {
        Some(DamageRect { width, height, x: 0, y: 0 })
    } else {
        None
    }
}

/// An opaque colour of eight bits per channel.
#[derive(Copy, Clone, Debug, PartialEq, Eq, Structural)]
pub struct Rgb8Pixel {
    pub r: u8,
    pub g: u8,
    pub b: u8,
}

/// Writes one rendered span of line `line` into a buffer of lines of
/// `line_len` words: the span covers the columns `start..end` and `src`
/// holds its pixels; every other word of the buffer stays as it was.
pub fn write_line_span(buffer: &mut Vec<u32>, line: usize, line_len: usize, start: usize, end: usize, src: &[Rgb8Pixel])
    requires
        start <= end,
        src@.len() == end - start,
        line * line_len + end <= old(buffer)@.len(),
    ensures
        final(buffer)@.len() == old(buffer)@.len(),
        forall|k: int|
            0 <= k < final(buffer)@.len() ==> #[trigger] final(buffer)@[k] == if line * line_len + start <= k
                < line * line_len + end {
                pack_argb(
                    255u8,
                    src@[k - line * line_len - start].r,
                    src@[k - line * line_len - start].g,
                    src@[k - line * line_len - start].b,
                )
            } else {
                old(buffer)@[k]
            },
{
    let n = buffer.len();
    assert(line * line_len <= n);
    let line_begin = line * line_len;
    let first = line_begin + start;
    let mut i: usize = 0;
    while i < src.len()
        invariant
            src@.len() == end - start,
            first == line * line_len + start,
            first + src@.len() <= buffer@.len(),
            buffer@.len() == old(buffer)@.len(),
            n == buffer@.len(),
            i <= src@.len(),
            forall|k: int|
                0 <= k < buffer@.len() ==> #[trigger] buffer@[k] == if first <= k < first + i {
                    pack_argb(255u8, src@[k - first].r, src@[k - first].g, src@[k - first].b)
                } else {
                    old(buffer)@[k]
                },
        decreases src@.len() - i,
    {
        let p = src[i];
        buffer.set(first + i, opaque_argb(p.r, p.g, p.b));
        i = i + 1;
    }
}

/// Unpacking a buffer word and packing the colour again gives the word back.
pub proof fn law_pixel_roundtrip(v: u32)
    ensures
        pack_argb(unpack_argb(v).alpha, unpack_argb(v).red, unpack_argb(v).green, unpack_argb(v).blue) == v,
{
    assert(((((v >> 24u32) as u8) as u32) << 24u32) | ((((v >> 16u32) as u8) as u32) << 16u32)
        | ((((v >> 8u32) as u8) as u32) << 8u32) | (((v as u8) as u32)) == v) by (bit_vector);
}

/// Packing a colour and unpacking the word gives the colour back.
pub proof fn law_color_roundtrip(c: PremultipliedRgbaColor)
    ensures
        unpack_argb(pack_argb(c.alpha, c.red, c.green, c.blue)) == c,
{
    let (a, r, g, b) = (c.alpha, c.red, c.green, c.blue);
    let v = pack_argb(a, r, g, b);
    assert(((((a as u32) << 24u32) | ((r as u32) << 16u32) | ((g as u32) << 8u32) | (b as u32))
        >> 24u32) as u8 == a) by (bit_vector);
    assert(((((a as u32) << 24u32) | ((r as u32) << 16u32) | ((g as u32) << 8u32) | (b as u32))
        >> 16u32) as u8 == r) by (bit_vector);
    assert(((((a as u32) << 24u32) | ((r as u32) << 16u32) | ((g as u32) << 8u32) | (b as u32))
        >> 8u32) as u8 == g) by (bit_vector);
    assert(((((a as u32) << 24u32) | ((r as u32) << 16u32) | ((g as u32) << 8u32) | (b as u32)))
        as u8 == b) by (bit_vector);
}

/// An opaque pixel reads back as full alpha with the given channels.
pub proof fn law_from_rgb_is_opaque(r: u8, g: u8, b: u8)
    ensures
        unpack_argb(pack_argb(255u8, r, g, b)) == (PremultipliedRgbaColor { red: r, green: g, blue: b, alpha: 255u8 }),
{
    law_color_roundtrip(PremultipliedRgbaColor { red: r, green: g, blue: b, alpha: 255u8 });
}

} // verus!
