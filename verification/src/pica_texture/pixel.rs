use vstd::prelude::*;
use crate::pica_texture::raster::Rgba;
use crate::pica_texture::types::TextureFormat;

verus! {

/// Luminance of a pixel: the truncating average of its three colour channels.
pub open spec fn luminance(px: Rgba) -> u8 {
    ((px.r as u32 + px.g as u32 + px.b as u32) / 3) as u8
}

/// The 16-bit RGBA5551 word of a pixel: five bits each of red, green and
/// blue from the top down, and one bit of alpha, set where alpha is above 127.
pub open spec fn rgba5551_bits(px: Rgba) -> u16 {
    (((px.r >> 3) as u16) << 11) | (((px.g >> 3) as u16) << 6) | (((px.b >> 3) as u16) << 1) | (if px.a
        > 127 {
        1u16
    } else {
        0u16
    })
}

/// The 16-bit RGB565 word of a pixel: five bits of red, six of green, five
/// of blue, from the top down.
pub open spec fn rgb565_bits(px: Rgba) -> u16 {
    (((px.r >> 3) as u16) << 11) | (((px.g >> 2) as u16) << 5) | ((px.b >> 3) as u16)
}

/// The 16-bit RGBA4444 word of a pixel: four bits each of red, green, blue
/// and alpha, from the top down.
pub open spec fn rgba4444_bits(px: Rgba) -> u16 {
    (((px.r >> 4) as u16) << 12) | (((px.g >> 4) as u16) << 8) | (((px.b >> 4) as u16) << 4) | ((px.a
        >> 4) as u16)
}

/// The LA44 byte of a pixel: luminance in the high nibble, alpha in the low.
pub open spec fn la44_bits(px: Rgba) -> u8 {
    ((luminance(px) >> 4) << 4) | (px.a >> 4)
}

/// A 16-bit word as two bytes, low byte first.
pub open spec fn le_bytes16(v: u16) -> Seq<u8> {
    seq![(v & 0xFF) as u8, (v >> 8) as u8]
}

/// The 16-bit word that two bytes hold, low byte first.
pub open spec fn le_word16(lo: u8, hi: u8) -> u16 {
    (lo as u16) | ((hi as u16) << 8)
}

/// Widens the low five bits of `c` to eight: the five bits on top, their
/// three highest bits repeated below.
pub open spec fn expand5(c: u16) -> u8 {
    let t = ((c & 0x1F) << 3) as u8;
    t | (t >> 5)
}

/// Widens the low six bits of `c` to eight: the six bits on top, their two
/// highest bits repeated below.
pub open spec fn expand6(c: u16) -> u8 {
    let t = ((c & 0x3F) << 2) as u8;
    t | (t >> 6)
}

/// Widens the low four bits of `c` to eight by writing them twice.
pub open spec fn expand4(c: u16) -> u8 {
    let t = (c & 0xF) as u8;
    t | (t << 4)
}

/// Number of units that one pixel takes in the packed stream of a pixel
/// format. A unit is a byte, except in the 4-bit formats, where it is a
/// nibble. Block formats have no per-pixel units.
pub open spec fn unit_len(format: TextureFormat) -> nat {
    match format {
        TextureFormat::RGBA8888 => 4,
        TextureFormat::RGB888 => 3,
        TextureFormat::RGBA5551 => 2,
        TextureFormat::RGB565 => 2,
        TextureFormat::RGBA4444 => 2,
        TextureFormat::LA88 => 2,
        TextureFormat::HL8 => 2,
        TextureFormat::L8 => 1,
        TextureFormat::A8 => 1,
        TextureFormat::LA44 => 1,
        TextureFormat::L4 => 1,
        TextureFormat::A4 => 1,
        TextureFormat::ETC1 => 0,
        TextureFormat::ETC1A4 => 0,
    }
}

/// Whether the units of a pixel format are nibbles, two to a byte.
pub open spec fn packs_nibbles(format: TextureFormat) -> bool {
    format == TextureFormat::L4 || format == TextureFormat::A4
}

/// The units that a pixel packs to in a pixel format.
pub open spec fn pixel_units(format: TextureFormat, px: Rgba) -> Seq<u8> {
    match format {
        TextureFormat::RGBA8888 => seq![px.a, px.b, px.g, px.r],
        TextureFormat::RGB888 => seq![px.b, px.g, px.r],
        TextureFormat::RGBA5551 => le_bytes16(rgba5551_bits(px)),
        TextureFormat::RGB565 => le_bytes16(rgb565_bits(px)),
        TextureFormat::RGBA4444 => le_bytes16(rgba4444_bits(px)),
        TextureFormat::LA88 => seq![px.a, luminance(px)],
        TextureFormat::HL8 => seq![px.g, px.r],
        TextureFormat::L8 => seq![luminance(px)],
        TextureFormat::A8 => seq![px.a],
        TextureFormat::LA44 => seq![la44_bits(px)],
        TextureFormat::L4 => seq![luminance(px) >> 4],
        TextureFormat::A4 => seq![px.a >> 4],
        TextureFormat::ETC1 => Seq::empty(),
        TextureFormat::ETC1A4 => Seq::empty(),
    }
}

/// The pixel that the units of one pixel unpack to. Luminance becomes a
/// grey, a format without alpha is opaque, and a format without colour is
/// black.
pub open spec fn decoded_pixel(format: TextureFormat, units: Seq<u8>) -> Rgba {
    match format {
        TextureFormat::RGBA8888 => Rgba { r: units[3], g: units[2], b: units[1], a: units[0] },
        TextureFormat::RGB888 => Rgba { r: units[2], g: units[1], b: units[0], a: 0xFF },
        TextureFormat::RGBA5551 => {
            let v = le_word16(units[0], units[1]);
            Rgba {
                r: expand5(v >> 11),
                g: expand5(v >> 6),
                b: expand5(v >> 1),
                a: if v & 1 == 1 {
                    0xFF
                } else {
                    0x00
                },
            }
        },
        TextureFormat::RGB565 => {
            let v = le_word16(units[0], units[1]);
            Rgba { r: expand5(v >> 11), g: expand6(v >> 5), b: expand5(v), a: 0xFF }
        },
        TextureFormat::RGBA4444 => {
            let v = le_word16(units[0], units[1]);
            Rgba { r: expand4(v >> 12), g: expand4(v >> 8), b: expand4(v >> 4), a: expand4(v) }
        },
        TextureFormat::LA88 => Rgba { r: units[1], g: units[1], b: units[1], a: units[0] },
        TextureFormat::HL8 => Rgba { r: units[1], g: units[0], b: 0, a: 0xFF },
        TextureFormat::L8 => Rgba { r: units[0], g: units[0], b: units[0], a: 0xFF },
        TextureFormat::A8 => Rgba { r: 0, g: 0, b: 0, a: units[0] },
        TextureFormat::LA44 => {
            let l = expand4((units[0] >> 4) as u16);
            Rgba { r: l, g: l, b: l, a: expand4(units[0] as u16) }
        },
        TextureFormat::L4 => {
            let l = expand4(units[0] as u16);
            Rgba { r: l, g: l, b: l, a: 0xFF }
        },
        TextureFormat::A4 => Rgba { r: 0, g: 0, b: 0, a: expand4(units[0] as u16) },
        TextureFormat::ETC1 => Rgba { r: 0, g: 0, b: 0, a: 0xFF },
        TextureFormat::ETC1A4 => Rgba { r: 0, g: 0, b: 0, a: 0xFF },
    }
}

/// The units of the pixel in position `slot` of a packed stream.
pub open spec fn slot_units(format: TextureFormat, data: Seq<u8>, slot: int) -> Seq<u8> {
    if packs_nibbles(format) {
        if slot % 2 == 0 {
            seq![data[slot / 2] & 0xF]
        } else {
            seq![data[slot / 2] >> 4]
        }
    } else {
        data.subrange(slot * unit_len(format), slot * unit_len(format) + unit_len(format))
    }
}

/// The truncating average of the three colour channels.
pub fn luminance_of(px: Rgba) -> (l: u8)
    ensures
        l == luminance(px),
{
    ((px.r as u32 + px.g as u32 + px.b as u32) / 3) as u8
}

fn push_word16(out: &mut Vec<u8>, v: u16)
    ensures
        final(out)@ == old(out)@ + le_bytes16(v),
{
    out.push((v & 0xFF) as u8);
    out.push((v >> 8) as u8);
    assert(out@ =~= old(out)@ + le_bytes16(v));
}

/// Appends to `out` the units that `px` packs to in `format`. For a block
/// format nothing is appended.
pub fn encode_pixel(format: &TextureFormat, px: Rgba, out: &mut Vec<u8>)
    ensures
        final(out)@ == old(out)@ + pixel_units(*format, px),
{
    match format {
        TextureFormat::RGBA8888 => {
            out.push(px.a);
            out.push(px.b);
            out.push(px.g);
            out.push(px.r);
        },
        TextureFormat::RGB888 => {
            out.push(px.b);
            out.push(px.g);
            out.push(px.r);
        },
        TextureFormat::RGBA5551 => {
            let r: u16 = (px.r >> 3) as u16;
            let g: u16 = (px.g >> 3) as u16;
            let b: u16 = (px.b >> 3) as u16;
            let a: u16 = if px.a > 127 {
                1
            } else {
                0
            };
            let value: u16 = (r << 11) | (g << 6) | (b << 1) | a;
            push_word16(out, value);
        },
        TextureFormat::RGB565 => {
            let r: u16 = (px.r >> 3) as u16;
            let g: u16 = (px.g >> 2) as u16;
            let b: u16 = (px.b >> 3) as u16;
            let value: u16 = (r << 11) | (g << 5) | b;
            push_word16(out, value);
        },
        TextureFormat::RGBA4444 => {
            let r: u16 = (px.r >> 4) as u16;
            let g: u16 = (px.g >> 4) as u16;
            let b: u16 = (px.b >> 4) as u16;
            let a: u16 = (px.a >> 4) as u16;
            let value: u16 = (r << 12) | (g << 8) | (b << 4) | a;
            push_word16(out, value);
        },
        TextureFormat::LA88 => {
            let l: u8 = luminance_of(px);
            out.push(px.a);
            out.push(l);
        },
        TextureFormat::HL8 => {
            out.push(px.g);
            out.push(px.r);
        },
        TextureFormat::L8 => {
            let l: u8 = luminance_of(px);
            out.push(l);
        },
        TextureFormat::A8 => {
            out.push(px.a);
        },
        TextureFormat::LA44 => {
            let l: u8 = luminance_of(px) >> 4;
            let a: u8 = px.a >> 4;
            out.push((l << 4) | a);
        },
        TextureFormat::L4 => {
            let l: u8 = luminance_of(px) >> 4;
            out.push(l);
        },
        TextureFormat::A4 => {
            out.push(px.a >> 4);
        },
        TextureFormat::ETC1 => {},
        TextureFormat::ETC1A4 => {},
    }
    assert(out@ =~= old(out)@ + pixel_units(*format, px));
}

fn widen5(c: u16) -> (v: u8)
    ensures
        v == expand5(c),
{
    let t: u8 = ((c & 0x1F) << 3) as u8;
    t | (t >> 5)
}

fn widen6(c: u16) -> (v: u8)
    ensures
        v == expand6(c),
{
    let t: u8 = ((c & 0x3F) << 2) as u8;
    t | (t >> 6)
}

fn widen4(c: u16) -> (v: u8)
    ensures
        v == expand4(c),
{
    let t: u8 = (c & 0xF) as u8;
    t | (t << 4)
}

/// Whether the units of pixel `slot` lie inside a packed stream of `len`
/// bytes.
pub open spec fn slot_in_stream(format: TextureFormat, len: nat, slot: int) -> bool {
    if packs_nibbles(format) {
        0 <= slot && slot / 2 < len
    } else {
        0 <= slot && slot * unit_len(format) + unit_len(format) <= len
    }
}

/// Unpacks the pixel in position `slot` of the packed stream `data`. For a
/// block format, which has no per-pixel units, the pixel is opaque black.
pub fn decode_pixel(format: &TextureFormat, data: &[u8], slot: usize) -> (px: Rgba)
    requires
        slot_in_stream(*format, data@.len(), slot as int),
    ensures
        px == decoded_pixel(*format, slot_units(*format, data@, slot as int)),
{
    assert(data.len() <= usize::MAX);
    match format {
        TextureFormat::RGBA8888 => {
            let i: usize = slot * 4;
            Rgba { r: data[i + 3], g: data[i + 2], b: data[i + 1], a: data[i] }
        },
        TextureFormat::RGB888 => {
            let i: usize = slot * 3;
            Rgba { r: data[i + 2], g: data[i + 1], b: data[i], a: 0xFF }
        },
        TextureFormat::RGBA5551 => {
            let i: usize = slot * 2;
            let value: u16 = (data[i] as u16) | ((data[i + 1] as u16) << 8);
            Rgba {
                r: widen5(value >> 11),
                g: widen5(value >> 6),
                b: widen5(value >> 1),
                a: if value & 1 == 1 {
                    0xFF
                } else {
                    0x00
                },
            }
        },
        TextureFormat::RGB565 => {
            let i: usize = slot * 2;
            let value: u16 = (data[i] as u16) | ((data[i + 1] as u16) << 8);
            Rgba { r: widen5(value >> 11), g: widen6(value >> 5), b: widen5(value), a: 0xFF }
        },
        TextureFormat::RGBA4444 => {
            let i: usize = slot * 2;
            let value: u16 = (data[i] as u16) | ((data[i + 1] as u16) << 8);
            Rgba {
                r: widen4(value >> 12),
                g: widen4(value >> 8),
                b: widen4(value >> 4),
                a: widen4(value),
            }
        },
        TextureFormat::LA88 => {
            let i: usize = slot * 2;
            let l: u8 = data[i + 1];
            Rgba { r: l, g: l, b: l, a: data[i] }
        },
        TextureFormat::HL8 => {
            let i: usize = slot * 2;
            Rgba { r: data[i + 1], g: data[i], b: 0, a: 0xFF }
        },
        TextureFormat::L8 => {
            let l: u8 = data[slot];
            Rgba { r: l, g: l, b: l, a: 0xFF }
        },
        TextureFormat::A8 => Rgba { r: 0, g: 0, b: 0, a: data[slot] },
        TextureFormat::LA44 => {
            let byte: u8 = data[slot];
            let l: u8 = widen4((byte >> 4) as u16);
            Rgba { r: l, g: l, b: l, a: widen4(byte as u16) }
        },
        TextureFormat::L4 => {
            let byte: u8 = data[slot / 2];
            let nibble: u8 = if slot % 2 == 0 {
                byte & 0xF
            } else {
                byte >> 4
            };
            let l: u8 = widen4(nibble as u16);
            Rgba { r: l, g: l, b: l, a: 0xFF }
        },
        TextureFormat::A4 => {
            let byte: u8 = data[slot / 2];
            let nibble: u8 = if slot % 2 == 0 {
                byte & 0xF
            } else {
                byte >> 4
            };
            Rgba { r: 0, g: 0, b: 0, a: widen4(nibble as u16) }
        },
        TextureFormat::ETC1 => Rgba { r: 0, g: 0, b: 0, a: 0xFF },
        TextureFormat::ETC1A4 => Rgba { r: 0, g: 0, b: 0, a: 0xFF },
    }
}

} // verus!
