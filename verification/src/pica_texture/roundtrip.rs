use vstd::prelude::*;
use vstd::arithmetic::div_mod::lemma_fundamental_div_mod_converse;
use crate::pica_texture::decode::decodable;
use crate::pica_texture::decode::decoded;
use crate::pica_texture::decode::decoded_at;
use crate::pica_texture::decode::decoded_byte;
use crate::pica_texture::encode::encoded;
use crate::pica_texture::encode::encoded_units;
use crate::pica_texture::encode::lemma_encoded_len;
use crate::pica_texture::encode::lemma_encoded_units_layout;
use crate::pica_texture::encode::lemma_pixel_units_len;
use crate::pica_texture::encode::pack_nibbles;
use crate::pica_texture::encode::units_of_slot;
use crate::pica_texture::pixel::decoded_pixel;
use crate::pica_texture::pixel::expand4;
use crate::pica_texture::pixel::expand5;
use crate::pica_texture::pixel::expand6;
use crate::pica_texture::pixel::luminance;
use crate::pica_texture::pixel::packs_nibbles;
use crate::pica_texture::pixel::pixel_units;
use crate::pica_texture::pixel::rgb565_bits;
use crate::pica_texture::pixel::rgba4444_bits;
use crate::pica_texture::pixel::rgba5551_bits;
use crate::pica_texture::pixel::slot_units;
use crate::pica_texture::pixel::unit_len;
use crate::pica_texture::raster::channel;
use crate::pica_texture::raster::lemma_pixel_index_bounds;
use crate::pica_texture::raster::Raster;
use crate::pica_texture::raster::Rgba;
use crate::pica_texture::types::TextureFormat;
use crate::pica_texture::util::lemma_slot_index_bound;
use crate::pica_texture::util::lemma_slot_index_inverse;
use crate::pica_texture::util::slot_count;
use crate::pica_texture::util::slot_index;
use crate::pica_texture::util::tiles_across;

verus! {

/// What a pixel comes back as after it was packed and unpacked again.
pub open spec fn roundtrip_pixel(format: TextureFormat, px: Rgba) -> Rgba {
    decoded_pixel(format, pixel_units(format, px))
}

/// Distance between two channel values.
pub open spec fn gap(a: u8, b: u8) -> int {
    if a >= b {
        a - b
    } else {
        b - a
    }
}

proof fn lemma_word16(v: u16)
    by (bit_vector)
    ensures
        (((v & 0xFF) as u8) as u16) | ((((v >> 8) as u8) as u16) << 8) == v,
{
}

proof fn lemma_rgba5551(r: u8, g: u8, b: u8, a: u16)
    by (bit_vector)
    requires
        a == 0 || a == 1,
    ensures
        ({
            let v: u16 = (((r >> 3) as u16) << 11) | (((g >> 3) as u16) << 6) | (((b >> 3) as u16)
                << 1) | a;
            &&& expand5(v >> 11) >= r ==> expand5(v >> 11) - r <= 7
            &&& expand5(v >> 11) <= r ==> r - expand5(v >> 11) <= 7
            &&& expand5(v >> 6) >= g ==> expand5(v >> 6) - g <= 7
            &&& expand5(v >> 6) <= g ==> g - expand5(v >> 6) <= 7
            &&& expand5(v >> 1) >= b ==> expand5(v >> 1) - b <= 7
            &&& expand5(v >> 1) <= b ==> b - expand5(v >> 1) <= 7
            &&& (v & 1 == 1) <==> a == 1
        }),
{
}

proof fn lemma_rgb565(r: u8, g: u8, b: u8)
    by (bit_vector)
    ensures
        ({
            let v: u16 = (((r >> 3) as u16) << 11) | (((g >> 2) as u16) << 5) | ((b >> 3) as u16);
            &&& expand5(v >> 11) >= r ==> expand5(v >> 11) - r <= 7
            &&& expand5(v >> 11) <= r ==> r - expand5(v >> 11) <= 7
            &&& expand6(v >> 5) >= g ==> expand6(v >> 5) - g <= 3
            &&& expand6(v >> 5) <= g ==> g - expand6(v >> 5) <= 3
            &&& expand5(v) >= b ==> expand5(v) - b <= 7
            &&& expand5(v) <= b ==> b - expand5(v) <= 7
        }),
{
}

proof fn lemma_rgba4444(r: u8, g: u8, b: u8, a: u8)
    by (bit_vector)
    ensures
        ({
            let v: u16 = (((r >> 4) as u16) << 12) | (((g >> 4) as u16) << 8) | (((b >> 4) as u16)
                << 4) | ((a >> 4) as u16);
            &&& expand4(v >> 12) >= r ==> expand4(v >> 12) - r <= 15
            &&& expand4(v >> 12) <= r ==> r - expand4(v >> 12) <= 15
            &&& expand4(v >> 8) >= g ==> expand4(v >> 8) - g <= 15
            &&& expand4(v >> 8) <= g ==> g - expand4(v >> 8) <= 15
            &&& expand4(v >> 4) >= b ==> expand4(v >> 4) - b <= 15
            &&& expand4(v >> 4) <= b ==> b - expand4(v >> 4) <= 15
            &&& expand4(v) >= a ==> expand4(v) - a <= 15
            &&& expand4(v) <= a ==> a - expand4(v) <= 15
        }),
{
}

proof fn lemma_la44(l: u8, a: u8)
    by (bit_vector)
    ensures
        ({
            let v: u8 = ((l >> 4) << 4) | (a >> 4);
            &&& expand4((v >> 4) as u16) >= l ==> expand4((v >> 4) as u16) - l <= 15
            &&& expand4((v >> 4) as u16) <= l ==> l - expand4((v >> 4) as u16) <= 15
            &&& expand4(v as u16) >= a ==> expand4(v as u16) - a <= 15
            &&& expand4(v as u16) <= a ==> a - expand4(v as u16) <= 15
        }),
{
}

proof fn lemma_nibble(x: u8)
    by (bit_vector)
    ensures
        expand4((x >> 4) as u16) >= x ==> expand4((x >> 4) as u16) - x <= 15,
        expand4((x >> 4) as u16) <= x ==> x - expand4((x >> 4) as u16) <= 15,
{
}

/// What packing and unpacking does to one pixel, format by format.
///
/// RGBA8888 gives the pixel back. RGB888 gives its colour back, opaque.
/// The formats with fewer bits give every channel that they store back
/// within the step of its bit depth: 7 for five bits, 3 for six bits, 15
/// for four bits; one bit of alpha becomes 255 where alpha was above 127
/// and 0 elsewhere. Luminance formats give a grey of the pixel's
/// luminance, formats without alpha are opaque, and formats without colour
/// are black.
pub proof fn lemma_roundtrip_pixel(format: TextureFormat, px: Rgba)
    ensures
        ({
            let q = roundtrip_pixel(format, px);
            let l = luminance(px);
            match format {
                TextureFormat::RGBA8888 => q == px,
                TextureFormat::RGB888 => q == (Rgba { r: px.r, g: px.g, b: px.b, a: 0xFF }),
                TextureFormat::RGBA5551 => gap(q.r, px.r) <= 7 && gap(q.g, px.g) <= 7 && gap(
                    q.b,
                    px.b,
                ) <= 7 && q.a == (if px.a > 127 {
                    0xFFu8
                } else {
                    0x00u8
                }),
                TextureFormat::RGB565 => gap(q.r, px.r) <= 7 && gap(q.g, px.g) <= 3 && gap(
                    q.b,
                    px.b,
                ) <= 7 && q.a == 0xFF,
                TextureFormat::RGBA4444 => gap(q.r, px.r) <= 15 && gap(q.g, px.g) <= 15 && gap(
                    q.b,
                    px.b,
                ) <= 15 && gap(q.a, px.a) <= 15,
                TextureFormat::LA88 => q == (Rgba { r: l, g: l, b: l, a: px.a }),
                TextureFormat::HL8 => q == (Rgba { r: px.r, g: px.g, b: 0, a: 0xFF }),
                TextureFormat::L8 => q == (Rgba { r: l, g: l, b: l, a: 0xFF }),
                TextureFormat::A8 => q == (Rgba { r: 0, g: 0, b: 0, a: px.a }),
                TextureFormat::LA44 => q.r == q.g && q.g == q.b && gap(q.r, l) <= 15 && gap(
                    q.a,
                    px.a,
                ) <= 15,
                TextureFormat::L4 => q.r == q.g && q.g == q.b && gap(q.r, l) <= 15 && q.a == 0xFF,
                TextureFormat::A4 => q.r == 0 && q.g == 0 && q.b == 0 && gap(q.a, px.a) <= 15,
                TextureFormat::ETC1 => true,
                TextureFormat::ETC1A4 => true,
            }
        }),
{
    match format {
        TextureFormat::RGBA5551 => {
            let a: u16 = if px.a > 127 {
                1
            } else {
                0
            };
            lemma_rgba5551(px.r, px.g, px.b, a);
            lemma_word16(rgba5551_bits(px));
        },
        TextureFormat::RGB565 => {
            lemma_rgb565(px.r, px.g, px.b);
            lemma_word16(rgb565_bits(px));
        },
        TextureFormat::RGBA4444 => {
            lemma_rgba4444(px.r, px.g, px.b, px.a);
            lemma_word16(rgba4444_bits(px));
        },
        TextureFormat::LA44 => {
            lemma_la44(luminance(px), px.a);
        },
        TextureFormat::L4 => {
            lemma_nibble(luminance(px));
        },
        TextureFormat::A4 => {
            lemma_nibble(px.a);
        },
        _ => {},
    }
}

proof fn lemma_packed_pair(a: u8, b: u8)
    by (bit_vector)
    ensures
        ((a & 0x0F) | ((b & 0x0F) << 4)) & 0x0F == a & 0x0F,
        ((a & 0x0F) | ((b & 0x0F) << 4)) >> 4 == b & 0x0F,
        ((a & 0x0F) | (0u8 << 4)) & 0x0F == a & 0x0F,
{
}

proof fn lemma_high_nibble(x: u8)
    by (bit_vector)
    ensures
        (x >> 4) & 0x0F == x >> 4,
{
}

/// In the packed data of an image whose sides are multiples of 8, the
/// slot of every pixel holds exactly the units of that pixel.
pub proof fn lemma_encoded_slot_units(
    img: Raster,
    width: nat,
    height: nat,
    format: TextureFormat,
    x: int,
    y: int,
)
    requires
        width % 8 == 0,
        height % 8 == 0,
        !format.is_block_compressed(),
        0 <= x < width,
        0 <= y < height,
    ensures
        slot_units(format, encoded(img, width, height, format), slot_index(width, x, y))
            == pixel_units(format, img.pixel(x, y)),
{
    let k = slot_index(width, x, y);
    let n = slot_count(width, height);
    let u = unit_len(format) as int;
    let units = encoded_units(img, width, height, format, n);
    let px = img.pixel(x, y);
    lemma_slot_index_bound(width, height, x, y);
    lemma_slot_index_inverse(width, x, y);
    lemma_encoded_units_layout(img, width, height, format, n);
    lemma_pixel_units_len(format, px);
    assert(units.subrange(k * u, k * u + u) == units_of_slot(img, width, format, k));
    assert(units_of_slot(img, width, format, k) == pixel_units(format, px));
    if packs_nibbles(format) {
        assert(u == 1);
        assert(n * u == n) by (nonlinear_arith)
            requires
                u == 1,
        ;
        let v = pixel_units(format, px)[0];
        assert(units.subrange(k, k + 1)[0] == units[k]);
        assert(units[k] == v);
        let packed = pack_nibbles(units);
        let j = k / 2;
        let tx = tiles_across(width);
        let ty = tiles_across(height);
        assert(n % 2 == 0) by (nonlinear_arith)
            requires
                n == tx * ty * 64,
        ;
        assert(0 <= j < packed.len());
        assert(2 * j + 1 < n);
        lemma_packed_pair(units[2 * j], units[2 * j + 1]);
        if format == TextureFormat::L4 {
            lemma_high_nibble(luminance(px));
        } else {
            lemma_high_nibble(px.a);
        }
        assert(slot_units(format, packed, k) =~= pixel_units(format, px));
    }
}

/// Packing an image whose sides are multiples of 8 and unpacking the
/// packed data gives, for every pixel, what packing and unpacking that
/// one pixel gives.
pub proof fn lemma_roundtrip_image(
    img: Raster,
    width: nat,
    height: nat,
    format: TextureFormat,
    x: int,
    y: int,
)
    requires
        width % 8 == 0,
        height % 8 == 0,
        !format.is_block_compressed(),
        0 <= x < width,
        0 <= y < height,
    ensures
        decoded(format, encoded(img, width, height, format), width, height).pixel(x, y)
            == roundtrip_pixel(format, img.pixel(x, y)),
{
    let data = encoded(img, width, height, format);
    let out = decoded(format, data, width, height);
    let p = y * width + x;
    lemma_encoded_slot_units(img, width, height, format, x, y);
    lemma_pixel_index_bounds(width as int, height as int, x, y);
    lemma_fundamental_div_mod_converse(p, width as int, y, x);
    assert(decoded_at(format, data, width, x, y) == roundtrip_pixel(format, img.pixel(x, y)));
    assert forall|c: int| 0 <= c < 4 implies out.data[4 * p + c] == channel(
        decoded_at(format, data, width, x, y),
        c,
    ) by {
        let i = 4 * p + c;
        assert(i / 4 == p && i % 4 == c);
        assert(out.data[i] == decoded_byte(format, data, width, i));
    }
    assert(out.data[4 * p + 0] == decoded_at(format, data, width, x, y).r);
    assert(out.data[4 * p + 1] == decoded_at(format, data, width, x, y).g);
    assert(out.data[4 * p + 2] == decoded_at(format, data, width, x, y).b);
    assert(out.data[4 * p + 3] == decoded_at(format, data, width, x, y).a);
}

/// The packed data of an image whose sides are multiples of 8 is accepted
/// by the decoder, where the decoded raster fits in memory.
pub proof fn lemma_encoded_is_decodable(
    img: Raster,
    width: nat,
    height: nat,
    format: TextureFormat,
)
    requires
        width % 8 == 0,
        height % 8 == 0,
        !format.is_block_compressed(),
        4 * width * height <= usize::MAX,
    ensures
        decodable(format, width, height, encoded(img, width, height, format).len()),
{
    lemma_encoded_len(img, width, height, format);
}

} // verus!
