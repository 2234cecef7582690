use vstd::prelude::*;
use image::DynamicImage;
use crate::pica_texture::etc1::block_count;
use crate::pica_texture::etc1::encode_etc1;
use crate::pica_texture::etc1::encoder_params;
use crate::pica_texture::etc1::etc1_payload;
use crate::pica_texture::etc1::lemma_payload_len;
use crate::pica_texture::etc1::packed_by;
use crate::pica_texture::etc1::Etc1PackParams;
use crate::pica_texture::pixel::encode_pixel;
use crate::pica_texture::pixel::packs_nibbles;
use crate::pica_texture::pixel::pixel_units;
use crate::pica_texture::pixel::unit_len;
use crate::pica_texture::raster::Raster;
use crate::pica_texture::raster::RasterImage;
use crate::pica_texture::raster::Rgba;
use crate::pica_texture::raster::image_dims;
use crate::pica_texture::raster::image_raster;
use crate::pica_texture::types::CodecError;
use crate::pica_texture::types::PicaTexture;
use crate::pica_texture::types::TextureFormat;
use crate::pica_texture::util::lemma_slot_position;
use crate::pica_texture::util::lemma_tile_position;
use crate::pica_texture::util::slot_col;
use crate::pica_texture::util::slot_count;
use crate::pica_texture::util::slot_row;
use crate::pica_texture::util::slot_visible;
use crate::pica_texture::util::swizzle;
use crate::pica_texture::util::tiles_across;
use crate::pica_texture::visible::lemma_visible_total;
use crate::pica_texture::visible::visible_upto;

verus! {

/// What slot number `k` adds to the packed stream: the units of its pixel
/// where the pixel lies inside `width` by `height`, nothing elsewhere.
pub open spec fn encoded_slot(
    img: Raster,
    width: nat,
    height: nat,
    format: TextureFormat,
    k: int,
) -> Seq<u8> {
    if slot_visible(width, height, k) {
        pixel_units(format, img.pixel(slot_col(width, k), slot_row(width, k)))
    } else {
        Seq::empty()
    }
}

/// The units of the first `n` slots, one slot after another.
pub open spec fn encoded_units(
    img: Raster,
    width: nat,
    height: nat,
    format: TextureFormat,
    n: nat,
) -> Seq<u8>
    decreases n,
{
    if n == 0 {
        Seq::empty()
    } else {
        encoded_units(img, width, height, format, (n - 1) as nat) + encoded_slot(
            img,
            width,
            height,
            format,
            n - 1,
        )
    }
}

/// Nibble `i` of a stream of nibbles, and zero past its end.
pub open spec fn nibble_or_zero(nibbles: Seq<u8>, i: int) -> u8 {
    if i < nibbles.len() {
        nibbles[i] & 0x0F
    } else {
        0
    }
}

/// A stream of nibbles as bytes: two to a byte, the earlier one in the low
/// half. An odd nibble at the end takes a byte whose high half is zero.
pub open spec fn pack_nibbles(nibbles: Seq<u8>) -> Seq<u8> {
    Seq::new(
        (nibbles.len() + 1) / 2,
        |j: int| nibble_or_zero(nibbles, 2 * j) | (nibble_or_zero(nibbles, 2 * j + 1) << 4),
    )
}

/// The packed data of the top left `width` by `height` pixels of an image
/// in a pixel format: the visible pixels of all tiles in slot order, each
/// packed as the format says.
pub open spec fn encoded(img: Raster, width: nat, height: nat, format: TextureFormat) -> Seq<u8> {
    let units = encoded_units(img, width, height, format, slot_count(width, height));
    if packs_nibbles(format) {
        pack_nibbles(units)
    } else {
        units
    }
}

/// The units that slot number `k` of a whole-tile image adds to the
/// stream: the units of its pixel.
pub open spec fn units_of_slot(img: Raster, width: nat, format: TextureFormat, k: int) -> Seq<u8> {
    pixel_units(format, img.pixel(slot_col(width, k), slot_row(width, k)))
}

/// A pixel packs to as many units as its format takes per pixel.
pub proof fn lemma_pixel_units_len(format: TextureFormat, px: Rgba)
    ensures
        pixel_units(format, px).len() == unit_len(format),
{
}

/// In an image whose sides are multiples of 8 every slot is visible, so the
/// stream of the first `n` slots holds the units of the pixel of slot `k`
/// at position `k * unit_len(format)`, for every `k` below `n`.
pub proof fn lemma_encoded_units_layout(
    img: Raster,
    width: nat,
    height: nat,
    format: TextureFormat,
    n: nat,
)
    requires
        width % 8 == 0,
        height % 8 == 0,
        n <= slot_count(width, height),
    ensures
        encoded_units(img, width, height, format, n).len() == n * unit_len(format),
        forall|k: int|
            0 <= k < n ==> encoded_units(img, width, height, format, n).subrange(
                k * unit_len(format),
                k * unit_len(format) + unit_len(format),
            ) == #[trigger] units_of_slot(img, width, format, k),
    decreases n,
{
    let u = unit_len(format) as int;
    if n > 0 {
        let m = (n - 1) as nat;
        lemma_encoded_units_layout(img, width, height, format, m);
        lemma_slot_position(width, height, m as int);
        let head = encoded_units(img, width, height, format, m);
        let tail = encoded_slot(img, width, height, format, m as int);
        let all = encoded_units(img, width, height, format, n);
        assert(all == head + tail);
        assert(tail == units_of_slot(img, width, format, m as int));
        lemma_pixel_units_len(format, img.pixel(slot_col(width, m as int), slot_row(width, m as int)));
        assert(n * u == m * u + u) by (nonlinear_arith)
            requires
                n == m + 1,
        ;
        assert forall|k: int| 0 <= k < n implies all.subrange(k * u, k * u + u)
            == #[trigger] units_of_slot(img, width, format, k) by {
            if k < m {
                assert(k * u + u <= m * u) by (nonlinear_arith)
                    requires
                        0 <= k < m,
                        0 <= u,
                ;
                assert(0 <= k * u) by (nonlinear_arith)
                    requires
                        0 <= k,
                        0 <= u,
                ;
                assert(all.subrange(k * u, k * u + u) =~= head.subrange(k * u, k * u + u));
            } else {
                assert(all.subrange(m * u, m * u + u) =~= tail);
            }
        }
    } else {
        assert(0 * u == 0);
    }
}

/// The stream of the first `n` slots holds the units of the visible ones.
pub proof fn lemma_encoded_units_len(
    img: Raster,
    width: nat,
    height: nat,
    format: TextureFormat,
    n: nat,
)
    ensures
        encoded_units(img, width, height, format, n).len() == visible_upto(width, height, n)
            * unit_len(format),
    decreases n,
{
    let u = unit_len(format);
    if n > 0 {
        let m = (n - 1) as nat;
        lemma_encoded_units_len(img, width, height, format, m);
        lemma_pixel_units_len(format, img.pixel(slot_col(width, m as int), slot_row(width, m as int)));
        let v = visible_upto(width, height, m);
        assert((v + 1) * u == v * u + u) by (nonlinear_arith);
    } else {
        assert(0 * u == 0);
    }
}

/// The packed data of an image has the packed length of its format: the
/// bytes of `width * height` pixels, whatever the sides are.
pub proof fn lemma_encoded_len(img: Raster, width: nat, height: nat, format: TextureFormat)
    requires
        !format.is_block_compressed(),
    ensures
        encoded(img, width, height, format).len() == format.packed_len(width, height),
{
    let n = slot_count(width, height);
    lemma_encoded_units_len(img, width, height, format, n);
    lemma_visible_total(width, height);
    let pixels = width * height;
    assert(pixels * 1 == pixels && pixels * 2 == 2 * pixels && pixels * 3 == 3 * pixels && pixels
        * 4 == 4 * pixels) by (nonlinear_arith);
}

/// The packed data of an image whose sides are multiples of 8 takes
/// `width * height * bits_per_pixel / 8` bytes, with nothing rounded.
pub proof fn lemma_encoded_len_whole_tiles(
    img: Raster,
    width: nat,
    height: nat,
    format: TextureFormat,
)
    requires
        width % 8 == 0,
        height % 8 == 0,
        !format.is_block_compressed(),
    ensures
        8 * encoded(img, width, height, format).len() == width * height
            * format.spec_bits_per_pixel(),
{
    lemma_encoded_len(img, width, height, format);
    let pixels = width * height;
    let tx = tiles_across(width);
    assert(pixels == 8 * (tx * height)) by (nonlinear_arith)
        requires
            pixels == width * height,
            width == 8 * tx,
    ;
    assert(pixels * 4 == 4 * pixels && pixels * 8 == 8 * pixels && pixels * 16 == 16 * pixels
        && pixels * 24 == 24 * pixels && pixels * 32 == 32 * pixels) by (nonlinear_arith);
}

/// Packs a stream of nibbles into bytes, two to a byte, by writing each
/// nibble into its half of a zeroed buffer.
pub fn pack_nibble_stream(nibbles: &Vec<u8>) -> (out: Vec<u8>)
    ensures
        out@ == pack_nibbles(nibbles@),
{
    let n: usize = nibbles.len();
    let byte_count: usize = n / 2 + n % 2;
    let mut out: Vec<u8> = vec![0u8; byte_count];
    let mut i: usize = 0;
    while i < n
        invariant
            i <= n,
            n == nibbles@.len(),
            out@.len() == (n + 1) / 2,
            forall|j: int|
                0 <= j < out@.len() && 2 * j + 1 < i ==> out@[j] == pack_nibbles(nibbles@)[j],
            forall|j: int| 0 <= j < out@.len() && 2 * j >= i ==> out@[j] == 0,
            i % 2 == 1 ==> out@[i as int / 2] == nibbles@[i - 1] & 0x0F,
        decreases n - i,
    {
        let byte_index: usize = i / 2;
        let nibble: u8 = nibbles[i];
        let old_byte: u8 = out[byte_index];
        if i % 2 == 0 {
            assert((0u8 & 0xF0) | (nibble & 0x0F) == nibble & 0x0F) by (bit_vector);
            out[byte_index] = (old_byte & 0xF0) | (nibble & 0x0F);
        } else {
            let ghost low = nibbles@[i - 1];
            assert(((low & 0x0F) & 0x0F) | ((nibble & 0x0F) << 4) == (low & 0x0F) | ((nibble & 0x0F)
                << 4)) by (bit_vector);
            out[byte_index] = (old_byte & 0x0F) | ((nibble & 0x0F) << 4);
        }
        i += 1;
    }
    proof {
        if n % 2 == 1 {
            let last = nibbles@[n - 1];
            assert((last & 0x0F) | (0u8 << 4) == last & 0x0F) by (bit_vector);
        }
    }
    assert(out@ =~= pack_nibbles(nibbles@));
    out
}

/// Walks the tiles that cover `width` by `height` row by row, the slots
/// of each tile in swizzle order, and packs the pixel of every slot that
/// lies inside the image.
fn tiled_units(img: &RasterImage, width: u32, height: u32, format: &TextureFormat) -> (out: Vec<u8>)
    requires
        width <= img@.width,
        height <= img@.height,
    ensures
        out@ == encoded_units(
            img@,
            width as nat,
            height as nat,
            *format,
            slot_count(width as nat, height as nat),
        ),
{
    let tiles_x: u64 = (width as u64 + 7) / 8;
    let tiles_y: u64 = (height as u64 + 7) / 8;
    let ghost w = width as nat;
    let ghost h = height as nat;
    let ghost mut k: nat = 0;
    let mut out: Vec<u8> = Vec::new();
    let mut row: u64 = 0;
    while row < tiles_y
        invariant
            row <= tiles_y,
            tiles_x == tiles_across(w),
            tiles_y == tiles_across(h),
            w == width,
            h == height,
            width <= img@.width,
            height <= img@.height,
            k == row * tiles_x * 64,
            out@ == encoded_units(img@, w, h, *format, k),
        decreases tiles_y - row,
    {
        let mut col: u64 = 0;
        while col < tiles_x
            invariant
                row < tiles_y,
                col <= tiles_x,
                tiles_x == tiles_across(w),
                tiles_y == tiles_across(h),
                w == width,
                h == height,
                width <= img@.width,
                height <= img@.height,
                k == (row * tiles_x + col) * 64,
                out@ == encoded_units(img@, w, h, *format, k),
            decreases tiles_x - col,
        {
            let mut slot: usize = 0;
            while slot < 64
                invariant
                    row < tiles_y,
                    col < tiles_x,
                    slot <= 64,
                    tiles_x == tiles_across(w),
                    tiles_y == tiles_across(h),
                    w == width,
                    h == height,
                    width <= img@.width,
                    height <= img@.height,
                    k == (row * tiles_x + col) * 64 + slot,
                    out@ == encoded_units(img@, w, h, *format, k),
                decreases 64 - slot,
            {
                proof {
                    lemma_tile_position(w, row as int, col as int);
                    assert(k / 64 == row * tiles_x + col && k % 64 == slot);
                }
                let (x, y) = swizzle(slot);
                let img_x: u64 = col * 8 + x as u64;
                let img_y: u64 = row * 8 + y as u64;
                if img_x < width as u64 && img_y < height as u64 {
                    let px = img.get_pixel(img_x as u32, img_y as u32);
                    encode_pixel(format, px, &mut out);
                }
                proof {
                    k = k + 1;
                }
                slot += 1;
            }
            col += 1;
        }
        proof {
            assert((row * tiles_x + tiles_x) * 64 == (row + 1) * tiles_x * 64) by (nonlinear_arith);
        }
        row += 1;
    }
    proof {
        assert(row * tiles_x * 64 == tiles_x * tiles_y * 64) by (nonlinear_arith)
            requires
                row == tiles_y,
        ;
    }
    out
}

/// Encodes the top left `width` by `height` pixels of an image in a pixel
/// format. For a block format the result is empty.
pub fn encode_tiled(img: &RasterImage, width: u32, height: u32, format: &TextureFormat) -> (out:
    Vec<u8>)
    requires
        width <= img@.width,
        height <= img@.height,
    ensures
        out@ == encoded(img@, width as nat, height as nat, *format),
        !format.is_block_compressed() ==> out@.len() == format.packed_len(
            width as nat,
            height as nat,
        ),
{
    proof {
        if !format.is_block_compressed() {
            lemma_encoded_len(img@, width as nat, height as nat, *format);
        }
    }
    let units = tiled_units(img, width, height, format);
    match format {
        TextureFormat::L4 => pack_nibble_stream(&units),
        TextureFormat::A4 => pack_nibble_stream(&units),
        _ => units,
    }
}

/// Encodes the top left `width` by `height` pixels of an image as RGBA8888:
/// four bytes a pixel, in the order alpha, blue, green, red.
pub fn encode_rgba8888(img: &RasterImage, width: u32, height: u32) -> (out: Vec<u8>)
    requires
        width <= img@.width,
        height <= img@.height,
    ensures
        out@ == encoded(img@, width as nat, height as nat, TextureFormat::RGBA8888),
        out@.len() == TextureFormat::RGBA8888.packed_len(width as nat, height as nat),
{
    encode_tiled(img, width, height, &TextureFormat::RGBA8888)
}

/// Encodes the top left `width` by `height` pixels of an image as RGB888:
/// three bytes a pixel, in the order blue, green, red; alpha is dropped.
pub fn encode_rgb888(img: &RasterImage, width: u32, height: u32) -> (out: Vec<u8>)
    requires
        width <= img@.width,
        height <= img@.height,
    ensures
        out@ == encoded(img@, width as nat, height as nat, TextureFormat::RGB888),
        out@.len() == TextureFormat::RGB888.packed_len(width as nat, height as nat),
{
    encode_tiled(img, width, height, &TextureFormat::RGB888)
}

/// Encodes the top left `width` by `height` pixels of an image as RGBA5551: a
/// 16-bit word a pixel, low byte first: five bits each of red, green and
/// blue, and one bit of alpha, set where alpha is above 127.
pub fn encode_rgba5551(img: &RasterImage, width: u32, height: u32) -> (out: Vec<u8>)
    requires
        width <= img@.width,
        height <= img@.height,
    ensures
        out@ == encoded(img@, width as nat, height as nat, TextureFormat::RGBA5551),
        out@.len() == TextureFormat::RGBA5551.packed_len(width as nat, height as nat),
{
    encode_tiled(img, width, height, &TextureFormat::RGBA5551)
}

/// Encodes the top left `width` by `height` pixels of an image as RGB565: a
/// 16-bit word a pixel, low byte first: five bits of red, six of green, five
/// of blue; alpha is dropped.
pub fn encode_rgb565(img: &RasterImage, width: u32, height: u32) -> (out: Vec<u8>)
    requires
        width <= img@.width,
        height <= img@.height,
    ensures
        out@ == encoded(img@, width as nat, height as nat, TextureFormat::RGB565),
        out@.len() == TextureFormat::RGB565.packed_len(width as nat, height as nat),
{
    encode_tiled(img, width, height, &TextureFormat::RGB565)
}

/// Encodes the top left `width` by `height` pixels of an image as RGBA4444: a
/// 16-bit word a pixel, low byte first: four bits each of red, green, blue
/// and alpha.
pub fn encode_rgba4444(img: &RasterImage, width: u32, height: u32) -> (out: Vec<u8>)
    requires
        width <= img@.width,
        height <= img@.height,
    ensures
        out@ == encoded(img@, width as nat, height as nat, TextureFormat::RGBA4444),
        out@.len() == TextureFormat::RGBA4444.packed_len(width as nat, height as nat),
{
    encode_tiled(img, width, height, &TextureFormat::RGBA4444)
}

/// Encodes the top left `width` by `height` pixels of an image as LA88: two
/// bytes a pixel: alpha, then luminance.
pub fn encode_la88(img: &RasterImage, width: u32, height: u32) -> (out: Vec<u8>)
    requires
        width <= img@.width,
        height <= img@.height,
    ensures
        out@ == encoded(img@, width as nat, height as nat, TextureFormat::LA88),
        out@.len() == TextureFormat::LA88.packed_len(width as nat, height as nat),
{
    encode_tiled(img, width, height, &TextureFormat::LA88)
}

/// Encodes the top left `width` by `height` pixels of an image as HL8: two
/// bytes a pixel: the green channel, then the red channel.
pub fn encode_hl8(img: &RasterImage, width: u32, height: u32) -> (out: Vec<u8>)
    requires
        width <= img@.width,
        height <= img@.height,
    ensures
        out@ == encoded(img@, width as nat, height as nat, TextureFormat::HL8),
        out@.len() == TextureFormat::HL8.packed_len(width as nat, height as nat),
{
    encode_tiled(img, width, height, &TextureFormat::HL8)
}

/// Encodes the top left `width` by `height` pixels of an image as L8: one
/// byte of luminance a pixel.
pub fn encode_l8(img: &RasterImage, width: u32, height: u32) -> (out: Vec<u8>)
    requires
        width <= img@.width,
        height <= img@.height,
    ensures
        out@ == encoded(img@, width as nat, height as nat, TextureFormat::L8),
        out@.len() == TextureFormat::L8.packed_len(width as nat, height as nat),
{
    encode_tiled(img, width, height, &TextureFormat::L8)
}

/// Encodes the top left `width` by `height` pixels of an image as A8: one
/// byte of alpha a pixel.
pub fn encode_a8(img: &RasterImage, width: u32, height: u32) -> (out: Vec<u8>)
    requires
        width <= img@.width,
        height <= img@.height,
    ensures
        out@ == encoded(img@, width as nat, height as nat, TextureFormat::A8),
        out@.len() == TextureFormat::A8.packed_len(width as nat, height as nat),
{
    encode_tiled(img, width, height, &TextureFormat::A8)
}

/// Encodes the top left `width` by `height` pixels of an image as LA44: one
/// byte a pixel: four bits of luminance above four bits of alpha.
pub fn encode_la44(img: &RasterImage, width: u32, height: u32) -> (out: Vec<u8>)
    requires
        width <= img@.width,
        height <= img@.height,
    ensures
        out@ == encoded(img@, width as nat, height as nat, TextureFormat::LA44),
        out@.len() == TextureFormat::LA44.packed_len(width as nat, height as nat),
{
    encode_tiled(img, width, height, &TextureFormat::LA44)
}

/// Encodes the top left `width` by `height` pixels of an image as L4: four
/// bits of luminance a pixel, two pixels to a byte, the earlier one in the
/// low half.
pub fn encode_l4(img: &RasterImage, width: u32, height: u32) -> (out: Vec<u8>)
    requires
        width <= img@.width,
        height <= img@.height,
    ensures
        out@ == encoded(img@, width as nat, height as nat, TextureFormat::L4),
        out@.len() == TextureFormat::L4.packed_len(width as nat, height as nat),
{
    encode_tiled(img, width, height, &TextureFormat::L4)
}

/// Encodes the top left `width` by `height` pixels of an image as A4: four
/// bits of alpha a pixel, two pixels to a byte, the earlier one in the low
/// half.
pub fn encode_a4(img: &RasterImage, width: u32, height: u32) -> (out: Vec<u8>)
    requires
        width <= img@.width,
        height <= img@.height,
    ensures
        out@ == encoded(img@, width as nat, height as nat, TextureFormat::A4),
        out@.len() == TextureFormat::A4.packed_len(width as nat, height as nat),
{
    encode_tiled(img, width, height, &TextureFormat::A4)
}

/// Whether `data` is packed data of `img` in `format`. For a pixel format
/// there is one such value. For a block format it is the payload built
/// from compressed blocks that `compress` can return for the sub-blocks of
/// the image.
pub open spec fn encodes<F: Fn(&[u8; 64], Option<Etc1PackParams>) -> [u8; 8]>(
    compress: F,
    img: Raster,
    format: TextureFormat,
    data: Seq<u8>,
) -> bool {
    if format.is_block_compressed() {
        exists|blocks: Seq<[u8; 64]>, packed: Seq<[u8; 8]>|
            packed_by(compress, img, img.width, img.height, blocks, packed) && data
                == etc1_payload(
                img,
                img.width,
                img.height,
                format == TextureFormat::ETC1A4,
                packed,
                block_count(img.width, img.height),
            )
    } else {
        data == encoded(img, img.width, img.height, format)
    }
}

/// Encodes an image as a texture in the format asked for. The image is
/// first copied as RGBA8. `compress` is the block compressor: it is called
/// for the two block formats only, once for every 4x4 sub-block.
pub fn encode_texture<F: Fn(&[u8; 64], Option<Etc1PackParams>) -> [u8; 8]>(
    img: &DynamicImage,
    format: &TextureFormat,
    compress: F,
) -> (result: Result<PicaTexture, CodecError>)
    requires
        forall|block: &[u8; 64]| compress.requires((block, Some(encoder_params()))),
    ensures
        result matches Ok(texture) && texture@.format == *format && (texture@.width, texture@.height)
            == image_dims(*img) && encodes(compress, image_raster(*img), *format, texture@.data)
            && texture@.well_sized(),
{
    let raster = RasterImage::from_dynamic(img);
    let (width, height) = raster.dimensions();
    let output_texture = match format {
        TextureFormat::RGBA8888 => encode_rgba8888(&raster, width, height),
        TextureFormat::RGB888 => encode_rgb888(&raster, width, height),
        TextureFormat::RGBA5551 => encode_rgba5551(&raster, width, height),
        TextureFormat::RGB565 => encode_rgb565(&raster, width, height),
        TextureFormat::RGBA4444 => encode_rgba4444(&raster, width, height),
        TextureFormat::LA88 => encode_la88(&raster, width, height),
        TextureFormat::HL8 => encode_hl8(&raster, width, height),
        TextureFormat::L8 => encode_l8(&raster, width, height),
        TextureFormat::A8 => encode_a8(&raster, width, height),
        TextureFormat::LA44 => encode_la44(&raster, width, height),
        TextureFormat::L4 => encode_l4(&raster, width, height),
        TextureFormat::A4 => encode_a4(&raster, width, height),
        TextureFormat::ETC1 => encode_etc1(&raster, width, height, false, compress),
        TextureFormat::ETC1A4 => encode_etc1(&raster, width, height, true, compress),
    };
    proof {
        let model = raster@;
        if format.is_block_compressed() {
            let (blocks, packed) = choose|blocks: Seq<[u8; 64]>, packed: Seq<[u8; 8]>|
                packed_by(compress, model, model.width, model.height, blocks, packed)
                    && output_texture@ == etc1_payload(
                    model,
                    model.width,
                    model.height,
                    *format == TextureFormat::ETC1A4,
                    packed,
                    block_count(model.width, model.height),
                );
            lemma_payload_len(
                model,
                model.width,
                model.height,
                *format == TextureFormat::ETC1A4,
                packed,
                block_count(model.width, model.height),
            );
            let tiles = tiles_across(model.width) * tiles_across(model.height);
            assert(tiles * 4 * 8 == tiles * 8 * 4 && tiles * 4 * 16 == tiles * 8 * 8)
                by (nonlinear_arith);
        }
    }
    Ok(PicaTexture::new(*format, width, height, output_texture))
}

} // verus!
