use vstd::prelude::*;
use vstd::arithmetic::div_mod::lemma_fundamental_div_mod;
use vstd::arithmetic::div_mod::lemma_mod_bound;
use image::DynamicImage;
use crate::pica_texture::pixel::decode_pixel;
use crate::pica_texture::pixel::decoded_pixel;
use crate::pica_texture::pixel::packs_nibbles;
use crate::pica_texture::pixel::slot_in_stream;
use crate::pica_texture::pixel::slot_units;
use crate::pica_texture::pixel::unit_len;
use crate::pica_texture::raster::channel;
use crate::pica_texture::raster::image_raster;
use crate::pica_texture::raster::pixel_at;
use crate::pica_texture::raster::Raster;
use crate::pica_texture::raster::RasterImage;
use crate::pica_texture::raster::Rgba;
use crate::pica_texture::types::CodecError;
use crate::pica_texture::types::TextureFormat;
use crate::pica_texture::util::flip_vertical;
use crate::pica_texture::util::lemma_row_byte_bounds;
use crate::pica_texture::util::lemma_row_byte_unique;
use crate::pica_texture::util::lemma_slot_index_bound;
use crate::pica_texture::util::lemma_slot_index_inverse;
use crate::pica_texture::util::lemma_slot_position;
use crate::pica_texture::util::lemma_tile_position;
use crate::pica_texture::util::row_byte;
use crate::pica_texture::util::slot_col;
use crate::pica_texture::util::slot_count;
use crate::pica_texture::util::slot_index;
use crate::pica_texture::util::slot_row;
use crate::pica_texture::util::swizzle;
use crate::pica_texture::util::tiles_across;

verus! {

/// The pixel that packed data in a pixel format holds for column `x` of row
/// `y` of an image `width` pixels wide.
pub open spec fn decoded_at(format: TextureFormat, data: Seq<u8>, width: nat, x: int, y: int) -> Rgba {
    decoded_pixel(format, slot_units(format, data, slot_index(width, x, y)))
}

/// Byte `i` of the raster that packed data decodes to.
pub open spec fn decoded_byte(format: TextureFormat, data: Seq<u8>, width: nat, i: int) -> u8 {
    let p = i / 4;
    channel(decoded_at(format, data, width, p % (width as int), p / (width as int)), i % 4)
}

/// The raster that packed data in a pixel format decodes to: top row
/// first, every pixel unpacked from its slot.
pub open spec fn decoded(format: TextureFormat, data: Seq<u8>, width: nat, height: nat) -> Raster {
    Raster {
        width,
        height,
        data: Seq::new(4 * width * height, |i: int| decoded_byte(format, data, width, i)),
    }
}

/// Whether a buffer of `len` bytes is the packed data of a `width` by
/// `height` image in `format`, made of whole tiles, whose raster fits in
/// memory.
pub open spec fn decodable(format: TextureFormat, width: nat, height: nat, len: nat) -> bool {
    &&& width % 8 == 0
    &&& height % 8 == 0
    &&& len == format.packed_len(width, height)
    &&& 4 * width * height <= usize::MAX
}

/// Index, in a raster that is stored bottom row first, of the pixel in
/// column `x` of row `y`.
spec fn mirrored_index(width: nat, height: nat, x: int, y: int) -> int {
    row_byte(width as int, height - 1 - y, x)
}

proof fn lemma_slot_in_stream(format: TextureFormat, width: nat, height: nat, k: int)
    requires
        !format.is_block_compressed(),
        width % 8 == 0,
        height % 8 == 0,
        0 <= k < slot_count(width, height),
    ensures
        slot_in_stream(format, format.packed_len(width, height), k),
        slot_count(width, height) == width * height,
{
    let tx = tiles_across(width);
    let ty = tiles_across(height);
    assert(width == 8 * tx && height == 8 * ty);
    assert(tx * ty * 64 == width * height) by (nonlinear_arith)
        requires
            width == 8 * tx,
            height == 8 * ty,
    ;
    let n = width * height;
    if !packs_nibbles(format) {
        let u = unit_len(format);
        assert(k * u + u <= n * u) by (nonlinear_arith)
            requires
                0 <= k < n,
                0 <= u,
        ;
    }
}

fn write_pixel(out: &mut Vec<u8>, p: usize, px: Rgba)
    requires
        4 * p + 4 <= old(out)@.len(),
    ensures
        final(out)@.len() == old(out)@.len(),
        pixel_at(final(out)@, p as int) == px,
        forall|q: int|
            0 <= q && 4 * q + 4 <= old(out)@.len() && q != p ==> pixel_at(final(out)@, q)
                == #[trigger] pixel_at(old(out)@, q),
{
    assert(out.len() <= usize::MAX);
    let i: usize = 4 * p;
    out[i] = px.r;
    out[i + 1] = px.g;
    out[i + 2] = px.b;
    out[i + 3] = px.a;
}

/// Unpacks every slot of the packed data into a raster that is stored
/// bottom row first.
fn untile(img: &[u8], width: u32, height: u32, format: &TextureFormat) -> (out: Vec<u8>)
    requires
        !format.is_block_compressed(),
        decodable(*format, width as nat, height as nat, img@.len()),
    ensures
        out@.len() == 4 * width * height,
        forall|x: int, y: int|
            0 <= x < width && 0 <= y < height ==> pixel_at(
                out@,
                mirrored_index(width as nat, height as nat, x, y),
            ) == #[trigger] decoded_at(*format, img@, width as nat, x, y),
{
    let ghost w = width as nat;
    let ghost h = height as nat;
    assert(4 * (width as int) * (height as int) <= 4 * 0xffff_ffff * 0xffff_ffff)
        by (nonlinear_arith)
        requires
            0 <= width <= 0xffff_ffff,
            0 <= height <= 0xffff_ffff,
    ;
    let out_len: u128 = 4u128 * (width as u128) * (height as u128);
    let mut out: Vec<u8> = vec![0u8; out_len as usize];
    let tiles_x: usize = (width / 8) as usize;
    let tiles_y: usize = (height / 8) as usize;
    proof {
        assert(w * h * 4 == 4 * w * h) by (nonlinear_arith);
        assert(tiles_x * tiles_y * 64 == w * h) by (nonlinear_arith)
            requires
                w == 8 * tiles_x,
                h == 8 * tiles_y,
        ;
    }
    let mut k: usize = 0;
    let mut row: usize = 0;
    while row < tiles_y
        invariant
            row <= tiles_y,
            tiles_x == tiles_across(w),
            tiles_y == tiles_across(h),
            w == width,
            h == height,
            !format.is_block_compressed(),
            decodable(*format, w, h, img@.len()),
            slot_count(w, h) == w * h,
            4 * w * h <= usize::MAX,
            out@.len() == 4 * w * h,
            k == row * tiles_x * 64,
            forall|x: int, y: int|
                0 <= x < w && 0 <= y < h && slot_index(w, x, y) < k ==> pixel_at(
                    out@,
                    mirrored_index(w, h, x, y),
                ) == #[trigger] decoded_at(*format, img@, w, x, y),
        decreases tiles_y - row,
    {
        let mut col: usize = 0;
        while col < tiles_x
            invariant
                row < tiles_y,
                col <= tiles_x,
                tiles_x == tiles_across(w),
                tiles_y == tiles_across(h),
                w == width,
                h == height,
                !format.is_block_compressed(),
                decodable(*format, w, h, img@.len()),
                slot_count(w, h) == w * h,
                4 * w * h <= usize::MAX,
                out@.len() == 4 * w * h,
                k == (row * tiles_x + col) * 64,
                forall|x: int, y: int|
                    0 <= x < w && 0 <= y < h && slot_index(w, x, y) < k ==> pixel_at(
                        out@,
                        mirrored_index(w, h, x, y),
                    ) == #[trigger] decoded_at(*format, img@, w, x, y),
            decreases tiles_x - col,
        {
            let mut slot: usize = 0;
            while slot < 64
                invariant
                    row < tiles_y,
                    col < tiles_x,
                    slot <= 64,
                    tiles_x == tiles_across(w),
                    tiles_y == tiles_across(h),
                    w == width,
                    h == height,
                    !format.is_block_compressed(),
                    decodable(*format, w, h, img@.len()),
                    slot_count(w, h) == w * h,
                    4 * w * h <= usize::MAX,
                    out@.len() == 4 * w * h,
                    k == (row * tiles_x + col) * 64 + slot,
                    forall|x: int, y: int|
                        0 <= x < w && 0 <= y < h && slot_index(w, x, y) < k ==> pixel_at(
                            out@,
                            mirrored_index(w, h, x, y),
                        ) == #[trigger] decoded_at(*format, img@, w, x, y),
                decreases 64 - slot,
            {
                proof {
                    lemma_tile_position(w, row as int, col as int);
                    lemma_row_byte_bounds(tiles_x as int, tiles_y as int, row as int, col as int);
                    assert(tiles_y * tiles_x * 64 == tiles_x * tiles_y * 64) by (nonlinear_arith);
                    assert(tiles_x * tiles_y * 64 == slot_count(w, h));
                    assert((tiles_y * tiles_x) * 64 == tiles_y * tiles_x * 64);
                    assert(k < slot_count(w, h));
                    assert(k / 64 == row * tiles_x + col && k % 64 == slot);
                    lemma_slot_in_stream(*format, w, h, k as int);
                    lemma_slot_position(w, h, k as int);
                }
                let (x, y) = swizzle(slot);
                let px = decode_pixel(format, img, k);
                let img_x: usize = col * 8 + x as usize;
                let img_y: usize = row * 8 + y as usize;
                proof {
                    assert(img_x == slot_col(w, k as int));
                    assert(img_y == slot_row(w, k as int));
                    lemma_row_byte_bounds(w as int, h as int, h - 1 - img_y, img_x as int);
                    assert(h * w == w * h && 4 * w * h == 4 * (w * h)) by (nonlinear_arith);
                    assert(0 <= (h - 1 - img_y) * w) by (nonlinear_arith)
                        requires
                            0 <= h - 1 - img_y,
                            0 <= w,
                    ;
                }
                let flipped_y: usize = height as usize - 1 - img_y;
                let p: usize = img_x + flipped_y * width as usize;
                let ghost before = out@;
                write_pixel(&mut out, p, px);
                proof {
                    assert(p == mirrored_index(w, h, img_x as int, img_y as int));
                    assert(px == decoded_at(*format, img@, w, img_x as int, img_y as int));
                    assert forall|x: int, y: int|
                        0 <= x < w && 0 <= y < h && slot_index(w, x, y) < k + 1 implies pixel_at(
                        out@,
                        mirrored_index(w, h, x, y),
                    ) == #[trigger] decoded_at(*format, img@, w, x, y) by {
                        lemma_slot_index_inverse(w, x, y);
                        if slot_index(w, x, y) == k {
                            assert(x == img_x && y == img_y);
                        } else {
                            if mirrored_index(w, h, x, y) == p {
                                lemma_row_byte_unique(
                                    w as int,
                                    h - 1 - y,
                                    x,
                                    h - 1 - img_y,
                                    img_x as int,
                                );
                            }
                            lemma_row_byte_bounds(w as int, h as int, h - 1 - y, x);
                            assert(pixel_at(out@, mirrored_index(w, h, x, y)) == pixel_at(
                                before,
                                mirrored_index(w, h, x, y),
                            ));
                        }
                    }
                }
                k += 1;
                slot += 1;
            }
            col += 1;
        }
        proof {
            assert((row * tiles_x + tiles_x) * 64 == (row + 1) * tiles_x * 64) by (nonlinear_arith);
        }
        row += 1;
    }
    proof {
        assert(row * tiles_x * 64 == tiles_x * tiles_y * 64) by (nonlinear_arith)
            requires
                row == tiles_y,
        ;
        assert forall|x: int, y: int| 0 <= x < w && 0 <= y < h implies pixel_at(
            out@,
            mirrored_index(w, h, x, y),
        ) == #[trigger] decoded_at(*format, img@, w, x, y) by {
            lemma_slot_index_bound(w, h, x, y);
        }
    }
    out
}

/// Decodes packed data in a pixel format into a raster image.
///
/// The data is walked tile by tile; every pixel is unpacked from its slot
/// and written with its row counted from the bottom, and the assembled
/// raster is then flipped upside down, so that the result has its top row
/// first.
///
/// Block formats are not decoded. The dimensions have to be multiples of 8
/// and the buffer has to have exactly the packed length of the format.
pub fn decode_raster(img: &[u8], width: u32, height: u32, format: &TextureFormat) -> (result: Result<
    RasterImage,
    CodecError,
>)
    ensures
        match result {
            Ok(raster) => !format.is_block_compressed() && decodable(
                *format,
                width as nat,
                height as nat,
                img@.len(),
            ) && raster@ == decoded(*format, img@, width as nat, height as nat),
            Err(CodecError::UnsupportedFormat) => format.is_block_compressed(),
            Err(CodecError::SizeMismatch) => !format.is_block_compressed() && !decodable(
                *format,
                width as nat,
                height as nat,
                img@.len(),
            ),
        },
{
    if format.is_block_compressed() {
        return Err(CodecError::UnsupportedFormat);
    }
    if width % 8 != 0 || height % 8 != 0 {
        return Err(CodecError::SizeMismatch);
    }
    match format.packed_size(width, height) {
        None => {
            assert(img.len() <= usize::MAX);
            return Err(CodecError::SizeMismatch);
        },
        Some(n) => {
            if img.len() != n {
                return Err(CodecError::SizeMismatch);
            }
        },
    }
    assert(4 * (width as int) * (height as int) <= 4 * 0xffff_ffff * 0xffff_ffff)
        by (nonlinear_arith)
        requires
            0 <= width <= 0xffff_ffff,
            0 <= height <= 0xffff_ffff,
    ;
    let out_len: u128 = 4u128 * (width as u128) * (height as u128);
    if out_len > usize::MAX as u128 {
        return Err(CodecError::SizeMismatch);
    }
    let ghost w = width as nat;
    let ghost h = height as nat;
    let mut decoded_texture_data = untile(img, width, height, format);
    let ghost mirrored = decoded_texture_data@;
    flip_vertical(decoded_texture_data.as_mut_slice(), width, height);
    proof {
        let flat = decoded_texture_data@;
        let want = decoded(*format, img@, w, h).data;
        assert(flat.len() == want.len());
        assert forall|i: int| 0 <= i < flat.len() implies flat[i] == want[i] by {
            let p = i / 4;
            let c = i % 4;
            assert(p < w * h) by (nonlinear_arith)
                requires
                    p * 4 + c == i,
                    0 <= c,
                    i < 4 * w * h,
            ;
            assert(w > 0) by (nonlinear_arith)
                requires
                    0 <= p < w * h,
            ;
            lemma_fundamental_div_mod(p, w as int);
            lemma_mod_bound(p, w as int);
            let x = p % (w as int);
            let y = p / (w as int);
            assert(0 <= y < h) by (nonlinear_arith)
                requires
                    p == w * y + x,
                    0 <= x < w,
                    0 <= p < w * h,
            ;
            assert(i == row_byte(4 * width, y, 4 * x + c)) by (nonlinear_arith)
                requires
                    i == 4 * p + c,
                    p == w * y + x,
                    w == width,
            ;
            let q = mirrored_index(w, h, x, y);
            assert(row_byte(4 * width, height - 1 - y, 4 * x + c) == 4 * q + c) by (nonlinear_arith)
                requires
                    q == (h - 1 - y) * w + x,
                    w == width,
                    h == height,
            ;
            assert(pixel_at(mirrored, q) == decoded_at(*format, img@, w, x, y));
            assert(flat[i] == mirrored[4 * q + c]);
        }
        assert(flat =~= want);
    }
    let raster = RasterImage::from_raw(width, height, decoded_texture_data);
    match raster {
        Some(r) => Ok(r),
        None => Err(CodecError::SizeMismatch),
    }
}

/// Decodes packed data in a pixel format into an image of the `image`
/// crate: `decode_raster`, with the raster handed over as RGBA8.
pub fn decode_texture(img: &[u8], width: u32, height: u32, format: &TextureFormat) -> (result:
    Result<DynamicImage, CodecError>)
    ensures
        match result {
            Ok(image) => !format.is_block_compressed() && decodable(
                *format,
                width as nat,
                height as nat,
                img@.len(),
            ) && image_raster(image) == decoded(*format, img@, width as nat, height as nat),
            Err(CodecError::UnsupportedFormat) => format.is_block_compressed(),
            Err(CodecError::SizeMismatch) => !format.is_block_compressed() && !decodable(
                *format,
                width as nat,
                height as nat,
                img@.len(),
            ),
        },
{
    match decode_raster(img, width, height, format) {
        Ok(raster) => match raster.into_dynamic() {
            Some(image) => Ok(image),
            None => Err(CodecError::SizeMismatch),
        },
        Err(e) => Err(e),
    }
}

} // verus!
