use vstd::prelude::*;
use crate::pica_texture::raster::channel;
use crate::pica_texture::raster::Raster;
use crate::pica_texture::raster::RasterImage;
use crate::pica_texture::raster::Rgba;
use crate::pica_texture::util::lemma_tile_position;
use crate::pica_texture::util::tile_col;
use crate::pica_texture::util::tile_row;
use crate::pica_texture::util::tiles_across;
use crate::pica_texture::util::swap64;
use crate::pica_texture::util::XT;
use crate::pica_texture::util::YT;

pub mod quality;

verus! {

/// Settings handed to the block compressor with every block.
#[derive(Clone, Copy, Debug, PartialEq, Eq, Structural)]
pub struct Etc1PackParams {
    pub quality: i32,
    pub dithering: i32,
}

/// The settings that the encoder uses: highest quality, no dithering.
pub open spec fn encoder_params() -> Etc1PackParams {
    Etc1PackParams { quality: quality::HIGH, dithering: 0 }
}

/// The pixel that stands in for every position outside the image.
pub open spec fn off_canvas() -> Rgba {
    Rgba { r: 0, g: 0, b: 0, a: 255 }
}

/// Pixel `i`, in row-major order, of the 4x4 sub-block whose top left corner
/// is at (`bx`, `by`): the image's pixel where the position lies inside
/// `width` by `height`, opaque black elsewhere.
pub open spec fn block_texel(img: Raster, width: nat, height: nat, bx: int, by: int, i: int) -> Rgba {
    let x = bx + i % 4;
    let y = by + i / 4;
    if x < width && y < height {
        img.pixel(x, y)
    } else {
        off_canvas()
    }
}

/// The 64 bytes handed to the block compressor for the sub-block at
/// (`bx`, `by`): its 16 pixels in row-major order, four channels each.
pub open spec fn block_rgba(img: Raster, width: nat, height: nat, bx: int, by: int) -> Seq<u8> {
    Seq::new(64, |j: int| channel(block_texel(img, width, height, bx, by, j / 4), j % 4))
}

/// Bit position, in the alpha mask, of the nibble of pixel `i` of a
/// sub-block. With `px = i % 4` and `py = i / 4` the pixel's column and row
/// in the sub-block, it is `(px * 4 + py) * 4`: the mask is column-major.
pub open spec fn alpha_shift(i: int) -> int {
    ((i % 4) * 4 + i / 4) * 4
}

/// The alpha mask of the first `n` pixels of a 64-byte RGBA block: the top
/// four alpha bits of each pixel, at that pixel's bit position.
pub open spec fn alpha_mask_upto(block: Seq<u8>, n: nat) -> u64
    decreases n,
{
    if n == 0 {
        0
    } else {
        alpha_mask_upto(block, (n - 1) as nat) | (((block[4 * (n - 1) + 3] >> 4) as u64)
            << alpha_shift(n - 1))
    }
}

/// The 64-bit alpha mask of a 64-byte RGBA block.
pub open spec fn alpha_mask(block: Seq<u8>) -> u64 {
    alpha_mask_upto(block, 16)
}

/// A 64-bit word as eight bytes, lowest byte first.
pub open spec fn le_bytes64(v: u64) -> Seq<u8> {
    seq![
        (v & 0xFF) as u8,
        ((v >> 8) & 0xFF) as u8,
        ((v >> 16) & 0xFF) as u8,
        ((v >> 24) & 0xFF) as u8,
        ((v >> 32) & 0xFF) as u8,
        ((v >> 40) & 0xFF) as u8,
        ((v >> 48) & 0xFF) as u8,
        ((v >> 56) & 0xFF) as u8,
    ]
}

/// What one sub-block adds to the packed data: for the alpha variant the
/// alpha mask, lowest byte first; then the compressed block with its bytes
/// in reverse order.
pub open spec fn etc1_unit(has_alpha: bool, mask: u64, compressed: Seq<u8>) -> Seq<u8> {
    if has_alpha {
        le_bytes64(mask) + compressed.reverse()
    } else {
        compressed.reverse()
    }
}

/// Number of 4x4 sub-blocks in the packed data: four for every 8x8 tile.
pub open spec fn block_count(width: nat, height: nat) -> nat {
    tiles_across(width) * tiles_across(height) * 4
}

/// Column of the top left pixel of sub-block number `k`. Sub-blocks are
/// numbered tile by tile, and within a tile in the order top left, top
/// right, bottom left, bottom right.
pub open spec fn block_origin_x(width: nat, k: int) -> int {
    tile_col(width, k / 4) * 8 + XT[k % 4]
}

/// Row of the top left pixel of sub-block number `k`.
pub open spec fn block_origin_y(width: nat, k: int) -> int {
    tile_row(width, k / 4) * 8 + YT[k % 4]
}

/// The 64 bytes handed to the block compressor for sub-block number `k`.
pub open spec fn nth_block(img: Raster, width: nat, height: nat, k: int) -> Seq<u8> {
    block_rgba(img, width, height, block_origin_x(width, k), block_origin_y(width, k))
}

/// The packed data of the first `n` sub-blocks, where `packed[k]` is what
/// the block compressor returned for sub-block number `k`.
pub open spec fn etc1_payload(
    img: Raster,
    width: nat,
    height: nat,
    has_alpha: bool,
    packed: Seq<[u8; 8]>,
    n: nat,
) -> Seq<u8>
    decreases n,
{
    if n == 0 {
        Seq::empty()
    } else {
        etc1_payload(img, width, height, has_alpha, packed, (n - 1) as nat) + etc1_unit(
            has_alpha,
            alpha_mask(nth_block(img, width, height, n - 1)),
            packed[n - 1]@,
        )
    }
}

/// `blocks` are the RGBA blocks of all sub-blocks of the image, in order,
/// and `packed[k]` is a block that `compress` can return when it is handed
/// `blocks[k]` and the encoder's settings.
pub open spec fn packed_by<F: Fn(&[u8; 64], Option<Etc1PackParams>) -> [u8; 8]>(
    compress: F,
    img: Raster,
    width: nat,
    height: nat,
    blocks: Seq<[u8; 64]>,
    packed: Seq<[u8; 8]>,
) -> bool {
    &&& blocks.len() == block_count(width, height)
    &&& packed.len() == block_count(width, height)
    &&& forall|k: int|
        0 <= k < block_count(width, height) ==> (#[trigger] blocks[k])@ == nth_block(
            img,
            width,
            height,
            k,
        )
    &&& forall|k: int|
        0 <= k < block_count(width, height) ==> compress.ensures(
            (&blocks[k], Some(encoder_params())),
            #[trigger] packed[k],
        )
}

/// The packed data of the first `n` sub-blocks depends on the first `n`
/// compressed blocks only.
pub proof fn lemma_payload_prefix(
    img: Raster,
    width: nat,
    height: nat,
    has_alpha: bool,
    p1: Seq<[u8; 8]>,
    p2: Seq<[u8; 8]>,
    n: nat,
)
    requires
        n <= p1.len(),
        n <= p2.len(),
        forall|k: int| 0 <= k < n ==> p1[k] == p2[k],
    ensures
        etc1_payload(img, width, height, has_alpha, p1, n) == etc1_payload(
            img,
            width,
            height,
            has_alpha,
            p2,
            n,
        ),
    decreases n,
{
    if n > 0 {
        lemma_payload_prefix(img, width, height, has_alpha, p1, p2, (n - 1) as nat);
    }
}

/// Length of the packed data: 8 bytes for every sub-block, 16 with alpha.
pub proof fn lemma_payload_len(
    img: Raster,
    width: nat,
    height: nat,
    has_alpha: bool,
    packed: Seq<[u8; 8]>,
    n: nat,
)
    ensures
        etc1_payload(img, width, height, has_alpha, packed, n).len() == n * if has_alpha {
            16nat
        } else {
            8nat
        },
    decreases n,
{
    if n > 0 {
        lemma_payload_len(img, width, height, has_alpha, packed, (n - 1) as nat);
        assert(packed[n - 1]@.reverse().len() == 8);
    }
}

/// In the packed data of the first `n` sub-blocks, sub-block number `k`
/// has its unit at position `k` times the length of a unit.
pub proof fn lemma_payload_block(
    img: Raster,
    width: nat,
    height: nat,
    has_alpha: bool,
    packed: Seq<[u8; 8]>,
    n: nat,
    k: int,
)
    requires
        0 <= k < n,
    ensures
        ({
            let unit: int = if has_alpha {
                16
            } else {
                8
            };
            etc1_payload(img, width, height, has_alpha, packed, n).subrange(
                k * unit,
                k * unit + unit,
            ) == etc1_unit(has_alpha, alpha_mask(nth_block(img, width, height, k)), packed[k]@)
        }),
    decreases n,
{
    let unit: int = if has_alpha {
        16
    } else {
        8
    };
    let m = (n - 1) as nat;
    let head = etc1_payload(img, width, height, has_alpha, packed, m);
    let tail = etc1_unit(
        has_alpha,
        alpha_mask(nth_block(img, width, height, m as int)),
        packed[m as int]@,
    );
    let all = etc1_payload(img, width, height, has_alpha, packed, n);
    lemma_payload_len(img, width, height, has_alpha, packed, m);
    assert(packed[m as int]@.reverse().len() == 8);
    assert(all == head + tail);
    if k < m {
        lemma_payload_block(img, width, height, has_alpha, packed, m, k);
        assert(all.subrange(k * unit, k * unit + unit) =~= head.subrange(k * unit, k * unit + unit));
    } else {
        assert(all.subrange(m * unit, m * unit + unit) =~= tail);
    }
}

proof fn lemma_mask_nibbles(
    a0: u8,
    a1: u8,
    a2: u8,
    a3: u8,
    a4: u8,
    a5: u8,
    a6: u8,
    a7: u8,
    a8: u8,
    a9: u8,
    a10: u8,
    a11: u8,
    a12: u8,
    a13: u8,
    a14: u8,
    a15: u8,
)
    by (bit_vector)
    ensures
        ({
            let t0: u64 = ((a0 >> 4) as u64) << 0u64;
            let t1: u64 = ((a1 >> 4) as u64) << 16u64;
            let t2: u64 = ((a2 >> 4) as u64) << 32u64;
            let t3: u64 = ((a3 >> 4) as u64) << 48u64;
            let t4: u64 = ((a4 >> 4) as u64) << 4u64;
            let t5: u64 = ((a5 >> 4) as u64) << 20u64;
            let t6: u64 = ((a6 >> 4) as u64) << 36u64;
            let t7: u64 = ((a7 >> 4) as u64) << 52u64;
            let t8: u64 = ((a8 >> 4) as u64) << 8u64;
            let t9: u64 = ((a9 >> 4) as u64) << 24u64;
            let t10: u64 = ((a10 >> 4) as u64) << 40u64;
            let t11: u64 = ((a11 >> 4) as u64) << 56u64;
            let t12: u64 = ((a12 >> 4) as u64) << 12u64;
            let t13: u64 = ((a13 >> 4) as u64) << 28u64;
            let t14: u64 = ((a14 >> 4) as u64) << 44u64;
            let t15: u64 = ((a15 >> 4) as u64) << 60u64;
            let m: u64 = 0u64 | t0 | t1 | t2 | t3 | t4 | t5 | t6 | t7 | t8 | t9 | t10 | t11 | t12 | t13
                | t14 | t15;
            &&& (m >> 0u64) & 0xF == (a0 >> 4) as u64
            &&& (m >> 16u64) & 0xF == (a1 >> 4) as u64
            &&& (m >> 32u64) & 0xF == (a2 >> 4) as u64
            &&& (m >> 48u64) & 0xF == (a3 >> 4) as u64
            &&& (m >> 4u64) & 0xF == (a4 >> 4) as u64
            &&& (m >> 20u64) & 0xF == (a5 >> 4) as u64
            &&& (m >> 36u64) & 0xF == (a6 >> 4) as u64
            &&& (m >> 52u64) & 0xF == (a7 >> 4) as u64
            &&& (m >> 8u64) & 0xF == (a8 >> 4) as u64
            &&& (m >> 24u64) & 0xF == (a9 >> 4) as u64
            &&& (m >> 40u64) & 0xF == (a10 >> 4) as u64
            &&& (m >> 56u64) & 0xF == (a11 >> 4) as u64
            &&& (m >> 12u64) & 0xF == (a12 >> 4) as u64
            &&& (m >> 28u64) & 0xF == (a13 >> 4) as u64
            &&& (m >> 44u64) & 0xF == (a14 >> 4) as u64
            &&& (m >> 60u64) & 0xF == (a15 >> 4) as u64
        }),
{
}

proof fn lemma_mask_full(m: u64)
    by (bit_vector)
    requires
        (m >> 0u64) & 0xF == 15,
        (m >> 4u64) & 0xF == 15,
        (m >> 8u64) & 0xF == 15,
        (m >> 12u64) & 0xF == 15,
        (m >> 16u64) & 0xF == 15,
        (m >> 20u64) & 0xF == 15,
        (m >> 24u64) & 0xF == 15,
        (m >> 28u64) & 0xF == 15,
        (m >> 32u64) & 0xF == 15,
        (m >> 36u64) & 0xF == 15,
        (m >> 40u64) & 0xF == 15,
        (m >> 44u64) & 0xF == 15,
        (m >> 48u64) & 0xF == 15,
        (m >> 52u64) & 0xF == 15,
        (m >> 56u64) & 0xF == 15,
        (m >> 60u64) & 0xF == 15,
    ensures
        m == 0xFFFF_FFFF_FFFF_FFFFu64,
{
}

/// Every nibble of the alpha mask holds the top four alpha bits of one
/// pixel of the block: pixel `i` has the nibble at bit `alpha_shift(i)`.
pub proof fn lemma_alpha_mask_nibbles(block: Seq<u8>, i: int)
    requires
        0 <= i < 16,
    ensures
        (alpha_mask(block) >> alpha_shift(i)) & 0xF == (block[4 * i + 3] >> 4) as u64,
{
    reveal_with_fuel(alpha_mask_upto, 17);
    lemma_mask_nibbles(
        block[3],
        block[7],
        block[11],
        block[15],
        block[19],
        block[23],
        block[27],
        block[31],
        block[35],
        block[39],
        block[43],
        block[47],
        block[51],
        block[55],
        block[59],
        block[63],
    );
}

/// A block whose pixels all have the top four alpha bits set has the alpha
/// mask with every bit set.
pub proof fn lemma_alpha_mask_opaque(block: Seq<u8>)
    requires
        forall|i: int| 0 <= i < 16 ==> #[trigger] block[4 * i + 3] >= 0xF0,
    ensures
        alpha_mask(block) == 0xFFFF_FFFF_FFFF_FFFFu64,
{
    assert forall|i: int| 0 <= i < 16 implies (alpha_mask(block) >> alpha_shift(i)) & 0xF == 15 by {
        lemma_alpha_mask_nibbles(block, i);
        let a = block[4 * i + 3];
        assert(a >= 0xF0 ==> (a >> 4) as u64 == 15) by (bit_vector);
    }
    assert(
        alpha_shift(0) == 0 && alpha_shift(1) == 16 && alpha_shift(2) == 32 && alpha_shift(3) == 48
        && alpha_shift(4) == 4 && alpha_shift(5) == 20 && alpha_shift(6) == 36 && alpha_shift(7) == 52
        && alpha_shift(8) == 8 && alpha_shift(9) == 24 && alpha_shift(10) == 40 && alpha_shift(11) == 56
        && alpha_shift(12) == 12 && alpha_shift(13) == 28 && alpha_shift(14) == 44 && alpha_shift(15) == 60
    );
    lemma_mask_full(alpha_mask(block));
}

/// Assembles the 64-byte RGBA block of the 4x4 sub-block whose top left
/// corner is at (`bx`, `by`).
pub fn block_pixels(img: &RasterImage, width: u32, height: u32, bx: u32, by: u32) -> (block: [
    u8;
    64
])
    requires
        width <= img@.width,
        height <= img@.height,
    ensures
        block@ == block_rgba(img@, width as nat, height as nat, bx as int, by as int),
{
    let mut block = [0u8;64];
    let ghost want = block_rgba(img@, width as nat, height as nat, bx as int, by as int);
    let mut i: usize = 0;
    while i < 16
        invariant
            i <= 16,
            width <= img@.width,
            height <= img@.height,
            want == block_rgba(img@, width as nat, height as nat, bx as int, by as int),
            forall|j: int| 0 <= j < 4 * i ==> block@[j] == want[j],
        decreases 16 - i,
    {
        let x: u64 = bx as u64 + (i % 4) as u64;
        let y: u64 = by as u64 + (i / 4) as u64;
        let px = if x < width as u64 && y < height as u64 {
            img.get_pixel(x as u32, y as u32)
        } else {
            Rgba { r: 0, g: 0, b: 0, a: 255 }
        };
        assert(px == block_texel(img@, width as nat, height as nat, bx as int, by as int, i as int));
        let offset: usize = i * 4;
        block[offset] = px.r;
        block[offset + 1] = px.g;
        block[offset + 2] = px.b;
        block[offset + 3] = px.a;
        i += 1;
    }
    assert(block@ =~= want);
    block
}

/// Packs the top four alpha bits of the 16 pixels of a block into the
/// 64-bit alpha mask.
pub fn alpha_mask_of(block: &[u8; 64]) -> (mask: u64)
    ensures
        mask == alpha_mask(block@),
{
    let mut mask: u64 = 0;
    let mut i: usize = 0;
    while i < 16
        invariant
            i <= 16,
            mask == alpha_mask_upto(block@, i as nat),
        decreases 16 - i,
    {
        let px: u32 = (i % 4) as u32;
        let py: u32 = (i / 4) as u32;
        let a: u8 = block[i * 4 + 3];
        let shift: u32 = (px * 4 + py) * 4;
        mask |= ((a >> 4) as u64) << shift;
        i += 1;
    }
    mask
}

/// Appends to `out` what one sub-block adds to the packed data.
pub fn push_block(out: &mut Vec<u8>, has_alpha: bool, mask: u64, compressed: [u8; 8])
    ensures
        final(out)@ == old(out)@ + etc1_unit(has_alpha, mask, compressed@),
{
    if has_alpha {
        out.push((mask & 0xFF) as u8);
        out.push(((mask >> 8) & 0xFF) as u8);
        out.push(((mask >> 16) & 0xFF) as u8);
        out.push(((mask >> 24) & 0xFF) as u8);
        out.push(((mask >> 32) & 0xFF) as u8);
        out.push(((mask >> 40) & 0xFF) as u8);
        out.push(((mask >> 48) & 0xFF) as u8);
        out.push(((mask >> 56) & 0xFF) as u8);
    }
    let swapped = swap64(compressed);
    let mut i: usize = 0;
    let ghost before = out@;
    while i < 8
        invariant
            i <= 8,
            out@ == before + swapped@.take(i as int),
        decreases 8 - i,
    {
        out.push(swapped[i]);
        assert(out@ =~= before + swapped@.take(i + 1));
        i += 1;
    }
    assert(out@ =~= old(out)@ + etc1_unit(has_alpha, mask, compressed@));
}

/// The settings that the encoder hands to the block compressor.
pub fn encoder_pack_params() -> (params: Etc1PackParams)
    ensures
        params == encoder_params(),
{
    Etc1PackParams { quality: quality::HIGH, dithering: 0 }
}

/// Encodes the top left `width` by `height` pixels of an image as ETC1, or
/// as ETC1A4 where `has_alpha` is set. Every 8x8 tile, row by row, gives
/// four 4x4 sub-blocks; each is handed to `compress`, and what comes back
/// is stored with its bytes reversed, after the alpha mask where there is
/// one.
pub fn encode_etc1<F: Fn(&[u8; 64], Option<Etc1PackParams>) -> [u8; 8]>(
    img: &RasterImage,
    width: u32,
    height: u32,
    has_alpha: bool,
    compress: F,
) -> (out: Vec<u8>)
    requires
        width <= img@.width,
        height <= img@.height,
        forall|block: &[u8; 64]| compress.requires((block, Some(encoder_params()))),
    ensures
        exists|blocks: Seq<[u8; 64]>, packed: Seq<[u8; 8]>|
            packed_by(compress, img@, width as nat, height as nat, blocks, packed) && out@
                == etc1_payload(
                img@,
                width as nat,
                height as nat,
                has_alpha,
                packed,
                block_count(width as nat, height as nat),
            ),
{
    let tiles_x: u64 = (width as u64 + 7) / 8;
    let tiles_y: u64 = (height as u64 + 7) / 8;
    let ghost w = width as nat;
    let ghost h = height as nat;
    let ghost mut blocks: Seq<[u8; 64]> = Seq::empty();
    let ghost mut packed: Seq<[u8; 8]> = Seq::empty();
    let mut out: Vec<u8> = Vec::new();
    let mut row: u64 = 0;
    while row < tiles_y
        invariant
            row <= tiles_y,
            tiles_x == tiles_across(w),
            tiles_y == tiles_across(h),
            w == width,
            h == height,
            width <= img@.width,
            height <= img@.height,
            forall|block: &[u8; 64]| compress.requires((block, Some(encoder_params()))),
            blocks.len() == row * tiles_x * 4,
            packed.len() == blocks.len(),
            forall|k: int| 0 <= k < blocks.len() ==> (#[trigger] blocks[k])@ == nth_block(img@, w, h, k),
            forall|k: int|
                0 <= k < blocks.len() ==> compress.ensures(
                    (&blocks[k], Some(encoder_params())),
                    #[trigger] packed[k],
                ),
            out@ == etc1_payload(img@, w, h, has_alpha, packed, packed.len()),
        decreases tiles_y - row,
    {
        let mut col: u64 = 0;
        while col < tiles_x
            invariant
                row < tiles_y,
                col <= tiles_x,
                tiles_x == tiles_across(w),
                tiles_y == tiles_across(h),
                w == width,
                h == height,
                width <= img@.width,
                height <= img@.height,
                forall|block: &[u8; 64]| compress.requires((block, Some(encoder_params()))),
                blocks.len() == (row * tiles_x + col) * 4,
                packed.len() == blocks.len(),
                forall|k: int|
                    0 <= k < blocks.len() ==> (#[trigger] blocks[k])@ == nth_block(img@, w, h, k),
                forall|k: int|
                    0 <= k < blocks.len() ==> compress.ensures(
                        (&blocks[k], Some(encoder_params())),
                        #[trigger] packed[k],
                    ),
                out@ == etc1_payload(img@, w, h, has_alpha, packed, packed.len()),
            decreases tiles_x - col,
        {
            let mut t: usize = 0;
            while t < 4
                invariant
                    row < tiles_y,
                    col < tiles_x,
                    t <= 4,
                    tiles_x == tiles_across(w),
                    tiles_y == tiles_across(h),
                    w == width,
                    h == height,
                    width <= img@.width,
                    height <= img@.height,
                    forall|block: &[u8; 64]| compress.requires((block, Some(encoder_params()))),
                    blocks.len() == (row * tiles_x + col) * 4 + t,
                    packed.len() == blocks.len(),
                    forall|k: int|
                        0 <= k < blocks.len() ==> (#[trigger] blocks[k])@ == nth_block(
                            img@,
                            w,
                            h,
                            k,
                        ),
                    forall|k: int|
                        0 <= k < blocks.len() ==> compress.ensures(
                            (&blocks[k], Some(encoder_params())),
                            #[trigger] packed[k],
                        ),
                    out@ == etc1_payload(img@, w, h, has_alpha, packed, packed.len()),
                decreases 4 - t,
            {
                let ghost k = blocks.len() as int;
                proof {
                    lemma_tile_position(w, row as int, col as int);
                    assert(k / 4 == row * tiles_x + col && k % 4 == t);
                }
                let bx: u32 = (col * 8) as u32 + XT[t];
                let by: u32 = (row * 8) as u32 + YT[t];
                let block = block_pixels(img, width, height, bx, by);
                let mask: u64 = if has_alpha {
                    alpha_mask_of(&block)
                } else {
                    0
                };
                let compressed = compress(&block, Some(encoder_pack_params()));
                push_block(&mut out, has_alpha, mask, compressed);
                proof {
                    let ghost before = packed;
                    blocks = blocks.push(block);
                    packed = packed.push(compressed);
                    lemma_payload_prefix(img@, w, h, has_alpha, before, packed, k as nat);
                    assert(block@ == nth_block(img@, w, h, k));
                }
                t += 1;
            }
            col += 1;
        }
        proof {
            assert((row * tiles_x + tiles_x) * 4 == (row + 1) * tiles_x * 4) by (nonlinear_arith);
        }
        row += 1;
    }
    proof {
        assert(row * tiles_x * 4 == tiles_x * tiles_y * 4) by (nonlinear_arith)
            requires
                row == tiles_y,
        ;
        assert(packed_by(compress, img@, w, h, blocks, packed));
    }
    out
}

/// Remembers whether the block compressor has been set up, so that its
/// one-time set-up runs once. The caller keeps one guard for the process,
/// behind a lock where several threads compress.
pub struct CompressorGuard {
    initialized: bool,
}

impl CompressorGuard {
    /// Whether the set-up was asked for already.
    pub closed spec fn is_initialized(&self) -> bool {
        self.initialized
    }

    /// A guard for a compressor that has not been set up.
    pub fn new() -> (guard: Self)
        ensures
            !guard.is_initialized(),
    {
        CompressorGuard { initialized: false }
    }

    /// Says whether the caller has to run the compressor's set-up now:
    /// `true` on the first call, `false` on every later one.
    pub fn ensure_initialized(&mut self) -> (run_init: bool)
        ensures
            run_init == !old(self).is_initialized(),
            final(self).is_initialized(),
    {
        let run_init = !self.initialized;
        self.initialized = true;
        run_init
    }
}

} // verus!
