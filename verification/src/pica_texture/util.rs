use vstd::prelude::*;
use vstd::arithmetic::div_mod::lemma_fundamental_div_mod;
use vstd::arithmetic::div_mod::lemma_fundamental_div_mod_converse;
use vstd::arithmetic::div_mod::lemma_mod_bound;

verus! {

/// Tile-local offset `y * 8 + x` of the pixel stored in each of the 64 slots
/// of an 8x8 tile, in the order in which the hardware scans the tile.
pub const SWIZZLE_LUT: [u32; 64] = [
    0,  1,  8,  9,  2,  3,  10, 11,
    16, 17, 24, 25, 18, 19, 26, 27,
    4,  5,  12, 13,  6,  7, 14, 15,
    20, 21, 28, 29, 22, 23, 30, 31,
    32, 33, 40, 41, 34, 35, 42, 43,
    48, 49, 56, 57, 50, 51, 58, 59,
    36, 37, 44, 45, 38, 39, 46, 47,
    52, 53, 60, 61, 54, 55, 62, 63
];

/// The slot that stores the pixel at tile-local offset `y * 8 + x`.
pub const SLOT_LUT: [u32; 64] = [
    0,  1,  4,  5,  16, 17, 20, 21,
    2,  3,  6,  7,  18, 19, 22, 23,
    8,  9,  12, 13, 24, 25, 28, 29,
    10, 11, 14, 15, 26, 27, 30, 31,
    32, 33, 36, 37, 48, 49, 52, 53,
    34, 35, 38, 39, 50, 51, 54, 55,
    40, 41, 44, 45, 56, 57, 60, 61,
    42, 43, 46, 47, 58, 59, 62, 63
];

/// Horizontal origin of each of the four 4x4 sub-blocks of a tile.
pub const XT: [u32; 4] = [0, 4, 0, 4];

/// Vertical origin of each of the four 4x4 sub-blocks of a tile.
pub const YT: [u32; 4] = [0, 0, 4, 4];

/// Number of 8x8 tiles that cover `extent` pixels.
pub open spec fn tiles_across(extent: nat) -> nat {
    (extent + 7) / 8
}

/// Column, counted in tiles, of tile number `tile` of an image `width`
/// pixels wide. Tiles are numbered row by row.
pub open spec fn tile_col(width: nat, tile: int) -> int {
    tile % (tiles_across(width) as int)
}

/// Row, counted in tiles, of tile number `tile` of an image `width` pixels
/// wide.
pub open spec fn tile_row(width: nat, tile: int) -> int {
    tile / (tiles_across(width) as int)
}

/// The tile in column `col` of tile row `row` has the number
/// `row * tiles_across(width) + col`.
pub proof fn lemma_tile_position(width: nat, row: int, col: int)
    requires
        0 <= col < tiles_across(width),
        0 <= row,
    ensures
        tile_col(width, row * tiles_across(width) + col) == col,
        tile_row(width, row * tiles_across(width) + col) == row,
        0 <= row * tiles_across(width),
{
    let d = tiles_across(width) as int;
    lemma_fundamental_div_mod_converse(row * d + col, d, row, col);
    assert(0 <= row * d) by (nonlinear_arith)
        requires
            0 <= row,
            0 <= d,
    ;
}

/// Tile-local column of the pixel in slot `slot`.
pub open spec fn slot_x(slot: int) -> int {
    SWIZZLE_LUT[slot] as int % 8
}

/// Tile-local row of the pixel in slot `slot`.
pub open spec fn slot_y(slot: int) -> int {
    SWIZZLE_LUT[slot] as int / 8
}

/// The slot of the pixel in tile-local column `x` and row `y`.
pub open spec fn slot_of(x: int, y: int) -> int {
    SLOT_LUT[y * 8 + x] as int
}

/// Tile-local coordinates of the pixel in slot `slot` of an 8x8 tile.
pub fn swizzle(slot: usize) -> (xy: (u32, u32))
    requires
        slot < 64,
    ensures
        xy.0 == slot_x(slot as int),
        xy.1 == slot_y(slot as int),
        xy.0 < 8,
        xy.1 < 8,
{
    let px: u32 = SWIZZLE_LUT[slot];
    assert(px < 64);
    assert(px & 7 == px % 8 && (px >> 3) & 7 == px / 8) by (bit_vector)
        requires
            px < 64,
    ;
    (px & 7, (px >> 3) & 7)
}

/// Number of pixel slots in the tiles that cover a `width` by `height`
/// image: 64 for every tile.
pub open spec fn slot_count(width: nat, height: nat) -> nat {
    tiles_across(width) * tiles_across(height) * 64
}

/// Image column of the pixel in slot number `k`. Slots are numbered tile by
/// tile, and within a tile in the order of the swizzle table.
pub open spec fn slot_col(width: nat, k: int) -> int {
    tile_col(width, k / 64) * 8 + slot_x(k % 64)
}

/// Image row of the pixel in slot number `k`.
pub open spec fn slot_row(width: nat, k: int) -> int {
    tile_row(width, k / 64) * 8 + slot_y(k % 64)
}

/// Whether the pixel of slot number `k` lies inside `width` by `height`.
pub open spec fn slot_visible(width: nat, height: nat, k: int) -> bool {
    slot_col(width, k) < width && slot_row(width, k) < height
}

/// The number of the slot that holds the pixel in column `x` of row `y`.
pub open spec fn slot_index(width: nat, x: int, y: int) -> int {
    ((y / 8) * tiles_across(width) + x / 8) * 64 + slot_of(x % 8, y % 8)
}

/// The swizzle table is a bijection between the 64 slots and the 64
/// coordinates of a tile: every slot holds a coordinate inside the tile,
/// and `slot_of` is its inverse in both directions.
pub proof fn lemma_swizzle_bijection()
    ensures
        forall|slot: int|
            #![trigger slot_x(slot)]
            #![trigger slot_y(slot)]
            0 <= slot < 64 ==> 0 <= slot_x(slot) < 8 && 0 <= slot_y(slot) < 8 && slot_of(
                slot_x(slot),
                slot_y(slot),
            ) == slot,
        forall|x: int, y: int|
            0 <= x < 8 && 0 <= y < 8 ==> 0 <= #[trigger] slot_of(x, y) < 64 && slot_x(slot_of(x, y))
                == x && slot_y(slot_of(x, y)) == y,
{
    assert forall|slot: int| 0 <= slot < 64 implies 0 <= slot_x(slot) < 8 && 0 <= slot_y(slot) < 8
        && slot_of(slot_x(slot), slot_y(slot)) == slot by {
        let px = SWIZZLE_LUT[slot] as int;
        assert(0 <= px < 64 && SLOT_LUT[px] == slot);
        assert(px / 8 * 8 + px % 8 == px);
    }
    assert forall|x: int, y: int| 0 <= x < 8 && 0 <= y < 8 implies 0 <= slot_of(x, y) < 64
        && slot_x(slot_of(x, y)) == x && slot_y(slot_of(x, y)) == y by {
        let px = y * 8 + x;
        assert(0 <= px < 64);
        assert(0 <= SLOT_LUT[px] < 64 && SWIZZLE_LUT[SLOT_LUT[px] as int] == px);
    }
}

/// The slot that `slot_index` gives for a pixel holds that pixel.
pub proof fn lemma_slot_index_inverse(width: nat, x: int, y: int)
    requires
        0 <= x < width,
        0 <= y,
    ensures
        0 <= slot_index(width, x, y),
        slot_col(width, slot_index(width, x, y)) == x,
        slot_row(width, slot_index(width, x, y)) == y,
{
    lemma_swizzle_bijection();
    lemma_tile_position(width, y / 8, x / 8);
    let tile = (y / 8) * tiles_across(width) + x / 8;
    let s = slot_of(x % 8, y % 8);
    assert(0 <= s < 64);
    let k = slot_index(width, x, y);
    assert(k == tile * 64 + s);
    assert(k / 64 == tile && k % 64 == s);
}

/// The slot of a pixel inside the image is one of the slots of the tiles
/// that cover the image.
pub proof fn lemma_slot_index_bound(width: nat, height: nat, x: int, y: int)
    requires
        0 <= x < width,
        0 <= y < height,
    ensures
        0 <= slot_index(width, x, y) < slot_count(width, height),
{
    lemma_swizzle_bijection();
    let tiles = tiles_across(width) as int;
    lemma_row_byte_bounds(tiles, tiles_across(height) as int, y / 8, x / 8);
    let s = slot_of(x % 8, y % 8);
    assert(0 <= s < 64);
    assert(tiles_across(height) * tiles == tiles_across(width) * tiles_across(height))
        by (nonlinear_arith)
        requires
            tiles == tiles_across(width),
    ;
}

/// Every slot is the slot that `slot_index` gives for the position of its
/// pixel, and that position lies inside the tiles that cover the image.
pub proof fn lemma_slot_position(width: nat, height: nat, k: int)
    requires
        0 <= k < slot_count(width, height),
    ensures
        slot_index(width, slot_col(width, k), slot_row(width, k)) == k,
        0 <= slot_col(width, k) < 8 * tiles_across(width),
        0 <= slot_row(width, k) < 8 * tiles_across(height),
{
    lemma_swizzle_bijection();
    let tiles = tiles_across(width) as int;
    let tile = k / 64;
    let s = k % 64;
    assert(tiles > 0) by (nonlinear_arith)
        requires
            0 <= k < tiles * tiles_across(height) * 64,
            0 <= tiles,
    ;
    lemma_fundamental_div_mod(tile, tiles);
    lemma_mod_bound(tile, tiles);
    let col = tile % tiles;
    let row = tile / tiles;
    assert(0 <= slot_x(s) < 8 && 0 <= slot_y(s) < 8);
    assert(tile == tiles * row + col);
    assert(tiles * row == row * tiles) by (nonlinear_arith);
    assert(0 <= row) by (nonlinear_arith)
        requires
            tile == tiles * row + col,
            0 <= col < tiles,
            0 <= tile,
    ;
    assert(row < tiles_across(height)) by (nonlinear_arith)
        requires
            tile == tiles * row + col,
            0 <= col < tiles,
            tile < tiles * tiles_across(height),
    ;
    let x = slot_col(width, k);
    let y = slot_row(width, k);
    assert(x == col * 8 + slot_x(s));
    assert(y == row * 8 + slot_y(s));
    assert(x / 8 == col && x % 8 == slot_x(s));
    assert(y / 8 == row && y % 8 == slot_y(s));
}

/// Index of byte `offset` of row `row` in a buffer whose rows take
/// `row_bytes` bytes each.
pub open spec fn row_byte(row_bytes: int, row: int, offset: int) -> int {
    row * row_bytes + offset
}

/// Two positions inside rows of a buffer have the same index only if they
/// are the same position.
pub proof fn lemma_row_byte_unique(row_bytes: int, r1: int, i1: int, r2: int, i2: int)
    requires
        0 <= i1 < row_bytes,
        0 <= i2 < row_bytes,
        row_byte(row_bytes, r1, i1) == row_byte(row_bytes, r2, i2),
    ensures
        r1 == r2,
        i1 == i2,
{
    if r1 < r2 {
        assert((r1 + 1) * row_bytes <= r2 * row_bytes) by (nonlinear_arith)
            requires
                r1 + 1 <= r2,
                0 <= row_bytes,
        ;
        assert((r1 + 1) * row_bytes == r1 * row_bytes + row_bytes) by (nonlinear_arith);
    } else if r2 < r1 {
        assert((r2 + 1) * row_bytes <= r1 * row_bytes) by (nonlinear_arith)
            requires
                r2 + 1 <= r1,
                0 <= row_bytes,
        ;
        assert((r2 + 1) * row_bytes == r2 * row_bytes + row_bytes) by (nonlinear_arith);
    }
}

/// A position inside a row of a buffer of `rows` rows lies inside the buffer.
pub proof fn lemma_row_byte_bounds(row_bytes: int, rows: int, row: int, offset: int)
    requires
        0 <= offset < row_bytes,
        0 <= row < rows,
    ensures
        0 <= row_byte(row_bytes, row, offset) < rows * row_bytes,
{
    assert(row * row_bytes + row_bytes <= rows * row_bytes) by (nonlinear_arith)
        requires
            row + 1 <= rows,
            0 <= row_bytes,
    ;
    assert(0 <= row * row_bytes) by (nonlinear_arith)
        requires
            0 <= row,
            0 <= row_bytes,
    ;
}

/// Flips a buffer of raw RGBA data upside down: row `y` of the result is row
/// `height - 1 - y` of the buffer as it was.
pub fn flip_vertical(data: &mut [u8], width: u32, height: u32)
    requires
        old(data)@.len() == 4 * width * height,
    ensures
        final(data)@.len() == old(data)@.len(),
        forall|y: int, i: int|
            0 <= y < height && 0 <= i < 4 * width ==> final(data)@[#[trigger] row_byte(
                4 * width,
                y,
                i,
            )] == old(data)@[row_byte(4 * width, height - 1 - y, i)],
{
    if height == 0 {
        return ;
    }
    let len = data.len();
    assert(4 * width <= 4 * width * height) by (nonlinear_arith)
        requires
            height >= 1,
            width >= 0,
    ;
    let row_bytes: usize = width as usize * 4;
    let rows: usize = height as usize;
    let ghost orig = data@;
    let ghost rb = row_bytes as int;
    assert(rows * rb == len) by (nonlinear_arith)
        requires
            rows == height,
            rb == 4 * width,
            len == 4 * width * height,
    ;
    let half: usize = rows / 2;
    let mut y: usize = 0;
    while y < half
        invariant
            y <= half,
            half == rows / 2,
            rb == row_bytes,
            rows * rb == len,
            data@.len() == len,
            orig.len() == len,
            forall|r: int, i: int|
                0 <= r < y && 0 <= i < rb ==> data@[#[trigger] row_byte(rb, r, i)] == orig[row_byte(
                    rb,
                    rows - 1 - r,
                    i,
                )],
            forall|r: int, i: int|
                rows - y <= r < rows && 0 <= i < rb ==> data@[#[trigger] row_byte(rb, r, i)]
                    == orig[row_byte(rb, rows - 1 - r, i)],
            forall|r: int, i: int|
                y <= r < rows - y && 0 <= i < rb ==> data@[#[trigger] row_byte(rb, r, i)]
                    == orig[row_byte(rb, r, i)],
        decreases half - y,
    {
        let bot_row: usize = rows - 1 - y;
        assert(0 <= y * rb <= rows * rb && 0 <= bot_row * rb <= rows * rb) by (nonlinear_arith)
            requires
                0 <= y <= rows,
                0 <= bot_row <= rows,
                0 <= rb,
        ;
        let top_start: usize = y * row_bytes;
        let bot_start: usize = bot_row * row_bytes;
        let mut i: usize = 0;
        while i < row_bytes
            invariant
                i <= row_bytes,
                y < half,
                half == rows / 2,
                bot_row == rows - 1 - y,
                top_start == y * row_bytes,
                bot_start == bot_row * row_bytes,
                rb == row_bytes,
                rows * rb == len,
                data@.len() == len,
                orig.len() == len,
                forall|r: int, j: int|
                    0 <= r < y && 0 <= j < rb ==> data@[#[trigger] row_byte(rb, r, j)]
                        == orig[row_byte(rb, rows - 1 - r, j)],
                forall|r: int, j: int|
                    rows - y <= r < rows && 0 <= j < rb ==> data@[#[trigger] row_byte(rb, r, j)]
                        == orig[row_byte(rb, rows - 1 - r, j)],
                forall|r: int, j: int|
                    y < r < rows - 1 - y && 0 <= j < rb ==> data@[#[trigger] row_byte(rb, r, j)]
                        == orig[row_byte(rb, r, j)],
                forall|j: int|
                    0 <= j < i ==> data@[#[trigger] row_byte(rb, y as int, j)] == orig[row_byte(
                        rb,
                        bot_row as int,
                        j,
                    )],
                forall|j: int|
                    0 <= j < i ==> data@[#[trigger] row_byte(rb, bot_row as int, j)]
                        == orig[row_byte(rb, y as int, j)],
                forall|j: int|
                    i <= j < rb ==> data@[#[trigger] row_byte(rb, y as int, j)] == orig[row_byte(
                        rb,
                        y as int,
                        j,
                    )],
                forall|j: int|
                    i <= j < rb ==> data@[#[trigger] row_byte(rb, bot_row as int, j)]
                        == orig[row_byte(rb, bot_row as int, j)],
            decreases row_bytes - i,
        {
            proof {
                lemma_row_byte_bounds(rb, rows as int, y as int, i as int);
                lemma_row_byte_bounds(rb, rows as int, bot_row as int, i as int);
            }
            let ghost before = data@;
            let top: u8 = data[top_start + i];
            let bot: u8 = data[bot_start + i];
            data[top_start + i] = bot;
            data[bot_start + i] = top;
            proof {
                let ti = row_byte(rb, y as int, i as int);
                let bi = row_byte(rb, bot_row as int, i as int);
                assert(data@ == before.update(ti, bot).update(bi, top));
                assert(before[ti] == top && before[bi] == bot);
                assert forall|r: int, j: int| 0 <= r < rows && 0 <= j < rb && !(r == y && j == i)
                    && !(r == bot_row && j == i) implies data@[#[trigger] row_byte(rb, r, j)]
                    == before[row_byte(rb, r, j)] by {
                    lemma_row_byte_bounds(rb, rows as int, r, j);
                    if row_byte(rb, r, j) == ti {
                        lemma_row_byte_unique(rb, r, j, y as int, i as int);
                    }
                    if row_byte(rb, r, j) == bi {
                        lemma_row_byte_unique(rb, r, j, bot_row as int, i as int);
                    }
                }
                if ti == bi {
                    lemma_row_byte_unique(rb, y as int, i as int, bot_row as int, i as int);
                }
            }
            i += 1;
        }
        y += 1;
    }
    proof {
        assert forall|r: int, i: int| 0 <= r < height && 0 <= i < 4 * width implies data@[#[trigger] row_byte(
            4 * width,
            r,
            i,
        )] == orig[row_byte(4 * width, height - 1 - r, i)] by {
            assert(row_byte(rb, r, i) == row_byte(4 * width, r, i));
            if r < y {
            } else if r >= rows - y {
            } else {
                assert(r == rows - 1 - r);
            }
        }
    }
}

/// Reverses the byte order of an eight-byte block.
pub fn swap64(bytes: [u8; 8]) -> (swapped: [u8; 8])
    ensures
        swapped@ == bytes@.reverse(),
{
    let swapped = [bytes[7], bytes[6], bytes[5], bytes[4], bytes[3], bytes[2], bytes[1], bytes[0]];
    assert(swapped@ =~= bytes@.reverse());
    swapped
}

} // verus!
