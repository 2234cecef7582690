use vstd::prelude::*;
use crate::pica_texture::util::lemma_tile_position;
use crate::pica_texture::util::slot_count;
use crate::pica_texture::util::slot_visible;
use crate::pica_texture::util::tile_col;
use crate::pica_texture::util::tile_row;
use crate::pica_texture::util::tiles_across;
use crate::pica_texture::util::SWIZZLE_LUT;

verus! {

/// How many of the first `n` slots hold a pixel inside `width` by `height`.
pub open spec fn visible_upto(width: nat, height: nat, n: nat) -> nat
    decreases n,
{
    if n == 0 {
        0
    } else {
        visible_upto(width, height, (n - 1) as nat) + if slot_visible(width, height, n - 1) {
            1nat
        } else {
            0nat
        }
    }
}

/// One where `f` holds of `p`, zero elsewhere.
#[verifier::opaque]
spec fn unit(f: spec_fn(int) -> bool, p: int) -> nat {
    if f(p) {
        1
    } else {
        0
    }
}

/// How many of the first `n` slots of a tile hold a pixel whose tile-local
/// offset satisfies `f`.
spec fn count_slots(f: spec_fn(int) -> bool, n: nat) -> nat
    decreases n,
{
    if n == 0 {
        0
    } else {
        count_slots(f, (n - 1) as nat) + unit(f, SWIZZLE_LUT[n - 1] as int)
    }
}

/// How many of the first `n` tile-local offsets satisfy `f`.
spec fn count_offsets(f: spec_fn(int) -> bool, n: nat) -> nat
    decreases n,
{
    if n == 0 {
        0
    } else {
        count_offsets(f, (n - 1) as nat) + unit(f, n - 1)
    }
}

/// The tile-local offsets `y * 8 + x` with `x < a` and `y < b`.
spec fn in_rect(a: int, b: int) -> spec_fn(int) -> bool {
    |p: int| p % 8 < a && p / 8 < b
}

/// `v`, kept between 0 and 8.
spec fn clip8(v: int) -> int {
    if v < 0 {
        0
    } else if v > 8 {
        8
    } else {
        v
    }
}

/// How many of `extent` pixels the first `tiles` tiles cover.
spec fn covered(extent: nat, tiles: int) -> int {
    if 8 * tiles < extent {
        8 * tiles
    } else {
        extent as int
    }
}

/// Counting over the slots of a tile counts every offset once, whatever the
/// order of the slots.
#[verifier::rlimit(30)]
proof fn lemma_count_permuted(f: spec_fn(int) -> bool)
    ensures
        count_slots(f, 64) == count_offsets(f, 64),
{
    reveal_with_fuel(count_slots, 65);
    reveal_with_fuel(count_offsets, 65);
}

proof fn lemma_count_eight(f: spec_fn(int) -> bool, base: int)
    requires
        0 <= base,
    ensures
        count_offsets(f, (base + 8) as nat) == count_offsets(f, base as nat) + unit(f, base) + unit(
            f,
            base + 1,
        ) + unit(f, base + 2) + unit(f, base + 3) + unit(f, base + 4) + unit(f, base + 5) + unit(
            f,
            base + 6,
        ) + unit(f, base + 7),
{
    reveal_with_fuel(count_offsets, 9);
}

proof fn lemma_unit_in_rect(a: int, b: int, r: int, x: int)
    requires
        0 <= x < 8,
        0 <= r,
    ensures
        unit(in_rect(a, b), 8 * r + x) == if x < a && r < b {
            1nat
        } else {
            0nat
        },
{
    reveal(unit);
    let p = 8 * r + x;
    assert(p % 8 == x && p / 8 == r);
}

proof fn lemma_count_row(a: int, b: int, r: int)
    requires
        0 <= r,
    ensures
        count_offsets(in_rect(a, b), (8 * r + 8) as nat) == count_offsets(
            in_rect(a, b),
            (8 * r) as nat,
        ) + (if r < b {
            clip8(a)
        } else {
            0
        }),
{
    lemma_count_eight(in_rect(a, b), 8 * r);
    lemma_unit_in_rect(a, b, r, 0);
    lemma_unit_in_rect(a, b, r, 1);
    lemma_unit_in_rect(a, b, r, 2);
    lemma_unit_in_rect(a, b, r, 3);
    lemma_unit_in_rect(a, b, r, 4);
    lemma_unit_in_rect(a, b, r, 5);
    lemma_unit_in_rect(a, b, r, 6);
    lemma_unit_in_rect(a, b, r, 7);
}

proof fn lemma_count_rect(a: int, b: int, r: nat)
    requires
        r <= 8,
    ensures
        count_offsets(in_rect(a, b), 8 * r) == clip8(a) * (if r <= clip8(b) {
            r as int
        } else {
            clip8(b)
        }),
    decreases r,
{
    if r > 0 {
        let q = (r - 1) as nat;
        lemma_count_rect(a, b, q);
        lemma_count_row(a, b, q as int);
        let m = if q <= clip8(b) {
            q as int
        } else {
            clip8(b)
        };
        let m2 = if r <= clip8(b) {
            r as int
        } else {
            clip8(b)
        };
        assert(clip8(a) * m2 == clip8(a) * m + (if q < b {
            clip8(a)
        } else {
            0
        })) by (nonlinear_arith)
            requires
                m2 == (if q < b {
                    m + 1
                } else {
                    m
                }),
        ;
    }
}

/// Within tile number `tile`, the visible slots are those whose offset lies
/// in the part of the tile that the image covers.
proof fn lemma_tile_slots(width: nat, height: nat, tile: int, n: nat)
    requires
        0 <= tile,
        n <= 64,
    ensures
        visible_upto(width, height, (64 * tile + n) as nat) == visible_upto(
            width,
            height,
            (64 * tile) as nat,
        ) + count_slots(
            in_rect(width - 8 * tile_col(width, tile), height - 8 * tile_row(width, tile)),
            n,
        ),
    decreases n,
{
    if n > 0 {
        lemma_tile_slots(width, height, tile, (n - 1) as nat);
        let k = 64 * tile + n - 1;
        assert(k / 64 == tile && k % 64 == n - 1);
        reveal(unit);
    }
}

/// A tile shows as many pixels as the image covers of it.
proof fn lemma_tile_total(width: nat, height: nat, row: int, col: int)
    requires
        0 <= row,
        0 <= col < tiles_across(width),
    ensures
        visible_upto(width, height, (64 * (row * tiles_across(width) + col) + 64) as nat)
            == visible_upto(width, height, (64 * (row * tiles_across(width) + col)) as nat) + clip8(
            width - 8 * col,
        ) * clip8(height - 8 * row),
{
    let tile = row * tiles_across(width) + col;
    lemma_tile_position(width, row, col);
    lemma_tile_slots(width, height, tile, 64);
    let f = in_rect(width - 8 * col, height - 8 * row);
    lemma_count_permuted(f);
    lemma_count_rect(width - 8 * col, height - 8 * row, 8);
}

/// The first `c` tiles of a tile row show the columns that they cover, in
/// as many rows as the image covers of the tile row.
proof fn lemma_row_total(width: nat, height: nat, row: int, c: nat)
    requires
        0 <= row,
        c <= tiles_across(width),
    ensures
        0 <= row * tiles_across(width),
        visible_upto(width, height, (64 * (row * tiles_across(width) + c)) as nat) == visible_upto(
            width,
            height,
            (64 * (row * tiles_across(width))) as nat,
        ) + covered(width, c as int) * clip8(height - 8 * row),
    decreases c,
{
    let tx = tiles_across(width) as int;
    assert(0 <= row * tx) by (nonlinear_arith)
        requires
            0 <= row,
            0 <= tx,
    ;
    if c > 0 {
        let d = (c - 1) as nat;
        lemma_row_total(width, height, row, d);
        lemma_tile_total(width, height, row, d as int);
        let b = clip8(height - 8 * row);
        assert(covered(width, c as int) == covered(width, d as int) + clip8(width - 8 * d));
        assert(covered(width, c as int) * b == covered(width, d as int) * b + clip8(width - 8 * d)
            * b) by (nonlinear_arith)
            requires
                covered(width, c as int) == covered(width, d as int) + clip8(width - 8 * d),
        ;
        assert(64 * (row * tx + d) + 64 == 64 * (row * tx + c));
    } else {
        assert(covered(width, 0) * clip8(height - 8 * row) == 0) by (nonlinear_arith)
            requires
                covered(width, 0) == 0,
        ;
    }
}

/// The first `r` tile rows show every column of the rows that they cover.
proof fn lemma_rows_total(width: nat, height: nat, r: nat)
    requires
        r <= tiles_across(height),
    ensures
        0 <= r * tiles_across(width),
        visible_upto(width, height, (64 * (r * tiles_across(width))) as nat) == width * covered(
            height,
            r as int,
        ),
    decreases r,
{
    let tx = tiles_across(width) as int;
    if r > 0 {
        let q = (r - 1) as nat;
        lemma_rows_total(width, height, q);
        lemma_row_total(width, height, q as int, tiles_across(width));
        assert(covered(width, tx) == width);
        assert(q * tx + tx == r * tx) by (nonlinear_arith)
            requires
                r == q + 1,
        ;
        assert(covered(height, r as int) == covered(height, q as int) + clip8(height - 8 * q));
        assert(width * covered(height, r as int) == width * covered(height, q as int) + width
            * clip8(height - 8 * q)) by (nonlinear_arith)
            requires
                covered(height, r as int) == covered(height, q as int) + clip8(height - 8 * q),
        ;
    } else {
        assert(0 * tx == 0);
        assert(width * covered(height, 0) == 0) by (nonlinear_arith)
            requires
                covered(height, 0) == 0,
        ;
    }
}

/// The tiles that cover an image show every pixel of the image once: of
/// all their slots, `width * height` are visible.
pub proof fn lemma_visible_total(width: nat, height: nat)
    ensures
        visible_upto(width, height, slot_count(width, height)) == width * height,
{
    let tx = tiles_across(width);
    let ty = tiles_across(height);
    lemma_rows_total(width, height, ty);
    assert(covered(height, ty as int) == height);
    assert(64 * (ty * tx) == tx * ty * 64) by (nonlinear_arith);
}

} // verus!
