use std::cell::RefCell;

use pica_convert::pica_texture::etc1::alpha_mask_of;
use pica_convert::pica_texture::etc1::block_pixels;
use pica_convert::pica_texture::etc1::encode_etc1;
use pica_convert::pica_texture::etc1::encoder_pack_params;
use pica_convert::pica_texture::etc1::push_block;
use pica_convert::pica_texture::etc1::quality;
use pica_convert::pica_texture::etc1::CompressorGuard;
use pica_convert::pica_texture::etc1::Etc1PackParams;
use pica_convert::pica_texture::RasterImage;

/// Pixel (x, y) is (x, y, 100 + x, alpha).
fn coordinates(width: u32, height: u32, alpha: u8) -> RasterImage {
    let mut data = Vec::new();
    for y in 0..height {
        for x in 0..width {
            data.extend_from_slice(&[x as u8, y as u8, 100 + x as u8, alpha]);
        }
    }
    RasterImage::from_raw(width, height, data).unwrap()
}

fn block_with_alpha(alpha: [u8; 16]) -> [u8; 64] {
    let mut block = [0u8; 64];
    for i in 0..16 {
        block[i * 4] = 1;
        block[i * 4 + 1] = 2;
        block[i * 4 + 2] = 3;
        block[i * 4 + 3] = alpha[i];
    }
    block
}

/// Stands in for the block compressor: the first two pixels of the block.
fn first_two_pixels(block: &[u8; 64], _params: Option<Etc1PackParams>) -> [u8; 8] {
    let mut out = [0u8; 8];
    out.copy_from_slice(&block[0..8]);
    out
}

#[test]
fn alpha_mask_of_a_block_at_alpha_f0_has_every_bit_set() {
    assert_eq!(alpha_mask_of(&block_with_alpha([0xF0; 16])), 0xFFFF_FFFF_FFFF_FFFF);
    assert_eq!(alpha_mask_of(&block_with_alpha([0xFF; 16])), 0xFFFF_FFFF_FFFF_FFFF);
}

#[test]
fn alpha_mask_of_a_transparent_block_is_zero() {
    assert_eq!(alpha_mask_of(&block_with_alpha([0x00; 16])), 0);
    assert_eq!(alpha_mask_of(&block_with_alpha([0x0F; 16])), 0);
}

#[test]
fn alpha_mask_is_column_major() {
    for i in 0..16usize {
        let mut alpha = [0u8; 16];
        alpha[i] = 0xA5;
        let px = i % 4;
        let py = i / 4;
        let shift = (px * 4 + py) * 4;
        assert_eq!(alpha_mask_of(&block_with_alpha(alpha)), 0xAu64 << shift, "pixel {}", i);
    }
}

#[test]
fn alpha_mask_worked_values() {
    let mut alpha = [0u8; 16];
    alpha[1] = 0xA0;
    assert_eq!(alpha_mask_of(&block_with_alpha(alpha)), 0x0000_0000_000A_0000);
    alpha[4] = 0x30;
    assert_eq!(alpha_mask_of(&block_with_alpha(alpha)), 0x0000_0000_000A_0030);
    alpha[15] = 0xFF;
    assert_eq!(alpha_mask_of(&block_with_alpha(alpha)), 0xF000_0000_000A_0030);
}

#[test]
fn block_pixels_are_row_major() {
    let img = coordinates(8, 8, 200);
    let block = block_pixels(&img, 8, 8, 4, 0);
    for i in 0..16usize {
        let x = 4 + (i % 4) as u8;
        let y = (i / 4) as u8;
        assert_eq!(&block[i * 4..i * 4 + 4], &[x, y, 100 + x, 200]);
    }
}

#[test]
fn block_pixels_outside_the_image_are_opaque_black() {
    let img = coordinates(2, 3, 17);
    let block = block_pixels(&img, 2, 3, 0, 0);
    for i in 0..16usize {
        let x = (i % 4) as u8;
        let y = (i / 4) as u8;
        if x < 2 && y < 3 {
            assert_eq!(&block[i * 4..i * 4 + 4], &[x, y, 100 + x, 17]);
        } else {
            assert_eq!(&block[i * 4..i * 4 + 4], &[0, 0, 0, 255]);
        }
    }
    let far = block_pixels(&img, 2, 3, 4, 4);
    for i in 0..16usize {
        assert_eq!(&far[i * 4..i * 4 + 4], &[0, 0, 0, 255]);
    }
    let edge = block_pixels(&img, 2, 3, u32::MAX, u32::MAX);
    for i in 0..16usize {
        assert_eq!(&edge[i * 4..i * 4 + 4], &[0, 0, 0, 255]);
    }
}

#[test]
fn block_pixels_stop_at_the_size_asked_for() {
    let img = coordinates(8, 8, 9);
    let block = block_pixels(&img, 1, 1, 0, 0);
    assert_eq!(&block[0..4], &[0, 0, 100, 9]);
    for i in 1..16usize {
        assert_eq!(&block[i * 4..i * 4 + 4], &[0, 0, 0, 255]);
    }
}

#[test]
fn push_block_reverses_the_compressed_block() {
    let mut out = vec![0xAA];
    push_block(&mut out, false, 0x1122_3344_5566_7788, [1, 2, 3, 4, 5, 6, 7, 8]);
    assert_eq!(out, vec![0xAA, 8, 7, 6, 5, 4, 3, 2, 1]);
}

#[test]
fn push_block_writes_the_alpha_mask_low_byte_first() {
    let mut out = Vec::new();
    push_block(&mut out, true, 0x1122_3344_5566_7788, [1, 2, 3, 4, 5, 6, 7, 8]);
    assert_eq!(
        out,
        vec![0x88, 0x77, 0x66, 0x55, 0x44, 0x33, 0x22, 0x11, 8, 7, 6, 5, 4, 3, 2, 1]
    );
}

#[test]
fn etc1_sub_blocks_come_in_the_order_of_their_origins() {
    let img = coordinates(8, 8, 255);
    let out = encode_etc1(&img, 8, 8, false, first_two_pixels);
    assert_eq!(out.len(), 32);
    let origins = [(0u8, 0u8), (4, 0), (0, 4), (4, 4)];
    for (t, (x, y)) in origins.iter().enumerate() {
        let want = [255, 100 + x + 1, *y, x + 1, 255, 100 + x, *y, *x];
        assert_eq!(&out[t * 8..t * 8 + 8], &want);
    }
}

#[test]
fn etc1_tiles_come_row_by_row() {
    let img = coordinates(16, 16, 255);
    let out = encode_etc1(&img, 16, 16, false, first_two_pixels);
    assert_eq!(out.len(), 128);
    let tiles = [(0u8, 0u8), (8, 0), (0, 8), (8, 8)];
    let origins = [(0u8, 0u8), (4, 0), (0, 4), (4, 4)];
    for (tile, (tx, ty)) in tiles.iter().enumerate() {
        for (t, (ox, oy)) in origins.iter().enumerate() {
            let x = tx + ox;
            let y = ty + oy;
            let at = (tile * 4 + t) * 8;
            assert_eq!(&out[at..at + 8], &[255, 100 + x + 1, y, x + 1, 255, 100 + x, y, x]);
        }
    }
}

#[test]
fn etc1a4_puts_the_alpha_mask_before_every_block() {
    let img = coordinates(8, 8, 0xF0);
    let out = encode_etc1(&img, 8, 8, true, first_two_pixels);
    assert_eq!(out.len(), 64);
    let origins = [(0u8, 0u8), (4, 0), (0, 4), (4, 4)];
    for (t, (x, y)) in origins.iter().enumerate() {
        assert_eq!(&out[t * 16..t * 16 + 8], &[0xFF; 8]);
        let want = [0xF0, 100 + x + 1, *y, x + 1, 0xF0, 100 + x, *y, *x];
        assert_eq!(&out[t * 16 + 8..t * 16 + 16], &want);
    }
}

#[test]
fn etc1a4_alpha_mask_follows_the_pixels() {
    let mut data = vec![0u8; 8 * 8 * 4];
    // pixel (1, 0) of the first sub-block, pixel (0, 1) of the second
    data[(0 * 8 + 1) * 4 + 3] = 0xB0;
    data[(1 * 8 + 4) * 4 + 3] = 0x70;
    let img = RasterImage::from_raw(8, 8, data).unwrap();
    let out = encode_etc1(&img, 8, 8, true, first_two_pixels);
    assert_eq!(&out[0..8], &[0x00, 0x00, 0x0B, 0x00, 0x00, 0x00, 0x00, 0x00]);
    assert_eq!(&out[16..24], &[0x70, 0x00, 0x00, 0x00, 0x00, 0x00, 0x00, 0x00]);
    assert_eq!(&out[32..40], &[0x00; 8]);
    assert_eq!(&out[48..56], &[0x00; 8]);
}

#[test]
fn etc1_pads_partial_tiles_with_opaque_black() {
    let img = coordinates(5, 5, 0x40);
    let out = encode_etc1(&img, 5, 5, true, first_two_pixels);
    assert_eq!(out.len(), 64);
    // second sub-block: only its first column lies inside the image
    assert_eq!(&out[24..32], &[255, 0, 0, 0, 0x40, 104, 0, 4]);
    // its alpha mask: the four pixels of column 0 hold 4, the others 15
    assert_eq!(&out[16..24], &[0x44, 0x44, 0xFF, 0xFF, 0xFF, 0xFF, 0xFF, 0xFF]);
    // fourth sub-block: one pixel inside
    assert_eq!(&out[56..64], &[255, 0, 0, 0, 0x40, 104, 4, 4]);
    assert_eq!(&out[48..56], &[0xF4, 0xFF, 0xFF, 0xFF, 0xFF, 0xFF, 0xFF, 0xFF]);
}

#[test]
fn etc1_length_counts_whole_tiles() {
    let img = coordinates(16, 16, 255);
    assert_eq!(encode_etc1(&img, 16, 16, false, first_two_pixels).len(), 16 * 16 / 2);
    assert_eq!(encode_etc1(&img, 16, 16, true, first_two_pixels).len(), 16 * 16);
    assert_eq!(encode_etc1(&img, 9, 8, false, first_two_pixels).len(), 64);
    assert_eq!(encode_etc1(&img, 1, 1, true, first_two_pixels).len(), 64);
    assert!(encode_etc1(&img, 0, 0, true, first_two_pixels).is_empty());
    assert!(encode_etc1(&img, 0, 16, false, first_two_pixels).is_empty());
}

#[test]
fn etc1_asks_for_the_highest_quality_without_dithering() {
    let seen: RefCell<Vec<Option<Etc1PackParams>>> = RefCell::new(Vec::new());
    let img = coordinates(8, 8, 255);
    let out = encode_etc1(&img, 8, 8, false, |_block: &[u8; 64], params: Option<Etc1PackParams>| {
        seen.borrow_mut().push(params);
        [0u8; 8]
    });
    assert_eq!(out, vec![0u8; 32]);
    let seen = seen.into_inner();
    assert_eq!(seen.len(), 4);
    for params in seen {
        assert_eq!(params, Some(Etc1PackParams { quality: 2, dithering: 0 }));
    }
}

#[test]
fn etc1_hands_every_sub_block_to_the_compressor_once() {
    let blocks: RefCell<Vec<[u8; 64]>> = RefCell::new(Vec::new());
    let img = coordinates(16, 8, 255);
    encode_etc1(&img, 16, 8, true, |block: &[u8; 64], _params: Option<Etc1PackParams>| {
        blocks.borrow_mut().push(*block);
        [0u8; 8]
    });
    let blocks = blocks.into_inner();
    assert_eq!(blocks.len(), 8);
    let origins = [(0u32, 0u32), (4, 0), (0, 4), (4, 4), (8, 0), (12, 0), (8, 4), (12, 4)];
    for (block, (bx, by)) in blocks.iter().zip(origins.iter()) {
        assert_eq!(*block, block_pixels(&img, 16, 8, *bx, *by));
    }
}

#[test]
fn encoder_settings_and_quality_levels() {
    assert_eq!(quality::LOW, 0);
    assert_eq!(quality::MEDIUM, 1);
    assert_eq!(quality::HIGH, 2);
    assert_eq!(encoder_pack_params(), Etc1PackParams { quality: quality::HIGH, dithering: 0 });
}

#[test]
fn the_guard_asks_for_the_set_up_once() {
    let mut guard = CompressorGuard::new();
    assert!(guard.ensure_initialized());
    assert!(!guard.ensure_initialized());
    assert!(!guard.ensure_initialized());
    let mut other = CompressorGuard::new();
    assert!(other.ensure_initialized());
}
