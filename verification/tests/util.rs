use pica_convert::pica_texture::util::flip_vertical;
use pica_convert::pica_texture::util::swap64;
use pica_convert::pica_texture::util::swizzle;
use pica_convert::pica_texture::util::SLOT_LUT;
use pica_convert::pica_texture::util::SWIZZLE_LUT;
use pica_convert::pica_texture::util::XT;
use pica_convert::pica_texture::util::YT;

#[test]
fn swizzle_first_slots_interleave_x_and_y() {
    assert_eq!(swizzle(0), (0, 0));
    assert_eq!(swizzle(1), (1, 0));
    assert_eq!(swizzle(2), (0, 1));
    assert_eq!(swizzle(3), (1, 1));
    assert_eq!(swizzle(4), (2, 0));
    assert_eq!(swizzle(8), (0, 2));
    assert_eq!(swizzle(16), (4, 0));
    assert_eq!(swizzle(32), (0, 4));
    assert_eq!(swizzle(63), (7, 7));
}

#[test]
fn swizzle_is_a_bijection_on_the_tile() {
    let mut seen = [[false; 8]; 8];
    for slot in 0..64usize {
        let (x, y) = swizzle(slot);
        assert!(x < 8 && y < 8);
        assert!(!seen[y as usize][x as usize], "slot {} repeats a coordinate", slot);
        seen[y as usize][x as usize] = true;
    }
    for row in seen.iter() {
        for hit in row.iter() {
            assert!(*hit);
        }
    }
}

#[test]
fn swizzle_agrees_with_the_table() {
    for slot in 0..64usize {
        let (x, y) = swizzle(slot);
        assert_eq!(y * 8 + x, SWIZZLE_LUT[slot]);
    }
}

#[test]
fn slot_table_inverts_the_swizzle_table() {
    for slot in 0..64usize {
        assert_eq!(SLOT_LUT[SWIZZLE_LUT[slot] as usize] as usize, slot);
        assert_eq!(SWIZZLE_LUT[SLOT_LUT[slot] as usize] as usize, slot);
    }
}

#[test]
fn sub_block_origins_scan_left_to_right_then_down() {
    assert_eq!(XT, [0, 4, 0, 4]);
    assert_eq!(YT, [0, 0, 4, 4]);
}

#[test]
fn swap64_reverses_the_bytes() {
    assert_eq!(swap64([1, 2, 3, 4, 5, 6, 7, 8]), [8, 7, 6, 5, 4, 3, 2, 1]);
    assert_eq!(swap64([0; 8]), [0; 8]);
    assert_eq!(swap64(swap64([9, 8, 7, 6, 5, 4, 3, 2])), [9, 8, 7, 6, 5, 4, 3, 2]);
}

#[test]
fn flip_vertical_swaps_two_rows() {
    let mut data: Vec<u8> = vec![1, 2, 3, 4, 5, 6, 7, 8];
    flip_vertical(&mut data, 1, 2);
    assert_eq!(data, vec![5, 6, 7, 8, 1, 2, 3, 4]);
}

#[test]
fn flip_vertical_keeps_the_middle_row() {
    let mut data: Vec<u8> = Vec::new();
    for row in 0..3u8 {
        for i in 0..8u8 {
            data.push(row * 10 + i);
        }
    }
    flip_vertical(&mut data, 2, 3);
    let mut want: Vec<u8> = Vec::new();
    for row in [2u8, 1, 0] {
        for i in 0..8u8 {
            want.push(row * 10 + i);
        }
    }
    assert_eq!(data, want);
}

#[test]
fn flip_vertical_twice_is_the_identity() {
    let mut data: Vec<u8> = (0..4 * 3 * 5).map(|i| (i * 7 % 251) as u8).collect();
    let before = data.clone();
    flip_vertical(&mut data, 3, 5);
    assert_ne!(data, before);
    flip_vertical(&mut data, 3, 5);
    assert_eq!(data, before);
}

#[test]
fn flip_vertical_of_nothing_does_nothing() {
    let mut data: Vec<u8> = Vec::new();
    flip_vertical(&mut data, 0, 0);
    assert!(data.is_empty());
    flip_vertical(&mut data, 7, 0);
    assert!(data.is_empty());
    flip_vertical(&mut data, 0, 7);
    assert!(data.is_empty());
    let mut one_row: Vec<u8> = vec![1, 2, 3, 4, 5, 6, 7, 8];
    flip_vertical(&mut one_row, 2, 1);
    assert_eq!(one_row, vec![1, 2, 3, 4, 5, 6, 7, 8]);
}
