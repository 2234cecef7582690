use image::DynamicImage;
use image::GrayImage;
use image::RgbImage;
use image::RgbaImage;
use pica_convert::pica_texture::encode::encode_a4;
use pica_convert::pica_texture::encode::encode_a8;
use pica_convert::pica_texture::encode::encode_hl8;
use pica_convert::pica_texture::encode::encode_l4;
use pica_convert::pica_texture::encode::encode_l8;
use pica_convert::pica_texture::encode::encode_la44;
use pica_convert::pica_texture::encode::encode_la88;
use pica_convert::pica_texture::encode::encode_rgb565;
use pica_convert::pica_texture::encode::encode_rgb888;
use pica_convert::pica_texture::encode::encode_rgba4444;
use pica_convert::pica_texture::encode::encode_rgba5551;
use pica_convert::pica_texture::encode::encode_rgba8888;
use pica_convert::pica_texture::encode::encode_tiled;
use pica_convert::pica_texture::encode::pack_nibble_stream;
use pica_convert::pica_texture::encode_texture;
use pica_convert::pica_texture::etc1::Etc1PackParams;
use pica_convert::pica_texture::pixel::encode_pixel;
use pica_convert::pica_texture::pixel::luminance_of;
use pica_convert::pica_texture::RasterImage;
use pica_convert::pica_texture::Rgba;
use pica_convert::pica_texture::TextureFormat;

const LUT: [u32; 64] = [
    0, 1, 8, 9, 2, 3, 10, 11, 16, 17, 24, 25, 18, 19, 26, 27, 4, 5, 12, 13, 6, 7, 14, 15, 20, 21,
    28, 29, 22, 23, 30, 31, 32, 33, 40, 41, 34, 35, 42, 43, 48, 49, 56, 57, 50, 51, 58, 59, 36, 37,
    44, 45, 38, 39, 46, 47, 52, 53, 60, 61, 54, 55, 62, 63,
];

const PIXEL_FORMATS: [TextureFormat; 12] = [
    TextureFormat::RGBA8888,
    TextureFormat::RGB888,
    TextureFormat::RGBA5551,
    TextureFormat::RGB565,
    TextureFormat::RGBA4444,
    TextureFormat::LA88,
    TextureFormat::HL8,
    TextureFormat::L8,
    TextureFormat::A8,
    TextureFormat::LA44,
    TextureFormat::L4,
    TextureFormat::A4,
];

fn solid(width: u32, height: u32, px: [u8; 4]) -> RasterImage {
    let mut data = Vec::new();
    for _ in 0..(width * height) {
        data.extend_from_slice(&px);
    }
    RasterImage::from_raw(width, height, data).unwrap()
}

/// Pixel (x, y) is (x, y, x + y, 255 - x).
fn coordinates(width: u32, height: u32) -> RasterImage {
    let mut data = Vec::new();
    for y in 0..height {
        for x in 0..width {
            data.extend_from_slice(&[x as u8, y as u8, (x + y) as u8, 255 - x as u8]);
        }
    }
    RasterImage::from_raw(width, height, data).unwrap()
}

fn one_pixel(px: [u8; 4]) -> RasterImage {
    RasterImage::from_raw(1, 1, px.to_vec()).unwrap()
}

fn no_compressor(_block: &[u8; 64], _params: Option<Etc1PackParams>) -> [u8; 8] {
    panic!("a pixel format needs no block compressor")
}

#[test]
fn rgba5551_solid_red_packs_to_f801() {
    let img = solid(8, 8, [255, 0, 0, 255]);
    let out = encode_rgba5551(&img, 8, 8);
    let mut want = Vec::new();
    for _ in 0..64 {
        want.extend_from_slice(&[0x01, 0xF8]);
    }
    assert_eq!(out, want);
}

#[test]
fn encoded_length_is_width_times_height_times_bits_over_eight() {
    for (w, h) in [(8u32, 8u32), (16, 8), (8, 16), (64, 32), (128, 128)] {
        let img = coordinates(w, h);
        for format in PIXEL_FORMATS.iter() {
            let out = encode_tiled(&img, w, h, format);
            let want = (w * h * format.bits_per_pixel() / 8) as usize;
            assert_eq!(out.len(), want, "{:?} at {}x{}", format, w, h);
            assert_eq!(Some(out.len()), format.packed_size(w, h));
        }
    }
}

#[test]
fn encoded_length_counts_the_pixels_of_partial_tiles() {
    for (w, h) in [(1u32, 1u32), (3, 3), (7, 9), (9, 7), (12, 12), (17, 5), (8, 1), (1, 8)] {
        let img = coordinates(w, h);
        for format in PIXEL_FORMATS.iter() {
            let out = encode_tiled(&img, w, h, format);
            let want = ((w * h * format.bits_per_pixel() + 7) / 8) as usize;
            assert_eq!(out.len(), want, "{:?} at {}x{}", format, w, h);
            assert_eq!(Some(out.len()), format.packed_size(w, h));
        }
    }
}

#[test]
fn encoded_length_at_the_largest_size() {
    let img = solid(1024, 1024, [1, 2, 3, 4]);
    assert_eq!(encode_rgba8888(&img, 1024, 1024).len(), 4 * 1024 * 1024);
    assert_eq!(encode_l4(&img, 1024, 1024).len(), 512 * 1024);
}

#[test]
fn rgba8888_walks_the_tile_in_swizzle_order() {
    let img = coordinates(8, 8);
    let out = encode_rgba8888(&img, 8, 8);
    assert_eq!(out.len(), 256);
    for slot in 0..64usize {
        let x = (LUT[slot] & 7) as u8;
        let y = (LUT[slot] >> 3) as u8;
        assert_eq!(&out[slot * 4..slot * 4 + 4], &[255 - x, x + y, y, x]);
    }
}

#[test]
fn tiles_follow_each_other_row_by_row() {
    let img = coordinates(16, 16);
    let out = encode_rgba8888(&img, 16, 16);
    assert_eq!(out.len(), 1024);
    let origins = [(0u8, 0u8), (8, 0), (0, 8), (8, 8)];
    for (tile, (tx, ty)) in origins.iter().enumerate() {
        for slot in 0..64usize {
            let x = tx + (LUT[slot] & 7) as u8;
            let y = ty + (LUT[slot] >> 3) as u8;
            let at = (tile * 64 + slot) * 4;
            assert_eq!(&out[at..at + 4], &[255 - x, x + y, y, x]);
        }
    }
}

#[test]
fn rgba8888_reverses_the_channels() {
    assert_eq!(encode_rgba8888(&one_pixel([10, 20, 30, 40]), 1, 1), vec![40, 30, 20, 10]);
}

#[test]
fn rgb888_reverses_the_colour_channels_and_drops_alpha() {
    assert_eq!(encode_rgb888(&one_pixel([10, 20, 30, 40]), 1, 1), vec![30, 20, 10]);
}

#[test]
fn rgba5551_sets_the_alpha_bit_above_127() {
    assert_eq!(encode_rgba5551(&one_pixel([8, 16, 24, 127]), 1, 1), vec![0x86, 0x08]);
    assert_eq!(encode_rgba5551(&one_pixel([8, 16, 24, 128]), 1, 1), vec![0x87, 0x08]);
    assert_eq!(encode_rgba5551(&one_pixel([0, 0, 0, 0]), 1, 1), vec![0x00, 0x00]);
    assert_eq!(encode_rgba5551(&one_pixel([255, 255, 255, 255]), 1, 1), vec![0xFF, 0xFF]);
}

#[test]
fn rgba5551_truncates_to_five_bits() {
    assert_eq!(encode_rgba5551(&one_pixel([7, 7, 7, 0]), 1, 1), vec![0x00, 0x00]);
    assert_eq!(encode_rgba5551(&one_pixel([15, 0, 0, 0]), 1, 1), vec![0x00, 0x08]);
}

#[test]
fn rgb565_packs_red_green_blue_from_the_top() {
    assert_eq!(encode_rgb565(&one_pixel([255, 128, 8, 0]), 1, 1), vec![0x01, 0xFC]);
    assert_eq!(encode_rgb565(&one_pixel([0, 255, 0, 9]), 1, 1), vec![0xE0, 0x07]);
    assert_eq!(encode_rgb565(&one_pixel([0, 3, 255, 9]), 1, 1), vec![0x1F, 0x00]);
}

#[test]
fn rgba4444_keeps_the_high_nibbles() {
    assert_eq!(encode_rgba4444(&one_pixel([0x12, 0x34, 0x56, 0x78]), 1, 1), vec![0x57, 0x13]);
    assert_eq!(encode_rgba4444(&one_pixel([0xFF, 0x0F, 0xF0, 0x00]), 1, 1), vec![0xF0, 0xF0]);
}

#[test]
fn luminance_is_the_truncating_average() {
    assert_eq!(luminance_of(Rgba { r: 10, g: 20, b: 33, a: 0 }), 21);
    assert_eq!(luminance_of(Rgba { r: 1, g: 1, b: 0, a: 0 }), 0);
    assert_eq!(luminance_of(Rgba { r: 255, g: 255, b: 254, a: 0 }), 254);
    assert_eq!(luminance_of(Rgba { r: 255, g: 255, b: 255, a: 0 }), 255);
    assert_eq!(luminance_of(Rgba { r: 255, g: 0, b: 0, a: 0 }), 85);
}

#[test]
fn la88_stores_alpha_then_luminance() {
    assert_eq!(encode_la88(&one_pixel([10, 20, 33, 77]), 1, 1), vec![77, 21]);
}

#[test]
fn hl8_stores_green_then_red() {
    assert_eq!(encode_hl8(&one_pixel([10, 20, 30, 40]), 1, 1), vec![20, 10]);
}

#[test]
fn l8_stores_luminance() {
    assert_eq!(encode_l8(&one_pixel([10, 20, 33, 77]), 1, 1), vec![21]);
}

#[test]
fn a8_stores_alpha() {
    assert_eq!(encode_a8(&one_pixel([10, 20, 33, 77]), 1, 1), vec![77]);
}

#[test]
fn la44_stores_luminance_above_alpha() {
    assert_eq!(encode_la44(&one_pixel([0x80, 0x80, 0x80, 0x3F]), 1, 1), vec![0x83]);
    assert_eq!(encode_la44(&one_pixel([0xFF, 0xFF, 0xFF, 0x00]), 1, 1), vec![0xF0]);
    assert_eq!(encode_la44(&one_pixel([0x00, 0x00, 0x00, 0xFF]), 1, 1), vec![0x0F]);
}

#[test]
fn l4_puts_the_earlier_pixel_in_the_low_nibble() {
    let mut data = Vec::new();
    for y in 0..8u32 {
        for x in 0..8u32 {
            let l: u8 = if (x, y) == (1, 0) { 0xA0 } else { 0x50 };
            data.extend_from_slice(&[l, l, l, 0]);
        }
    }
    let img = RasterImage::from_raw(8, 8, data).unwrap();
    let out = encode_l4(&img, 8, 8);
    let mut want = vec![0x55u8; 32];
    want[0] = 0xA5;
    assert_eq!(out, want);
}

#[test]
fn a4_puts_the_earlier_pixel_in_the_low_nibble() {
    let mut data = Vec::new();
    for y in 0..8u32 {
        for x in 0..8u32 {
            let a: u8 = if (x, y) == (0, 1) { 0xC7 } else { 0x3F };
            data.extend_from_slice(&[9, 9, 9, a]);
        }
    }
    let img = RasterImage::from_raw(8, 8, data).unwrap();
    let out = encode_a4(&img, 8, 8);
    let mut want = vec![0x33u8; 32];
    want[1] = 0x3C;
    assert_eq!(out, want);
}

#[test]
fn nibbles_pack_two_to_a_byte() {
    assert_eq!(pack_nibble_stream(&vec![0x1, 0x2, 0x3, 0x4]), vec![0x21, 0x43]);
    assert_eq!(pack_nibble_stream(&vec![0xF, 0x0, 0x0, 0xF]), vec![0x0F, 0xF0]);
    assert_eq!(pack_nibble_stream(&vec![0x7]), vec![0x07]);
    assert_eq!(pack_nibble_stream(&vec![0x1, 0x2, 0x3]), vec![0x21, 0x03]);
    assert_eq!(pack_nibble_stream(&Vec::new()), Vec::<u8>::new());
    assert_eq!(pack_nibble_stream(&vec![0xAB, 0xCD]), vec![0xDB]);
}

#[test]
fn pixels_outside_the_image_are_skipped() {
    let img = coordinates(3, 3);
    let out = encode_rgba8888(&img, 3, 3);
    let order = [(0u8, 0u8), (1, 0), (0, 1), (1, 1), (2, 0), (2, 1), (0, 2), (1, 2), (2, 2)];
    let mut want = Vec::new();
    for (x, y) in order {
        want.extend_from_slice(&[255 - x, x + y, y, x]);
    }
    assert_eq!(out, want);
}

#[test]
fn an_odd_number_of_nibbles_takes_a_last_half_byte() {
    let img = solid(3, 3, [0x90, 0x90, 0x90, 0x70]);
    assert_eq!(encode_l4(&img, 3, 3), vec![0x99, 0x99, 0x99, 0x99, 0x09]);
    assert_eq!(encode_a4(&img, 3, 3), vec![0x77, 0x77, 0x77, 0x77, 0x07]);
}

#[test]
fn a_partial_tile_row_is_walked_tile_by_tile() {
    let img = coordinates(9, 1);
    let out = encode_a8(&img, 9, 1);
    assert_eq!(out, vec![255, 254, 253, 252, 251, 250, 249, 248, 247]);
    let reds = encode_hl8(&img, 9, 1);
    assert_eq!(reds, vec![0, 0, 0, 1, 0, 2, 0, 3, 0, 4, 0, 5, 0, 6, 0, 7, 0, 8]);
}

#[test]
fn the_top_left_part_of_an_image_can_be_encoded() {
    let img = coordinates(16, 16);
    let part = encode_rgba8888(&img, 8, 8);
    let whole = encode_rgba8888(&coordinates(8, 8), 8, 8);
    assert_eq!(part, whole);
}

#[test]
fn an_empty_image_encodes_to_nothing() {
    let img = RasterImage::from_raw(0, 0, Vec::new()).unwrap();
    for format in PIXEL_FORMATS.iter() {
        assert!(encode_tiled(&img, 0, 0, format).is_empty());
    }
    let img = coordinates(8, 8);
    assert!(encode_rgba8888(&img, 0, 8).is_empty());
    assert!(encode_l4(&img, 8, 0).is_empty());
}

#[test]
fn every_encoder_is_the_tiled_walk_of_its_format() {
    let img = coordinates(16, 8);
    let encoders: [fn(&RasterImage, u32, u32) -> Vec<u8>; 12] = [
        encode_rgba8888,
        encode_rgb888,
        encode_rgba5551,
        encode_rgb565,
        encode_rgba4444,
        encode_la88,
        encode_hl8,
        encode_l8,
        encode_a8,
        encode_la44,
        encode_l4,
        encode_a4,
    ];
    for (encoder, format) in encoders.iter().zip(PIXEL_FORMATS.iter()) {
        assert_eq!(encoder(&img, 16, 8), encode_tiled(&img, 16, 8, format));
    }
}

#[test]
fn encode_pixel_appends_the_units_of_one_pixel() {
    let px = Rgba { r: 0x12, g: 0x34, b: 0x56, a: 0x78 };
    let mut out = vec![0xEE];
    encode_pixel(&TextureFormat::RGBA8888, px, &mut out);
    assert_eq!(out, vec![0xEE, 0x78, 0x56, 0x34, 0x12]);
    encode_pixel(&TextureFormat::RGBA4444, px, &mut out);
    assert_eq!(out, vec![0xEE, 0x78, 0x56, 0x34, 0x12, 0x57, 0x13]);
    encode_pixel(&TextureFormat::L4, px, &mut out);
    assert_eq!(out.len(), 8);
    assert_eq!(out[7], 0x03);
    encode_pixel(&TextureFormat::A4, px, &mut out);
    assert_eq!(out[8], 0x07);
    encode_pixel(&TextureFormat::ETC1, px, &mut out);
    encode_pixel(&TextureFormat::ETC1A4, px, &mut out);
    assert_eq!(out.len(), 9);
}

#[test]
fn encode_texture_records_format_and_dimensions() {
    let raw: Vec<u8> = (0..16 * 8 * 4).map(|i| (i % 251) as u8).collect();
    let img = DynamicImage::ImageRgba8(RgbaImage::from_raw(16, 8, raw.clone()).unwrap());
    let raster = RasterImage::from_raw(16, 8, raw).unwrap();
    for format in PIXEL_FORMATS.iter() {
        let texture = encode_texture(&img, format, no_compressor).unwrap();
        assert_eq!(texture.format(), format);
        assert_eq!(texture.dimensions(), (16, 8));
        assert_eq!(texture.data(), &encode_tiled(&raster, 16, 8, format)[..]);
        assert!(texture.is_well_sized());
    }
}

#[test]
fn encode_texture_gives_well_sized_textures_at_any_size() {
    for (w, h) in [(1u32, 1u32), (5, 3), (9, 16), (0, 0)] {
        let raw: Vec<u8> = (0..w * h * 4).map(|i| (i % 251) as u8).collect();
        let img = DynamicImage::ImageRgba8(RgbaImage::from_raw(w, h, raw).unwrap());
        for format in PIXEL_FORMATS.iter() {
            let texture = encode_texture(&img, format, no_compressor).unwrap();
            assert!(texture.is_well_sized(), "{:?} at {}x{}", format, w, h);
        }
        let zeros = |_block: &[u8; 64], _params: Option<Etc1PackParams>| [0u8; 8];
        for format in [TextureFormat::ETC1, TextureFormat::ETC1A4] {
            let texture = encode_texture(&img, &format, zeros).unwrap();
            assert!(texture.is_well_sized(), "{:?} at {}x{}", format, w, h);
        }
    }
}

#[test]
fn encode_texture_takes_an_image_without_alpha_as_opaque() {
    let img = DynamicImage::ImageRgb8(RgbImage::from_raw(1, 1, vec![10, 20, 30]).unwrap());
    let texture = encode_texture(&img, &TextureFormat::RGBA8888, no_compressor).unwrap();
    assert_eq!(texture.data(), &[255u8, 30, 20, 10][..]);
    assert_eq!(texture.dimensions(), (1, 1));
}

#[test]
fn encode_texture_takes_a_grey_image_as_grey_pixels() {
    let img = DynamicImage::ImageLuma8(GrayImage::from_raw(2, 1, vec![0, 255]).unwrap());
    let texture = encode_texture(&img, &TextureFormat::RGBA8888, no_compressor).unwrap();
    assert_eq!(texture.data(), &[255u8, 0, 0, 0, 255, 255, 255, 255][..]);
    assert_eq!(texture.dimensions(), (2, 1));
}

#[test]
fn encode_texture_ignores_what_a_buffer_holds_past_the_image() {
    let mut raw = vec![1u8, 2, 3, 4];
    raw.extend_from_slice(&[9, 9, 9, 9, 9]);
    let img = DynamicImage::ImageRgba8(RgbaImage::from_raw(1, 1, raw).unwrap());
    let texture = encode_texture(&img, &TextureFormat::RGBA8888, no_compressor).unwrap();
    assert_eq!(texture.data(), &[4u8, 3, 2, 1][..]);
}

#[test]
fn encode_texture_hands_block_formats_to_the_compressor() {
    let img = DynamicImage::ImageRgba8(RgbaImage::from_raw(8, 8, vec![7u8; 256]).unwrap());
    let compress = |block: &[u8; 64], _params: Option<Etc1PackParams>| -> [u8; 8] {
        [block[0], 1, 2, 3, 4, 5, 6, 0xEE]
    };
    let plain = encode_texture(&img, &TextureFormat::ETC1, compress).unwrap();
    assert_eq!(*plain.format(), TextureFormat::ETC1);
    assert_eq!(plain.data().len(), 32);
    assert_eq!(&plain.data()[0..8], &[0xEE, 6, 5, 4, 3, 2, 1, 7]);
    assert!(plain.is_well_sized());
    let alpha = encode_texture(&img, &TextureFormat::ETC1A4, compress).unwrap();
    assert_eq!(*alpha.format(), TextureFormat::ETC1A4);
    assert_eq!(alpha.data().len(), 64);
    assert_eq!(&alpha.data()[0..8], &[0u8; 8]);
    assert_eq!(&alpha.data()[8..16], &[0xEE, 6, 5, 4, 3, 2, 1, 7]);
    assert!(alpha.is_well_sized());
}
