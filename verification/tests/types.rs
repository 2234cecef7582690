use pica_convert::pica_texture::CodecError;
use pica_convert::pica_texture::PicaTexture;
use pica_convert::pica_texture::TextureFormat;

const ALL: [TextureFormat; 14] = [
    TextureFormat::RGBA8888,
    TextureFormat::RGB888,
    TextureFormat::RGBA5551,
    TextureFormat::RGB565,
    TextureFormat::RGBA4444,
    TextureFormat::LA88,
    TextureFormat::HL8,
    TextureFormat::L8,
    TextureFormat::A8,
    TextureFormat::LA44,
    TextureFormat::L4,
    TextureFormat::A4,
    TextureFormat::ETC1,
    TextureFormat::ETC1A4,
];

#[test]
fn texture_keeps_what_it_was_made_of() {
    let texture = PicaTexture::new(TextureFormat::RGB565, 16, 8, vec![1, 2, 3]);
    assert_eq!(*texture.format(), TextureFormat::RGB565);
    assert_eq!(texture.width(), 16);
    assert_eq!(texture.height(), 8);
    assert_eq!(texture.dimensions(), (16, 8));
    assert_eq!(texture.data(), &[1u8, 2, 3][..]);
}

#[test]
fn texture_knows_whether_its_data_has_the_packed_length() {
    assert!(PicaTexture::new(TextureFormat::RGBA8888, 8, 8, vec![0; 256]).is_well_sized());
    assert!(!PicaTexture::new(TextureFormat::RGBA8888, 8, 8, vec![0; 255]).is_well_sized());
    assert!(!PicaTexture::new(TextureFormat::RGBA8888, 8, 8, vec![0; 257]).is_well_sized());
    assert!(PicaTexture::new(TextureFormat::L4, 8, 8, vec![0; 32]).is_well_sized());
    assert!(PicaTexture::new(TextureFormat::ETC1, 8, 8, vec![0; 32]).is_well_sized());
    assert!(PicaTexture::new(TextureFormat::ETC1A4, 8, 8, vec![0; 64]).is_well_sized());
    assert!(PicaTexture::new(TextureFormat::A8, 0, 0, Vec::new()).is_well_sized());
}

#[test]
fn bits_per_pixel_of_every_format() {
    let bits: Vec<u32> = ALL.iter().map(|f| f.bits_per_pixel()).collect();
    assert_eq!(bits, vec![32, 24, 16, 16, 16, 16, 16, 8, 8, 8, 4, 4, 4, 8]);
}

#[test]
fn only_the_etc1_formats_are_block_compressed() {
    for format in ALL.iter() {
        let block = matches!(format, TextureFormat::ETC1 | TextureFormat::ETC1A4);
        assert_eq!(format.is_block_compressed(), block);
    }
}

#[test]
fn packed_size_is_width_times_height_times_bits_over_eight() {
    assert_eq!(TextureFormat::RGBA8888.packed_size(8, 8), Some(256));
    assert_eq!(TextureFormat::RGB888.packed_size(8, 8), Some(192));
    assert_eq!(TextureFormat::RGBA5551.packed_size(16, 8), Some(256));
    assert_eq!(TextureFormat::RGB565.packed_size(16, 8), Some(256));
    assert_eq!(TextureFormat::RGBA4444.packed_size(8, 16), Some(256));
    assert_eq!(TextureFormat::LA88.packed_size(8, 8), Some(128));
    assert_eq!(TextureFormat::HL8.packed_size(8, 8), Some(128));
    assert_eq!(TextureFormat::L8.packed_size(8, 8), Some(64));
    assert_eq!(TextureFormat::A8.packed_size(8, 8), Some(64));
    assert_eq!(TextureFormat::LA44.packed_size(8, 8), Some(64));
    assert_eq!(TextureFormat::L4.packed_size(8, 8), Some(32));
    assert_eq!(TextureFormat::A4.packed_size(8, 8), Some(32));
    assert_eq!(TextureFormat::RGBA8888.packed_size(1024, 1024), Some(4 * 1024 * 1024));
    assert_eq!(TextureFormat::L4.packed_size(1024, 1024), Some(512 * 1024));
}

#[test]
fn packed_size_rounds_the_4_bit_formats_up() {
    assert_eq!(TextureFormat::L4.packed_size(3, 3), Some(5));
    assert_eq!(TextureFormat::A4.packed_size(1, 1), Some(1));
    assert_eq!(TextureFormat::L4.packed_size(0, 5), Some(0));
}

#[test]
fn packed_size_of_block_formats_counts_whole_tiles() {
    assert_eq!(TextureFormat::ETC1.packed_size(8, 8), Some(32));
    assert_eq!(TextureFormat::ETC1A4.packed_size(8, 8), Some(64));
    assert_eq!(TextureFormat::ETC1.packed_size(16, 16), Some(128));
    assert_eq!(TextureFormat::ETC1.packed_size(5, 5), Some(32));
    assert_eq!(TextureFormat::ETC1A4.packed_size(9, 8), Some(128));
    assert_eq!(TextureFormat::ETC1.packed_size(0, 8), Some(0));
}

#[test]
fn names_are_capitalised_words() {
    let names: Vec<&str> = ALL.iter().map(|f| f.name()).collect();
    assert_eq!(
        names,
        vec![
            "Rgba8888", "Rgb888", "Rgba5551", "Rgb565", "Rgba4444", "La88", "Hl8", "L8", "A8",
            "La44", "L4", "A4", "Etc1", "Etc1_a4"
        ]
    );
}

#[test]
fn every_name_reads_back_as_its_format() {
    for format in ALL.iter() {
        assert_eq!(TextureFormat::from_name(format.name()), Some(*format));
    }
}

#[test]
fn names_are_read_without_regard_to_case_and_underscores() {
    assert_eq!(TextureFormat::from_name("rgba8888"), Some(TextureFormat::RGBA8888));
    assert_eq!(TextureFormat::from_name("RGBA_8888"), Some(TextureFormat::RGBA8888));
    assert_eq!(TextureFormat::from_name("Etc1_a4"), Some(TextureFormat::ETC1A4));
    assert_eq!(TextureFormat::from_name("ETC1A4"), Some(TextureFormat::ETC1A4));
    assert_eq!(TextureFormat::from_name("_e_t_c_1_"), Some(TextureFormat::ETC1));
    assert_eq!(TextureFormat::from_name("hl8"), Some(TextureFormat::HL8));
}

#[test]
fn unknown_names_give_no_format() {
    assert_eq!(TextureFormat::from_name(""), None);
    assert_eq!(TextureFormat::from_name("Rgba"), None);
    assert_eq!(TextureFormat::from_name("Rgba8888 "), None);
    assert_eq!(TextureFormat::from_name("Etc2"), None);
    assert_eq!(TextureFormat::from_name("L-8"), None);
}

#[test]
fn tags_are_read_exactly() {
    assert_eq!(TextureFormat::from_tag(&"LA44".to_string()), Some(TextureFormat::LA44));
    assert_eq!(TextureFormat::from_tag(&"La44".to_string()), None);
    assert_eq!(TextureFormat::from_tag(&"ETC1_A4".to_string()), None);
}

#[test]
fn errors_describe_themselves() {
    assert_eq!(
        CodecError::UnsupportedFormat.message(),
        "Decoding for the specified format is not implemented yet"
    );
    assert_eq!(
        CodecError::SizeMismatch.message(),
        "Failed to construct ImageBuffer from raw data"
    );
}
