use vstd::prelude::*;
use crate::pica_texture::util::tiles_across;

verus! {

/// The packed texture layouts of the PICA200.
#[derive(Clone, Copy, Debug, PartialEq, Eq, Structural)]
pub enum TextureFormat {
    RGBA8888,
    RGB888,
    RGBA5551,
    RGB565,
    RGBA4444,
    LA88,
    HL8,
    L8,
    A8,
    LA44,
    L4,
    A4,
    ETC1,
    ETC1A4,
}

impl TextureFormat {
    /// Bits that one pixel takes in the packed data.
    pub open spec fn spec_bits_per_pixel(&self) -> u32 {
        match self {
            TextureFormat::RGBA8888 => 32,
            TextureFormat::RGB888 => 24,
            TextureFormat::RGBA5551 => 16,
            TextureFormat::RGB565 => 16,
            TextureFormat::RGBA4444 => 16,
            TextureFormat::LA88 => 16,
            TextureFormat::HL8 => 16,
            TextureFormat::L8 => 8,
            TextureFormat::A8 => 8,
            TextureFormat::LA44 => 8,
            TextureFormat::L4 => 4,
            TextureFormat::A4 => 4,
            TextureFormat::ETC1 => 4,
            TextureFormat::ETC1A4 => 8,
        }
    }

    /// Bits that one pixel takes in the packed data.
    #[verifier::when_used_as_spec(spec_bits_per_pixel)]
    pub fn bits_per_pixel(&self) -> (bits: u32)
        ensures
            bits == self.spec_bits_per_pixel(),
    {
        match self {
            TextureFormat::RGBA8888 => 32,
            TextureFormat::RGB888 => 24,
            TextureFormat::RGBA5551 => 16,
            TextureFormat::RGB565 => 16,
            TextureFormat::RGBA4444 => 16,
            TextureFormat::LA88 => 16,
            TextureFormat::HL8 => 16,
            TextureFormat::L8 => 8,
            TextureFormat::A8 => 8,
            TextureFormat::LA44 => 8,
            TextureFormat::L4 => 4,
            TextureFormat::A4 => 4,
            TextureFormat::ETC1 => 4,
            TextureFormat::ETC1A4 => 8,
        }
    }

    /// Whether the format stores 4x4 blocks from the block compressor.
    pub open spec fn spec_is_block_compressed(&self) -> bool {
        *self == TextureFormat::ETC1 || *self == TextureFormat::ETC1A4
    }

    /// Whether the format stores 4x4 blocks from the block compressor.
    #[verifier::when_used_as_spec(spec_is_block_compressed)]
    pub fn is_block_compressed(&self) -> (compressed: bool)
        ensures
            compressed == self.spec_is_block_compressed(),
    {
        match self {
            TextureFormat::ETC1 => true,
            TextureFormat::ETC1A4 => true,
            _ => false,
        }
    }

    /// Length in bytes of `pixels` pixels, or of `pixels / 64` tiles, in the
    /// packed data: `pixels * bits_per_pixel / 8`, rounded up.
    pub open spec fn bytes_for(&self, pixels: nat) -> nat {
        match self {
            TextureFormat::RGBA8888 => 4 * pixels,
            TextureFormat::RGB888 => 3 * pixels,
            TextureFormat::RGBA5551 => 2 * pixels,
            TextureFormat::RGB565 => 2 * pixels,
            TextureFormat::RGBA4444 => 2 * pixels,
            TextureFormat::LA88 => 2 * pixels,
            TextureFormat::HL8 => 2 * pixels,
            TextureFormat::L8 => pixels,
            TextureFormat::A8 => pixels,
            TextureFormat::LA44 => pixels,
            TextureFormat::L4 => (pixels + 1) / 2,
            TextureFormat::A4 => (pixels + 1) / 2,
            TextureFormat::ETC1 => (pixels + 1) / 2,
            TextureFormat::ETC1A4 => pixels,
        }
    }

    /// Length in bytes of the packed data of a `width` by `height` texture.
    /// Pixel formats store the pixels of the image one after another; block
    /// formats store the whole 8x8 tiles that cover the image.
    pub open spec fn packed_len(&self, width: nat, height: nat) -> nat {
        if self.spec_is_block_compressed() {
            self.bytes_for(tiles_across(width) * tiles_across(height) * 64)
        } else {
            self.bytes_for(width * height)
        }
    }

    /// `packed_len` as a machine integer, where it fits.
    pub fn packed_size(&self, width: u32, height: u32) -> (size: Option<usize>)
        ensures
            size is Some <==> self.packed_len(width as nat, height as nat) <= usize::MAX,
            size matches Some(n) ==> n == self.packed_len(width as nat, height as nat),
    {
        let bits: u128 = self.bits_per_pixel() as u128;
        let pixels: u128 = if self.is_block_compressed() {
            let tx: u128 = (width as u128 + 7) / 8;
            let ty: u128 = (height as u128 + 7) / 8;
            assert(tx * ty <= 0x2000_0000 * 0x2000_0000) by (nonlinear_arith)
                requires
                    0 <= tx <= 0x2000_0000,
                    0 <= ty <= 0x2000_0000,
            ;
            tx * ty * 64
        } else {
            assert(width * height <= 0xffff_ffff * 0xffff_ffff) by (nonlinear_arith)
                requires
                    0 <= width <= 0xffff_ffff,
                    0 <= height <= 0xffff_ffff,
            ;
            width as u128 * height as u128
        };
        let total: u128 = (pixels * bits + 7) / 8;
        if total <= usize::MAX as u128 {
            Some(total as usize)
        } else {
            None
        }
    }
}

/// The text that `str::to_uppercase` returns for a text.
pub uninterp spec fn uppercased(text: Seq<char>) -> Seq<char>;

/// A text without its underscores.
pub open spec fn without_underscores(text: Seq<char>) -> Seq<char> {
    text.filter(|c: char| c != '_')
}

/// Calls `str::replace` to take every underscore out of a text. Trusted:
/// the result is the text with the underscores left out and nothing else
/// changed.
#[verifier::external_body]
fn remove_underscores(text: &str) -> (stripped: String)
    ensures
        stripped@ == without_underscores(text@),
{
    text.replace('_', "")
}

/// Calls `str::to_uppercase`. Trusted: the result is what `uppercased`
/// names.
#[verifier::external_body]
fn to_uppercase(text: &str) -> (upper: String)
    ensures
        upper@ == uppercased(text@),
{
    text.to_uppercase()
}

impl TextureFormat {
    /// The name under which the format is written into a container.
    pub open spec fn spec_name(&self) -> Seq<char> {
        match self {
            TextureFormat::RGBA8888 => "Rgba8888"@,
            TextureFormat::RGB888 => "Rgb888"@,
            TextureFormat::RGBA5551 => "Rgba5551"@,
            TextureFormat::RGB565 => "Rgb565"@,
            TextureFormat::RGBA4444 => "Rgba4444"@,
            TextureFormat::LA88 => "La88"@,
            TextureFormat::HL8 => "Hl8"@,
            TextureFormat::L8 => "L8"@,
            TextureFormat::A8 => "A8"@,
            TextureFormat::LA44 => "La44"@,
            TextureFormat::L4 => "L4"@,
            TextureFormat::A4 => "A4"@,
            TextureFormat::ETC1 => "Etc1"@,
            TextureFormat::ETC1A4 => "Etc1_a4"@,
        }
    }

    /// The name under which the format is written into a container.
    pub fn name(&self) -> (name: &'static str)
        ensures
            name@ == self.spec_name(),
    {
        match self {
            TextureFormat::RGBA8888 => "Rgba8888",
            TextureFormat::RGB888 => "Rgb888",
            TextureFormat::RGBA5551 => "Rgba5551",
            TextureFormat::RGB565 => "Rgb565",
            TextureFormat::RGBA4444 => "Rgba4444",
            TextureFormat::LA88 => "La88",
            TextureFormat::HL8 => "Hl8",
            TextureFormat::L8 => "L8",
            TextureFormat::A8 => "A8",
            TextureFormat::LA44 => "La44",
            TextureFormat::L4 => "L4",
            TextureFormat::A4 => "A4",
            TextureFormat::ETC1 => "Etc1",
            TextureFormat::ETC1A4 => "Etc1_a4",
        }
    }

    /// The format that a tag in upper case without underscores stands for.
    pub open spec fn of_tag(tag: Seq<char>) -> Option<TextureFormat> {
        if tag == "RGBA8888"@ {
            Some(TextureFormat::RGBA8888)
        } else if tag == "RGB888"@ {
            Some(TextureFormat::RGB888)
        } else if tag == "RGBA5551"@ {
            Some(TextureFormat::RGBA5551)
        } else if tag == "RGB565"@ {
            Some(TextureFormat::RGB565)
        } else if tag == "RGBA4444"@ {
            Some(TextureFormat::RGBA4444)
        } else if tag == "LA88"@ {
            Some(TextureFormat::LA88)
        } else if tag == "HL8"@ {
            Some(TextureFormat::HL8)
        } else if tag == "L8"@ {
            Some(TextureFormat::L8)
        } else if tag == "A8"@ {
            Some(TextureFormat::A8)
        } else if tag == "LA44"@ {
            Some(TextureFormat::LA44)
        } else if tag == "L4"@ {
            Some(TextureFormat::L4)
        } else if tag == "A4"@ {
            Some(TextureFormat::A4)
        } else if tag == "ETC1"@ {
            Some(TextureFormat::ETC1)
        } else if tag == "ETC1A4"@ {
            Some(TextureFormat::ETC1A4)
        } else {
            None
        }
    }

    /// Reads a tag that is already in upper case and without underscores.
    pub fn from_tag(tag: &String) -> (format: Option<TextureFormat>)
        ensures
            format == TextureFormat::of_tag(tag@),
    {
        if *tag == "RGBA8888".to_owned() {
            Some(TextureFormat::RGBA8888)
        } else if *tag == "RGB888".to_owned() {
            Some(TextureFormat::RGB888)
        } else if *tag == "RGBA5551".to_owned() {
            Some(TextureFormat::RGBA5551)
        } else if *tag == "RGB565".to_owned() {
            Some(TextureFormat::RGB565)
        } else if *tag == "RGBA4444".to_owned() {
            Some(TextureFormat::RGBA4444)
        } else if *tag == "LA88".to_owned() {
            Some(TextureFormat::LA88)
        } else if *tag == "HL8".to_owned() {
            Some(TextureFormat::HL8)
        } else if *tag == "L8".to_owned() {
            Some(TextureFormat::L8)
        } else if *tag == "A8".to_owned() {
            Some(TextureFormat::A8)
        } else if *tag == "LA44".to_owned() {
            Some(TextureFormat::LA44)
        } else if *tag == "L4".to_owned() {
            Some(TextureFormat::L4)
        } else if *tag == "A4".to_owned() {
            Some(TextureFormat::A4)
        } else if *tag == "ETC1".to_owned() {
            Some(TextureFormat::ETC1)
        } else if *tag == "ETC1A4".to_owned() {
            Some(TextureFormat::ETC1A4)
        } else {
            None
        }
    }

    /// Reads the name of a format as a container holds it: underscores are
    /// ignored, and so is the case of the letters.
    pub fn from_name(name: &str) -> (format: Option<TextureFormat>)
        ensures
            format == TextureFormat::of_tag(uppercased(without_underscores(name@))),
    {
        let stripped = remove_underscores(name);
        let normalized = to_uppercase(stripped.as_str());
        TextureFormat::from_tag(&normalized)
    }
}

/// Why a conversion gave no result.
#[derive(Clone, Copy, Debug, PartialEq, Eq, Structural)]
pub enum CodecError {
    /// The codec does not convert this format in this direction.
    UnsupportedFormat,
    /// The length of a buffer does not fit the format and the dimensions.
    SizeMismatch,
}

impl CodecError {
    /// The text that describes the error.
    pub open spec fn spec_message(self) -> Seq<char> {
        match self {
            CodecError::UnsupportedFormat => "Decoding for the specified format is not implemented yet"@,
            CodecError::SizeMismatch => "Failed to construct ImageBuffer from raw data"@,
        }
    }

    /// The text that describes the error.
    pub fn message(&self) -> (text: String)
        ensures
            text@ == self.spec_message(),
    {
        match self {
            CodecError::UnsupportedFormat => "Decoding for the specified format is not implemented yet".to_owned(),
            CodecError::SizeMismatch => "Failed to construct ImageBuffer from raw data".to_owned(),
        }
    }
}

/// What a texture record holds, as plain values.
pub struct TextureModel {
    pub format: TextureFormat,
    pub width: u32,
    pub height: u32,
    pub data: Seq<u8>,
}

impl TextureModel {
    /// The data has the packed length that format and dimensions imply.
    pub open spec fn well_sized(self) -> bool {
        self.data.len() == self.format.packed_len(self.width as nat, self.height as nat)
    }
}

/// A texture record: format, dimensions and packed bytes.
pub struct PicaTexture {
    format: TextureFormat,
    width: u32,
    height: u32,
    data: Vec<u8>,
}

impl View for PicaTexture {
    type V = TextureModel;

    closed spec fn view(&self) -> TextureModel {
        TextureModel {
            format: self.format,
            width: self.width,
            height: self.height,
            data: self.data@,
        }
    }
}

impl PicaTexture {
    pub fn new(format: TextureFormat, width: u32, height: u32, data: Vec<u8>) -> (texture: Self)
        ensures
            texture@ == (TextureModel { format, width, height, data: data@ }),
    {
        Self { format, width, height, data }
    }

    pub fn data(&self) -> (bytes: &[u8])
        ensures
            bytes@ == self@.data,
    {
        self.data.as_slice()
    }

    pub fn width(&self) -> (width: u32)
        ensures
            width == self@.width,
    {
        self.width
    }

    pub fn height(&self) -> (height: u32)
        ensures
            height == self@.height,
    {
        self.height
    }

    pub fn dimensions(&self) -> (dims: (u32, u32))
        ensures
            dims == (self@.width, self@.height),
    {
        (self.width, self.height)
    }

    pub fn format(&self) -> (format: &TextureFormat)
        ensures
            *format == self@.format,
    {
        &self.format
    }

    /// Whether the data has the packed length that format and dimensions imply.
    pub fn is_well_sized(&self) -> (ok: bool)
        ensures
            ok == self@.well_sized(),
    {
        let size = self.format.packed_size(self.width, self.height);
        let len = self.data.len();
        match size {
            Some(n) => len == n,
            None => false,
        }
    }
}

} // verus!
