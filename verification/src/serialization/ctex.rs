use vstd::prelude::*;
use base64::engine::general_purpose::STANDARD;
use base64::DecodeError;
use base64::Engine;
use crate::pica_texture::types::PicaTexture;
use crate::pica_texture::types::TextureFormat;

verus! {

/// The error of the `base64` crate's decoder.
#[verifier::external_type_specification]
#[verifier::external_body]
pub struct ExDecodeError(DecodeError);

/// The text that the standard base64 engine, with padding, encodes bytes
/// to.
pub uninterp spec fn base64_text(data: Seq<u8>) -> Seq<char>;

/// The bytes that the standard base64 engine decodes a text to, where it
/// accepts the text.
pub uninterp spec fn base64_bytes(text: Seq<char>) -> Option<Seq<u8>>;

/// Whether the base64 text of `len` bytes has a length that fits in memory:
/// four characters for every three bytes, the last group padded.
pub open spec fn base64_fits(len: nat) -> bool {
    4 * ((len + 2) / 3) <= usize::MAX
}

/// Calls `Engine::encode` on the standard engine. Trusted: the result is
/// what `base64_text` names. The call panics where the length of the text
/// overflows, which `requires` leaves out.
#[verifier::external_body]
fn base64_encode(data: &[u8]) -> (text: String)
    requires
        base64_fits(data@.len()),
    ensures
        text@ == base64_text(data@),
{
    STANDARD.encode(data)
}

/// Calls `Engine::decode` on the standard engine. Trusted: the call gives
/// bytes exactly where `base64_bytes` names some, and then those.
#[verifier::external_body]
fn base64_decode(text: &str) -> (result: Result<Vec<u8>, DecodeError>)
    ensures
        result is Ok <==> base64_bytes(text@) is Some,
        result matches Ok(data) ==> base64_bytes(text@) == Some(data@),
{
    STANDARD.decode(text)
}

/// Why a container record gave no texture.
#[derive(Debug)]
pub enum CtexError {
    /// The pixel data is not base64 text.
    PixelData(DecodeError),
}

/// The fields of a container file that describe one texture.
pub struct CtexRecord {
    pub version: String,
    pub namespace: String,
    pub name: String,
    pub width: u32,
    pub height: u32,
    pub mipmap_size: u32,
    pub path: String,
    pub encoding: String,
    pub format: TextureFormat,
    pub pixel_data: String,
}

/// Reads the texture out of a container record: the format and the
/// dimensions as the record declares them, and the pixel data decoded from
/// base64.
pub fn deserialize(record: CtexRecord) -> (result: Result<PicaTexture, CtexError>)
    ensures
        match result {
            Ok(texture) => base64_bytes(record.pixel_data@) == Some(texture@.data)
                && texture@.format == record.format && texture@.width == record.width
                && texture@.height == record.height,
            Err(_) => base64_bytes(record.pixel_data@) is None,
        },
{
    match base64_decode(record.pixel_data.as_str()) {
        Ok(data) => Ok(PicaTexture::new(record.format, record.width, record.height, data)),
        Err(e) => Err(CtexError::PixelData(e)),
    }
}

/// Builds the container record of a texture that is to be stored under
/// `filepath`: container version 1.3.0, one mipmap level, the pixel data
/// as base64 text.
pub fn serialize(texture: PicaTexture, filepath: String) -> (record: CtexRecord)
    requires
        base64_fits(texture@.data.len()),
    ensures
        record.version@ == "1.3.0"@,
        record.namespace@ == ""@,
        record.name@ == ""@,
        record.width == texture@.width,
        record.height == texture@.height,
        record.mipmap_size == 1,
        record.path@ == filepath@,
        record.encoding@ == "Base64"@,
        record.format == texture@.format,
        record.pixel_data@ == base64_text(texture@.data),
{
    CtexRecord {
        version: "1.3.0".to_owned(),
        namespace: "".to_owned(),
        name: "".to_owned(),
        width: texture.width(),
        height: texture.height(),
        mipmap_size: 1,
        path: filepath,
        encoding: "Base64".to_owned(),
        format: *texture.format(),
        pixel_data: base64_encode(texture.data()),
    }
}

} // verus!
