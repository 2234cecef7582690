pub mod decode;
pub mod encode;
pub mod etc1;
pub mod pixel;
pub mod raster;
pub mod roundtrip;
pub mod types;
pub mod util;
pub mod visible;

pub use raster::RasterImage;
pub use raster::Rgba;
pub use types::PicaTexture;
pub use types::TextureFormat;
pub use types::CodecError;

pub use decode::decode_texture;
pub use encode::encode_texture;
