pub mod pica_texture;
pub mod serialization;
