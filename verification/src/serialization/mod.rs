pub mod ctex;
