pub mod asset;
pub mod stream;
