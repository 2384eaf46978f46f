pub mod config;
pub mod weight_codec;
pub mod weights;
pub mod kv_cache;
pub mod quantization;
pub mod layout;
pub mod assembly;
