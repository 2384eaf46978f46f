pub mod llama;
pub mod safetensors;
