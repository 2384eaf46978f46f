//! A small LLM runtime library: chat templating, agent decision parsing,
//! document chunking, Llama weight import and the model weight file format.
pub mod agent;
pub mod chat;
pub mod document;
pub mod error;
pub mod generation;
pub mod import;
pub mod model;
pub mod tensor;
pub mod text;
pub mod tokenizer;
pub mod tools;
