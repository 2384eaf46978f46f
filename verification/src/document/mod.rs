//! Documents and their chunking for retrieval.
pub mod chunk;
pub mod document;
pub mod loader;

pub use chunk::{chunk_document, ChunkConfig, DocumentChunk};
pub use document::Document;
pub use loader::{document_from_text, validate_extension};
