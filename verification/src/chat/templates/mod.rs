//! Chat templates of particular model families.
pub mod smollm2;

pub use smollm2::SmolLm2Template;
