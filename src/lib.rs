//! Normalisation of Korean text: a pipeline of character-level stages that
//! filter disallowed characters, cap repeated characters, collapse
//! whitespace and decompose Hangul syllables into compatibility jamo.
pub mod filter;
pub mod jamo;
pub mod pipeline;
pub mod repeat;
pub mod text;
pub mod whitespace;

pub use filter::control_chars;
pub use jamo::hangul_to_jamo;
pub use pipeline::{normalize, NormalizeConfig};
pub use repeat::derepeat;
pub use whitespace::whitespace_less;
