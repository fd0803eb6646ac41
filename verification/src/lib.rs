//! A compact binary encoding runtime: values (booleans, fixed-width integers,
//! text and sequences, plus user composites) are written to and read back from
//! flat byte buffers, with a probing pass that measures and bounds the length
//! a decode would consume before any value is materialized.

pub mod buffer_generator_charset;
pub mod compare;
pub mod error;
pub mod generate;
pub mod laws;
pub mod pairs;
pub mod scalars;
pub mod seqs;
pub mod tampon;
pub mod text;
pub mod wipe;
pub mod wire;

pub use buffer_generator_charset::validate_charset;
pub use compare::compare_buffers;
pub use error::TamponError;
pub use generate::{buffer_charset_valid, generate_buffer, generate_charset_range};
pub use seqs::{LenType, bytes_size_seq, deserialize_seq, deserialize_size_seq, serialize_seq};
pub use tampon::{Tampon, buffer, bytes_size, deserialize, deserialize_size, serialize};
pub use wipe::wipe_buffer;
