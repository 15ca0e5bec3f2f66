//! A reader for the binary container that describes a rank-1 constraint system.
//!
//! The container is a magic tag, a version and a table of typed, length-prefixed
//! sections. The reader scans the section table first, then decodes the header
//! section and the constraints section wherever they lie in the file. Coefficients
//! are elements of the scalar field of BLS12-381.

pub mod bytes;
pub mod decode;
pub mod document;
pub mod error;
pub mod field;
pub mod laws;
pub mod model;
pub mod scanner;
pub mod text;

pub use crate::document::R1CS;
pub use crate::error::ParseError;
pub use crate::field::Fr;
pub use crate::model::{R1CSConstraint, R1CSHeader, Term};
pub use crate::scanner::SectionInfo;
