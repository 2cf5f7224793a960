//! G-code and vector toolpath interchange: a streaming G-code tokenizer, a
//! layer builder that rebuilds per-height paths, a contour splitter, and
//! writers for G-code text, SVG path data and ILDA laser frames.

pub mod text;
pub mod number;
pub mod parser;
pub mod path;
pub mod handler;
pub mod bytes;
pub mod ild;
pub mod writer;
pub mod round_trip;
pub mod sampler;
pub mod colors;
