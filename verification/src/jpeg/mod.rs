//! JPEG parsing primitives shared by the decoders.

pub mod bitreader;
pub mod canonical;
pub mod dc_chain;
pub mod dc_chain_laws;
pub mod entropy;
pub mod geometry;
pub mod header_laws;
pub mod header_spec;
pub mod headers;
pub mod parser;
pub mod segment_laws;
pub mod unstuff;
pub mod written_blocks;
pub mod written_headers;
pub mod written_scan;
