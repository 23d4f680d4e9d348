//! The parallel JPEG entropy decoder's host side.

pub mod assemble;
pub mod assemble_laws;
pub mod binding;
pub mod bitstream;
pub mod coefficients;
pub mod decoder;
pub mod decoder_laws;
pub mod device;
pub mod error;
pub mod extract;
pub mod extract_laws;
pub mod framing_laws;
pub mod huffman_dispatch;
pub mod huffman_driver;
pub mod huffman_run;
pub mod huffman_run_laws;
pub mod idct_run;
pub mod jpeg_framing;
pub mod jpeg_walk;
pub mod kernel_laws;
pub mod offsets;
pub mod phase1_oracle;
pub mod phase2_oracle;
pub mod plain_laws;
pub mod prepared;
pub mod prepared_laws;
pub mod scan_walk_laws;
pub mod schedule;
pub mod symbol_laws;
pub mod written_coefficients;
pub mod written_files;
pub mod written_symbols;
pub mod written_walk;
