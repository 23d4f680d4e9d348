//! Host-side logic of a GPU raster back end: JPEG entropy decoding, kernel
//! launch contracts, compositing and colour conversion, and the host image
//! cache.  Every function here is verified; the device calls live in the
//! application crate around it.

pub mod backend;
pub mod bits;
pub mod blit;
pub mod cache;
pub mod clut;
pub mod cmyk;
pub mod composite;
pub mod coverage;
pub mod cuda;
pub mod fill;
pub mod fill_laws;
pub mod jpeg;
pub mod jpeg_decoder;
pub mod text;
