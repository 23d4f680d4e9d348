//! The device-independent side of the GPU back ends.

pub mod budget;
pub mod cuda_launch;
pub mod error;
pub mod huffman_params;
pub mod idct_params;
pub mod kernels;
pub mod launch;
pub mod params;
pub mod pipeline_slots;
pub mod recorder;
pub mod scan_params;
pub mod setup;
pub mod spirv;
