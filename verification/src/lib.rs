//! imzip: the verified core of a batch image compressor, resizer and converter.

pub mod batch;
pub mod bytes;
pub mod cli;
pub mod config;
pub mod encoders;
pub mod error;
pub mod metadata;
pub mod paths;
pub mod pipeline;
pub mod report;
pub mod resize;
pub mod text;
pub mod zlib;
