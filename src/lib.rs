//! Reading, merging and writing EXIF metadata held in TIFF image file
//! directories and JPEG APP1 segments.
pub mod bytes;
pub mod tags;
pub mod codec;
pub mod container;
pub mod merge;
pub mod readout;
pub mod file_types;
pub mod utils;
pub mod processors;
pub mod models;
pub mod exif_tags;
pub mod exif_manager;
pub mod file_selector;
pub mod prompts;
pub mod config;
pub mod cli;
pub mod dates;
pub mod iptc;
