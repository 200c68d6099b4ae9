//! Boot-time generator of compressed swap ("zram") units.
//!
//! The library resolves the device configuration against the measured memory
//! and plans the unit files and links to write; the caller performs the plan.
pub mod text;
pub mod meminfo;
pub mod size;
pub mod ini_file;
pub mod config;
pub mod generator;
