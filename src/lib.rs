//! Extraction of the build configuration embedded in a kernel image.
//!
//! The configuration is stored as a gzip stream preceded by a fixed marker.
//! It is either found directly in the image, or inside the image once the
//! image itself has been decompressed with one of several codecs.
pub mod codec;
pub mod error;
pub mod extract;
pub mod lzop;
pub mod matcher;
pub mod pattern;
pub mod scanner;
