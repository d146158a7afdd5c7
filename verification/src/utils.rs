//! Capabilities the core consumes through narrow interfaces: the content
//! digest and the lossless byte-stream compression.

pub mod compress;
pub mod hash;
