//! Encoding and decoding of ICNS icons (Apple Icon Image Format).
//!
//! An ICNS file is a container: the magic `icns`, the total size, and a run of
//! entries, each a four-byte tag, a big-endian size and a payload. This crate
//! packs one source image at every supported resolution into such a container
//! and extracts the largest image from one.

pub mod codec;
pub mod decode;
pub mod encode;
pub mod endian;
pub mod error;
pub mod framing;
pub mod laws;
pub mod os_type;
pub mod raster;

pub use crate::decode::Decoder;
pub use crate::encode::Encoder;
pub use crate::error::IcnsError;
pub use crate::os_type::OSType;
pub use crate::raster::RasterImage;
