//! The failures that encoding and decoding report.

use crate::os_type::OSType;
use vstd::prelude::*;

verus! {

/// Why an encode, a decode or a tag lookup failed.
#[derive(Clone, Copy, Debug, PartialEq, Eq, Structural)]
pub enum IcnsError {
    /// The stream does not start with the four bytes `icns`.
    BadMagic,
    /// The stream ends before a field or a payload that it announces.
    TruncatedStream,
    /// Four bytes that name none of the supported icon types.
    UnrecognizedTag,
    /// The stream is well formed and holds no image entry.
    NoIconsFound,
    /// The image could not be resized or compressed at this resolution.
    EncodeFailure(OSType),
    /// The payload stored under this icon type is not a readable image.
    DecodeFailure(OSType),
}

} // verus!
