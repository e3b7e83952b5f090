//! Framing: the header of a container, and an entry as a four-byte tag, the
//! entry's size and the payload.

use crate::endian::{be_bytes, be_value, read_u32, write_u32};
use crate::error::IcnsError;
use vstd::prelude::*;
use vstd::slice::slice_subrange;

verus! {

/// The bytes of an entry header: tag and size field.
pub const HEADER_LEN: usize = 8;

/// The longest payload that an entry can frame: with the header, its length
/// must fit the 32-bit size field.
pub const MAX_PAYLOAD: usize = 0xffff_fff7;

/// Magic bytes that denote an icns file. These bytes appear at index 0.
pub const ICONSET_MAGIC: &'static str = "icns";

/// The magic bytes as they stand in a container.
pub open spec fn magic() -> Seq<u8> {
    seq![0x69u8, 0x63u8, 0x6eu8, 0x73u8]
}

/// A container around `body`: the magic, the length of the whole container as
/// a big-endian integer, and the entries.
pub open spec fn container_bytes(body: Seq<u8>) -> Seq<u8> {
    magic() + be_bytes((body.len() + 8) as u32) + body
}

/// An entry as it stands in a container: the tag, the length of the whole entry
/// (header included) as a big-endian integer, and the payload.
pub open spec fn entry_bytes(tag: Seq<u8>, payload: Seq<u8>) -> Seq<u8> {
    tag + be_bytes((payload.len() + 8) as u32) + payload
}

/// Appends the entry for `tag` and `payload` to `out`.
pub fn write_entry(tag: &[u8], payload: &[u8], out: &mut Vec<u8>)
    requires
        tag@.len() == 4,
        payload@.len() <= MAX_PAYLOAD,
    ensures
        final(out)@ == old(out)@ + entry_bytes(tag@, payload@),
{
    let size: u32 = (payload.len() + HEADER_LEN) as u32;
    let field = write_u32(size);
    out.extend_from_slice(tag);
    out.extend_from_slice(field.as_slice());
    out.extend_from_slice(payload);
    assert(out@ == old(out)@ + entry_bytes(tag@, payload@));
}

/// Reads the tag and the declared size that open `input`. The size counts the
/// header itself, so the payload that follows is `size - 8` bytes long.
pub fn read_entry_header(input: &[u8]) -> (header: Result<(&[u8], u32), IcnsError>)
    ensures
        input@.len() < 8 ==> header == Err::<(&[u8], u32), IcnsError>(IcnsError::TruncatedStream),
        input@.len() >= 8 ==> header is Ok && header->Ok_0.0@ == input@.subrange(0, 4)
            && header->Ok_0.1 == be_value(input@.subrange(4, 8)),
{
    if input.len() < HEADER_LEN {
        return Err(IcnsError::TruncatedStream);
    }
    let tag = slice_subrange(input, 0, 4);
    let field = slice_subrange(input, 4, 8);
    let size: u32 = read_u32(field);
    Ok((tag, size))
}

} // verus!
