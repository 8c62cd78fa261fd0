//! The Palace asset CRC.
//!
//! A `.prp` roster record stores a CRC of its prop blob **excluding** the 12-byte
//! header. The algorithm is a seeded rotate-left-then-XOR byte fold:
//!
//! ```c
//! u32 crc = ASSET_CRC_MAGIC;
//! while (len--) {
//!     crc = (crc << 1) | (crc >> 31);   // rotate left by one bit
//!     crc ^= *p++;
//! }
//! ```

use vstd::prelude::*;

use crate::header::HEADER_LEN;

verus! {

/// Seed value for [`asset_crc`].
pub const ASSET_CRC_MAGIC: u32 = 0xd921_6290;

/// `x` rotated left by one bit.
pub open spec fn rotl1(x: u32) -> u32 {
    ((x << 1u32) | (x >> 31u32)) as u32
}

/// The asset CRC of `data`: the seed folded over every byte, in order.
pub open spec fn spec_asset_crc(data: Seq<u8>) -> u32
    decreases data.len(),
{
    if data.len() == 0 {
        ASSET_CRC_MAGIC
    } else {
        rotl1(spec_asset_crc(data.drop_last())) ^ (data.last() as u32)
    }
}

/// The payload CRC of a blob: the asset CRC of everything after its header.
pub open spec fn spec_payload_crc(blob: Seq<u8>) -> Option<u32> {
    if blob.len() >= HEADER_LEN {
        Some(spec_asset_crc(blob.subrange(HEADER_LEN as int, blob.len() as int)))
    } else {
        None
    }
}

/// Compute the Palace asset CRC of a byte slice.
pub fn asset_crc(data: &[u8]) -> (r: u32)
    ensures
        r == spec_asset_crc(data@),
{
    let mut crc = ASSET_CRC_MAGIC;
    let mut i: usize = 0;
    while i < data.len()
        invariant
            i <= data@.len(),
            crc == spec_asset_crc(data@.subrange(0, i as int)),
        decreases data@.len() - i,
    {
        assert(data@.subrange(0, i as int + 1).drop_last() =~= data@.subrange(0, i as int));
        crc = ((crc << 1u32) | (crc >> 31u32)) ^ (data[i] as u32);
        i = i + 1;
    }
    assert(data@.subrange(0, i as int) =~= data@);
    crc
}

/// Compute the CRC of a prop blob's payload, i.e. everything after the 12-byte
/// header. Returns `None` when the blob is too short to have a payload.
pub fn payload_crc(blob: &[u8]) -> (r: Option<u32>)
    ensures
        r == spec_payload_crc(blob@),
{
    if blob.len() >= HEADER_LEN {
        Some(asset_crc(&blob[HEADER_LEN..blob.len()]))
    } else {
        None
    }
}

} // verus!
