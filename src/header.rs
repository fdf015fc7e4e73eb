//! The fixed-layout file header.
use vstd::prelude::*;
use crate::cursor::{ByteCursor, FormatError, Step, outcome, u32_at, u64_at};

verus! {

/// The signature `GGUF` read as a little-endian 32-bit value.
pub const MAGIC: u32 = 0x4655_4747;

/// First version whose header stores the tensor count before the metadata count.
pub const SPLIT_LAYOUT_VERSION: u32 = 3;

#[derive(Debug, Clone, Copy, PartialEq, Eq, Structural)]
pub struct FileHeader {
    pub magic: u32,
    pub version: u32,
    pub tensor_count: u64,
    pub metadata_count: u64,
}

/// The header at `p`: magic, version, then two 8-byte counts whose order
/// depends on the version (tensor count first from version 3 on, metadata
/// count first before it).
pub open spec fn header_at(b: Seq<u8>, p: int) -> Step<FileHeader> {
    match u32_at(b, p) {
        Err(e) => Err(e),
        Ok((magic, q)) => if magic != MAGIC {
            Err(FormatError::BadMagic)
        } else {
            match u32_at(b, q) {
                Err(e) => Err(e),
                Ok((version, r)) => match u64_at(b, r) {
                    Err(e) => Err(e),
                    Ok((first, s)) => match u64_at(b, s) {
                        Err(e) => Err(e),
                        Ok((second, t)) => {
                            let (tensor_count, metadata_count) = if version
                                >= SPLIT_LAYOUT_VERSION {
                                (first, second)
                            } else {
                                (second, first)
                            };
                            Ok(
                                (
                                    FileHeader { magic, version, tensor_count, metadata_count },
                                    t,
                                ),
                            )
                        },
                    },
                },
            }
        },
    }
}

/// Decodes the header at the cursor.
pub fn decode_header(cur: &mut ByteCursor) -> (r: Result<FileHeader, FormatError>)
    requires
        old(cur).wf(),
    ensures
        final(cur).wf(),
        final(cur).data@ == old(cur).data@,
        outcome(r, final(cur).pos) == header_at(old(cur).data@, old(cur).pos as int),
        r == Err::<FileHeader, FormatError>(FormatError::BadMagic) ==> final(cur).pos == old(
            cur,
        ).pos + 4,
{
    let magic = cur.read_u32_le()?;
    if magic != MAGIC {
        return Err(FormatError::BadMagic);
    }
    let version = cur.read_u32_le()?;
    let first = cur.read_u64_le()?;
    let second = cur.read_u64_le()?;
    let (tensor_count, metadata_count) = if version >= SPLIT_LAYOUT_VERSION {
        (first, second)
    } else {
        (second, first)
    };
    Ok(FileHeader { magic, version, tensor_count, metadata_count })
}

} // verus!
