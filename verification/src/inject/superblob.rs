//! The signature that an image carries: a blob of blobs, each in a slot of its own.

use vstd::prelude::*;

use crate::bytes::{be32, u32_be_at};

verus! {

/// What a signature starts with.
pub const CSMAGIC_EMBEDDED_SIGNATURE: u32 = 0xfade_0cc0;

/// What a code directory starts with.
pub const CSMAGIC_CODEDIRECTORY: u32 = 0xfade_0c02;

/// The slot of the code directory.
pub const CSSLOT_CODEDIRECTORY: u32 = 0;

/// The slot of the entitlements.
pub const CSSLOT_ENTITLEMENTS: u32 = 5;

/// The first slot of a constraint.
pub const CSSLOT_LAUNCH_CONSTRAINT_SELF: u32 = 8;

/// The last slot of a constraint.
pub const CSSLOT_LIBRARY_CONSTRAINT: u32 = 11;

/// The first version of a code directory with a team.
pub const CD_SUPPORTS_TEAM: u32 = 0x2_0200;

/// A code directory whose identifier, team and digests lie inside of it. Its page
/// size is a power of two, of which it has the exponent.
pub open spec fn directory_fits(b: Seq<u8>) -> bool {
    &&& b.len() >= 44
    &&& be32(b, 0) == CSMAGIC_CODEDIRECTORY
    &&& b[36] > 0
    &&& b[39] < 32
    &&& be32(b, 20) <= b.len()
    &&& be32(b, 8) >= CD_SUPPORTS_TEAM && b.len() >= 52 ==> be32(b, 48) <= b.len()
    &&& be32(b, 16) + be32(b, 28) * b[36] <= b.len()
    &&& be32(b, 24) * b[36] <= be32(b, 16)
}

/// Where blob `i` of `count` has to end: where the next one starts.
pub open spec fn blob_end(d: Seq<u8>, count: int, i: int) -> int {
    if i + 1 < count {
        be32(d, 8 * i + 24)
    } else {
        d.len() as int
    }
}

/// Blob `i` of `count` lies in front of the next one. It holds neither entitlements nor
/// a constraint, and where it is in the slot of a code directory, and as long as it says,
/// it is one. Entitlements and constraints are property lists, which are read and written
/// anew; their writer panics on a date outside of the years from 0 to 9999.
pub open spec fn blob_fits(d: Seq<u8>, count: int, i: int) -> bool {
    let slot = be32(d, 8 * i + 12);
    let off = be32(d, 8 * i + 16);
    let end = blob_end(d, count, i);
    &&& off <= end <= d.len()
    &&& slot != CSSLOT_ENTITLEMENTS
    &&& !(CSSLOT_LAUNCH_CONSTRAINT_SELF <= slot <= CSSLOT_LIBRARY_CONSTRAINT)
    &&& slot == CSSLOT_CODEDIRECTORY && off + 8 <= end && off + be32(d, off + 4) <= end
        ==> directory_fits(d.subrange(off, off + be32(d, off + 4)))
}

/// A signature whose blobs lie inside of it, or what is none.
pub open spec fn signature_fits(d: Seq<u8>) -> bool {
    d.len() < 12 || be32(d, 0) != CSMAGIC_EMBEDDED_SIGNATURE || {
        let count = be32(d, 8);
        &&& 12 + 8 * count <= d.len()
        &&& forall|i: int| 0 <= i < count ==> #[trigger] blob_fits(d, count, i)
    }
}

/// Whether a code directory's parts lie inside of it.
fn take_directory(b: &[u8]) -> (r: bool)
    requires
        b@.len() <= u32::MAX,
    ensures
        r == directory_fits(b@),
{
    let len: u64 = b.len() as u64;
    if len < 44 {
        return false;
    }
    let (magic, version, digests, ident): (u32, u32, u32, u32) = match (
        u32_be_at(b, 0, 0),
        u32_be_at(b, 8, 0),
        u32_be_at(b, 16, 0),
        u32_be_at(b, 20, 0),
    ) {
        (Some(magic), Some(version), Some(digests), Some(ident)) => (
            magic,
            version,
            digests,
            ident,
        ),
        _ => return false,
    };
    let (special, code): (u32, u32) = match (u32_be_at(b, 24, 0), u32_be_at(b, 28, 0)) {
        (Some(special), Some(code)) => (special, code),
        _ => return false,
    };
    let size: u8 = b[36];
    assert(0 <= code * size <= 0xffff_ffff * 0xff) by (nonlinear_arith)
        requires
            0 <= code <= 0xffff_ffff,
            0 <= size <= 0xff,
    ;
    assert(0 <= special * size <= 0xffff_ffff * 0xff) by (nonlinear_arith)
        requires
            0 <= special <= 0xffff_ffff,
            0 <= size <= 0xff,
    ;
    if magic != CSMAGIC_CODEDIRECTORY || size == 0 || b[39] >= 32 || ident as u64 > len {
        return false;
    }
    if version >= CD_SUPPORTS_TEAM {
        if let Some(team) = u32_be_at(b, 48, 0) {
            if team as u64 > len {
                return false;
            }
        }
    }
    digests as u64 + code as u64 * size as u64 <= len && special as u64 * size as u64
        <= digests as u64
}

/// Whether blob `i` of `count` fits.
fn take_blob(d: &[u8], count: u64, i: u64) -> (r: bool)
    requires
        i < count,
        12 + 8 * count <= d@.len() <= u32::MAX,
    ensures
        r == blob_fits(d@, count as int, i as int),
{
    let len: u64 = d.len() as u64;
    let (slot, off): (u32, u32) = match (u32_be_at(d, 8 * i, 12), u32_be_at(d, 8 * i, 16)) {
        (Some(slot), Some(off)) => (slot, off),
        _ => return false,
    };
    let end: u64 = if i + 1 < count {
        match u32_be_at(d, 8 * i, 24) {
            Some(next) => next as u64,
            None => return false,
        }
    } else {
        len
    };
    if off as u64 > end || end > len || slot == CSSLOT_ENTITLEMENTS || (slot
        >= CSSLOT_LAUNCH_CONSTRAINT_SELF && slot <= CSSLOT_LIBRARY_CONSTRAINT) {
        return false;
    }
    if slot != CSSLOT_CODEDIRECTORY || off as u64 + 8 > end {
        return true;
    }
    let length: u32 = match u32_be_at(d, off as u64, 4) {
        Some(length) => length,
        None => return false,
    };
    if off as u64 + length as u64 > end {
        return true;
    }
    take_directory(vstd::slice::slice_subrange(d, off as usize, off as usize + length as usize))
}

/// Whether a signature's blobs lie inside of it, or it is none.
pub(crate) fn take_signature(d: &[u8]) -> (r: bool)
    requires
        d@.len() <= u32::MAX,
    ensures
        r == signature_fits(d@),
{
    let len: u64 = d.len() as u64;
    let (magic, count): (u32, u32) = match (u32_be_at(d, 0, 0), u32_be_at(d, 8, 0)) {
        (Some(magic), Some(count)) => (magic, count),
        _ => return true,
    };
    if magic != CSMAGIC_EMBEDDED_SIGNATURE {
        return true;
    }
    if 12 + 8 * count as u64 > len {
        return false;
    }
    let mut i: u64 = 0;
    while i < count as u64
        invariant
            i <= count,
            count == be32(d@, 8),
            be32(d@, 0) == CSMAGIC_EMBEDDED_SIGNATURE,
            12 + 8 * count <= d@.len() <= u32::MAX,
            forall|k: int| 0 <= k < i ==> #[trigger] blob_fits(d@, count as int, k),
        decreases count - i,
    {
        if !take_blob(d, count as u64, i) {
            assert(!blob_fits(d@, count as int, i as int));
            return false;
        }
        i += 1;
    }
    true
}

} // verus!
