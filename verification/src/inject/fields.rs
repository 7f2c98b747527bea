//! Reading the fields that an injection cannot do without.

use vstd::prelude::*;

use crate::bytes::{le16, le32, le64, u16_at, u32_at, u64_at};
use crate::inject::error::InjectError;

verus! {

/// The 16-bit little-endian number at `off`, or that the image is cut short.
pub open spec fn need16(s: Seq<u8>, off: int) -> Result<int, InjectError> {
    if off + 2 <= s.len() {
        Ok(le16(s, off))
    } else {
        Err(InjectError::Truncated { bits: 16, at: off as u64 })
    }
}

/// The 32-bit little-endian number at `off`, or that the image is cut short.
pub open spec fn need32(s: Seq<u8>, off: int) -> Result<int, InjectError> {
    if off + 4 <= s.len() {
        Ok(le32(s, off))
    } else {
        Err(InjectError::Truncated { bits: 32, at: off as u64 })
    }
}

/// The 64-bit little-endian number at `off`, or that the image is cut short.
pub open spec fn need64(s: Seq<u8>, off: int) -> Result<int, InjectError> {
    if off + 8 <= s.len() {
        Ok(le64(s, off))
    } else {
        Err(InjectError::Truncated { bits: 64, at: off as u64 })
    }
}

/// Reads the 16-bit little-endian number at `off`.
pub fn u16_le(bytes: &[u8], off: u64) -> (r: Result<u16, InjectError>)
    ensures
        match need16(bytes@, off as int) {
            Ok(v) => r matches Ok(n) && n == v,
            Err(e) => r == Err::<u16, InjectError>(e),
        },
{
    match u16_at(bytes, off, 0) {
        Some(v) => Ok(v),
        None => Err(InjectError::Truncated { bits: 16, at: off }),
    }
}

/// Reads the 32-bit little-endian number at `off`.
pub fn u32_le(bytes: &[u8], off: u64) -> (r: Result<u32, InjectError>)
    ensures
        match need32(bytes@, off as int) {
            Ok(v) => r matches Ok(n) && n == v,
            Err(e) => r == Err::<u32, InjectError>(e),
        },
{
    match u32_at(bytes, off, 0) {
        Some(v) => Ok(v),
        None => Err(InjectError::Truncated { bits: 32, at: off }),
    }
}

/// Reads the 64-bit little-endian number at `off`.
pub fn u64_le(bytes: &[u8], off: u64) -> (r: Result<u64, InjectError>)
    ensures
        match need64(bytes@, off as int) {
            Ok(v) => r matches Ok(n) && n == v,
            Err(e) => r == Err::<u64, InjectError>(e),
        },
{
    match u64_at(bytes, off, 0) {
        Some(v) => Ok(v),
        None => Err(InjectError::Truncated { bits: 64, at: off }),
    }
}

/// A field is read where the image holds all of it; where it does not, the refusal says how
/// wide it is and where.
pub proof fn law_field_is_there_or_truncated(s: Seq<u8>, off: int)
    requires
        0 <= off <= u64::MAX,
    ensures
        need16(s, off) == if off + 2 <= s.len() {
            Ok(le16(s, off))
        } else {
            Err(InjectError::Truncated { bits: 16, at: off as u64 })
        },
        need32(s, off) == if off + 4 <= s.len() {
            Ok(le32(s, off))
        } else {
            Err(InjectError::Truncated { bits: 32, at: off as u64 })
        },
        need64(s, off) == if off + 8 <= s.len() {
            Ok(le64(s, off))
        } else {
            Err(InjectError::Truncated { bits: 64, at: off as u64 })
        },
{
}

} // verus!
