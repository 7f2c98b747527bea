//! Injecting by the stub's object format.

use vstd::prelude::*;

use crate::bytes::{le16, le32, same_bytes, u32_at};
use crate::inject::elf::{elf_injected, inject_elf};
use crate::inject::error::InjectError;
use crate::inject::macho::{inject_macho, macho_injected};
use crate::inject::pe::{inject_pe, pe_injected};
use crate::section::{dos_magic, elf_magic, MH_MAGIC_64};

verus! {

/// A 64-bit little-endian Mach-O image.
pub open spec fn is_macho(s: Seq<u8>) -> bool {
    s.len() >= 4 && le32(s, 0) == MH_MAGIC_64
}

/// An ELF image.
pub open spec fn is_elf(s: Seq<u8>) -> bool {
    s.len() >= 4 && s.take(4) == elf_magic()
}

/// A PE image.
pub open spec fn is_pe(s: Seq<u8>) -> bool {
    s.len() >= 2 && s.take(2) == dos_magic()
}

/// The stub with the section injected, by its object format, or why it is refused.
pub open spec fn injected(stub: Seq<u8>, body: Seq<u8>) -> Result<Seq<u8>, InjectError> {
    if is_macho(stub) {
        macho_injected(stub, body)
    } else if is_elf(stub) {
        elf_injected(stub, body)
    } else if is_pe(stub) {
        pe_injected(stub, body)
    } else {
        Err(InjectError::UnknownFormat)
    }
}

/// Whether an image is a 64-bit little-endian Mach-O.
pub fn has_macho_magic(image: &[u8]) -> (r: bool)
    ensures
        r == is_macho(image@),
{
    match u32_at(image, 0, 0) {
        Some(magic) => magic == MH_MAGIC_64,
        None => false,
    }
}

/// Whether an image is an ELF one.
fn has_elf_magic(image: &[u8]) -> (r: bool)
    ensures
        r == is_elf(image@),
{
    if image.len() < 4 {
        return false;
    }
    let magic = vec![0x7fu8, 0x45, 0x4c, 0x46];
    let head = vstd::slice::slice_subrange(image, 0, 4);
    assert(magic@ =~= elf_magic());
    assert(head@ =~= image@.take(4));
    same_bytes(head, magic.as_slice())
}

/// Whether an image is a PE one.
fn has_dos_magic(image: &[u8]) -> (r: bool)
    ensures
        r == is_pe(image@),
{
    if image.len() < 2 {
        return false;
    }
    let magic = vec![0x4du8, 0x5a];
    let head = vstd::slice::slice_subrange(image, 0, 2);
    assert(magic@ =~= dos_magic());
    assert(head@ =~= image@.take(2));
    same_bytes(head, magic.as_slice())
}

/// Adds the section with this body to a stub.
pub fn inject(stub: &[u8], section_body: &[u8]) -> (r: Result<Vec<u8>, InjectError>)
    ensures
        match injected(stub@, section_body@) {
            Err(e) => r == Err::<Vec<u8>, InjectError>(e),
            Ok(image) => r matches Ok(v) && v@ == image,
        },
{
    if has_macho_magic(stub) {
        inject_macho(stub, section_body)
    } else if has_elf_magic(stub) {
        inject_elf(stub, section_body)
    } else if has_dos_magic(stub) {
        inject_pe(stub, section_body)
    } else {
        Err(InjectError::UnknownFormat)
    }
}

/// Adds the section with this body to a prebuilt stub. A Mach-O result is unsigned;
/// ELF and PE images need no signature.
pub fn inject_decmpfs(stub: &[u8], section_body: &[u8]) -> (r: Result<Vec<u8>, String>)
    ensures
        match injected(stub@, section_body@) {
            Err(e) => r matches Err(message) && message@ == e.text(),
            Ok(image) => r matches Ok(v) && v@ == image,
        },
{
    match inject(stub, section_body) {
        Ok(image) => Ok(image),
        Err(e) => Err(e.message()),
    }
}

/// The first bytes of a stub decide how it is injected into; what starts otherwise is
/// refused for its format.
pub proof fn law_injects_by_first_bytes(stub: Seq<u8>, body: Seq<u8>)
    ensures
        ({
            let macho = stub.len() >= 4 && stub[0] == 0xcf && stub[1] == 0xfa && stub[2] == 0xed
                && stub[3] == 0xfe;
            let elf = stub.len() >= 4 && stub[0] == 0x7f && stub[1] == 0x45 && stub[2] == 0x4c
                && stub[3] == 0x46;
            let pe = stub.len() >= 2 && stub[0] == 0x4d && stub[1] == 0x5a;
            &&& is_macho(stub) <==> macho
            &&& macho ==> injected(stub, body) == macho_injected(stub, body)
            &&& elf ==> injected(stub, body) == elf_injected(stub, body)
            &&& pe ==> injected(stub, body) == pe_injected(stub, body)
            &&& !macho && !elf && !pe ==> injected(stub, body) == Err::<Seq<u8>, InjectError>(
                InjectError::UnknownFormat,
            )
        }),
{
    reveal(le32);
    reveal(le16);
    if stub.len() >= 4 {
        let head = stub.take(4);
        assert(head[0] == stub[0] && head[1] == stub[1] && head[2] == stub[2] && head[3]
            == stub[3]);
        if stub[0] == 0x7f && stub[1] == 0x45 && stub[2] == 0x4c && stub[3] == 0x46 {
            assert(head =~= elf_magic());
        }
    }
    if stub.len() >= 2 {
        let head = stub.take(2);
        assert(head[0] == stub[0] && head[1] == stub[1]);
        if stub[0] == 0x4d && stub[1] == 0x5a {
            assert(head =~= dos_magic());
        }
    }
}

} // verus!
