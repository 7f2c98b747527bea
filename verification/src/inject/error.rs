//! Why a section could not be injected.

use vstd::prelude::*;
use vstd::string::*;

use crate::text::{decimal, decimal_text};

verus! {

/// Why a section could not be injected into a stub.
#[derive(Debug, Clone, Copy, PartialEq, Eq, Structural)]
pub enum InjectError {
    /// A number of so many bits would reach past the end of the image.
    Truncated { bits: u64, at: u64 },
    /// None of the three object formats.
    UnknownFormat,
    /// Not a 64-bit little-endian Mach-O.
    BadMachMagic,
    /// A load command that is too small, or reaches past the end of the image.
    MalformedCommand { at: u64, cmdsize: u64 },
    /// A Mach-O without a `__LINKEDIT` segment.
    NoLinkedit,
    /// A Mach-O without a mapped section.
    NoMappedSection,
    /// Too little room between the load commands and the first mapped section.
    NoHeaderSlack { slack: u64 },
    /// The code signature lies in front of `__LINKEDIT`.
    SignatureBeforeLinkedit,
    /// Offsets or counts of a Mach-O that contradict one another.
    CorruptLayout,
    /// A 32-bit ELF.
    NotElf64,
    /// A big-endian ELF.
    NotLittleEndian,
    /// Section headers of an unknown size.
    HeaderSize { size: u64 },
    /// An ELF without a section header table.
    NoSectionTable,
    /// The section header table reaches past the end of the image.
    TableOutOfRange,
    /// The section name table reaches past the end of the image.
    NamesOutOfRange,
    /// A PE without its signature.
    BadNtSignature,
    /// A PE with an alignment of zero.
    ZeroAlignment,
    /// No room for one more section header.
    NoSectionSlack,
    /// The new section header reaches past the end of the image.
    HeadersOutOfRange,
    /// The result would not fit into memory.
    TooLarge,
}

impl InjectError {
    /// The error's message.
    pub open spec fn text(self) -> Seq<char> {
        match self {
            InjectError::Truncated { bits, at } => "truncated u"@ + decimal_text(bits as int)
                + " at offset "@ + decimal_text(at as int),
            InjectError::UnknownFormat =>
                "unrecognized stub format: not a 64-bit LE Mach-O, ELF, or PE"@,
            InjectError::BadMachMagic => "not a 64-bit little-endian Mach-O (bad magic)"@,
            InjectError::MalformedCommand { at, cmdsize } => "malformed load command at "@
                + decimal_text(at as int) + " (cmdsize "@ + decimal_text(cmdsize as int) + ")"@,
            InjectError::NoLinkedit => "no __LINKEDIT segment to anchor the new section"@,
            InjectError::NoMappedSection => "no mapped section to bound the header slack"@,
            InjectError::NoHeaderSlack { slack } => "header slack "@ + decimal_text(slack as int)
                + " < 152 bytes for the new segment command; rebuild the stub with -headerpad,0x1000"@,
            InjectError::SignatureBeforeLinkedit =>
                "code signature precedes __LINKEDIT (corrupt layout)"@,
            InjectError::CorruptLayout => "load commands contradict the image (corrupt layout)"@,
            InjectError::NotElf64 =>
                "only 64-bit ELF is supported (32-bit producer is a follow-up)"@,
            InjectError::NotLittleEndian => "only little-endian ELF is supported"@,
            InjectError::HeaderSize { size } => "unexpected ELF64 e_shentsize "@ + decimal_text(
                size as int,
            ) + " (want 64)"@,
            InjectError::NoSectionTable => "ELF has no usable section header table"@,
            InjectError::TableOutOfRange => "section header table out of range"@,
            InjectError::NamesOutOfRange => ".shstrtab out of range"@,
            InjectError::BadNtSignature => "not a PE (bad NT signature)"@,
            InjectError::ZeroAlignment => "zero PE Section/FileAlignment"@,
            InjectError::NoSectionSlack =>
                "no PE header slack for a new section header (needs SizeOfHeaders room)"@,
            InjectError::HeadersOutOfRange => "PE headers reach past the end of the stub"@,
            InjectError::TooLarge => "the result does not fit into memory"@,
        }
    }

    /// The error's message.
    pub fn message(&self) -> (r: String)
        ensures
            r@ == self.text(),
    {
        match *self {
            InjectError::Truncated { bits, at } => {
                let mut s: String = "truncated u".to_owned();
                s.append(decimal(bits).as_str());
                s.append(" at offset ");
                s.append(decimal(at).as_str());
                s
            },
            InjectError::UnknownFormat =>
                "unrecognized stub format: not a 64-bit LE Mach-O, ELF, or PE".to_owned(),
            InjectError::BadMachMagic =>
                "not a 64-bit little-endian Mach-O (bad magic)".to_owned(),
            InjectError::MalformedCommand { at, cmdsize } => {
                let mut s: String = "malformed load command at ".to_owned();
                s.append(decimal(at).as_str());
                s.append(" (cmdsize ");
                s.append(decimal(cmdsize).as_str());
                s.append(")");
                s
            },
            InjectError::NoLinkedit =>
                "no __LINKEDIT segment to anchor the new section".to_owned(),
            InjectError::NoMappedSection =>
                "no mapped section to bound the header slack".to_owned(),
            InjectError::NoHeaderSlack { slack } => {
                let mut s: String = "header slack ".to_owned();
                s.append(decimal(slack).as_str());
                s.append(
                    " < 152 bytes for the new segment command; rebuild the stub with -headerpad,0x1000",
                );
                s
            },
            InjectError::SignatureBeforeLinkedit =>
                "code signature precedes __LINKEDIT (corrupt layout)".to_owned(),
            InjectError::CorruptLayout =>
                "load commands contradict the image (corrupt layout)".to_owned(),
            InjectError::NotElf64 =>
                "only 64-bit ELF is supported (32-bit producer is a follow-up)".to_owned(),
            InjectError::NotLittleEndian => "only little-endian ELF is supported".to_owned(),
            InjectError::HeaderSize { size } => {
                let mut s: String = "unexpected ELF64 e_shentsize ".to_owned();
                s.append(decimal(size).as_str());
                s.append(" (want 64)");
                s
            },
            InjectError::NoSectionTable => "ELF has no usable section header table".to_owned(),
            InjectError::TableOutOfRange => "section header table out of range".to_owned(),
            InjectError::NamesOutOfRange => ".shstrtab out of range".to_owned(),
            InjectError::BadNtSignature => "not a PE (bad NT signature)".to_owned(),
            InjectError::ZeroAlignment => "zero PE Section/FileAlignment".to_owned(),
            InjectError::NoSectionSlack =>
                "no PE header slack for a new section header (needs SizeOfHeaders room)".to_owned(),
            InjectError::HeadersOutOfRange =>
                "PE headers reach past the end of the stub".to_owned(),
            InjectError::TooLarge => "the result does not fit into memory".to_owned(),
        }
    }
}

/// A refusal says what is wrong with the stub, with the numbers that tell where or how much.
pub proof fn law_refusal_says_what_is_wrong(a: u64, b: u64)
    ensures
        (InjectError::Truncated { bits: a, at: b }).text() == "truncated u"@ + decimal_text(
            a as int,
        ) + " at offset "@ + decimal_text(b as int),
        (InjectError::MalformedCommand { at: a, cmdsize: b }).text()
            == "malformed load command at "@ + decimal_text(a as int) + " (cmdsize "@
            + decimal_text(b as int) + ")"@,
        (InjectError::NoHeaderSlack { slack: a }).text() == "header slack "@ + decimal_text(
            a as int,
        )
            + " < 152 bytes for the new segment command; rebuild the stub with -headerpad,0x1000"@,
        (InjectError::HeaderSize { size: a }).text() == "unexpected ELF64 e_shentsize "@
            + decimal_text(a as int) + " (want 64)"@,
        InjectError::UnknownFormat.text()
            == "unrecognized stub format: not a 64-bit LE Mach-O, ELF, or PE"@,
        InjectError::BadMachMagic.text() == "not a 64-bit little-endian Mach-O (bad magic)"@,
        InjectError::NoLinkedit.text() == "no __LINKEDIT segment to anchor the new section"@,
        InjectError::NoMappedSection.text() == "no mapped section to bound the header slack"@,
        InjectError::SignatureBeforeLinkedit.text()
            == "code signature precedes __LINKEDIT (corrupt layout)"@,
        InjectError::NotElf64.text()
            == "only 64-bit ELF is supported (32-bit producer is a follow-up)"@,
        InjectError::NotLittleEndian.text() == "only little-endian ELF is supported"@,
        InjectError::NoSectionTable.text() == "ELF has no usable section header table"@,
        InjectError::TableOutOfRange.text() == "section header table out of range"@,
        InjectError::NamesOutOfRange.text() == ".shstrtab out of range"@,
        InjectError::BadNtSignature.text() == "not a PE (bad NT signature)"@,
        InjectError::ZeroAlignment.text() == "zero PE Section/FileAlignment"@,
        InjectError::NoSectionSlack.text()
            == "no PE header slack for a new section header (needs SizeOfHeaders room)"@,
{
}

} // verus!
