//! What the file systems say, and what it means.

use vstd::prelude::*;
use vstd::string::*;

use crate::bytes::{append, group_widths, law_little_endian, le32, le32_bytes, le64, le64_bytes,
    lemma_le32_bytes, lemma_le32_same, lemma_le64_bytes, lemma_le64_same, put_u32, put_u64,
    same_bytes, window, zeroed};
use crate::outcome::{Error, IoFailure, IoKind, Support, UnsupportedReason};

verus! {

/// Set in `f_flags` of a local mount on macOS.
pub const MNT_LOCAL: u32 = 0x0000_1000;

/// Set in `st_flags` of a compressed file on macOS.
pub const UF_COMPRESSED: u32 = 0x0000_0020;

/// Set in the inode flags of a compressed file on Linux.
pub const FS_COMPR_FL: i64 = 0x0000_0004;

/// The `f_type` of btrfs.
pub const BTRFS_SUPER_MAGIC: i64 = 0x9123_683E;

/// Set in the flags of an extent that is compressed on disk.
pub const FIEMAP_EXTENT_ENCODED: u32 = 0x0000_0008;

/// Set in the flags of a Windows volume that compresses single files.
pub const FILE_FILE_COMPRESSION: u32 = 0x0000_0010;

/// Set in the attributes of a compressed file on Windows.
pub const FILE_ATTRIBUTE_COMPRESSED: u32 = 0x0000_0800;

/// What is returned in place of attributes where they cannot be read.
pub const INVALID_FILE_ATTRIBUTES: u32 = 0xffff_ffff;

/// What is returned as a low word where a size cannot be read.
pub const INVALID_FILE_SIZE: u32 = 0xffff_ffff;

/// The largest file that decmpfs is used for. Its offsets have 32 bits; this stays
/// well below.
pub const MAX_RAW: u64 = 3_900_000_000;

/// The error number for a file that is too large.
pub const EFBIG: i32 = 27;

/// The head of a decmpfs header.
pub const HEADER_MAGIC: u32 = 0x636d_7066;

/// LZVN blocks in the resource fork.
pub const LZVN_RESOURCE_FORK: u32 = 8;

/// How much raw data a block holds.
pub const BLOCK: usize = 0x1_0000;

/// What an operating system says of the volume that a file is on.
#[derive(Debug)]
pub enum Volume {
    /// The mount flags, and the NUL-padded name of the file system.
    MacOs { f_flags: u32, f_fstypename: Vec<u8> },
    /// The number of the file system.
    Linux { f_type: i64 },
    /// The volume's flags.
    Windows { flags: u32 },
    /// A system without a backend.
    Other,
}

/// What the name and place of a file system on macOS mean: only APFS and HFS+
/// compress, and only a local mount is to be trusted.
pub open spec fn fs_support(is_local: bool, fstype: Seq<u8>) -> Support {
    if !is_local {
        Support::Unsupported(UnsupportedReason::NetworkOrOverlay)
    } else if fstype == seq![0x61u8, 0x70, 0x66, 0x73] || fstype == seq![0x68u8, 0x66, 0x73] {
        Support::Supported
    } else {
        Support::Unsupported(UnsupportedReason::Filesystem)
    }
}

/// What the name and place of a file system on macOS mean.
pub fn classify_fs(is_local: bool, fstype: &[u8]) -> (r: Support)
    ensures
        r == fs_support(is_local, fstype@),
{
    if !is_local {
        return Support::Unsupported(UnsupportedReason::NetworkOrOverlay);
    }
    let apfs = vec![0x61u8, 0x70, 0x66, 0x73];
    assert(apfs@ =~= seq![0x61u8, 0x70, 0x66, 0x73]);
    let hfs = vec![0x68u8, 0x66, 0x73];
    assert(hfs@ =~= seq![0x68u8, 0x66, 0x73]);
    if same_bytes(fstype, apfs.as_slice()) || same_bytes(fstype, hfs.as_slice()) {
        Support::Supported
    } else {
        Support::Unsupported(UnsupportedReason::Filesystem)
    }
}

/// The part of a padded name in front of the first NUL.
pub open spec fn unpadded(name: Seq<u8>) -> Seq<u8>
    decreases name.len(),
{
    if name.len() == 0 || name[0] == 0 {
        seq![]
    } else {
        seq![name[0]] + unpadded(name.skip(1))
    }
}

/// Without a NUL in front of `n`, a padded name starts with `n` bytes of the name.
proof fn lemma_unpadded(name: Seq<u8>, n: int)
    requires
        0 <= n <= name.len(),
        forall|i: int| 0 <= i < n ==> name[i] != 0,
        n == name.len() || name[n] == 0,
    ensures
        unpadded(name) == name.take(n),
    decreases n,
{
    if n > 0 {
        lemma_unpadded(name.skip(1), n - 1);
        assert(name.take(n) =~= seq![name[0]] + name.skip(1).take(n - 1));
    } else {
        assert(name.take(0) =~= seq![]);
    }
}

/// How many bytes lie in front of the first NUL.
fn name_len(name: &[u8]) -> (r: usize)
    ensures
        r <= name@.len(),
        name@.take(r as int) == unpadded(name@),
{
    let mut n: usize = 0;
    while n < name.len() && name[n] != 0
        invariant
            n <= name@.len(),
            forall|i: int| 0 <= i < n ==> name@[i] != 0,
        decreases name@.len() - n,
    {
        n += 1;
    }
    proof {
        lemma_unpadded(name@, n as int);
    }
    n
}

/// Whether a file can be compressed on a volume: on macOS local APFS and HFS+, on
/// Linux btrfs, on Windows what says so.
pub open spec fn volume_support(volume: Volume) -> Support {
    match volume {
        Volume::MacOs { f_flags, f_fstypename } => fs_support(
            f_flags & MNT_LOCAL != 0,
            unpadded(f_fstypename@),
        ),
        Volume::Linux { f_type } => if f_type == BTRFS_SUPER_MAGIC {
            Support::Supported
        } else {
            Support::Unsupported(UnsupportedReason::Filesystem)
        },
        Volume::Windows { flags } => if flags & FILE_FILE_COMPRESSION != 0 {
            Support::Supported
        } else {
            Support::Unsupported(UnsupportedReason::Filesystem)
        },
        Volume::Other => Support::Unsupported(UnsupportedReason::PlatformBuild),
    }
}

/// Whether a file can be compressed on a volume.
pub fn detect(volume: &Volume) -> (r: Support)
    ensures
        r == volume_support(*volume),
{
    match volume {
        Volume::MacOs { f_flags, f_fstypename } => {
            let n: usize = name_len(f_fstypename.as_slice());
            let name = vstd::slice::slice_subrange(f_fstypename.as_slice(), 0, n);
            assert(name@ =~= f_fstypename@.take(n as int));
            classify_fs(*f_flags & MNT_LOCAL != 0, name)
        },
        Volume::Linux { f_type } => if *f_type == BTRFS_SUPER_MAGIC {
            Support::Supported
        } else {
            Support::Unsupported(UnsupportedReason::Filesystem)
        },
        Volume::Windows { flags } => if *flags & FILE_FILE_COMPRESSION != 0 {
            Support::Supported
        } else {
            Support::Unsupported(UnsupportedReason::Filesystem)
        },
        Volume::Other => Support::Unsupported(UnsupportedReason::PlatformBuild),
    }
}

/// Tells whether a file can be compressed, without touching it. A volume that
/// cannot be asked is an error.
pub fn probe(volume: Result<Volume, Error>) -> (r: Result<Support, Error>)
    ensures
        match volume {
            Ok(v) => r == Ok::<Support, Error>(volume_support(v)),
            Err(e) => r == Err::<Support, Error>(e),
        },
{
    match volume {
        Ok(v) => Ok(detect(&v)),
        Err(e) => Err(e),
    }
}

/// What an operating system says of a file's compression.
#[derive(Debug, Clone, Copy)]
pub enum FileFlags {
    /// `st_flags`.
    MacOs(u32),
    /// The inode flags.
    Linux(i64),
    /// The attributes.
    Windows(u32),
    /// A system without a backend.
    Other,
}

/// A file's flags say that it is compressed.
pub open spec fn flagged(flags: FileFlags) -> bool {
    match flags {
        FileFlags::MacOs(st_flags) => st_flags & UF_COMPRESSED != 0,
        FileFlags::Linux(inode_flags) => inode_flags & FS_COMPR_FL != 0,
        FileFlags::Windows(attrs) => attrs & FILE_ATTRIBUTE_COMPRESSED != 0,
        FileFlags::Other => false,
    }
}

/// Whether a file's flags say that it is compressed.
pub fn is_already_compressed(flags: FileFlags) -> (r: bool)
    ensures
        r == flagged(flags),
{
    match flags {
        FileFlags::MacOs(st_flags) => st_flags & UF_COMPRESSED != 0,
        FileFlags::Linux(inode_flags) => inode_flags & FS_COMPR_FL != 0,
        FileFlags::Windows(attrs) => attrs & FILE_ATTRIBUTE_COMPRESSED != 0,
        FileFlags::Other => false,
    }
}

/// The attributes that Windows gave, or its last error where it gave none.
pub fn attributes(attrs: u32, last: IoFailure) -> (r: Result<FileFlags, Error>)
    ensures
        attrs == INVALID_FILE_ATTRIBUTES ==> r == Err::<FileFlags, Error>(
            Error::Io { context: "GetFileAttributesW", source: last },
        ),
        attrs != INVALID_FILE_ATTRIBUTES ==> r == Ok::<FileFlags, Error>(FileFlags::Windows(attrs)),
{
    if attrs == INVALID_FILE_ATTRIBUTES {
        Err(Error::Io { context: "GetFileAttributesW", source: last })
    } else {
        Ok(FileFlags::Windows(attrs))
    }
}

/// Set in the flags of the last extent of a file.
pub const FIEMAP_EXTENT_LAST: u32 = 0x0000_0001;

/// Where to go on asking for a file's extents, given the last one that was mapped: where
/// it starts, its length and its flags. `None` is the end of the file.
pub fn next_extent(last: Option<(u64, u64, u32)>) -> (r: Option<u64>)
    ensures
        match last {
            Some((start, length, flags)) => if flags & FIEMAP_EXTENT_LAST != 0 || length == 0
                || start + length > u64::MAX {
                r is None
            } else {
                r == Some((start + length) as u64)
            },
            None => r is None,
        },
{
    match last {
        Some((start, length, flags)) => if flags & FIEMAP_EXTENT_LAST != 0 || length == 0 {
            None
        } else {
            start.checked_add(length)
        },
        None => None,
    }
}

/// What an operating system says, after compression was applied, of whether it took.
#[derive(Debug)]
pub enum Signal {
    /// `st_flags`: the flag is unambiguous.
    MacOs(u32),
    /// How many extents were mapped, and their flags: the size that is reported is the
    /// logical one, so only the extents tell.
    Linux { mapped: u32, extents: Vec<u32> },
    /// Nothing but the allocation.
    Nothing,
}

/// One of the first `n` extents is compressed.
pub open spec fn any_encoded(extents: Seq<u32>, n: int) -> bool {
    exists|i: int|
        0 <= i < n && i < extents.len() && #[trigger] extents[i] & FIEMAP_EXTENT_ENCODED != 0
}

/// What a signal says of whether compression took.
pub open spec fn signalled(signal: Signal) -> Option<bool> {
    match signal {
        Signal::MacOs(st_flags) => Some(st_flags & UF_COMPRESSED != 0),
        Signal::Linux { mapped, extents } => Some(any_encoded(extents@, mapped as int)),
        Signal::Nothing => None,
    }
}

/// Whether one of the mapped extents is compressed.
fn has_encoded(mapped: u32, extents: &Vec<u32>) -> (r: bool)
    ensures
        r == any_encoded(extents@, mapped as int),
{
    let mut i: usize = 0;
    while i < extents.len() && i < mapped as usize
        invariant
            i <= extents@.len(),
            i <= mapped,
            forall|k: int|
                0 <= k < i ==> #[trigger] extents@[k] & FIEMAP_EXTENT_ENCODED == 0,
        decreases extents@.len() - i,
    {
        if extents[i] & FIEMAP_EXTENT_ENCODED != 0 {
            assert(extents@[i as int] & FIEMAP_EXTENT_ENCODED != 0);
            return true;
        }
        i += 1;
    }
    false
}

/// What a signal says of whether compression took.
pub fn compressed_on_disk(signal: &Signal) -> (r: Option<bool>)
    ensures
        r == signalled(*signal),
{
    match signal {
        Signal::MacOs(st_flags) => Some(*st_flags & UF_COMPRESSED != 0),
        Signal::Linux { mapped, extents } => Some(has_encoded(*mapped, extents)),
        Signal::Nothing => None,
    }
}

/// What an operating system says of a file's allocation. The logical size does not
/// count: transparent compression leaves it as it is.
#[derive(Debug)]
pub enum Allocation {
    /// Blocks of 512 bytes.
    Blocks(u64),
    /// The two words that Windows gave, and its last error.
    Words { low: u32, high: u32, last: IoFailure },
    /// A system that tells only the length.
    Length(u64),
}

/// The last error is one.
pub open spec fn is_error(last: IoFailure) -> bool {
    last.raw_os_error matches Some(code) && code != 0
}

/// The bytes that a file takes on disk.
pub open spec fn allocated(allocation: Allocation) -> Result<u64, Error> {
    match allocation {
        Allocation::Blocks(blocks) => if blocks * 512 > u64::MAX {
            Ok(u64::MAX)
        } else {
            Ok((blocks * 512) as u64)
        },
        Allocation::Words { low, high, last } => if low == INVALID_FILE_SIZE && is_error(last) {
            Err(Error::Io { context: "GetCompressedFileSizeW", source: last })
        } else {
            Ok((high * 0x1_0000_0000 + low) as u64)
        },
        Allocation::Length(len) => Ok(len),
    }
}

/// The bytes that a file takes on disk. A low word that marks a failure is one only
/// if there was an error: it can be a size, too.
pub fn on_disk_bytes(allocation: Allocation) -> (r: Result<u64, Error>)
    ensures
        r == allocated(allocation),
{
    match allocation {
        Allocation::Blocks(blocks) => match blocks.checked_mul(512) {
            Some(n) => Ok(n),
            None => Ok(u64::MAX),
        },
        Allocation::Words { low, high, last } => {
            let failed: bool = match last.raw_os_error {
                Some(code) => code != 0,
                None => false,
            };
            if low == INVALID_FILE_SIZE && failed {
                return Err(Error::Io { context: "GetCompressedFileSizeW", source: last });
            }
            Ok(high as u64 * 0x1_0000_0000 + low as u64)
        },
        Allocation::Length(len) => Ok(len),
    }
}

/// Refuses a file that is too large for decmpfs, as the operating system would.
pub fn within_decmpfs_limit(len: u64) -> (r: Result<(), Error>)
    ensures
        len <= MAX_RAW ==> r is Ok,
        len > MAX_RAW ==> (r matches Err(Error::Io { context, source }) && context@
            == "file too large for decmpfs"@ && source.kind == IoKind::Other
            && source.raw_os_error == Some(EFBIG) && source.message@
            == "File too large (os error 27)"@),
{
    if len > MAX_RAW {
        return Err(
            Error::Io {
                context: "file too large for decmpfs",
                source: IoFailure {
                    kind: IoKind::Other,
                    raw_os_error: Some(EFBIG),
                    message: "File too large (os error 27)".to_owned(),
                },
            },
        );
    }
    Ok(())
}

/// The decmpfs header of a file of this length.
pub open spec fn header_bytes(len: int) -> Seq<u8> {
    le32_bytes(HEADER_MAGIC as int) + le32_bytes(LZVN_RESOURCE_FORK as int) + le64_bytes(len)
}

/// The decmpfs header of a file of this length.
pub fn compression_header(len: u64) -> (r: Vec<u8>)
    ensures
        r@ == header_bytes(len as int),
{
    broadcast use group_widths;

    let mut header: Vec<u8> = zeroed(16);
    put_u32(&mut header, 0, HEADER_MAGIC);
    put_u32(&mut header, 4, LZVN_RESOURCE_FORK);
    put_u64(&mut header, 8, len);
    assert(header@ =~= header_bytes(len as int));
    header
}

/// How many blocks a raw file of this length has.
pub open spec fn block_count(len: int) -> int {
    (len + 0xffff) / 0x1_0000
}

/// The raw bytes that go into block `i` of a file of this length: whole blocks, and what
/// is left. `None` is past the last block.
pub open spec fn block_at(len: int, i: int) -> Option<(int, int)> {
    if 0 <= i < block_count(len) {
        Some(
            (
                i * 0x1_0000,
                if (i + 1) * 0x1_0000 <= len {
                    (i + 1) * 0x1_0000
                } else {
                    len
                },
            ),
        )
    } else {
        None
    }
}

/// Where the first `n` blocks end, given where the first one starts.
pub open spec fn blocks_end(blocks: Seq<Seq<u8>>, n: int, start: int) -> int
    decreases n,
{
    if n <= 0 {
        start
    } else {
        blocks_end(blocks, n - 1, start) + blocks[n - 1].len()
    }
}

/// The offset table: where the first block starts, and where each one ends.
pub open spec fn offset_table(blocks: Seq<Seq<u8>>, n: int, start: int) -> Seq<u8>
    decreases n,
{
    if n <= 0 {
        le32_bytes(start)
    } else {
        offset_table(blocks, n - 1, start) + le32_bytes(blocks_end(blocks, n, start))
    }
}

/// The blocks, one after the other.
pub open spec fn concatenated(blocks: Seq<Seq<u8>>, n: int) -> Seq<u8>
    decreases n,
{
    if n <= 0 {
        seq![]
    } else {
        concatenated(blocks, n - 1) + blocks[n - 1]
    }
}

/// The size of the offset table of so many blocks.
pub open spec fn table_size(blocks: int) -> int {
    (blocks + 1) * 4
}

/// The resource fork of these encoded blocks: the offset table, then the blocks.
pub open spec fn fork_bytes(blocks: Seq<Seq<u8>>) -> Seq<u8> {
    let n = blocks.len() as int;
    offset_table(blocks, n, table_size(n)) + concatenated(blocks, n)
}

/// How long that is.
pub open spec fn fork_size(blocks: Seq<Seq<u8>>) -> int {
    blocks_end(blocks, blocks.len() as int, table_size(blocks.len() as int))
}

/// The blocks as mathematical sequences.
pub open spec fn views(blocks: Seq<Vec<u8>>) -> Seq<Seq<u8>> {
    Seq::new(blocks.len(), |i: int| blocks[i]@)
}

/// More blocks end no earlier.
proof fn lemma_ends_grow(blocks: Seq<Seq<u8>>, m: int, n: int, start: int)
    requires
        0 <= m <= n,
    ensures
        start <= blocks_end(blocks, m, start) <= blocks_end(blocks, n, start),
    decreases n,
{
    if n > 0 {
        if m < n {
            lemma_ends_grow(blocks, m, n - 1, start);
        } else {
            lemma_ends_grow(blocks, n - 1, n - 1, start);
        }
    }
}

/// The raw bytes that go into block `i`, if there is one.
pub fn block_range(len: usize, i: usize) -> (r: Option<(usize, usize)>)
    ensures
        match r {
            Some((from, to)) => block_at(len as int, i as int) == Some((from as int, to as int))
                && from < to <= len,
            None => block_at(len as int, i as int) is None,
        },
{
    if i >= len / BLOCK + 1 || (i == len / BLOCK && len % BLOCK == 0) {
        return None;
    }
    let from: usize = i * BLOCK;
    if len - from <= BLOCK {
        Some((from, len))
    } else {
        Some((from, from + BLOCK))
    }
}

/// Builds the resource fork out of a file's encoded blocks: an offset table, then the
/// blocks. `None` is a fork whose offsets do not fit 32 bits.
pub fn build_resource_fork(blocks: &Vec<Vec<u8>>) -> (r: Option<Vec<u8>>)
    ensures
        match r {
            Some(fork) => fork@ == fork_bytes(views(blocks@)) && fork_size(views(blocks@))
                <= u32::MAX,
            None => fork_size(views(blocks@)) > u32::MAX,
        },
{
    broadcast use group_widths;

    let ghost all = views(blocks@);
    let ghost total = blocks@.len() as int;
    let ghost first = table_size(total);
    if blocks.len() > 0x3fff_fffe {
        proof {
            lemma_ends_grow(all, 0, total, first);
        }
        return None;
    }
    let start: u64 = (blocks.len() as u64 + 1) * 4;
    let mut out: Vec<u8> = zeroed(4);
    put_u32(&mut out, 0, start as u32);
    assert(out@ =~= offset_table(all, 0, first));
    let mut offset: u64 = start;
    let mut i: usize = 0;
    while i < blocks.len()
        invariant
            i <= blocks@.len(),
            all == views(blocks@),
            total == blocks@.len(),
            first == table_size(total),
            offset == blocks_end(all, i as int, first),
            offset <= u32::MAX,
            out@ == offset_table(all, i as int, first),
        decreases blocks@.len() - i,
    {
        broadcast use group_widths;

        assert(all[i as int] == blocks@[i as int]@);
        proof {
            lemma_ends_grow(all, i + 1, total, first);
        }
        if blocks[i].len() as u64 > 0xffff_ffff - offset {
            return None;
        }
        offset += blocks[i].len() as u64;
        let mut entry: Vec<u8> = zeroed(4);
        put_u32(&mut entry, 0, offset as u32);
        assert(entry@ =~= le32_bytes(offset as int));
        append(&mut out, entry.as_slice());
        i += 1;
    }
    let ghost table = out@;
    let mut i: usize = 0;
    assert(out@ =~= table + concatenated(all, 0));
    while i < blocks.len()
        invariant
            i <= blocks@.len(),
            all == views(blocks@),
            out@ == table + concatenated(all, i as int),
        decreases blocks@.len() - i,
    {
        assert(all[i as int] == blocks@[i as int]@);
        append(&mut out, blocks[i].as_slice());
        i += 1;
        assert(out@ =~= table + concatenated(all, i as int));
    }
    Some(out)
}

/// The length of the offset table.
proof fn lemma_table_len(blocks: Seq<Seq<u8>>, n: int, start: int)
    requires
        0 <= n,
    ensures
        offset_table(blocks, n, start).len() == 4 * (n + 1),
    decreases n,
{
    broadcast use group_widths;

    if n > 0 {
        lemma_table_len(blocks, n - 1, start);
    }
}

/// Entry `i` of the offset table is where the first `i` blocks end.
proof fn lemma_table_entry(blocks: Seq<Seq<u8>>, n: int, start: int, i: int)
    requires
        0 <= i <= n,
        0 <= start,
        blocks_end(blocks, n, start) <= u32::MAX,
    ensures
        4 * i + 4 <= offset_table(blocks, n, start).len(),
        le32(offset_table(blocks, n, start), 4 * i) == blocks_end(blocks, i, start),
    decreases n,
{
    broadcast use group_widths;

    let table = offset_table(blocks, n, start);
    let entry = le32_bytes(blocks_end(blocks, i, start));
    lemma_table_len(blocks, n, start);
    lemma_ends_grow(blocks, i, n, start);
    lemma_le32_bytes(blocks_end(blocks, i, start));
    if i < n {
        let shorter = offset_table(blocks, n - 1, start);
        lemma_table_len(blocks, n - 1, start);
        lemma_ends_grow(blocks, n - 1, n, start);
        lemma_table_entry(blocks, n - 1, start, i);
        assert(table.subrange(4 * i, 4 * i + 4) =~= shorter.subrange(4 * i, 4 * i + 4));
        lemma_le32_same(table, 4 * i, shorter, 4 * i);
    } else {
        if n > 0 {
            lemma_table_len(blocks, n - 1, start);
        }
        assert(table.subrange(4 * i, 4 * i + 4) =~= entry.subrange(0, 4));
        lemma_le32_same(table, 4 * i, entry, 0);
    }
}

/// Block `i` lies, among the first `n`, where the ends say.
proof fn lemma_block_at(blocks: Seq<Seq<u8>>, n: int, i: int)
    requires
        0 <= i < n <= blocks.len(),
    ensures
        concatenated(blocks, n).len() == blocks_end(blocks, n, 0),
        0 <= blocks_end(blocks, i, 0) <= blocks_end(blocks, i + 1, 0) <= blocks_end(blocks, n, 0),
        concatenated(blocks, n).subrange(blocks_end(blocks, i, 0), blocks_end(blocks, i + 1, 0))
            == blocks[i],
    decreases n,
{
    lemma_ends_grow(blocks, i, i + 1, 0);
    lemma_ends_grow(blocks, i + 1, n, 0);
    lemma_concatenated_len(blocks, n - 1);
    let whole = concatenated(blocks, n);
    let from = blocks_end(blocks, i, 0);
    let to = blocks_end(blocks, i + 1, 0);
    if i < n - 1 {
        lemma_block_at(blocks, n - 1, i);
        assert(whole.subrange(from, to) =~= concatenated(blocks, n - 1).subrange(from, to));
    } else {
        assert(whole.subrange(from, to) =~= blocks[i]);
    }
}

/// The blocks take as much room as their ends say.
proof fn lemma_concatenated_len(blocks: Seq<Seq<u8>>, n: int)
    requires
        0 <= n <= blocks.len(),
    ensures
        concatenated(blocks, n).len() == blocks_end(blocks, n, 0),
    decreases n,
{
    if n > 0 {
        lemma_concatenated_len(blocks, n - 1);
    }
}

/// Where blocks end does not depend on where the first one starts, but for the
/// distance.
proof fn lemma_ends_shift(blocks: Seq<Seq<u8>>, n: int, start: int)
    requires
        0 <= n,
    ensures
        blocks_end(blocks, n, start) == start + blocks_end(blocks, n, 0),
    decreases n,
{
    if n > 0 {
        lemma_ends_shift(blocks, n - 1, start);
    }
}

/// The first entry of a resource fork's offset table is the table's size, and the last
/// is the fork's.
pub proof fn law_fork_table_frames_blocks(blocks: Seq<Seq<u8>>)
    requires
        fork_size(blocks) <= u32::MAX,
    ensures
        le32(fork_bytes(blocks), 0) == 4 * (blocks.len() + 1),
        le32(fork_bytes(blocks), 4 * blocks.len() as int) == fork_bytes(blocks).len(),
        fork_bytes(blocks).len() == fork_size(blocks),
{
    let n = blocks.len() as int;
    let start = table_size(n);
    let table = offset_table(blocks, n, start);
    let fork = fork_bytes(blocks);
    lemma_table_len(blocks, n, start);
    lemma_concatenated_len(blocks, n);
    lemma_ends_shift(blocks, n, start);
    lemma_table_entry(blocks, n, start, 0);
    lemma_table_entry(blocks, n, start, n);
    assert(fork.subrange(0, 4) =~= table.subrange(0, 4));
    lemma_le32_same(fork, 0, table, 0);
    assert(fork.subrange(4 * n, 4 * n + 4) =~= table.subrange(4 * n, 4 * n + 4));
    lemma_le32_same(fork, 4 * n, table, 4 * n);
}

/// Two neighbouring entries of a resource fork's offset table delimit a block: the
/// bytes between them are the block.
pub proof fn law_fork_offsets_delimit_blocks(blocks: Seq<Seq<u8>>, i: int)
    requires
        fork_size(blocks) <= u32::MAX,
        0 <= i < blocks.len(),
    ensures
        ({
            let fork = fork_bytes(blocks);
            let from = le32(fork, 4 * i);
            let to = le32(fork, 4 * (i + 1));
            from <= to && window(fork, from, to - from) == Some(blocks[i])
        }),
{
    let n = blocks.len() as int;
    let start = table_size(n);
    let table = offset_table(blocks, n, start);
    let data = concatenated(blocks, n);
    let fork = fork_bytes(blocks);
    lemma_table_len(blocks, n, start);
    lemma_concatenated_len(blocks, n);
    lemma_table_entry(blocks, n, start, i);
    lemma_table_entry(blocks, n, start, i + 1);
    lemma_ends_shift(blocks, i, start);
    lemma_ends_shift(blocks, i + 1, start);
    lemma_ends_shift(blocks, n, start);
    lemma_block_at(blocks, n, i);
    assert(fork.subrange(4 * i, 4 * i + 4) =~= table.subrange(4 * i, 4 * i + 4));
    lemma_le32_same(fork, 4 * i, table, 4 * i);
    assert(fork.subrange(4 * i + 4, 4 * i + 8) =~= table.subrange(4 * i + 4, 4 * i + 8));
    lemma_le32_same(fork, 4 * (i + 1), table, 4 * (i + 1));
    let from = blocks_end(blocks, i, 0);
    let to = blocks_end(blocks, i + 1, 0);
    assert(fork.subrange(start + from, start + to) =~= data.subrange(from, to));
}

/// The most room that an encoded block takes: its raw size, a sixteenth of that, and a
/// kilobyte, as incompressible data expands a little.
pub open spec fn block_room() -> int {
    0x1_1400
}

/// Blocks of bounded size end within so many times the bound.
proof fn lemma_ends_bounded(blocks: Seq<Seq<u8>>, n: int, start: int)
    requires
        0 <= n <= blocks.len(),
        forall|i: int| 0 <= i < blocks.len() ==> #[trigger] blocks[i].len() <= block_room(),
    ensures
        blocks_end(blocks, n, start) <= start + n * block_room(),
    decreases n,
{
    if n > 0 {
        lemma_ends_bounded(blocks, n - 1, start);
        assert(blocks[n - 1].len() <= block_room());
    }
}

/// The offsets of a file that is not over the limit always fit: its resource fork
/// can be built, however badly its blocks compress.
pub proof fn law_offsets_fit_within_limit(len: int, blocks: Seq<Seq<u8>>)
    requires
        0 <= len <= MAX_RAW,
        blocks.len() == block_count(len),
        forall|i: int| 0 <= i < blocks.len() ==> #[trigger] blocks[i].len() <= block_room(),
    ensures
        fork_size(blocks) <= u32::MAX,
{
    lemma_ends_bounded(blocks, blocks.len() as int, table_size(blocks.len() as int));
}

/// The name of a file system ends at its first NUL, if it has one.
pub proof fn law_name_ends_at_nul(name: Seq<u8>, rest: Seq<u8>)
    requires
        forall|i: int| 0 <= i < name.len() ==> #[trigger] name[i] != 0,
    ensures
        unpadded(name) == name,
        unpadded(name + seq![0u8] + rest) == name,
{
    let n = name.len() as int;
    lemma_unpadded(name, n);
    assert(name.take(n) =~= name);
    let padded = name + seq![0u8] + rest;
    lemma_unpadded(padded, n);
    assert(padded.take(n) =~= name);
}

/// Which volumes compress single files: on macOS local ones of APFS and HFS+, on Linux
/// btrfs, on Windows those that say so by their flags, and none elsewhere. A mount that is
/// not local is refused for that, whatever file system it has.
pub proof fn law_volumes_that_compress(f_flags: u32, name: Vec<u8>, f_type: i64, flags: u32)
    ensures
        f_flags & 0x1000 == 0 ==> volume_support(Volume::MacOs { f_flags, f_fstypename: name })
            == Support::Unsupported(UnsupportedReason::NetworkOrOverlay),
        f_flags & 0x1000 != 0 ==> volume_support(Volume::MacOs { f_flags, f_fstypename: name })
            == if unpadded(name@) == seq![0x61u8, 0x70, 0x66, 0x73] || unpadded(name@) == seq![
            0x68u8,
            0x66,
            0x73,
        ] {
            Support::Supported
        } else {
            Support::Unsupported(UnsupportedReason::Filesystem)
        },
        f_type == 0x9123_683e <==> volume_support(Volume::Linux { f_type }) == Support::Supported,
        f_type != 0x9123_683e <==> volume_support(Volume::Linux { f_type })
            == Support::Unsupported(UnsupportedReason::Filesystem),
        flags & 0x10 != 0 <==> volume_support(Volume::Windows { flags }) == Support::Supported,
        flags & 0x10 == 0 <==> volume_support(Volume::Windows { flags })
            == Support::Unsupported(UnsupportedReason::Filesystem),
        volume_support(Volume::Other) == Support::Unsupported(UnsupportedReason::PlatformBuild),
{
}

/// One bit of a file's flags says that it is compressed, a different one on each system;
/// the others do not matter.
pub proof fn law_compressed_by_one_bit(st_flags: u32, inode_flags: i64, attrs: u32)
    ensures
        flagged(FileFlags::MacOs(st_flags)) <==> st_flags & 0x20 != 0,
        flagged(FileFlags::Linux(inode_flags)) <==> inode_flags & 0x4 != 0,
        flagged(FileFlags::Windows(attrs)) <==> attrs & 0x800 != 0,
        !flagged(FileFlags::Other),
{
}

/// What tells that compression took: on macOS the flag, on btrfs any one compressed extent
/// among those that were mapped, and nothing elsewhere.
pub proof fn law_signal_by_flag_or_extent(st_flags: u32, mapped: u32, extents: Vec<u32>, i: int)
    ensures
        signalled(Signal::MacOs(st_flags)) == Some(st_flags & 0x20 != 0),
        0 <= i < mapped && i < extents@.len() && extents@[i] & 0x8 != 0 ==> signalled(
            Signal::Linux { mapped, extents },
        ) == Some(true),
        (forall|k: int|
            0 <= k < mapped && k < extents@.len() ==> #[trigger] extents@[k] & 0x8 == 0)
            ==> signalled(Signal::Linux { mapped, extents }) == Some(false),
        signalled(Signal::Nothing) is None,
{
    assert(0 <= i < mapped && i < extents@.len() && extents@[i] & 0x8 != 0 ==> extents@[i]
        & FIEMAP_EXTENT_ENCODED != 0);
}

/// A file takes 512 bytes for each block; the number that Windows gives in two words, the
/// high one worth 2^32 times as much, unless the low one marks a failure and there was an
/// error; or its length. A count of blocks too large for 64 bits is as large as fits.
pub proof fn law_allocation_in_bytes(blocks: u64, low: u32, high: u32, last: IoFailure, len: u64)
    ensures
        blocks <= u64::MAX / 512 ==> allocated(Allocation::Blocks(blocks)) == Ok::<u64, Error>(
            (blocks * 512) as u64,
        ),
        blocks > u64::MAX / 512 ==> allocated(Allocation::Blocks(blocks)) == Ok::<u64, Error>(
            0xffff_ffff_ffff_ffff,
        ),
        low != 0xffff_ffff || last.raw_os_error is None || last.raw_os_error == Some(0i32)
            ==> allocated(Allocation::Words { low, high, last }) == Ok::<u64, Error>(
            (high * 0x1_0000_0000 + low) as u64,
        ),
        low == 0xffff_ffff && (last.raw_os_error matches Some(code) && code != 0) ==> allocated(
            Allocation::Words { low, high, last },
        ) == Err::<u64, Error>(Error::Io { context: "GetCompressedFileSizeW", source: last }),
        allocated(Allocation::Length(len)) == Ok::<u64, Error>(len),
{
}

/// The decmpfs header: sixteen bytes, `fpmc`, the number of the format, and the length of
/// the raw file, least significant byte first.
pub proof fn law_header_holds_length(len: int)
    requires
        0 <= len <= u64::MAX,
    ensures
        header_bytes(len).len() == 16,
        header_bytes(len).take(4) == seq![0x66u8, 0x70, 0x6d, 0x63],
        le32(header_bytes(len), 4) == 8,
        le64(header_bytes(len), 8) == len,
{
    broadcast use group_widths;

    let h = header_bytes(len);
    let magic = le32_bytes(HEADER_MAGIC as int);
    lemma_le32_bytes(0x636d_7066);
    assert(h.subrange(0, 4) =~= magic.subrange(0, 4));
    lemma_le32_same(h, 0, magic, 0);
    law_little_endian(h, 0);
    assert(h.take(4) =~= seq![0x66u8, 0x70, 0x6d, 0x63]);
    let format = le32_bytes(8);
    lemma_le32_bytes(8);
    assert(h.subrange(4, 8) =~= format.subrange(0, 4));
    lemma_le32_same(h, 4, format, 0);
    let length = le64_bytes(len);
    lemma_le64_bytes(len);
    assert(h.subrange(8, 16) =~= length.subrange(0, 8));
    lemma_le64_same(h, 8, length, 0);
}

/// The blocks of a file: the first one starts with it, each starts where the one before
/// ends, all are of 64 KiB but the last, which holds what is left, and none is empty.
/// There are no more once the file's end is reached.
pub proof fn law_blocks_partition_file(len: int, i: int)
    requires
        0 <= len,
        0 <= i,
    ensures
        0 < len <==> block_at(len, 0) is Some,
        block_at(len, i) matches Some((from, to)) ==> {
            &&& i == 0 ==> from == 0
            &&& i > 0 ==> (block_at(len, i - 1) matches Some((_, end)) && end == from)
            &&& from < to <= len
            &&& to - from == 0x1_0000 || to == len
            &&& to - from <= 0x1_0000
            &&& to < len ==> block_at(len, i + 1) is Some
            &&& to == len ==> block_at(len, i + 1) is None
        },
        block_at(len, i) is Some <==> i < block_count(len),
{
}

/// Extents are asked for from where the last one that was mapped ends, until one is marked as
/// the last, is empty, or ends where nothing can lie behind it.
pub proof fn law_extents_follow_one_another(start: u64, length: u64, flags: u32, next: Option<u64>)
    requires
        call_ensures(next_extent, (Some((start, length, flags)),), next),
    ensures
        flags & 1 != 0 ==> next is None,
        length == 0 ==> next is None,
        flags & 1 == 0 && length > 0 && start + length <= u64::MAX ==> (next matches Some(from)
            && from == start + length && from > start),
        start + length > u64::MAX ==> next is None,
{
}

/// Without a mapped extent there is nothing to go on from.
pub proof fn law_no_extent_is_the_end(next: Option<u64>)
    requires
        call_ensures(next_extent, (None,), next),
    ensures
        next is None,
{
}

/// Attributes are taken as they are, but for the one number that marks a failure, which is
/// reported with the system's last error.
pub proof fn law_attributes_or_last_error(attrs: u32, last: IoFailure, flags: Result<FileFlags, Error>)
    requires
        call_ensures(attributes, (attrs, last), flags),
    ensures
        attrs == 0xffff_ffff ==> flags == Err::<FileFlags, Error>(
            Error::Io { context: "GetFileAttributesW", source: last },
        ),
        attrs != 0xffff_ffff ==> flags == Ok::<FileFlags, Error>(FileFlags::Windows(attrs)),
{
}

/// A file of up to 3.9 billion bytes is within the limit; a longer one fails as the system
/// would fail it, with error number 27.
pub proof fn law_limit_is_a_number(len: u64, checked: Result<(), Error>)
    requires
        call_ensures(within_decmpfs_limit, (len,), checked),
    ensures
        checked is Ok <==> len <= 3_900_000_000,
        checked matches Err(e) ==> (e matches Error::Io { context, source } && context@
            == "file too large for decmpfs"@ && source.raw_os_error == Some(27i32)
            && source.message@ == "File too large (os error 27)"@),
{
}

/// Probing tells what the volume supports, or why it could not be asked.
pub proof fn law_probe_asks_volume(volume: Result<Volume, Error>, support: Result<Support, Error>)
    requires
        call_ensures(probe, (volume,), support),
    ensures
        volume matches Ok(v) ==> support == Ok::<Support, Error>(volume_support(v)),
        volume matches Err(e) ==> support == Err::<Support, Error>(e),
{
}

} // verus!
