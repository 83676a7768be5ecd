//! The tables of a TES4 archive: where its directory entries and file entries lie, and
//! whether every file entry gives its data a size that covers what the data begins with.
//!
//! The codec takes the length of an embedded name and of a length field off the size
//! that a file entry states, without looking whether the size is that large. Bytes whose
//! tables are sound in the sense of this file are those on which it never takes off more
//! than there is; only such bytes are handed to the codec.

use vstd::prelude::*;

verus! {

/// The number that the four bytes from `at` on give, the least significant first.
pub open spec fn le_u32(b: Seq<u8>, at: int) -> int {
    b[at] as int + 256 * (b[at + 1] as int) + 65536 * (b[at + 2] as int) + 16777216 * (b[at
        + 3] as int)
}

/// Whether the flag word says that directory names are stored (bit 0).
pub open spec fn has_directory_names(flags: int) -> bool {
    flags % 2 == 1
}

/// Whether the flag word says that file names are stored (bit 1).
pub open spec fn has_file_names(flags: int) -> bool {
    (flags / 2) % 2 == 1
}

/// Whether the flag word says that the archive is compressed (bit 2).
pub open spec fn is_compressed(flags: int) -> bool {
    (flags / 4) % 2 == 1
}

/// Whether the flag word says that file data begins with the file's name (bit 8).
pub open spec fn has_embedded_names(flags: int) -> bool {
    (flags / 256) % 2 == 1
}

/// Where the entry of directory `d` lies: behind the header of 36 bytes and the entries
/// before it, of 24 bytes each in version 105 and of 16 bytes each in the others.
pub open spec fn directory_at(version: int, d: int) -> int {
    36 + if version == 105 {
        24 * d
    } else {
        16 * d
    }
}

/// Where the file entries begin in a block that begins at `at`: behind the directory's
/// name, stored with its length in front, where names are stored, else at once.
pub open spec fn name_end(b: Seq<u8>, flags: int, at: int) -> int {
    if has_directory_names(flags) {
        at + 1 + b[at] as int
    } else {
        at
    }
}

/// Where the block of directory `d` begins: behind the entries of all directories, and
/// behind the blocks of the directories before it, each with its name and 16 bytes for
/// every file that its directory entry counts.
pub open spec fn block_start(b: Seq<u8>, version: int, flags: int, dirs: int, d: int) -> int
    decreases d,
{
    if d <= 0 {
        directory_at(version, dirs)
    } else {
        name_end(b, flags, block_start(b, version, flags, dirs, d - 1)) + 16 * le_u32(
            b,
            directory_at(version, d - 1) + 8,
        )
    }
}

/// What the data of a file begins with, besides its content: its name with a length byte
/// in front, where names are embedded, and four bytes for the uncompressed length, where
/// the data is compressed.
pub open spec fn taken_off(b: Seq<u8>, named: bool, counted: bool, at: int) -> int {
    (if named {
        b[at] as int + 1
    } else {
        0
    }) + if counted {
        4int
    } else {
        0int
    }
}

/// The file entry at `p` can be read, its data lies inside the bytes, and the size that it
/// states is at least what the data begins with besides the content.
///
/// The entry's size is the low 30 bits of its third word, whose bit 30 flips the
/// archive's compression for this file; its data begins where the low 31 bits of its
/// fourth word say. Names are embedded from version 104 on where the flag word says so.
pub open spec fn entry_sound(b: Seq<u8>, version: int, flags: int, p: int) -> bool {
    let size = le_u32(b, p + 8);
    let at = le_u32(b, p + 12) % 0x8000_0000;
    let stored = size % 0x4000_0000;
    let flipped = (size / 0x4000_0000) % 2 == 1;
    let named = version != 103 && has_embedded_names(flags);
    let counted = is_compressed(flags) != flipped;
    &&& p + 16 <= b.len()
    &&& at <= b.len()
    &&& named ==> at < b.len()
    &&& taken_off(b, named, counted, at) <= stored
    &&& at + stored <= b.len()
}

/// Directory `d` can be read: its entry lies inside the bytes, its block begins inside
/// them, its name is there where names are stored, and every file entry of the block is
/// sound.
pub open spec fn directory_sound(b: Seq<u8>, version: int, flags: int, dirs: int, d: int) -> bool {
    let start = block_start(b, version, flags, dirs, d);
    let first = name_end(b, flags, start);
    let count = le_u32(b, directory_at(version, d) + 8);
    &&& directory_at(version, d + 1) <= b.len()
    &&& start <= b.len()
    &&& has_directory_names(flags) ==> start < b.len() && b[start] >= 1 && first <= b.len()
    &&& forall|k: int| 0 <= k < count ==> #[trigger] entry_sound(b, version, flags, first + 16 * k)
}

/// The last of the offsets that the header gives: where the data begins, behind the
/// directory entries, the directory names, the file entries and the file names.
pub open spec fn data_start(b: Seq<u8>) -> int {
    let flags = le_u32(b, 12);
    let dirs = le_u32(b, 16);
    directory_at(le_u32(b, 4), dirs) + (if has_directory_names(flags) {
        le_u32(b, 24) + dirs
    } else {
        0
    }) + 16 * le_u32(b, 20) + if has_file_names(flags) {
        le_u32(b, 28)
    } else {
        0
    }
}

/// The header is that of a TES4 archive: the signature `BSA`, a version of 103, 104 or
/// 105, a header size of 36, and offsets that fit the machine's addresses.
pub open spec fn header_sound(b: Seq<u8>) -> bool {
    &&& b.len() >= 36
    &&& le_u32(b, 0) == 0x0041_5342
    &&& (le_u32(b, 4) == 103 || le_u32(b, 4) == 104 || le_u32(b, 4) == 105)
    &&& le_u32(b, 8) == 36
    &&& data_start(b) <= usize::MAX
}

/// The tables of a TES4 archive are sound: the header is sound and so is every directory
/// that it counts.
pub open spec fn tes4_sound(b: Seq<u8>) -> bool {
    &&& header_sound(b)
    &&& forall|d: int|
        0 <= d < le_u32(b, 16) ==> #[trigger] directory_sound(
            b,
            le_u32(b, 4),
            le_u32(b, 12),
            le_u32(b, 16),
            d,
        )
}

/// Reads four bytes as a number, the least significant first.
pub fn read_le_u32(b: &[u8], at: usize) -> (r: u32)
    requires
        at + 4 <= b@.len(),
    ensures
        r == le_u32(b@, at as int),
{
    let b0: u32 = b[at] as u32;
    let b1: u32 = b[at + 1] as u32;
    let b2: u32 = b[at + 2] as u32;
    let b3: u32 = b[at + 3] as u32;
    b0 + 256 * b1 + 65536 * b2 + 16777216 * b3
}

/// Tells whether the file entry at `p` is sound.
pub fn entry_is_sound(b: &[u8], version: u32, flags: u32, p: usize) -> (ok: bool)
    requires
        p <= b@.len(),
    ensures
        ok == entry_sound(b@, version as int, flags as int, p as int),
{
    let len: usize = b.len();
    if len - p < 16 {
        return false;
    }
    let size: u32 = read_le_u32(b, p + 8);
    let offset: u32 = read_le_u32(b, p + 12);
    let at: usize = (offset % 0x8000_0000) as usize;
    let stored: usize = (size % 0x4000_0000) as usize;
    let flipped: bool = (size / 0x4000_0000) % 2 == 1;
    let named: bool = version != 103 && (flags / 256) % 2 == 1;
    let counted: bool = ((flags / 4) % 2 == 1) != flipped;
    if at > len {
        return false;
    }
    let mut taken: usize = 0;
    if named {
        if at >= len {
            return false;
        }
        taken = b[at] as usize + 1;
    }
    if counted {
        taken = taken + 4;
    }
    taken <= stored && stored <= len - at
}

/// Tells whether the offsets that the header gives fit the machine's addresses.
fn offsets_fit(b: &[u8]) -> (ok: bool)
    requires
        b@.len() >= 36,
    ensures
        ok == (data_start(b@) <= usize::MAX),
{
    let version: u32 = read_le_u32(b, 4);
    let flags: u32 = read_le_u32(b, 12);
    let dirs: u64 = read_le_u32(b, 16) as u64;
    let files: u64 = read_le_u32(b, 20) as u64;
    let entries: u64 = if version == 105 {
        24 * dirs
    } else {
        16 * dirs
    };
    let names: u64 = if flags % 2 == 1 {
        read_le_u32(b, 24) as u64 + dirs
    } else {
        0
    };
    let file_names: u64 = if (flags / 2) % 2 == 1 {
        read_le_u32(b, 28) as u64
    } else {
        0
    };
    let total: u64 = 36 + entries + names + 16 * files + file_names;
    total <= usize::MAX as u64
}

/// Tells whether the tables of a TES4 archive are sound, by walking them as the codec
/// does: the header, then for every directory its entry and its block of file entries.
pub fn tes4_tables_sound(b: &[u8]) -> (ok: bool)
    ensures
        ok == tes4_sound(b@),
{
    let len: usize = b.len();
    if len < 36 {
        return false;
    }
    let version: u32 = read_le_u32(b, 4);
    let flags: u32 = read_le_u32(b, 12);
    let dirs: u32 = read_le_u32(b, 16);
    if read_le_u32(b, 0) != 0x0041_5342 || read_le_u32(b, 8) != 36 {
        return false;
    }
    if version != 103 && version != 104 && version != 105 {
        return false;
    }
    if !offsets_fit(b) {
        return false;
    }
    if dirs == 0 {
        return true;
    }
    let step: usize = if version == 105 {
        24
    } else {
        16
    };
    let all: u64 = if version == 105 {
        36 + 24 * (dirs as u64)
    } else {
        36 + 16 * (dirs as u64)
    };
    if all > len as u64 {
        assert(!directory_sound(b@, version as int, flags as int, dirs as int, 0));
        return false;
    }
    let mut at: usize = 36;
    let mut block: usize = all as usize;
    let mut d: u32 = 0;
    while d < dirs
        invariant
            len == b@.len(),
            len >= 36,
            header_sound(b@),
            version == le_u32(b@, 4),
            flags == le_u32(b@, 12),
            dirs == le_u32(b@, 16),
            step == if version == 105 {
                24int
            } else {
                16int
            },
            d <= dirs,
            at == directory_at(version as int, d as int),
            at <= len,
            block == block_start(b@, version as int, flags as int, dirs as int, d as int),
            block <= len,
            forall|j: int|
                0 <= j < d ==> #[trigger] directory_sound(
                    b@,
                    version as int,
                    flags as int,
                    dirs as int,
                    j,
                ),
        decreases dirs - d,
    {
        if len - at < step {
            assert(!directory_sound(b@, version as int, flags as int, dirs as int, d as int));
            return false;
        }
        let count: u32 = read_le_u32(b, at + 8);
        let mut p: usize = block;
        if flags % 2 == 1 {
            if block >= len || b[block] == 0 || len - block - 1 < b[block] as usize {
                assert(!directory_sound(b@, version as int, flags as int, dirs as int, d as int));
                return false;
            }
            p = block + 1 + b[block] as usize;
        }
        let first: usize = p;
        assert(first == name_end(b@, flags as int, block as int));
        let mut k: u32 = 0;
        while k < count
            invariant
                len == b@.len(),
                version == le_u32(b@, 4),
                flags == le_u32(b@, 12),
                dirs == le_u32(b@, 16),
                d < dirs,
                k <= count,
                count == le_u32(b@, directory_at(version as int, d as int) + 8),
                first == name_end(
                    b@,
                    flags as int,
                    block_start(b@, version as int, flags as int, dirs as int, d as int),
                ),
                p == first + 16 * k,
                p <= len,
                forall|j: int|
                    0 <= j < k ==> #[trigger] entry_sound(
                        b@,
                        version as int,
                        flags as int,
                        first + 16 * j,
                    ),
            decreases count - k,
        {
            if !entry_is_sound(b, version, flags, p) {
                assert(!entry_sound(b@, version as int, flags as int, first + 16 * k));
                assert(!directory_sound(b@, version as int, flags as int, dirs as int, d as int));
                return false;
            }
            p = p + 16;
            k = k + 1;
        }
        assert(directory_sound(b@, version as int, flags as int, dirs as int, d as int));
        block = p;
        at = at + step;
        d = d + 1;
    }
    true
}

} // verus!
