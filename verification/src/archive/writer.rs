//! Building TES4 BSA archives (Oblivion, Fallout 3, Fallout: New Vegas, Skyrim).

use vstd::prelude::*;
use vstd::string::StringSliceAdditionalSpecFns;
use crate::archive::batch::{par_map_indices, progress_told, tell_progress};
use crate::archive::codec::{
    directories_model, payloads_model, tes4_archive_bytes, tes4_deflate, tes4_deflated,
    tes4_directory_id, tes4_directory_number, tes4_options, tes4_write, StoredDirectory,
    StoredPayload,
};
use crate::archive::error::ArchiveError;
use crate::archive::flag::counter_new;
use crate::archive::game::BsaVersion;
use crate::archive::staging::StagedFiles;
use crate::text::{
    append_bytes, chars_of, contains_chars, contains_seq, copy_bytes, copy_range,
    decode_utf8_lossy, find_first_byte, find_last_byte, first_byte_from, last_byte_index,
    lowercase, normalize_key, normalized_key,
    utf8_lossy,
};

verus! {

/// Directory paths are stored in the archive.
pub const FLAG_DIRECTORY_STRINGS: u32 = 1;

/// File names are stored in the archive.
pub const FLAG_FILE_STRINGS: u32 = 2;

/// The payloads of the archive are compressed.
pub const FLAG_COMPRESSED: u32 = 4;

/// Read by the game at run time.
pub const FLAG_RETAIN_DIRECTORY_NAMES: u32 = 8;

/// Read by the game at run time.
pub const FLAG_RETAIN_FILE_NAMES: u32 = 16;

/// Read by the game at run time.
pub const FLAG_RETAIN_FILE_NAME_OFFSETS: u32 = 32;

/// The archive holds meshes.
pub const TYPE_MESHES: u16 = 1;

/// The archive holds textures.
pub const TYPE_TEXTURES: u16 = 2;

/// The archive holds menus.
pub const TYPE_MENUS: u16 = 4;

/// The archive holds sounds.
pub const TYPE_SOUNDS: u16 = 8;

/// The archive holds voices.
pub const TYPE_VOICES: u16 = 16;

/// The archive holds anything else.
pub const TYPE_MISC: u16 = 256;

/// The flag word of a TES4 archive header.
#[derive(Debug, Clone, Copy, PartialEq, Eq, Structural)]
pub struct ArchiveFlags {
    pub bits: u32,
}

/// The content-type word of a TES4 archive header.
#[derive(Debug, Clone, Copy, PartialEq, Eq, Structural)]
pub struct ArchiveTypes {
    pub bits: u16,
}

/// The flags with which Fallout 3 and Fallout: New Vegas archives are written: both
/// string tables, compression, and the three run-time flags.
pub fn default_flags_fo3() -> (f: ArchiveFlags)
    ensures
        f.bits == 63,
{
    ArchiveFlags { bits: 63 }
}

/// The flags with which Oblivion archives are written: both string tables, no
/// compression.
pub fn default_flags_oblivion() -> (f: ArchiveFlags)
    ensures
        f.bits == 3,
{
    ArchiveFlags { bits: 3 }
}

/// The content types that an archive name suggests. The lower-cased name is searched,
/// in this order, for `meshes`, `textures`, `menuvoices`, `voices` and `sound`; the first
/// that occurs decides, and a name with none of them is of mixed content.
pub open spec fn types_for_name(name: Seq<char>) -> u16 {
    let lower = lowercase(name);
    if contains_seq(lower, "meshes"@) {
        TYPE_MESHES
    } else if contains_seq(lower, "textures"@) {
        TYPE_TEXTURES
    } else if contains_seq(lower, "menuvoices"@) {
        20u16
    } else if contains_seq(lower, "voices"@) {
        TYPE_VOICES
    } else if contains_seq(lower, "sound"@) {
        TYPE_SOUNDS
    } else {
        TYPE_MISC
    }
}

/// The content types that an archive name suggests.
pub fn detect_types(name: &str) -> (t: ArchiveTypes)
    ensures
        t.bits == types_for_name(name@),
{
    let lower = name.to_lowercase();
    let text = chars_of(lower.as_str());
    let bits = if contains_chars(&text, &chars_of("meshes")) {
        TYPE_MESHES
    } else if contains_chars(&text, &chars_of("textures")) {
        TYPE_TEXTURES
    } else if contains_chars(&text, &chars_of("menuvoices")) {
        20u16
    } else if contains_chars(&text, &chars_of("voices")) {
        TYPE_VOICES
    } else if contains_chars(&text, &chars_of("sound")) {
        TYPE_SOUNDS
    } else {
        TYPE_MISC
    };
    ArchiveTypes { bits }
}

/// Whether an archive name is that of an Oblivion archive: whether the lower-cased name
/// holds the game's name or that of one of its add-ons.
pub open spec fn is_oblivion_name(name: Seq<char>) -> bool {
    let lower = lowercase(name);
    contains_seq(lower, "oblivion"@) || contains_seq(lower, "shiveringisles"@) || contains_seq(
        lower,
        "dlcshiveringisles"@,
    ) || contains_seq(lower, "dlcbattlehorn"@) || contains_seq(lower, "dlcfrostcrag"@)
        || contains_seq(lower, "dlchorse"@) || contains_seq(lower, "dlcorrery"@) || contains_seq(
        lower,
        "dlcthievesden"@,
    ) || contains_seq(lower, "dlcvilelair"@) || contains_seq(lower, "knights"@)
}

/// The binary version that an archive name suggests: version 103 for an Oblivion name,
/// version 104 for every other.
pub fn detect_version(name: &str) -> (v: BsaVersion)
    ensures
        v == if is_oblivion_name(name@) {
            BsaVersion::V103
        } else {
            BsaVersion::V104
        },
{
    let lower = name.to_lowercase();
    let text = chars_of(lower.as_str());
    if contains_chars(&text, &chars_of("oblivion")) || contains_chars(
        &text,
        &chars_of("shiveringisles"),
    ) || contains_chars(&text, &chars_of("dlcshiveringisles")) || contains_chars(
        &text,
        &chars_of("dlcbattlehorn"),
    ) || contains_chars(&text, &chars_of("dlcfrostcrag")) || contains_chars(
        &text,
        &chars_of("dlchorse"),
    ) || contains_chars(&text, &chars_of("dlcorrery")) || contains_chars(
        &text,
        &chars_of("dlcthievesden"),
    ) || contains_chars(&text, &chars_of("dlcvilelair")) || contains_chars(
        &text,
        &chars_of("knights"),
    ) {
        BsaVersion::V103
    } else {
        BsaVersion::V104
    }
}

/// The key under which a path is staged for a TES4 archive: the directory of its
/// normalized form, a zero byte, and its file name. A path without a directory is staged
/// in the directory `.`.
pub open spec fn bsa_key(path: Seq<u8>) -> Seq<u8> {
    let n = normalized_key(path);
    let k = last_byte_index(n, 0x2f);
    if k < 0 {
        seq![0x2eu8, 0x00u8] + n
    } else {
        n.subrange(0, k) + seq![0x00u8] + n.subrange(k + 1, n.len() as int)
    }
}

/// The directory that a staging key names: what stands before its first zero byte.
pub open spec fn key_directory(key: Seq<u8>) -> Seq<u8> {
    key.subrange(0, first_byte_from(key, 0, 0))
}

/// The file name that a staging key names: what stands after its first zero byte.
pub open spec fn key_file_name(key: Seq<u8>) -> Seq<u8> {
    let z = first_byte_from(key, 0, 0);
    if z < key.len() {
        key.subrange(z + 1, key.len() as int)
    } else {
        Seq::empty()
    }
}

/// A staging key as it is shown: directory, slash, file name.
pub open spec fn key_display(key: Seq<u8>) -> Seq<u8> {
    key_directory(key) + seq![0x2fu8] + key_file_name(key)
}

/// The stored form of one staged file: its file name with the payload compressed by the
/// codec where compression is on, and as it is otherwise. `None` where compression fails.
pub open spec fn bsa_stored(pair: (Seq<u8>, Seq<u8>), compress: bool, version: BsaVersion) -> Option<
    (Seq<u8>, Seq<u8>, Option<usize>),
> {
    if compress {
        match tes4_deflated(pair.1, version) {
            Some(stored) => Some((key_file_name(pair.0), stored, Some(pair.1.len() as usize))),
            None => None,
        }
    } else {
        Some((key_file_name(pair.0), pair.1, None))
    }
}

/// The first position at or after `from` whose payload cannot be given its stored form.
pub open spec fn first_unpackable(
    pairs: Seq<(Seq<u8>, Seq<u8>)>,
    compress: bool,
    version: BsaVersion,
    from: int,
) -> Option<int>
    decreases pairs.len() - from,
{
    if from < 0 || from >= pairs.len() {
        None
    } else if bsa_stored(pairs[from], compress, version) is None {
        Some(from)
    } else {
        first_unpackable(pairs, compress, version, from + 1)
    }
}

/// The first position at or after `from` where `s` holds `x`, or -1 where it holds it
/// nowhere from there on.
pub open spec fn first_at(s: Seq<u64>, x: u64, from: int) -> int
    decreases s.len() - from,
{
    if from < 0 || from >= s.len() {
        -1
    } else if s[from] == x {
        from
    } else {
        first_at(s, x, from + 1)
    }
}

/// The numbers under which the codec files the directories of a sequence.
pub open spec fn directory_ids(
    dirs: Seq<(Seq<u8>, Seq<(Seq<u8>, Seq<u8>, Option<usize>)>)>,
) -> Seq<u64> {
    Seq::new(dirs.len(), |k: int| tes4_directory_id(dirs[k].0))
}

/// The first `n` staged files grouped into directories, as the codec tells directories
/// apart. The files are taken in key order: a file joins the directory that the codec
/// takes for its own, which keeps the name under which it was opened, and opens a new
/// directory where there is none yet. So no two directories of the result are one to the
/// codec, and names that differ in letter case only share a directory.
pub open spec fn grouped(
    pairs: Seq<(Seq<u8>, Seq<u8>)>,
    compress: bool,
    version: BsaVersion,
    n: int,
) -> Seq<(Seq<u8>, Seq<(Seq<u8>, Seq<u8>, Option<usize>)>)>
    decreases n,
{
    if n <= 0 {
        Seq::empty()
    } else {
        let before = grouped(pairs, compress, version, n - 1);
        let dir = key_directory(pairs[n - 1].0);
        let file = bsa_stored(pairs[n - 1], compress, version)->0;
        let at = first_at(directory_ids(before), tes4_directory_id(dir), 0);
        if at >= 0 {
            before.update(at, (before[at].0, before[at].1.push(file)))
        } else {
            before.push((dir, seq![file]))
        }
    }
}

/// Finds the first position at which `s` holds `x`.
pub fn find_number(s: &Vec<u64>, x: u64) -> (r: Option<usize>)
    ensures
        match r {
            Some(k) => k == first_at(s@, x, 0) && k < s@.len() && s@[k as int] == x,
            None => first_at(s@, x, 0) < 0,
        },
{
    let mut j: usize = 0;
    while j < s.len()
        invariant
            j <= s@.len(),
            first_at(s@, x, 0) == first_at(s@, x, j as int),
        decreases s@.len() - j,
    {
        if s[j] == x {
            return Some(j);
        }
        j += 1;
    }
    None
}

/// Computes the TES4 staging key of a path given as bytes.
pub fn make_bsa_key(path: &[u8]) -> (key: Vec<u8>)
    ensures
        key@ == bsa_key(path@),
{
    let n = normalize_key(path);
    match find_last_byte(n.as_slice(), 0x2f) {
        None => {
            let mut key: Vec<u8> = vec![0x2eu8, 0x00u8];
            assert(key@ =~= seq![0x2eu8, 0x00u8]);
            append_bytes(&mut key, n.as_slice());
            key
        },
        Some(k) => {
            let mut key = copy_range(n.as_slice(), 0, k);
            key.push(0x00u8);
            let tail = copy_range(n.as_slice(), k + 1, n.len());
            append_bytes(&mut key, tail.as_slice());
            assert(key@ =~= n@.subrange(0, k as int) + seq![0x00u8] + n@.subrange(
                k + 1,
                n@.len() as int,
            ));
            key
        },
    }
}

/// Splits a staging key into the directory and the file name that it names.
pub fn split_bsa_key(key: &[u8]) -> (r: (Vec<u8>, Vec<u8>))
    ensures
        r.0@ == key_directory(key@),
        r.1@ == key_file_name(key@),
{
    let z = find_first_byte(key, 0);
    let dir = copy_range(key, 0, z);
    let name = if z < key.len() {
        copy_range(key, z + 1, key.len())
    } else {
        Vec::new()
    };
    (dir, name)
}

/// Collects files in memory and builds a TES4 BSA archive from them.
pub struct BsaBuilder {
    files: StagedFiles,
    flags: ArchiveFlags,
    types: ArchiveTypes,
    version: BsaVersion,
}

impl BsaBuilder {
    /// The staged files, as a map from staging key to payload.
    pub closed spec fn staged(self) -> Map<Seq<u8>, Seq<u8>> {
        self.files.model()
    }

    /// The staged files as pairs of key and payload, in key order.
    pub closed spec fn staged_pairs(self) -> Seq<(Seq<u8>, Seq<u8>)> {
        self.files.pairs()
    }

    /// The staging area is in order.
    pub closed spec fn wf(self) -> bool {
        self.files.wf()
    }

    /// The flag word that will be written.
    pub closed spec fn spec_flags(self) -> ArchiveFlags {
        self.flags
    }

    /// The content-type word that will be written.
    pub closed spec fn spec_types(self) -> ArchiveTypes {
        self.types
    }

    /// The binary version that will be written.
    pub closed spec fn spec_version(self) -> BsaVersion {
        self.version
    }

    /// Whether `r` is what building gives.
    ///
    /// With nothing staged, it is the `EmptyArchive` error. Otherwise it is a
    /// `FormatError` naming the first file in key order that cannot be given its stored
    /// form; where all can, it is what the codec writes, and a `FormatError` naming no file
    /// where the codec writes nothing.
    pub open spec fn built(self, r: Result<Vec<u8>, ArchiveError>) -> bool {
        if self.staged_pairs().len() == 0 {
            r is Err && r->Err_0 is EmptyArchive
        } else {
            match first_unpackable(
                self.staged_pairs(),
                self.spec_compresses(),
                self.spec_version(),
                0,
            ) {
                Some(i) => r is Err && r->Err_0 is FormatError && r->Err_0->FormatError_file@
                    == utf8_lossy(key_display(self.staged_pairs()[i].0)),
                None => match self.output() {
                    Some(bytes) => r is Ok && r->Ok_0@ == bytes,
                    None => r is Err && r->Err_0 is FormatError
                        && r->Err_0->FormatError_file@.len() == 0,
                },
            }
        }
    }

    /// Whether the compression flag is set.
    pub open spec fn spec_compresses(self) -> bool {
        self.spec_flags().bits & FLAG_COMPRESSED == FLAG_COMPRESSED
    }

    /// What the codec writes from what is staged, where every file can be given its
    /// stored form: the bytes of the archive, or `None` where it writes nothing.
    pub open spec fn output(self) -> Option<Seq<u8>> {
        tes4_archive_bytes(
            self.spec_version(),
            self.spec_flags().bits,
            self.spec_types().bits,
            grouped(
                self.staged_pairs(),
                self.spec_compresses(),
                self.spec_version(),
                self.staged_pairs().len() as int,
            ),
        )
    }

    /// Building is deterministic: two builders that hold the same files under the same
    /// settings build the same bytes, in whatever order the files were staged and in
    /// whatever order the workers finish.
    pub proof fn lemma_output_determined(self, other: BsaBuilder)
        requires
            self.wf(),
            other.wf(),
            self.staged() == other.staged(),
            self.spec_version() == other.spec_version(),
            self.spec_flags() == other.spec_flags(),
            self.spec_types() == other.spec_types(),
        ensures
            self.output() == other.output(),
            first_unpackable(self.staged_pairs(), self.spec_compresses(), self.spec_version(), 0)
                == first_unpackable(
                other.staged_pairs(),
                other.spec_compresses(),
                other.spec_version(),
                0,
            ),
    {
        self.lemma_staged_pairs_determined(other);
    }

    /// Two builders that stage the same map stage the same pairs in the same order.
    pub proof fn lemma_staged_pairs_determined(self, other: BsaBuilder)
        requires
            self.wf(),
            other.wf(),
            self.staged() == other.staged(),
        ensures
            self.staged_pairs() == other.staged_pairs(),
    {
        crate::archive::staging::lemma_sorted_pairs_determined(
            self.files.pairs(),
            other.files.pairs(),
        );
    }

    /// A builder with nothing staged: version 104, the Fallout 3 flags, no content type.
    pub fn new() -> (b: BsaBuilder)
        ensures
            b.wf(),
            b.staged() == Map::<Seq<u8>, Seq<u8>>::empty(),
            b.spec_flags().bits == 63,
            b.spec_types().bits == 0,
            b.spec_version() == BsaVersion::V104,
    {
        BsaBuilder {
            files: StagedFiles::new(),
            flags: default_flags_fo3(),
            types: ArchiveTypes { bits: 0 },
            version: BsaVersion::V104,
        }
    }

    /// A builder with nothing staged whose settings are guessed from the archive's name:
    /// the version and the content types that the name suggests, and the flags of
    /// Oblivion for version 103 and of Fallout 3 otherwise.
    pub fn from_name(name: &str) -> (b: BsaBuilder)
        ensures
            b.wf(),
            b.staged() == Map::<Seq<u8>, Seq<u8>>::empty(),
            b.spec_version() == if is_oblivion_name(name@) {
                BsaVersion::V103
            } else {
                BsaVersion::V104
            },
            b.spec_types().bits == types_for_name(name@),
            b.spec_flags().bits == if is_oblivion_name(name@) {
                3u32
            } else {
                63u32
            },
    {
        let version = detect_version(name);
        let types = detect_types(name);
        let flags = match version {
            BsaVersion::V103 => default_flags_oblivion(),
            _ => default_flags_fo3(),
        };
        BsaBuilder { files: StagedFiles::new(), flags, types, version }
    }

    /// The same builder, writing the given flag word.
    pub fn with_flags(self, flags: ArchiveFlags) -> (b: BsaBuilder)
        ensures
            b.wf() == self.wf(),
            b.staged_pairs() == self.staged_pairs(),
            b.staged() == self.staged(),
            b.spec_flags() == flags,
            b.spec_types() == self.spec_types(),
            b.spec_version() == self.spec_version(),
    {
        let mut b = self;
        b.flags = flags;
        b
    }

    /// The same builder, writing the given content-type word.
    pub fn with_types(self, types: ArchiveTypes) -> (b: BsaBuilder)
        ensures
            b.wf() == self.wf(),
            b.staged_pairs() == self.staged_pairs(),
            b.staged() == self.staged(),
            b.spec_flags() == self.spec_flags(),
            b.spec_types() == types,
            b.spec_version() == self.spec_version(),
    {
        let mut b = self;
        b.types = types;
        b
    }

    /// The same builder, writing the given binary version.
    pub fn with_version(self, version: BsaVersion) -> (b: BsaBuilder)
        ensures
            b.wf() == self.wf(),
            b.staged_pairs() == self.staged_pairs(),
            b.staged() == self.staged(),
            b.spec_flags() == self.spec_flags(),
            b.spec_types() == self.spec_types(),
            b.spec_version() == version,
    {
        let mut b = self;
        b.version = version;
        b
    }

    /// The same builder with the compression flag set or cleared; the other flags stay.
    pub fn with_compression(self, compress: bool) -> (b: BsaBuilder)
        ensures
            b.wf() == self.wf(),
            b.staged_pairs() == self.staged_pairs(),
            b.staged() == self.staged(),
            b.spec_flags().bits == if compress {
                self.spec_flags().bits | FLAG_COMPRESSED
            } else {
                self.spec_flags().bits & !FLAG_COMPRESSED
            },
            b.spec_types() == self.spec_types(),
            b.spec_version() == self.spec_version(),
    {
        let mut b = self;
        let bits = if compress {
            b.flags.bits | FLAG_COMPRESSED
        } else {
            b.flags.bits & !FLAG_COMPRESSED
        };
        b.flags = ArchiveFlags { bits };
        b
    }

    /// The flag word that will be written.
    pub fn flags(&self) -> (f: ArchiveFlags)
        ensures
            f == self.spec_flags(),
    {
        self.flags
    }

    /// The content-type word that will be written.
    pub fn types(&self) -> (t: ArchiveTypes)
        ensures
            t == self.spec_types(),
    {
        self.types
    }

    /// The binary version that will be written.
    pub fn version(&self) -> (v: BsaVersion)
        ensures
            v == self.spec_version(),
    {
        self.version
    }

    /// Stages a file under the directory and file name of its normalized path. Staging
    /// the same directory and file name again replaces what was staged: the last write
    /// wins.
    pub fn add_file(&mut self, path: &str, data: Vec<u8>)
        ensures
            old(self).wf(),
            final(self).wf(),
            final(self).staged() == old(self).staged().insert(bsa_key(path.spec_bytes()), data@),
            final(self).spec_flags() == old(self).spec_flags(),
            final(self).spec_types() == old(self).spec_types(),
            final(self).spec_version() == old(self).spec_version(),
    {
        let key = make_bsa_key(path.as_bytes());
        self.files.insert(key, data);
    }

    /// The number of staged files.
    pub fn file_count(&self) -> (n: usize)
        ensures
            self.wf(),
            n == self.staged_pairs().len(),
            n == self.staged().dom().len(),
            self.staged().dom().finite(),
    {
        let n = self.files.len();
        proof {
            crate::archive::staging::lemma_pairs_map_len(self.files.pairs());
        }
        n
    }

    /// Whether nothing is staged.
    pub fn is_empty(&self) -> (b: bool)
        ensures
            self.wf(),
            b == (self.staged_pairs().len() == 0),
            b == (self.staged() == Map::<Seq<u8>, Seq<u8>>::empty()),
    {
        let n = self.files.len();
        proof {
            crate::archive::staging::lemma_pairs_map_len(self.files.pairs());
            if self.files.pairs().len() == 0 {
                assert(self.files.model() =~= Map::<Seq<u8>, Seq<u8>>::empty());
            }
        }
        n == 0
    }

    /// Builds the archive and returns its bytes.
    ///
    /// With nothing staged the error is `EmptyArchive`. Otherwise each staged file is
    /// given its stored form on the worker pool, compressed where the compression flag is
    /// set, `progress` being told of each with the count reached, the total and the file's
    /// directory and name. The first file in key order that cannot be compressed makes
    /// the build fail with a `FormatError` naming it. The files are then grouped into
    /// directories and the container is written: the result is what the codec writes, and
    /// a `FormatError` naming no file where it writes nothing.
    pub fn build_with_progress<F: Fn(usize, usize, &str) + Send + Sync>(self, progress: F) -> (r:
        Result<Vec<u8>, ArchiveError>)
        requires
            forall|current: usize, total: usize, name: &str|
                call_requires(progress, (current, total, name)),
        ensures
            self.built(r),
            forall|i: int|
                0 <= i < self.staged_pairs().len() ==> progress_told(
                    &progress,
                    self.staged_pairs().len() as usize,
                    utf8_lossy(key_display(#[trigger] self.staged_pairs()[i].0)),
                ),
    {
        let total = self.files.len();
        if total == 0 {
            return Err(ArchiveError::EmptyArchive);
        }
        let compress = self.flags.bits & FLAG_COMPRESSED == FLAG_COMPRESSED;
        let version = self.version;
        let counter = counter_new();
        let tell = &progress;
        let files = &self.files;
        let ghost pairs = self.files.pairs();
        let unit = |i: usize| -> (p: Option<StoredPayload>)
            requires
                i < total,
            ensures
                match bsa_stored(files.pairs()[i as int], compress, version) {
                    Some(m) => p is Some && p->0.model() == m,
                    None => p is None,
                },
                progress_told(tell, total, utf8_lossy(key_display(files.pairs()[i as int].0))),
            {
                let data = files.payload(i);
                let key = files.key(i);
                let (dir, name) = split_bsa_key(key.as_slice());
                let packed = if compress {
                    tes4_deflate(data.as_slice(), version)
                } else {
                    Ok(copy_bytes(data.as_slice()))
                };
                let mut shown = dir;
                shown.push(0x2fu8);
                append_bytes(&mut shown, name.as_slice());
                assert(shown@ =~= key_display(key@));
                let text = decode_utf8_lossy(shown.as_slice());
                tell_progress(tell, &counter, total, text.as_str());
                match packed {
                    Ok(stored) => if compress {
                        Some(StoredPayload { name, stored, decompressed_len: Some(data.len()) })
                    } else {
                        Some(StoredPayload { name, stored, decompressed_len: None })
                    },
                    Err(_) => None,
                }
            };
        let mut packed = par_map_indices(total, &unit);
        assert forall|i: int| 0 <= i < total implies match bsa_stored(pairs[i], compress, version) {
            Some(m) => (#[trigger] packed@[i]) is Some && packed@[i]->0.model() == m,
            None => packed@[i] is None,
        } by {
            assert(call_ensures(unit, (i as usize,), packed@[i as usize as int]));
        }
        assert forall|i: int| 0 <= i < total implies progress_told(
            &progress,
            total,
            utf8_lossy(key_display(#[trigger] pairs[i].0)),
        ) by {
            assert(call_ensures(unit, (i as usize,), packed@[i as usize as int]));
        }
        // take the stored forms out of the results, last first, and note the first failure
        let ghost all = packed@;
        let mut reversed: Vec<StoredPayload> = Vec::new();
        let mut failed: Option<usize> = None;
        while packed.len() > 0
            invariant
                packed@.len() <= total,
                total == pairs.len(),
                all.len() == total,
                packed@ == all.take(packed@.len() as int),
                forall|i: int|
                    0 <= i < total ==> match bsa_stored(pairs[i], compress, version) {
                        Some(m) => (#[trigger] all[i]) is Some && all[i]->0.model() == m,
                        None => all[i] is None,
                    },
                match failed {
                    Some(j) => j < total && first_unpackable(
                        pairs,
                        compress,
                        version,
                        packed@.len() as int,
                    ) == Some(j as int),
                    None => first_unpackable(pairs, compress, version, packed@.len() as int)
                        is None && reversed@.len() + packed@.len() == total && forall|k: int|
                        0 <= k < reversed@.len() ==> Some((#[trigger] reversed@[k]).model())
                            == bsa_stored(pairs[total - 1 - k], compress, version),
                },
            decreases packed@.len(),
        {
            let i = packed.len() - 1;
            assert(all[i as int] == packed@[i as int]);
            match packed.pop().unwrap() {
                Some(payload) => {
                    if failed.is_none() {
                        reversed.push(payload);
                    }
                },
                None => {
                    failed = Some(i);
                },
            }
            assert(packed@ =~= all.take(i as int));
        }
        if let Some(j) = failed {
            let (dir, name) = split_bsa_key(self.files.key(j).as_slice());
            let mut shown = dir;
            shown.push(0x2fu8);
            append_bytes(&mut shown, name.as_slice());
            assert(shown@ =~= key_display(pairs[j as int].0));
            let text = decode_utf8_lossy(shown.as_slice());
            return Err(ArchiveError::malformed_entry(text.as_str()));
        }
        // group the stored forms into directories, first file first
        let mut directories: Vec<StoredDirectory> = Vec::new();
        let mut ids: Vec<u64> = Vec::new();
        let mut i: usize = 0;
        while i < total
            invariant
                i <= total,
                total == pairs.len(),
                pairs == self.files.pairs(),
                reversed@.len() + i == total,
                forall|k: int|
                    0 <= k < reversed@.len() ==> Some((#[trigger] reversed@[k]).model())
                        == bsa_stored(pairs[total - 1 - k], compress, version),
                directories_model(directories@) == grouped(pairs, compress, version, i as int),
                ids@ == directory_ids(directories_model(directories@)),
            decreases total - i,
        {
            let ghost before = directories_model(directories@);
            let ghost k = reversed@.len() - 1;
            assert(Some(reversed@[k].model()) == bsa_stored(pairs[i as int], compress, version));
            let payload = reversed.pop().unwrap();
            let (dir, _) = split_bsa_key(self.files.key(i).as_slice());
            let id = tes4_directory_number(dir.as_slice());
            match find_number(&ids, id) {
                Some(at) => {
                    assert(before[at as int] == (
                        directories@[at as int].name@,
                        payloads_model(directories@[at as int].files@),
                    ));
                    let ghost held = payloads_model(directories@[at as int].files@);
                    directories[at].files.push(payload);
                    assert(payloads_model(directories@[at as int].files@) =~= held.push(
                        payload.model(),
                    ));
                    assert(directories_model(directories@) =~= before.update(
                        at as int,
                        (before[at as int].0, before[at as int].1.push(payload.model())),
                    ));
                    assert(ids@ =~= directory_ids(directories_model(directories@)));
                },
                None => {
                    let mut fresh: Vec<StoredPayload> = Vec::new();
                    fresh.push(payload);
                    assert(payloads_model(fresh@) =~= seq![payload.model()]);
                    directories.push(StoredDirectory { name: dir, files: fresh });
                    ids.push(id);
                    assert(directories_model(directories@) =~= before.push(
                        (dir@, seq![payload.model()]),
                    ));
                    assert(ids@ =~= directory_ids(directories_model(directories@)));
                },
            }
            i += 1;
        }
        let options = tes4_options(version, self.flags.bits, self.types.bits);
        match tes4_write(&options, &directories) {
            Ok(bytes) => Ok(bytes),
            Err(_) => Err(ArchiveError::malformed_container()),
        }
    }
}

impl Default for BsaBuilder {
    fn default() -> (b: BsaBuilder)
        ensures
            b.wf(),
            b.staged() == Map::<Seq<u8>, Seq<u8>>::empty(),
    {
        BsaBuilder::new()
    }
}

} // verus!
