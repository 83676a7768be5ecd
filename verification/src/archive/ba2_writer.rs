//! Building BA2 archives (Fallout 4, Fallout 76, Starfield).

use vstd::prelude::*;
use vstd::string::StringSliceAdditionalSpecFns;
use crate::archive::batch::{par_map_indices, progress_told, tell_progress};
use crate::archive::codec::{
    fo4_deflate, fo4_deflated, fo4_file_parts, fo4_general_bytes, fo4_texture,
    fo4_texture_archive_bytes, fo4_texture_parsed, fo4_write_general, fo4_write_textures,
    payloads_model, textures_model, FileParts, StoredPayload,
};
use crate::archive::error::ArchiveError;
use crate::archive::flag::counter_new;
use crate::archive::game::{Ba2CompressionFormat, Ba2Format, Ba2Version};
use crate::archive::staging::StagedFiles;
use crate::text::{
    chars_of, contains_chars, contains_seq, copy_bytes, decode_utf8_lossy, last_component,
    last_component_of, lowercase, normalize_key, normalized_key, occurs_at_exec,
    starts_with_seq, utf8_lossy,
};

verus! {

/// Whether an archive name looks like that of a texture archive. The last component of
/// the lower-cased name is looked at: it holds ` - textures`, or begins with `textures`,
/// or holds `textures` and neither ` - main` nor `_main`.
pub open spec fn is_texture_archive_name(name: Seq<char>) -> bool {
    let file = last_component(lowercase(name));
    contains_seq(file, " - textures"@) || starts_with_seq(file, "textures"@) || (contains_seq(
        file,
        "textures"@,
    ) && !contains_seq(file, " - main"@) && !contains_seq(file, "_main"@))
}

/// The kind of BA2 archive that a destination file name asks for: a texture archive
/// where the lower-cased name holds `textures`, a general archive otherwise. This goes by
/// the name alone and may be wrong about the content.
pub open spec fn format_for_output_name(file_name: Seq<char>) -> Ba2Format {
    if contains_seq(lowercase(file_name), "textures"@) {
        Ba2Format::DX10
    } else {
        Ba2Format::General
    }
}

/// The kind of BA2 archive that a destination file name asks for.
pub fn ba2_format_for_output(file_name: &str) -> (f: Ba2Format)
    ensures
        f == format_for_output_name(file_name@),
{
    let lower = file_name.to_lowercase();
    let text = chars_of(lower.as_str());
    let token = chars_of("textures");
    if contains_chars(&text, &token) {
        Ba2Format::DX10
    } else {
        Ba2Format::General
    }
}

/// The stored form of one staged file of a general archive: compressed by the codec where
/// compression is on and succeeds, as it is otherwise.
pub open spec fn general_payload(pair: (Seq<u8>, Seq<u8>), compress: bool) -> (
    Seq<u8>,
    Seq<u8>,
    Option<usize>,
) {
    if compress && fo4_deflated(pair.1) is Some {
        (pair.0, fo4_deflated(pair.1)->0, Some(pair.1.len() as usize))
    } else {
        (pair.0, pair.1, None)
    }
}

/// The stored forms of all staged files of a general archive, in key order.
pub open spec fn general_payloads(pairs: Seq<(Seq<u8>, Seq<u8>)>, compress: bool) -> Seq<
    (Seq<u8>, Seq<u8>, Option<usize>),
> {
    Seq::new(pairs.len(), |i: int| general_payload(pairs[i], compress))
}

/// The first position at or after `from` whose payload the codec does not accept as a
/// texture.
pub open spec fn first_rejected_texture(
    pairs: Seq<(Seq<u8>, Seq<u8>)>,
    compress: bool,
    from: int,
) -> Option<int>
    decreases pairs.len() - from,
{
    if from < 0 || from >= pairs.len() {
        None
    } else if fo4_texture_parsed(pairs[from].1, compress) is None {
        Some(from)
    } else {
        first_rejected_texture(pairs, compress, from + 1)
    }
}

/// The textures that the codec reads from the staged payloads, in key order.
pub open spec fn texture_entries(pairs: Seq<(Seq<u8>, Seq<u8>)>, compress: bool) -> Seq<
    (Seq<u8>, FileParts),
> {
    Seq::new(pairs.len(), |i: int| (pairs[i].0, fo4_texture_parsed(pairs[i].1, compress)->0))
}

/// Collects files in memory and builds a BA2 archive from them.
pub struct Ba2Builder {
    files: StagedFiles,
    format: Ba2Format,
    compression: Ba2CompressionFormat,
    strings: bool,
    version: Ba2Version,
}

impl Ba2Builder {
    /// The staged files, as a map from staging key to payload.
    pub closed spec fn staged(self) -> Map<Seq<u8>, Seq<u8>> {
        self.files.model()
    }

    /// The staged files as pairs of key and payload, in key order.
    pub closed spec fn staged_pairs(self) -> Seq<(Seq<u8>, Seq<u8>)> {
        self.files.pairs()
    }

    /// The staging area is in order.
    pub closed spec fn wf(self) -> bool {
        self.files.wf()
    }

    /// The kind of archive that will be built.
    pub closed spec fn spec_format(self) -> Ba2Format {
        self.format
    }

    /// The compression that will be used.
    pub closed spec fn spec_compression(self) -> Ba2CompressionFormat {
        self.compression
    }

    /// Whether the archive will hold a string table.
    pub closed spec fn spec_strings(self) -> bool {
        self.strings
    }

    /// The binary version that will be written.
    pub closed spec fn spec_version(self) -> Ba2Version {
        self.version
    }

    /// Whether `r` is what building gives.
    ///
    /// With nothing staged, it is the `EmptyArchive` error. For a general archive it is
    /// what the codec writes for the stored forms, and a `FormatError` naming no file where
    /// the codec writes nothing. For a texture archive it is a `FormatError` naming the
    /// first payload in key order that the codec does not accept as a texture; where all
    /// are accepted it is what the codec writes for the textures, and a `FormatError`
    /// naming no file where the codec writes nothing.
    pub open spec fn built(self, r: Result<Vec<u8>, ArchiveError>) -> bool {
        if self.staged_pairs().len() == 0 {
            r is Err && r->Err_0 is EmptyArchive
        } else if self.spec_format() == Ba2Format::General {
            match self.general_output() {
                Some(bytes) => r is Ok && r->Ok_0@ == bytes,
                None => r is Err && r->Err_0 is FormatError && r->Err_0->FormatError_file@.len()
                    == 0,
            }
        } else {
            match first_rejected_texture(
                self.staged_pairs(),
                self.spec_compression() != Ba2CompressionFormat::Uncompressed,
                0,
            ) {
                Some(i) => r is Err && r->Err_0 is FormatError && r->Err_0->FormatError_file@
                    == utf8_lossy(self.staged_pairs()[i].0),
                None => match self.texture_output() {
                    Some(bytes) => r is Ok && r->Ok_0@ == bytes,
                    None => r is Err && r->Err_0 is FormatError
                        && r->Err_0->FormatError_file@.len() == 0,
                },
            }
        }
    }

    /// What the codec writes for a texture archive from what is staged, where it accepts
    /// every payload as a texture: the bytes of the archive, or `None` where it writes
    /// nothing.
    pub open spec fn texture_output(self) -> Option<Seq<u8>> {
        fo4_texture_archive_bytes(
            self.spec_version(),
            self.spec_strings(),
            texture_entries(
                self.staged_pairs(),
                self.spec_compression() != Ba2CompressionFormat::Uncompressed,
            ),
        )
    }

    /// What the codec writes for a general archive from what is staged: the bytes of the
    /// archive, or `None` where it writes nothing.
    pub open spec fn general_output(self) -> Option<Seq<u8>> {
        fo4_general_bytes(
            self.spec_version(),
            self.spec_strings(),
            general_payloads(
                self.staged_pairs(),
                self.spec_compression() != Ba2CompressionFormat::Uncompressed,
            ),
        )
    }

    /// Building is deterministic: two builders that hold the same files under the same
    /// settings build the same bytes, in whatever order the files were staged and in
    /// whatever order the workers finish.
    pub proof fn lemma_output_determined(self, other: Ba2Builder)
        requires
            self.wf(),
            other.wf(),
            self.staged() == other.staged(),
            self.spec_version() == other.spec_version(),
            self.spec_strings() == other.spec_strings(),
            self.spec_compression() == other.spec_compression(),
        ensures
            self.general_output() == other.general_output(),
            self.texture_output() == other.texture_output(),
            forall|r: Result<Vec<u8>, ArchiveError>|
                self.spec_format() == other.spec_format() ==> self.built(r) == other.built(r),
    {
        self.lemma_staged_pairs_determined(other);
    }

    /// The staged pairs are those of the staged map, in key order, and nothing else
    /// fixes them: two builders that stage the same map stage the same pairs.
    pub proof fn lemma_staged_pairs_determined(self, other: Ba2Builder)
        requires
            self.wf(),
            other.wf(),
            self.staged() == other.staged(),
        ensures
            self.staged_pairs() == other.staged_pairs(),
    {
        crate::archive::staging::lemma_sorted_pairs_determined(
            self.files.pairs(),
            other.files.pairs(),
        );
    }

    /// A builder with nothing staged: general archive, zlib, string table, version 7.
    pub fn new() -> (b: Ba2Builder)
        ensures
            b.wf(),
            b.staged() == Map::<Seq<u8>, Seq<u8>>::empty(),
            b.spec_format() == Ba2Format::General,
            b.spec_compression() == Ba2CompressionFormat::Zlib,
            b.spec_strings(),
            b.spec_version() == Ba2Version::V7,
    {
        Ba2Builder {
            files: StagedFiles::new(),
            format: Ba2Format::General,
            compression: Ba2CompressionFormat::Zlib,
            strings: true,
            version: Ba2Version::V7,
        }
    }

    /// A builder with nothing staged whose kind is guessed from the archive's name: a
    /// texture archive where the name looks like one, a general archive otherwise.
    pub fn from_name(name: &str) -> (b: Ba2Builder)
        ensures
            b.wf(),
            b.staged() == Map::<Seq<u8>, Seq<u8>>::empty(),
            b.spec_format() == if is_texture_archive_name(name@) {
                Ba2Format::DX10
            } else {
                Ba2Format::General
            },
            b.spec_compression() == Ba2CompressionFormat::Zlib,
            b.spec_strings(),
            b.spec_version() == Ba2Version::V7,
    {
        let lower = name.to_lowercase();
        let all = chars_of(lower.as_str());
        let file = last_component_of(&all);
        let dash_textures = chars_of(" - textures");
        let textures = chars_of("textures");
        let dash_main = chars_of(" - main");
        let under_main = chars_of("_main");
        let is_texture = contains_chars(&file, &dash_textures) || occurs_at_exec(
            &file,
            &textures,
            0,
        ) || (contains_chars(&file, &textures) && !contains_chars(&file, &dash_main)
            && !contains_chars(&file, &under_main));
        let format = if is_texture {
            Ba2Format::DX10
        } else {
            Ba2Format::General
        };
        Ba2Builder {
            files: StagedFiles::new(),
            format,
            compression: Ba2CompressionFormat::Zlib,
            strings: true,
            version: Ba2Version::V7,
        }
    }

    /// The same builder, writing the given binary version.
    pub fn with_version(self, version: Ba2Version) -> (b: Ba2Builder)
        ensures
            b.wf() == self.wf(),
            b.staged_pairs() == self.staged_pairs(),
            b.staged() == self.staged(),
            b.spec_version() == version,
            b.spec_format() == self.spec_format(),
            b.spec_compression() == self.spec_compression(),
            b.spec_strings() == self.spec_strings(),
    {
        let mut b = self;
        b.version = version;
        b
    }

    /// The same builder, building the given kind of archive.
    pub fn with_format(self, format: Ba2Format) -> (b: Ba2Builder)
        ensures
            b.wf() == self.wf(),
            b.staged_pairs() == self.staged_pairs(),
            b.staged() == self.staged(),
            b.spec_version() == self.spec_version(),
            b.spec_format() == format,
            b.spec_compression() == self.spec_compression(),
            b.spec_strings() == self.spec_strings(),
    {
        let mut b = self;
        b.format = format;
        b
    }

    /// The same builder, using the given compression.
    pub fn with_compression(self, compression: Ba2CompressionFormat) -> (b: Ba2Builder)
        ensures
            b.wf() == self.wf(),
            b.staged_pairs() == self.staged_pairs(),
            b.staged() == self.staged(),
            b.spec_version() == self.spec_version(),
            b.spec_format() == self.spec_format(),
            b.spec_compression() == compression,
            b.spec_strings() == self.spec_strings(),
    {
        let mut b = self;
        b.compression = compression;
        b
    }

    /// The same builder, with or without a string table.
    pub fn with_strings(self, strings: bool) -> (b: Ba2Builder)
        ensures
            b.wf() == self.wf(),
            b.staged_pairs() == self.staged_pairs(),
            b.staged() == self.staged(),
            b.spec_version() == self.spec_version(),
            b.spec_format() == self.spec_format(),
            b.spec_compression() == self.spec_compression(),
            b.spec_strings() == strings,
    {
        let mut b = self;
        b.strings = strings;
        b
    }

    /// The kind of archive that will be built.
    pub fn format(&self) -> (f: Ba2Format)
        ensures
            f == self.spec_format(),
    {
        self.format
    }

    /// The compression that will be used.
    pub fn compression(&self) -> (c: Ba2CompressionFormat)
        ensures
            c == self.spec_compression(),
    {
        self.compression
    }

    /// The binary version that will be written.
    pub fn version(&self) -> (v: Ba2Version)
        ensures
            v == self.spec_version(),
    {
        self.version
    }

    /// Whether the archive will hold a string table.
    pub fn strings(&self) -> (s: bool)
        ensures
            s == self.spec_strings(),
    {
        self.strings
    }

    /// Stages a file. The path is staged under its normalized key: forward slashes, no
    /// leading slash. Staging a key again replaces what was staged: the last write wins.
    pub fn add_file(&mut self, path: &str, data: Vec<u8>)
        ensures
            old(self).wf(),
            final(self).wf(),
            final(self).staged() == old(self).staged().insert(
                normalized_key(path.spec_bytes()),
                data@,
            ),
            final(self).spec_format() == old(self).spec_format(),
            final(self).spec_compression() == old(self).spec_compression(),
            final(self).spec_strings() == old(self).spec_strings(),
            final(self).spec_version() == old(self).spec_version(),
    {
        let key = normalize_key(path.as_bytes());
        self.files.insert(key, data);
    }

    /// The number of staged files.
    pub fn file_count(&self) -> (n: usize)
        ensures
            self.wf(),
            n == self.staged_pairs().len(),
            n == self.staged().dom().len(),
            self.staged().dom().finite(),
    {
        let n = self.files.len();
        proof {
            crate::archive::staging::lemma_pairs_map_len(self.files.pairs());
        }
        n
    }

    /// Whether nothing is staged.
    pub fn is_empty(&self) -> (b: bool)
        ensures
            self.wf(),
            b == (self.staged_pairs().len() == 0),
            b == (self.staged() == Map::<Seq<u8>, Seq<u8>>::empty()),
    {
        let n = self.files.len();
        proof {
            crate::archive::staging::lemma_pairs_map_len(self.files.pairs());
            if self.files.pairs().len() == 0 {
                assert(self.files.model() =~= Map::<Seq<u8>, Seq<u8>>::empty());
            }
        }
        n == 0
    }

    /// Builds the archive and returns its bytes.
    ///
    /// With nothing staged the error is `EmptyArchive`. Otherwise each staged file is
    /// given its stored form on the worker pool, `progress` being told of each with the
    /// count reached, the total and the file's key, and the container is then written in
    /// key order.
    ///
    /// For a general archive the result is what the codec writes for the stored forms, and
    /// a `FormatError` naming no file where it writes nothing. For a texture archive every
    /// payload must be a texture that the codec accepts; the first one in key order that
    /// is not makes the build fail with a `FormatError` naming its key.
    pub fn build_with_progress<F: Fn(usize, usize, &str) + Send + Sync>(self, progress: F) -> (r:
        Result<Vec<u8>, ArchiveError>)
        requires
            forall|current: usize, total: usize, name: &str|
                call_requires(progress, (current, total, name)),
        ensures
            self.built(r),
            forall|i: int|
                0 <= i < self.staged_pairs().len() ==> progress_told(
                    &progress,
                    self.staged_pairs().len() as usize,
                    utf8_lossy(#[trigger] self.staged_pairs()[i].0),
                ),
    {
        let total = self.files.len();
        if total == 0 {
            return Err(ArchiveError::EmptyArchive);
        }
        let compress = match self.compression {
            Ba2CompressionFormat::Uncompressed => false,
            _ => true,
        };
        let counter = counter_new();
        let tell = &progress;
        let ghost pairs = self.files.pairs();
        match self.format {
            Ba2Format::General => {
                let files = &self.files;
                let unit = |i: usize| -> (p: StoredPayload)
                    requires
                        i < total,
                    ensures
                        p.model() == general_payload(files.pairs()[i as int], compress),
                        progress_told(tell, total, utf8_lossy(files.pairs()[i as int].0)),
                    {
                        let data = files.payload(i);
                        let name = copy_bytes(files.key(i).as_slice());
                        let packed = if compress {
                            fo4_deflate(data.as_slice())
                        } else {
                            Ok(copy_bytes(data.as_slice()))
                        };
                        let shown = decode_utf8_lossy(name.as_slice());
                        tell_progress(tell, &counter, total, shown.as_str());
                        match packed {
                            Ok(stored) => if compress {
                                StoredPayload { name, stored, decompressed_len: Some(data.len()) }
                            } else {
                                StoredPayload { name, stored, decompressed_len: None }
                            },
                            Err(_) => StoredPayload {
                                name,
                                stored: copy_bytes(data.as_slice()),
                                decompressed_len: None,
                            },
                        }
                    };
                let payloads = par_map_indices(total, &unit);
                assert forall|i: int| 0 <= i < total implies payloads@[i].model()
                    == general_payload(pairs[i], compress) && progress_told(
                    &progress,
                    total,
                    utf8_lossy(#[trigger] pairs[i].0),
                ) by {
                    assert(call_ensures(unit, (i as usize,), payloads@[i as usize as int]));
                }
                assert(payloads_model(payloads@) =~= general_payloads(pairs, compress));
                match fo4_write_general(self.version, self.strings, &payloads) {
                    Ok(bytes) => Ok(bytes),
                    Err(_) => Err(ArchiveError::malformed_container()),
                }
            },
            Ba2Format::DX10 => self.build_dx10_with_progress(progress),
        }
    }

    /// Builds a texture archive from what is staged, which is not nothing.
    ///
    /// Each payload is read as a texture on the worker pool, `progress` being told of
    /// each. The first payload in key order that the codec does not accept makes the build
    /// fail with a `FormatError` naming its key; where all are accepted the container is
    /// written in key order.
    fn build_dx10_with_progress<F: Fn(usize, usize, &str) + Send + Sync>(self, progress: F) -> (r:
        Result<Vec<u8>, ArchiveError>)
        requires
            self.staged_pairs().len() > 0,
            self.spec_format() == Ba2Format::DX10,
            forall|current: usize, total: usize, name: &str|
                call_requires(progress, (current, total, name)),
        ensures
            self.built(r),
            forall|i: int|
                0 <= i < self.staged_pairs().len() ==> progress_told(
                    &progress,
                    self.staged_pairs().len() as usize,
                    utf8_lossy(#[trigger] self.staged_pairs()[i].0),
                ),
    {
        let total = self.files.len();
        let compress = match self.compression {
            Ba2CompressionFormat::Uncompressed => false,
            _ => true,
        };
        let counter = counter_new();
        let tell = &progress;
        let ghost pairs = self.files.pairs();
        let files = &self.files;
        let unit = |i: usize| -> (t: Result<ba2::fo4::File<'static>, ba2::fo4::Error>)
            requires
                i < total,
            ensures
                match fo4_texture_parsed(files.pairs()[i as int].1, compress) {
                    Some(parts) => t is Ok && fo4_file_parts(t->Ok_0) == parts,
                    None => t is Err,
                },
                progress_told(tell, total, utf8_lossy(files.pairs()[i as int].0)),
            {
                let parsed = fo4_texture(files.payload(i).as_slice(), compress);
                let shown = decode_utf8_lossy(files.key(i).as_slice());
                tell_progress(tell, &counter, total, shown.as_str());
                parsed
            };
        let mut textures = par_map_indices(total, &unit);
        assert forall|i: int| 0 <= i < total implies match fo4_texture_parsed(
            pairs[i].1,
            compress,
        ) {
            Some(parts) => (#[trigger] textures@[i]) is Ok && fo4_file_parts(
                textures@[i]->Ok_0,
            ) == parts,
            None => textures@[i] is Err,
        } by {
            assert(call_ensures(unit, (i as usize,), textures@[i as usize as int]));
        }
        assert forall|i: int| 0 <= i < total implies progress_told(
            &progress,
            total,
            utf8_lossy(#[trigger] pairs[i].0),
        ) by {
            assert(call_ensures(unit, (i as usize,), textures@[i as usize as int]));
        }
        // take the textures out of the results, last first, and note the first one
        // that was rejected
        let mut reversed: Vec<(Vec<u8>, ba2::fo4::File<'static>)> = Vec::new();
        let mut rejected: Option<usize> = None;
        let ghost all = textures@;
        let ghost wanted = texture_entries(pairs, compress);
        while textures.len() > 0
            invariant
                textures@.len() <= total,
                total == pairs.len(),
                pairs == self.files.pairs(),
                wanted == texture_entries(pairs, compress),
                all.len() == total,
                textures@ == all.take(textures@.len() as int),
                forall|i: int|
                    0 <= i < total ==> match fo4_texture_parsed(pairs[i].1, compress) {
                        Some(parts) => (#[trigger] all[i]) is Ok && fo4_file_parts(
                            all[i]->Ok_0,
                        ) == parts,
                        None => all[i] is Err,
                    },
                match rejected {
                    Some(j) => j < total && first_rejected_texture(
                        pairs,
                        compress,
                        textures@.len() as int,
                    ) == Some(j as int),
                    None => first_rejected_texture(pairs, compress, textures@.len() as int)
                        is None && reversed@.len() + textures@.len() == total
                        && forall|k: int|
                        0 <= k < reversed@.len() ==> ((#[trigger] reversed@[k]).0@,
                        fo4_file_parts(reversed@[k].1)) == wanted[total - 1 - k],
                },
            decreases textures@.len(),
        {
            let i = textures.len() - 1;
            assert(all[i as int] == textures@[i as int]);
            match textures.pop().unwrap() {
                Ok(file) => {
                    if rejected.is_none() {
                        reversed.push((copy_bytes(self.files.key(i).as_slice()), file));
                    }
                },
                Err(_) => {
                    rejected = Some(i);
                },
            }
            assert(textures@ =~= all.take(i as int));
        }
        if let Some(j) = rejected {
            let shown = decode_utf8_lossy(self.files.key(j).as_slice());
            return Err(ArchiveError::malformed_entry(shown.as_str()));
        }
        // put them back in key order
        let mut accepted: Vec<(Vec<u8>, ba2::fo4::File<'static>)> = Vec::new();
        while reversed.len() > 0
            invariant
                total == wanted.len(),
                reversed@.len() + accepted@.len() == total,
                forall|k: int|
                    0 <= k < reversed@.len() ==> ((#[trigger] reversed@[k]).0@,
                    fo4_file_parts(reversed@[k].1)) == wanted[total - 1 - k],
                forall|k: int|
                    0 <= k < accepted@.len() ==> ((#[trigger] accepted@[k]).0@,
                    fo4_file_parts(accepted@[k].1)) == wanted[k],
            decreases reversed@.len(),
        {
            let ghost n = reversed@.len() - 1;
            assert((reversed@[n].0@, fo4_file_parts(reversed@[n].1)) == wanted[total - 1 - n]);
            let entry = reversed.pop().unwrap();
            accepted.push(entry);
        }
        assert(textures_model(accepted@) =~= wanted);
        match fo4_write_textures(self.version, self.strings, accepted) {
            Ok(bytes) => Ok(bytes),
            Err(_) => Err(ArchiveError::malformed_container()),
        }
    }
}

impl Default for Ba2Builder {
    fn default() -> (b: Ba2Builder)
        ensures
            b.wf(),
            b.staged() == Map::<Seq<u8>, Seq<u8>>::empty(),
    {
        Ba2Builder::new()
    }
}

} // verus!
