//! The archive codec. Everything in this file is a declaration about the `ba2` crate:
//! its types, names for what its functions return, and thin calls into it. Nothing here
//! is proved; the rest of the library is proved from what is stated here.

use vstd::prelude::*;
use ba2::fo4::Chunk as Fo4Chunk;
use ba2::tes4::{
    Archive as Tes4Archive, ArchiveKey as Tes4Key, Directory as Tes4Directory,
    DirectoryKey as Tes4Name, File as Tes4File,
};
use ba2::{CompressableFrom, Reader, ReaderWithOptions};
use crate::archive::format::{signature_format, ArchiveFormat};
use crate::archive::game::{Ba2Version, BsaVersion};
use crate::archive::layout::tes4_sound;

verus! {

/// A file held by a TES3 archive (`ba2::tes3::File`).
#[verifier::external_type_specification]
#[verifier::external_body]
pub struct ExTes3File<'a>(ba2::tes3::File<'a>);

/// A file held by a TES4 archive (`ba2::tes4::File`).
#[verifier::external_type_specification]
#[verifier::external_body]
pub struct ExTes4File<'a>(ba2::tes4::File<'a>);

/// A file held by a BA2 archive (`ba2::fo4::File`).
#[verifier::external_type_specification]
#[verifier::external_body]
pub struct ExFo4File<'a>(ba2::fo4::File<'a>);

/// The codec's error for TES3 archives.
#[verifier::external_type_specification]
#[verifier::external_body]
pub struct ExTes3Error(ba2::tes3::Error);

/// The codec's error for TES4 archives.
#[verifier::external_type_specification]
#[verifier::external_body]
pub struct ExTes4Error(ba2::tes4::Error);

/// The codec's error for BA2 archives.
#[verifier::external_type_specification]
#[verifier::external_body]
pub struct ExFo4Error(ba2::fo4::Error);

/// The codec's version tag for TES4 archives.
#[verifier::external_type_specification]
#[verifier::external_body]
pub struct ExTes4Version(ba2::tes4::Version);

/// The options under which the codec writes a TES4 archive.
#[verifier::external_type_specification]
#[verifier::external_body]
pub struct ExTes4Options(ba2::tes4::ArchiveOptions);

/// The codec's version tag for BA2 archives.
#[verifier::external_type_specification]
#[verifier::external_body]
pub struct ExFo4Version(ba2::fo4::Version);

/// `ba2::guess_format` on the bytes of `header`: it reads the first four bytes as a
/// little-endian number and knows three values of it; with fewer than four bytes, or any
/// other value, it returns nothing.
#[verifier::external_body]
pub(crate) fn guess_by_signature(header: &[u8]) -> (r: Option<ArchiveFormat>)
    ensures
        r == signature_format(header@),
{
    let mut source = header;
    match ba2::guess_format(&mut source) {
        Some(ba2::FileFormat::TES3) => Some(ArchiveFormat::Tes3Bsa),
        Some(ba2::FileFormat::TES4) => Some(ArchiveFormat::Bsa),
        Some(ba2::FileFormat::FO4) => Some(ArchiveFormat::Ba2),
        None => None,
    }
}

impl BsaVersion {
    /// The codec's tag for this version.
    #[verifier::external_body]
    pub(crate) fn to_crate_version(self) -> ba2::tes4::Version {
        match self {
            BsaVersion::V103 => ba2::tes4::Version::v103,
            BsaVersion::V104 => ba2::tes4::Version::v104,
            BsaVersion::V105 => ba2::tes4::Version::v105,
        }
    }
}

impl Ba2Version {
    /// The codec's tag for this version.
    #[verifier::external_body]
    pub fn to_crate_version(self) -> ba2::fo4::Version {
        match self {
            Ba2Version::V1 => ba2::fo4::Version::v1,
            Ba2Version::V2 => ba2::fo4::Version::v2,
            Ba2Version::V3 => ba2::fo4::Version::v3,
            Ba2Version::V7 => ba2::fo4::Version::v7,
            Ba2Version::V8 => ba2::fo4::Version::v8,
        }
    }
}

// ---------------------------------------------------------------------------------------
// Reading
// ---------------------------------------------------------------------------------------

/// What the codec reads from the bytes of a TES3 archive: for each entry, in the order in
/// which the archive hands its entries out, the stored name and the stored bytes. `None`
/// where the codec rejects the bytes.
pub uninterp spec fn tes3_parsed(bytes: Seq<u8>) -> Option<Seq<(Seq<u8>, Seq<u8>)>>;

/// The bytes that a TES3 file holds.
pub uninterp spec fn tes3_file_bytes(file: ba2::tes3::File<'_>) -> Seq<u8>;

/// The names and contents of opened TES3 entries, as plain values.
pub open spec fn tes3_entries_model(v: Seq<(Vec<u8>, ba2::tes3::File<'_>)>) -> Seq<
    (Seq<u8>, Seq<u8>),
> {
    Seq::new(v.len(), |i: int| (v[i].0@, tes3_file_bytes(v[i].1)))
}

/// `ba2::tes3::Archive::read` on borrowed bytes, followed by handing out every entry with
/// its name. The contract names the outcome after the input bytes and claims nothing else.
#[verifier::external_body]
pub(crate) fn tes3_open<'a>(bytes: &'a [u8]) -> (r: Result<
    Vec<(Vec<u8>, ba2::tes3::File<'a>)>,
    ba2::tes3::Error,
>)
    ensures
        match r {
            Ok(v) => tes3_parsed(bytes@) == Some(tes3_entries_model(v@)),
            Err(_) => tes3_parsed(bytes@) is None,
        },
{
    let archive = ba2::tes3::Archive::read(ba2::Borrowed(bytes))?;
    Ok(archive.into_iter().map(|(key, file)| (key.name().to_vec(), file)).collect())
}

/// `ba2::tes3::File::as_bytes`, copied out.
#[verifier::external_body]
pub(crate) fn tes3_read_file(file: &ba2::tes3::File<'_>) -> (r: Vec<u8>)
    ensures
        r@ == tes3_file_bytes(*file),
{
    file.as_bytes().to_vec()
}

/// What the codec reads from the bytes of a TES4 archive: its binary version and, for each
/// entry in the order in which directories and their files are handed out, the directory
/// name, the file name and the file's decoded content (`None` where decoding fails).
pub uninterp spec fn tes4_parsed(bytes: Seq<u8>) -> Option<
    (BsaVersion, Seq<(Seq<u8>, Seq<u8>, Option<Seq<u8>>)>),
>;

/// What `ba2::tes4::File::write` produces for a file under a binary version: its
/// content, decompressed where it is stored compressed; `None` where that fails.
pub uninterp spec fn tes4_file_content(file: ba2::tes4::File<'_>, version: BsaVersion) -> Option<
    Seq<u8>,
>;

/// The names and contents of opened TES4 entries, as plain values.
pub open spec fn tes4_entries_model(
    v: Seq<(Vec<u8>, Vec<u8>, ba2::tes4::File<'_>)>,
    version: BsaVersion,
) -> Seq<(Seq<u8>, Seq<u8>, Option<Seq<u8>>)> {
    Seq::new(v.len(), |i: int| (v[i].0@, v[i].1@, tes4_file_content(v[i].2, version)))
}

/// `ba2::tes4::Archive::read` on borrowed bytes, followed by handing out every file of
/// every directory with both names, and the version from the archive's options.
///
/// The codec takes the length of an embedded name and of a length field off the size
/// that a file entry states without comparing them, and fails where the size is the
/// smaller; bytes whose tables are sound hold no such entry, and only they are admitted.
#[verifier::external_body]
pub(crate) fn tes4_open<'a>(bytes: &'a [u8]) -> (r: Result<
    (BsaVersion, Vec<(Vec<u8>, Vec<u8>, ba2::tes4::File<'a>)>),
    ba2::tes4::Error,
>)
    requires
        tes4_sound(bytes@),
    ensures
        match r {
            Ok((version, v)) => tes4_parsed(bytes@) == Some(
                (version, tes4_entries_model(v@, version)),
            ),
            Err(_) => tes4_parsed(bytes@) is None,
        },
{
    let (archive, options) = ba2::tes4::Archive::read(ba2::Borrowed(bytes))?;
    let version = match options.version() {
        ba2::tes4::Version::v103 => BsaVersion::V103,
        ba2::tes4::Version::v104 => BsaVersion::V104,
        ba2::tes4::Version::v105 => BsaVersion::V105,
    };
    let files = archive.into_iter().flat_map(|(dir_key, dir)| {
        dir.into_iter().map(move |(key, file)| (dir_key.name().to_vec(), key.name().to_vec(), file))
    });
    Ok((version, files.collect()))
}

/// `ba2::tes4::File::write` into a fresh buffer, with compression options that carry
/// `version` and the codec's default for everything else.
#[verifier::external_body]
pub(crate) fn tes4_read_file(file: &ba2::tes4::File<'_>, version: BsaVersion) -> (r: Result<
    Vec<u8>,
    ba2::tes4::Error,
>)
    ensures
        match r {
            Ok(data) => tes4_file_content(*file, version) == Some(data@),
            Err(_) => tes4_file_content(*file, version) is None,
        },
{
    let options = ba2::tes4::FileCompressionOptions::builder().version(
        version.to_crate_version(),
    ).build();
    let mut out = Vec::new();
    file.write(&mut out, &options)?;
    Ok(out)
}

/// What the codec reads from the bytes of a BA2 archive: whether its payloads are LZ4 and,
/// for each entry in the order in which the archive hands its entries out, the stored name
/// and the file's decoded content (`None` where decoding fails).
pub uninterp spec fn fo4_parsed(bytes: Seq<u8>) -> Option<
    (bool, Seq<(Seq<u8>, Option<Seq<u8>>)>),
>;

/// What `ba2::fo4::File::write` produces for a file, with LZ4 or zlib as the archive's
/// compression: its content; `None` where that fails.
pub uninterp spec fn fo4_file_content(file: ba2::fo4::File<'_>, lz4: bool) -> Option<Seq<u8>>;

/// The names and contents of opened BA2 entries, as plain values.
pub open spec fn fo4_entries_model(v: Seq<(Vec<u8>, ba2::fo4::File<'_>)>, lz4: bool) -> Seq<
    (Seq<u8>, Option<Seq<u8>>),
> {
    Seq::new(v.len(), |i: int| (v[i].0@, fo4_file_content(v[i].1, lz4)))
}

/// `ba2::fo4::Archive::read` on borrowed bytes, followed by handing out every entry with
/// its name, and the compression format from the archive's options.
#[verifier::external_body]
pub(crate) fn fo4_open<'a>(bytes: &'a [u8]) -> (r: Result<
    (bool, Vec<(Vec<u8>, ba2::fo4::File<'a>)>),
    ba2::fo4::Error,
>)
    ensures
        match r {
            Ok((lz4, v)) => fo4_parsed(bytes@) == Some((lz4, fo4_entries_model(v@, lz4))),
            Err(_) => fo4_parsed(bytes@) is None,
        },
{
    let (archive, options) = ba2::fo4::Archive::read(ba2::Borrowed(bytes))?;
    let lz4 = match options.compression_format() {
        ba2::fo4::CompressionFormat::Zip => false,
        ba2::fo4::CompressionFormat::LZ4 => true,
    };
    Ok((lz4, archive.into_iter().map(|(key, file)| (key.name().to_vec(), file)).collect()))
}

/// `ba2::fo4::File::write` into a fresh buffer, with write options that carry the
/// compression format.
#[verifier::external_body]
pub(crate) fn fo4_read_file(file: &ba2::fo4::File<'_>, lz4: bool) -> (r: Result<
    Vec<u8>,
    ba2::fo4::Error,
>)
    ensures
        match r {
            Ok(data) => fo4_file_content(*file, lz4) == Some(data@),
            Err(_) => fo4_file_content(*file, lz4) is None,
        },
{
    let format = if lz4 {
        ba2::fo4::CompressionFormat::LZ4
    } else {
        ba2::fo4::CompressionFormat::Zip
    };
    let options = ba2::fo4::FileWriteOptions::builder().compression_format(format).build();
    let mut out = Vec::new();
    file.write(&mut out, &options)?;
    Ok(out)
}

// ---------------------------------------------------------------------------------------
// Writing
// ---------------------------------------------------------------------------------------

/// A payload as an archive stores it: the stored bytes, and the uncompressed length
/// where the stored bytes are compressed.
pub struct StoredPayload {
    pub name: Vec<u8>,
    pub stored: Vec<u8>,
    pub decompressed_len: Option<usize>,
}

impl StoredPayload {
    /// The payload as plain values.
    pub open spec fn model(self) -> (Seq<u8>, Seq<u8>, Option<usize>) {
        (self.name@, self.stored@, self.decompressed_len)
    }
}

/// The payloads of a sequence as plain values.
pub open spec fn payloads_model(v: Seq<StoredPayload>) -> Seq<(Seq<u8>, Seq<u8>, Option<usize>)> {
    Seq::new(v.len(), |i: int| v[i].model())
}

/// A directory of a TES4 archive that is about to be written.
pub struct StoredDirectory {
    pub name: Vec<u8>,
    pub files: Vec<StoredPayload>,
}

/// The directories of a sequence as plain values.
pub open spec fn directories_model(v: Seq<StoredDirectory>) -> Seq<
    (Seq<u8>, Seq<(Seq<u8>, Seq<u8>, Option<usize>)>),
> {
    Seq::new(v.len(), |i: int| (v[i].name@, payloads_model(v[i].files@)))
}

/// The compressed form that the codec gives to `data` in a TES4 archive of the given
/// version; `None` where compression fails.
pub uninterp spec fn tes4_deflated(data: Seq<u8>, version: BsaVersion) -> Option<Seq<u8>>;

/// `ba2::tes4::File::compress` on a file made of `data`, and the compressed bytes copied
/// out.
#[verifier::external_body]
pub(crate) fn tes4_deflate(data: &[u8], version: BsaVersion) -> (r: Result<
    Vec<u8>,
    ba2::tes4::Error,
>)
    ensures
        match r {
            Ok(stored) => tes4_deflated(data@, version) == Some(stored@),
            Err(_) => tes4_deflated(data@, version) is None,
        },
{
    let options = ba2::tes4::FileCompressionOptions::builder().version(
        version.to_crate_version(),
    ).build();
    let file = ba2::tes4::File::from_decompressed(data);
    Ok(file.compress(&options)?.as_bytes().to_vec())
}

/// The bytes of the TES4 archive that the codec writes for the given version, flag bits,
/// type bits and directories; `None` where writing fails.
pub uninterp spec fn tes4_archive_bytes(
    version: BsaVersion,
    flags: u32,
    types: u16,
    directories: Seq<(Seq<u8>, Seq<(Seq<u8>, Seq<u8>, Option<usize>)>)>,
) -> Option<Seq<u8>>;

/// The version, flag bits and type bits that TES4 archive options hold.
pub uninterp spec fn tes4_options_of(options: ba2::tes4::ArchiveOptions) -> (BsaVersion, u32, u16);

/// `ba2::tes4::ArchiveOptions::builder` with the version, the flag bits and the type bits
/// set, every bit retained.
#[verifier::external_body]
pub(crate) fn tes4_options(version: BsaVersion, flags: u32, types: u16) -> (r:
    ba2::tes4::ArchiveOptions)
    ensures
        tes4_options_of(r) == (version, flags, types),
{
    ba2::tes4::ArchiveOptions::builder().version(version.to_crate_version()).flags(
        ba2::tes4::ArchiveFlags::from_bits_retain(flags),
    ).types(ba2::tes4::ArchiveTypes::from_bits_retain(types)).build()
}

/// The number under which the codec files a directory of the given name: two names are
/// one directory to it exactly where this number is the same.
pub uninterp spec fn tes4_directory_id(name: Seq<u8>) -> u64;

/// `ba2::tes4::hash_directory` on `name`, and `Hash::numeric` of the hash that it gives.
/// The codec's directory keys are equal, and ordered, by this number alone.
#[verifier::external_body]
pub(crate) fn tes4_directory_number(name: &[u8]) -> (id: u64)
    ensures
        id == tes4_directory_id(name@),
{
    ba2::tes4::hash_directory(name.into()).0.numeric()
}

/// Collects the directories into a `ba2::tes4::Archive`, each a collection of its files
/// under the keys that the codec makes of their names, and calls
/// `ba2::tes4::Archive::write` on a fresh buffer. A payload with a recorded length goes in
/// as compressed, one without as it is.
#[verifier::external_body]
pub(crate) fn tes4_write(options: &ba2::tes4::ArchiveOptions, directories: &Vec<StoredDirectory>) -> (r:
    Result<Vec<u8>, ba2::tes4::Error>)
    ensures
        match r {
            Ok(bytes) => tes4_archive_bytes(
                tes4_options_of(*options).0,
                tes4_options_of(*options).1,
                tes4_options_of(*options).2,
                directories_model(directories@),
            ) == Some(bytes@),
            Err(_) => tes4_archive_bytes(
                tes4_options_of(*options).0,
                tes4_options_of(*options).1,
                tes4_options_of(*options).2,
                directories_model(directories@),
            ) is None,
        },
{
    let archive: Tes4Archive = directories.iter().map(|d| {
        let files: Tes4Directory = d.files.iter().map(|f| {
            let stored = f.stored.as_slice();
            let file = f.decompressed_len.map_or_else(|| Tes4File::from_decompressed(stored), |n| Tes4File::from_compressed(stored, n));
            (Tes4Name::from(f.name.as_slice()), file)
        }).collect();
        (Tes4Key::from(d.name.as_slice()), files)
    }).collect();
    let mut out = Vec::new();
    archive.write(&mut out, options)?;
    Ok(out)
}

/// The compressed form that the codec gives to `data` as a chunk of a general BA2
/// archive, with its default chunk options; `None` where compression fails.
pub uninterp spec fn fo4_deflated(data: Seq<u8>) -> Option<Seq<u8>>;

/// `ba2::fo4::Chunk::compress` with default options on a chunk made of `data`, and the
/// compressed bytes copied out.
#[verifier::external_body]
pub(crate) fn fo4_deflate(data: &[u8]) -> (r: Result<Vec<u8>, ba2::fo4::Error>)
    ensures
        match r {
            Ok(stored) => fo4_deflated(data@) == Some(stored@),
            Err(_) => fo4_deflated(data@) is None,
        },
{
    let options = ba2::fo4::ChunkCompressionOptions::default();
    let chunk = ba2::fo4::Chunk::from_decompressed(data);
    Ok(chunk.compress(&options)?.as_bytes().to_vec())
}

/// The bytes of the general BA2 archive that the codec writes for the given version,
/// string-table switch and files; `None` where writing fails.
pub uninterp spec fn fo4_general_bytes(
    version: Ba2Version,
    strings: bool,
    files: Seq<(Seq<u8>, Seq<u8>, Option<usize>)>,
) -> Option<Seq<u8>>;

/// Collects the files into a `ba2::fo4::Archive`, each a file of one chunk under the key
/// that the codec makes of its name, and calls `ba2::fo4::Archive::write` on a fresh
/// buffer with the version and the string-table switch set and every other option at the
/// codec's default. A payload with a recorded length goes in as compressed, one without
/// as it is.
#[verifier::external_body]
pub(crate) fn fo4_write_general(version: Ba2Version, strings: bool, files: &Vec<StoredPayload>) -> (r:
    Result<Vec<u8>, ba2::fo4::Error>)
    ensures
        match r {
            Ok(bytes) => fo4_general_bytes(version, strings, payloads_model(files@)) == Some(
                bytes@,
            ),
            Err(_) => fo4_general_bytes(version, strings, payloads_model(files@)) is None,
        },
{
    let archive: ba2::fo4::Archive = files.iter().map(|f| {
        let stored = f.stored.as_slice();
        let chunk = f.decompressed_len.map_or_else(|| Fo4Chunk::from_decompressed(stored), |n| Fo4Chunk::from_compressed(stored, n));
        (f.name.as_slice().into(), [chunk].into_iter().collect::<ba2::fo4::File>())
    }).collect();
    let options = ba2::fo4::ArchiveOptions::builder().version(version.to_crate_version()).strings(strings).build();
    let mut out = Vec::new();
    archive.write(&mut out, &options)?;
    Ok(out)
}

/// What a BA2 file holds, as plain values: the numbers of its header (none for a general
/// file, six for a DirectX texture, eight for a GNM texture) and its chunks, each with its
/// stored bytes, the uncompressed length where these are compressed, and the range of
/// mip levels where it has one.
pub type FileParts = (Seq<u32>, Seq<(Seq<u8>, Option<usize>, Option<(u16, u16)>)>);

/// What a BA2 file holds.
pub uninterp spec fn fo4_file_parts(file: ba2::fo4::File<'_>) -> FileParts;

/// The BA2 file that the codec reads from `dds`, with the DX10 format, zlib at the
/// Fallout 4 level, and the given choice of compressing the result; `None` where the
/// codec rejects the bytes.
pub uninterp spec fn fo4_texture_parsed(dds: Seq<u8>, compress: bool) -> Option<FileParts>;

/// `ba2::fo4::File::read` on a copy of `dds` with read options for the DX10 format.
#[verifier::external_body]
pub(crate) fn fo4_texture(dds: &[u8], compress: bool) -> (r: Result<
    ba2::fo4::File<'static>,
    ba2::fo4::Error,
>)
    ensures
        match r {
            Ok(file) => fo4_texture_parsed(dds@, compress) == Some(fo4_file_parts(file)),
            Err(_) => fo4_texture_parsed(dds@, compress) is None,
        },
{
    let result = if compress {
        ba2::CompressionResult::Compressed
    } else {
        ba2::CompressionResult::Decompressed
    };
    let options = ba2::fo4::FileReadOptions::builder().format(ba2::fo4::Format::DX10)
        .compression_format(ba2::fo4::CompressionFormat::Zip)
        .compression_level(ba2::fo4::CompressionLevel::FO4)
        .compression_result(result).build();
    ba2::fo4::File::read(ba2::Copied(dds), &options)
}

/// The names and contents of textures, as plain values.
pub open spec fn textures_model(v: Seq<(Vec<u8>, ba2::fo4::File<'_>)>) -> Seq<
    (Seq<u8>, FileParts),
> {
    Seq::new(v.len(), |i: int| (v[i].0@, fo4_file_parts(v[i].1)))
}

/// The bytes of the texture BA2 archive that the codec writes for the given version,
/// string-table switch and files; `None` where writing fails.
pub uninterp spec fn fo4_texture_archive_bytes(
    version: Ba2Version,
    strings: bool,
    files: Seq<(Seq<u8>, FileParts)>,
) -> Option<Seq<u8>>;

/// Collects the textures into a `ba2::fo4::Archive`, each under the key that the codec
/// makes of its name, and calls `ba2::fo4::Archive::write` on a fresh buffer with options
/// for the DX10 format and zlib.
#[verifier::external_body]
pub(crate) fn fo4_write_textures(
    version: Ba2Version,
    strings: bool,
    files: Vec<(Vec<u8>, ba2::fo4::File<'static>)>,
) -> (r: Result<Vec<u8>, ba2::fo4::Error>)
    ensures
        match r {
            Ok(bytes) => fo4_texture_archive_bytes(version, strings, textures_model(files@))
                == Some(bytes@),
            Err(_) => fo4_texture_archive_bytes(version, strings, textures_model(files@)) is None,
        },
{
    let archive: ba2::fo4::Archive = files.into_iter().map(
        |(name, file)| (name.into(), file),
    ).collect();
    let options = ba2::fo4::ArchiveOptions::builder().version(version.to_crate_version())
        .format(ba2::fo4::Format::DX10)
        .compression_format(ba2::fo4::CompressionFormat::Zip)
        .strings(strings).build();
    let mut out = Vec::new();
    archive.write(&mut out, &options)?;
    Ok(out)
}

} // verus!
