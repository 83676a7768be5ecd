//! One interface over the three archive layouts: detection of the layout, listing,
//! extraction of one file or of many, and the builders that write archives.

pub mod ba2_reader;
pub mod ba2_writer;
pub mod batch;
pub mod codec;
pub mod entries;
pub mod error;
pub mod flag;
pub mod format;
pub mod game;
pub mod layout;
pub mod ops;
pub mod packing;
pub mod reader;
pub mod staging;
pub mod tes3_reader;
pub mod writer;

use std::sync::atomic::AtomicBool;
use vstd::prelude::*;

pub use crate::archive::ba2_reader::{
    extract_file as extract_ba2_file, extract_files_batch as extract_ba2_files_batch,
    list_files as list_ba2_files, Ba2FileEntry,
};
pub use crate::archive::ba2_writer::{ba2_format_for_output, Ba2Builder};
pub use crate::archive::batch::{summarise, UnitOutcome, WantedSet};
pub use crate::archive::error::{ArchiveError, BatchFailure, ErrorKind};
pub use crate::archive::format::ArchiveFormat;
pub use crate::archive::game::{
    Ba2CompressionFormat, Ba2Format, Ba2Version, BsaVersion, GameVersion,
};
pub use crate::archive::packing::{builder_for, PackBuilder};
pub use crate::archive::reader::{
    extract_file, extract_files_batch as extract_bsa_files_batch, list_files, BsaFileEntry,
};
pub use crate::archive::tes3_reader::{
    extract_file as extract_tes3_file, extract_files_batch as extract_tes3_files_batch,
    list_files as list_tes3_files,
};
pub use crate::archive::writer::{
    default_flags_fo3, default_flags_oblivion, detect_types, detect_version, ArchiveFlags,
    ArchiveTypes, BsaBuilder,
};

use crate::archive::batch::{accepted_of, caused_by, delivered_to, wanted_positions};
use crate::archive::codec::guess_by_signature;
use crate::archive::entries::{archive_model, model_paths, tes4_read, tes4_version_of};
use crate::archive::format::{detected_format, format_by_extension};
use crate::archive::ops::{extract_batch_from, extract_from, extraction, list_paths};

verus! {

/// An entry of an archive of any layout.
#[derive(Debug, Clone)]
pub struct ArchiveFileEntry {
    /// The path under which the entry is listed, in the layout's own convention.
    pub path: String,
}

/// Tells the layout of an archive from the beginning of its bytes and from its file name.
///
/// The signature in the first four bytes decides. Only where it announces nothing does
/// the extension of the file name decide: `.bsa` is taken for TES4 and `.ba2` for BA2,
/// letter case aside. `None` where neither tells.
pub fn detect_format(header: &[u8], file_name: &str) -> (r: Option<ArchiveFormat>)
    ensures
        r == detected_format(header@, file_name@),
{
    match guess_by_signature(header) {
        Some(format) => Some(format),
        None => format_by_extension(file_name),
    }
}

/// Lists the entries of an archive of any layout, in the archive's own order.
///
/// The error is `UnknownFormat` where the layout cannot be told, and a `FormatError`
/// naming no entry where the codec rejects the bytes.
pub fn list_archive_files(archive: &[u8], file_name: &str) -> (r: Result<
    Vec<ArchiveFileEntry>,
    ArchiveError,
>)
    ensures
        match detected_format(archive@, file_name@) {
            None => r is Err && r->Err_0 is UnknownFormat,
            Some(format) => match r {
                Ok(entries) => archive_model(format, archive@) is Some && Seq::new(
                    entries@.len(),
                    |i: int| entries@[i].path@,
                ) == model_paths(archive_model(format, archive@)->0),
                Err(e) => archive_model(format, archive@) is None && e is FormatError
                    && e->FormatError_file@.len() == 0,
            },
        },
{
    let format = match detect_format(archive, file_name) {
        Some(format) => format,
        None => {
            return Err(ArchiveError::UnknownFormat);
        },
    };
    let paths = match list_paths(format, archive) {
        Ok(paths) => paths,
        Err(e) => {
            return Err(e);
        },
    };
    let mut entries: Vec<ArchiveFileEntry> = Vec::new();
    let mut i: usize = 0;
    while i < paths.len()
        invariant
            i <= paths.len(),
            entries@.len() == i,
            forall|j: int| 0 <= j < i ==> (#[trigger] entries@[j]).path@ == paths@[j]@,
        decreases paths.len() - i,
    {
        entries.push(ArchiveFileEntry { path: paths[i].clone() });
        i += 1;
    }
    assert(Seq::new(entries@.len(), |i: int| entries@[i].path@) =~= Seq::new(
        paths@.len(),
        |i: int| paths@[i]@,
    ));
    Ok(entries)
}

/// Extracts one file from an archive of any layout: the content of the first entry that
/// `file_path` names, separators and letter case aside.
///
/// The error is `UnknownFormat` where the layout cannot be told, `NotFound` where no
/// entry is named, and a `FormatError` where the codec rejects the archive (naming no
/// entry) or cannot decode the entry (naming it).
pub fn extract_archive_file(archive: &[u8], file_name: &str, file_path: &str) -> (r: Result<
    Vec<u8>,
    ArchiveError,
>)
    ensures
        match detected_format(archive@, file_name@) {
            None => r is Err && r->Err_0 is UnknownFormat,
            Some(format) => match archive_model(format, archive@) {
                None => r is Err && r->Err_0 is FormatError && r->Err_0->FormatError_file@.len()
                    == 0,
                Some(m) => match extraction(format, m, file_path@) {
                    Ok(data) => r is Ok && r->Ok_0@ == data,
                    Err((false, _)) => r is Err && r->Err_0 is NotFound,
                    Err((true, name)) => r is Err && r->Err_0 is FormatError
                        && r->Err_0->FormatError_file@ == name,
                },
            },
        },
{
    match detect_format(archive, file_name) {
        Some(format) => extract_from(format, archive, file_path),
        None => Err(ArchiveError::UnknownFormat),
    }
}

/// The lookup keys of `wanted_files` in `format`, as a set.
pub open spec fn wanted_keys(format: ArchiveFormat, wanted_files: Seq<String>) -> Set<Seq<char>> {
    Set::new(
        |key: Seq<char>|
            exists|i: int|
                0 <= i < wanted_files.len() && key == format.spec_canonical_key(
                    #[trigger] wanted_files[i]@,
                ),
    )
}

/// Extracts many files from an archive of any layout in one pass, and hands each to
/// `callback` with its listed path, on the worker pool.
///
/// `wanted_files` holds paths as the listing gives them; an entry is wanted where its
/// lookup key is that of one of them. Each unit of work reads `cancel` once before it
/// starts and does nothing where a stop was asked for.
///
/// `Ok(n)` means that each wanted entry was decoded and accepted by the callback, and `n`
/// is their number. A failure carries the number of entries that the callback accepted,
/// less than the number wanted and found, and the cause: `UnknownFormat` where the layout
/// cannot be told, a `FormatError` where the codec rejects the archive, else the first
/// failure in entry order, or `Cancelled`.
pub fn extract_archive_files_batch<F: Fn(&str, Vec<u8>) -> Result<(), ArchiveError> + Send + Sync>(
    archive: &[u8],
    file_name: &str,
    wanted_files: &Vec<String>,
    cancel: &AtomicBool,
    callback: F,
) -> (r: Result<usize, BatchFailure>)
    requires
        forall|p: &str, d: Vec<u8>| call_requires(callback, (p, d)),
    ensures
        match detected_format(archive@, file_name@) {
            None => r is Err && r->Err_0.completed == 0 && r->Err_0.cause is UnknownFormat,
            Some(format) => match archive_model(format, archive@) {
                None => r is Err && r->Err_0.completed == 0 && r->Err_0.cause is FormatError,
                Some(m) => {
                    let picked = wanted_positions(
                        format,
                        model_paths(m),
                        wanted_keys(format, wanted_files@),
                        m.len() as int,
                    );
                    match r {
                        Ok(n) => n == picked.len() && forall|k: int|
                            0 <= k < picked.len() ==> (#[trigger] m[picked[k] as int]).1 is Some
                                && delivered_to(
                                &callback,
                                m[picked[k] as int].0,
                                m[picked[k] as int].1->0,
                            ),
                        Err(f) => f.completed < picked.len() && accepted_of(
                            &callback,
                            m,
                            picked,
                            f.completed as nat,
                        ) && caused_by(&callback, m, picked, f.cause),
                    }
                },
            },
        },
{
    let format = match detect_format(archive, file_name) {
        Some(format) => format,
        None => {
            return Err(BatchFailure { completed: 0, cause: ArchiveError::UnknownFormat });
        },
    };
    let wanted = WantedSet::from_paths(format, wanted_files);
    assert(wanted@ =~= wanted_keys(format, wanted_files@));
    extract_batch_from(format, archive, &wanted, cancel, callback)
}

/// The game that an archive is most likely of, told from its layout, and for a TES4
/// archive from its binary version.
pub open spec fn likely_game(archive: Seq<u8>, file_name: Seq<char>) -> Option<GameVersion> {
    match detected_format(archive, file_name) {
        None => None,
        Some(ArchiveFormat::Tes3Bsa) => Some(GameVersion::Morrowind),
        Some(ArchiveFormat::Ba2) => Some(GameVersion::Fallout4Fo76),
        Some(ArchiveFormat::Bsa) => match tes4_read(archive) {
            Some((BsaVersion::V103, _)) => Some(GameVersion::Oblivion),
            Some((BsaVersion::V104, _)) => Some(GameVersion::Fallout3),
            Some((BsaVersion::V105, _)) => Some(GameVersion::SkyrimSE),
            None => Some(GameVersion::Fallout3),
        },
    }
}

/// Guesses the game of an archive.
///
/// A TES3 archive is Morrowind's and a BA2 archive is taken for Fallout 4. A TES4 archive
/// is told by its binary version: 103 is Oblivion, 104 is taken for Fallout 3, 105 is
/// Skyrim SE; where its tables are not sound or the codec cannot read it, Fallout 3 is
/// assumed. `None` where the layout cannot be told.
pub fn detect_game_version(archive: &[u8], file_name: &str) -> (r: Option<GameVersion>)
    ensures
        r == likely_game(archive@, file_name@),
{
    match detect_format(archive, file_name) {
        None => None,
        Some(ArchiveFormat::Tes3Bsa) => Some(GameVersion::Morrowind),
        Some(ArchiveFormat::Ba2) => Some(GameVersion::Fallout4Fo76),
        Some(ArchiveFormat::Bsa) => match tes4_version_of(archive) {
            Some(BsaVersion::V103) => Some(GameVersion::Oblivion),
            Some(BsaVersion::V104) => Some(GameVersion::Fallout3),
            Some(BsaVersion::V105) => Some(GameVersion::SkyrimSE),
            None => Some(GameVersion::Fallout3),
        },
    }
}

} // verus!
