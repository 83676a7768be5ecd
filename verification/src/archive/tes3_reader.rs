//! Reading TES3 BSA archives (Morrowind).

use std::sync::atomic::AtomicBool;
use vstd::prelude::*;
use crate::archive::batch::{accepted_of, caused_by, delivered_to, wanted_positions, WantedSet};
use crate::archive::entries::{archive_model, model_paths};
use crate::archive::error::{ArchiveError, BatchFailure};
use crate::archive::format::ArchiveFormat;
use crate::archive::ops::{extract_batch_from, extract_from, extraction, list_paths};
use crate::archive::reader::BsaFileEntry;

verus! {

/// Lists the entries of a TES3 BSA archive, in the archive's own order.
///
/// The codec decides whether the bytes are such an archive; where it rejects them the
/// error is a `FormatError` that names no entry.
pub fn list_files(archive: &[u8]) -> (r: Result<Vec<BsaFileEntry>, ArchiveError>)
    ensures
        match r {
            Ok(entries) => archive_model(ArchiveFormat::Tes3Bsa, archive@) is Some && Seq::new(
                entries@.len(),
                |i: int| entries@[i].path@,
            ) == model_paths(archive_model(ArchiveFormat::Tes3Bsa, archive@)->0),
            Err(e) => archive_model(ArchiveFormat::Tes3Bsa, archive@) is None && e is FormatError
                && e->FormatError_file@.len() == 0,
        },
{
    let paths = match list_paths(ArchiveFormat::Tes3Bsa, archive) {
        Ok(paths) => paths,
        Err(e) => {
            return Err(e);
        },
    };
    let mut entries: Vec<BsaFileEntry> = Vec::new();
    let mut i: usize = 0;
    while i < paths.len()
        invariant
            i <= paths.len(),
            entries@.len() == i,
            forall|j: int| 0 <= j < i ==> (#[trigger] entries@[j]).path@ == paths@[j]@,
        decreases paths.len() - i,
    {
        entries.push(BsaFileEntry { path: paths[i].clone() });
        i += 1;
    }
    assert(Seq::new(entries@.len(), |i: int| entries@[i].path@) =~= Seq::new(
        paths@.len(),
        |i: int| paths@[i]@,
    ));
    Ok(entries)
}

/// Extracts one file from a TES3 BSA archive: the content of the first entry that `file_path`
/// names, separators and letter case aside.
///
/// The error is `NotFound` where no entry is named, and a `FormatError` where the codec
/// rejects the archive (naming no entry) or cannot decode the entry (naming it).
pub fn extract_file(archive: &[u8], file_path: &str) -> (r: Result<Vec<u8>, ArchiveError>)
    ensures
        match archive_model(ArchiveFormat::Tes3Bsa, archive@) {
            None => r is Err && r->Err_0 is FormatError && r->Err_0->FormatError_file@.len() == 0,
            Some(m) => match extraction(ArchiveFormat::Tes3Bsa, m, file_path@) {
                Ok(data) => r is Ok && r->Ok_0@ == data,
                Err((false, _)) => r is Err && r->Err_0 is NotFound,
                Err((true, name)) => r is Err && r->Err_0 is FormatError
                    && r->Err_0->FormatError_file@ == name,
            },
        },
{
    extract_from(ArchiveFormat::Tes3Bsa, archive, file_path)
}

/// Extracts every wanted file from a TES3 BSA archive in one pass and hands each to
/// `callback`, on the worker pool.
///
/// `Ok(n)` means that each entry whose lookup key is wanted was decoded and accepted by
/// the callback, and `n` is their number. A failure carries the number of entries that
/// the callback accepted, less than the number wanted and found, and the cause.
pub fn extract_files_batch<F: Fn(&str, Vec<u8>) -> Result<(), ArchiveError> + Send + Sync>(
    archive: &[u8],
    wanted: &WantedSet,
    cancel: &AtomicBool,
    callback: F,
) -> (r: Result<usize, BatchFailure>)
    requires
        forall|p: &str, d: Vec<u8>| call_requires(callback, (p, d)),
    ensures
        match archive_model(ArchiveFormat::Tes3Bsa, archive@) {
            None => r is Err && r->Err_0.completed == 0 && r->Err_0.cause is FormatError,
            Some(m) => {
                let picked = wanted_positions(
                    ArchiveFormat::Tes3Bsa,
                    model_paths(m),
                    wanted@,
                    m.len() as int,
                );
                match r {
                    Ok(n) => n == picked.len() && forall|k: int|
                        0 <= k < picked.len() ==> (#[trigger] m[picked[k] as int]).1 is Some
                            && delivered_to(
                            &callback,
                            m[picked[k] as int].0,
                            m[picked[k] as int].1->0,
                        ),
                    Err(f) => f.completed < picked.len() && accepted_of(
                        &callback,
                        m,
                        picked,
                        f.completed as nat,
                    ) && caused_by(&callback, m, picked, f.cause),
                }
            },
        },
{
    extract_batch_from(ArchiveFormat::Tes3Bsa, archive, wanted, cancel, callback)
}

} // verus!
