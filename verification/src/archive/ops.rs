//! Listing, single extraction and batch extraction for an archive of a known layout.

use std::sync::atomic::AtomicBool;
use vstd::prelude::*;
use crate::archive::batch::{
    accepted_of, caused_by, deliver_batch, delivered_to, select_wanted, sink_accepted,
    wanted_positions, WantedSet,
};
use crate::archive::entries::{
    archive_model, find_entry, first_match, lemma_first_match, model_paths, open_archive,
};
use crate::archive::error::{ArchiveError, BatchFailure};
use crate::archive::format::ArchiveFormat;

verus! {

/// The listed paths of an archive of the given layout, in the archive's own order.
/// The codec decides whether the bytes are an archive.
pub fn list_paths(format: ArchiveFormat, bytes: &[u8]) -> (r: Result<Vec<String>, ArchiveError>)
    ensures
        match r {
            Ok(paths) => archive_model(format, bytes@) is Some && Seq::new(
                paths@.len(),
                |i: int| paths@[i]@,
            ) == model_paths(archive_model(format, bytes@)->0),
            Err(e) => archive_model(format, bytes@) is None && e is FormatError
                && e->FormatError_file@.len() == 0,
        },
{
    match open_archive(format, bytes) {
        Ok(a) => {
            assert(Seq::new(a.paths@.len(), |i: int| a.paths@[i]@) =~= model_paths(a.model()));
            Ok(a.paths)
        },
        Err(e) => Err(e),
    }
}

/// What extracting `requested` from an archive model gives: the content of the first
/// entry that the request names; `NotFound` where it names none; a `FormatError` naming
/// the entry where its content cannot be decoded.
pub open spec fn extraction(
    format: ArchiveFormat,
    m: Seq<(Seq<char>, Option<Seq<u8>>)>,
    requested: Seq<char>,
) -> Result<Seq<u8>, (bool, Seq<char>)> {
    match first_match(format, model_paths(m), requested, 0) {
        None => Err((false, Seq::empty())),
        Some(i) => match m[i].1 {
            Some(data) => Ok(data),
            None => Err((true, m[i].0)),
        },
    }
}

/// Extracts one file from an archive of the given layout.
///
/// The request is compared with the listed paths in the layout's convention, letter case
/// aside, and the first entry that it names is decoded. The error is `NotFound` where no
/// entry is named, and a `FormatError` where the codec rejects the archive (naming no
/// entry) or cannot decode the entry (naming it).
pub fn extract_from(format: ArchiveFormat, bytes: &[u8], file_path: &str) -> (r: Result<
    Vec<u8>,
    ArchiveError,
>)
    ensures
        match archive_model(format, bytes@) {
            None => r is Err && r->Err_0 is FormatError && r->Err_0->FormatError_file@.len() == 0,
            Some(m) => match extraction(format, m, file_path@) {
                Ok(data) => r is Ok && r->Ok_0@ == data,
                Err((false, _)) => r is Err && r->Err_0 is NotFound,
                Err((true, name)) => r is Err && r->Err_0 is FormatError
                    && r->Err_0->FormatError_file@ == name,
            },
        },
{
    let a = match open_archive(format, bytes) {
        Ok(a) => a,
        Err(e) => {
            return Err(e);
        },
    };
    assert(Seq::new(a.paths@.len(), |i: int| a.paths@[i]@) =~= model_paths(a.model()));
    match find_entry(format, &a.paths, file_path) {
        None => Err(ArchiveError::NotFound),
        Some(i) => {
            proof {
                lemma_first_match(format, model_paths(a.model()), file_path@, 0);
            }
            a.decode(i)
        },
    }
}

/// Extracts every wanted file from an archive of the given layout.
///
/// The archive is opened once. One pass over its entries picks those whose lookup key is
/// wanted; only then are the picked entries decoded and handed to `sink`, on the worker
/// pool and in no fixed order. Each unit reads `cancel` once before it works.
///
/// `Ok(n)` means that each picked entry was decoded and accepted by the sink, and `n` is
/// their number. A failure carries the number of entries that the sink accepted, less than
/// the number picked, and the cause. Where the codec rejects the archive nothing is
/// delivered and the cause is a `FormatError`.
pub fn extract_batch_from<F: Fn(&str, Vec<u8>) -> Result<(), ArchiveError> + Send + Sync>(
    format: ArchiveFormat,
    bytes: &[u8],
    wanted: &WantedSet,
    cancel: &AtomicBool,
    sink: F,
) -> (r: Result<usize, BatchFailure>)
    requires
        forall|p: &str, d: Vec<u8>| call_requires(sink, (p, d)),
    ensures
        match archive_model(format, bytes@) {
            None => r is Err && r->Err_0.completed == 0 && r->Err_0.cause is FormatError,
            Some(m) => {
                let picked = wanted_positions(format, model_paths(m), wanted@, m.len() as int);
                match r {
                    Ok(n) => n == picked.len() && forall|k: int|
                        0 <= k < picked.len() ==> (#[trigger] m[picked[k] as int]).1 is Some
                            && delivered_to(
                            &sink,
                            m[picked[k] as int].0,
                            m[picked[k] as int].1->0,
                        ),
                    Err(f) => f.completed < picked.len() && accepted_of(
                        &sink,
                        m,
                        picked,
                        f.completed as nat,
                    ) && caused_by(&sink, m, picked, f.cause),
                }
            },
        },
{
    let a = match open_archive(format, bytes) {
        Ok(a) => a,
        Err(e) => {
            return Err(BatchFailure { completed: 0, cause: e });
        },
    };
    assert(Seq::new(a.paths@.len(), |i: int| a.paths@[i]@) =~= model_paths(a.model()));
    let picked = select_wanted(format, &a.paths, wanted);
    let r = deliver_batch(&a, &picked, cancel, &sink);
    proof {
        if r is Ok {
            let m = a.model();
            assert forall|k: int| 0 <= k < picked@.len() implies (#[trigger] m[picked@[k] as int]).1
                is Some && delivered_to(&sink, m[picked@[k] as int].0, m[picked@[k] as int].1->0) by {
                assert(sink_accepted(&a, picked@[k] as int, &sink));
            }
        }
    }
    r
}

} // verus!
