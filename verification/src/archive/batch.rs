//! Batch extraction: which entries a wanted set picks, what one unit of work does, and
//! what the outcomes of all units add up to.

use std::sync::atomic::{AtomicBool, AtomicUsize};
use rayon::iter::{IntoParallelIterator, ParallelIterator};
use vstd::hash_set::StringHashSet;
use vstd::prelude::*;
use crate::archive::entries::OpenArchive;
use crate::archive::error::{ArchiveError, BatchFailure};
use crate::archive::flag::{counter_next, flag_is_set, flag_set};
use crate::archive::format::ArchiveFormat;

verus! {

/// Runs `f` on every index below `n` on rayon's worker pool and collects the results in
/// index order (`into_par_iter`, `map`, `collect` on a range). Every index is handed to
/// `f` exactly once; the order in which the calls run is not fixed.
#[verifier::external_body]
pub(crate) fn par_map_indices<T: Send, F: Fn(usize) -> T + Send + Sync>(n: usize, f: &F) -> (r: Vec<T>)
    requires
        forall|i: usize| i < n ==> call_requires(*f, (i,)),
    ensures
        r@.len() == n,
        forall|i: usize| i < n ==> call_ensures(*f, (i,), #[trigger] r@[i as int]),
{
    (0..n).into_par_iter().map(f).collect()
}

/// The lookup keys of the paths that a caller wants from an archive.
pub struct WantedSet {
    keys: StringHashSet,
}

impl View for WantedSet {
    type V = Set<Seq<char>>;

    closed spec fn view(&self) -> Set<Seq<char>> {
        self.keys@
    }
}

impl WantedSet {
    /// The set that wants exactly the given paths, each under its lookup key in `format`.
    pub fn from_paths(format: ArchiveFormat, paths: &Vec<String>) -> (w: WantedSet)
        ensures
            forall|key: Seq<char>|
                w@.contains(key) <==> exists|i: int|
                    0 <= i < paths@.len() && key == format.spec_canonical_key(
                        #[trigger] paths@[i]@,
                    ),
    {
        let mut keys = StringHashSet::new();
        let mut i: usize = 0;
        while i < paths.len()
            invariant
                i <= paths.len(),
                forall|key: Seq<char>|
                    keys@.contains(key) <==> exists|j: int|
                        0 <= j < i && key == format.spec_canonical_key(#[trigger] paths@[j]@),
            decreases paths.len() - i,
        {
            let key = format.canonical_key(paths[i].as_str());
            let ghost before = keys@;
            keys.insert(key);
            i += 1;
            assert forall|k: Seq<char>| keys@.contains(k) <==> exists|j: int|
                0 <= j < i && k == format.spec_canonical_key(#[trigger] paths@[j]@) by {
                if keys@.contains(k) {
                    if before.contains(k) {
                        let j = choose|j: int|
                            0 <= j < i - 1 && k == format.spec_canonical_key(
                                #[trigger] paths@[j]@,
                            );
                        assert(0 <= j < i);
                    } else {
                        assert(k == format.spec_canonical_key(paths@[i - 1]@));
                    }
                }
            }
        }
        WantedSet { keys }
    }

    /// Whether `path` is wanted: whether its lookup key in `format` is in the set.
    pub fn wants(&self, format: ArchiveFormat, path: &str) -> (b: bool)
        ensures
            b == self@.contains(format.spec_canonical_key(path@)),
    {
        let key = format.canonical_key(path);
        self.keys.contains(key.as_str())
    }
}

/// The positions below `n` whose path is wanted, in increasing order.
pub open spec fn wanted_positions(
    format: ArchiveFormat,
    paths: Seq<Seq<char>>,
    wanted: Set<Seq<char>>,
    n: int,
) -> Seq<usize>
    decreases n,
{
    if n <= 0 {
        Seq::empty()
    } else {
        let before = wanted_positions(format, paths, wanted, n - 1);
        if wanted.contains(format.spec_canonical_key(paths[n - 1])) {
            before.push((n - 1) as usize)
        } else {
            before
        }
    }
}

/// Every position that `wanted_positions` lists lies below `n` and is wanted; the list
/// increases strictly; and every wanted position below `n` is listed.
pub proof fn lemma_wanted_positions(
    format: ArchiveFormat,
    paths: Seq<Seq<char>>,
    wanted: Set<Seq<char>>,
    n: int,
)
    requires
        0 <= n <= usize::MAX,
    ensures
        wanted_positions(format, paths, wanted, n).len() <= n,
        forall|k: int|
            0 <= k < wanted_positions(format, paths, wanted, n).len() ==> {
                let p = #[trigger] wanted_positions(format, paths, wanted, n)[k];
                p < n && wanted.contains(format.spec_canonical_key(paths[p as int]))
            },
        forall|k: int, m: int|
            0 <= k < m < wanted_positions(format, paths, wanted, n).len() ==> wanted_positions(
                format,
                paths,
                wanted,
                n,
            )[k] < wanted_positions(format, paths, wanted, n)[m],
        forall|p: int|
            0 <= p < n && wanted.contains(format.spec_canonical_key(paths[p]))
                ==> wanted_positions(format, paths, wanted, n).contains(p as usize),
    decreases n,
{
    if n > 0 {
        lemma_wanted_positions(format, paths, wanted, n - 1);
        let before = wanted_positions(format, paths, wanted, n - 1);
        let now = wanted_positions(format, paths, wanted, n);
        assert forall|p: int|
            0 <= p < n && wanted.contains(format.spec_canonical_key(paths[p])) implies now.contains(
            p as usize,
        ) by {
            if p < n - 1 {
                let k = choose|k: int| 0 <= k < before.len() && before[k] == p as usize;
                assert(now[k] == p as usize);
            } else {
                assert(now[now.len() - 1] == p as usize);
            }
        }
    }
}

/// Picks the entries that are wanted: the positions of the listed paths whose lookup key
/// is in the wanted set, in the archive's order.
pub fn select_wanted(format: ArchiveFormat, paths: &Vec<String>, wanted: &WantedSet) -> (r: Vec<
    usize,
>)
    ensures
        r@ == wanted_positions(
            format,
            Seq::new(paths@.len(), |k: int| paths@[k]@),
            wanted@,
            paths@.len() as int,
        ),
        forall|k: int| 0 <= k < r@.len() ==> #[trigger] r@[k] < paths@.len(),
{
    let ghost views = Seq::new(paths@.len(), |k: int| paths@[k]@);
    let mut r: Vec<usize> = Vec::new();
    let mut i: usize = 0;
    while i < paths.len()
        invariant
            i <= paths.len(),
            views == Seq::new(paths@.len(), |k: int| paths@[k]@),
            r@ == wanted_positions(format, views, wanted@, i as int),
        decreases paths.len() - i,
    {
        assert(views[i as int] == paths@[i as int]@);
        if wanted.wants(format, paths[i].as_str()) {
            r.push(i);
        }
        i += 1;
    }
    proof {
        lemma_wanted_positions(format, views, wanted@, paths@.len() as int);
    }
    r
}

/// How one unit of a batch ended.
pub enum UnitOutcome {
    /// The entry was decoded and handed to the sink, which accepted it.
    Delivered,
    /// The unit did no work because the batch was already stopping.
    Skipped,
    /// The unit failed: decoding failed, the sink refused, or a stop had been asked for.
    Failed(ArchiveError),
}

/// The number of delivered units among the outcomes.
pub open spec fn delivered_count(s: Seq<UnitOutcome>) -> nat
    decreases s.len(),
{
    if s.len() == 0 {
        0
    } else {
        delivered_count(s.drop_last()) + if s.last() is Delivered {
            1nat
        } else {
            0nat
        }
    }
}

/// The error of the first failed unit, in unit order.
pub open spec fn first_failure(s: Seq<UnitOutcome>) -> Option<ArchiveError>
    decreases s.len(),
{
    if s.len() == 0 {
        None
    } else {
        match first_failure(s.drop_last()) {
            Some(e) => Some(e),
            None => match s.last() {
                UnitOutcome::Failed(e) => Some(e),
                _ => None,
            },
        }
    }
}

/// Whether every unit was delivered.
pub open spec fn all_delivered(s: Seq<UnitOutcome>) -> bool {
    forall|i: int| 0 <= i < s.len() ==> (#[trigger] s[i]) is Delivered
}

/// What stopped a batch whose units were not all delivered: the first failure, or a
/// cancellation where units were skipped and none failed.
pub open spec fn batch_cause(s: Seq<UnitOutcome>) -> ArchiveError {
    match first_failure(s) {
        Some(e) => e,
        None => ArchiveError::Cancelled,
    }
}

/// No more units are delivered than there are, and fewer where one was not delivered.
pub proof fn lemma_delivered_count(s: Seq<UnitOutcome>)
    ensures
        delivered_count(s) <= s.len(),
        all_delivered(s) <==> delivered_count(s) == s.len(),
    decreases s.len(),
{
    if s.len() > 0 {
        let t = s.drop_last();
        lemma_delivered_count(t);
        if all_delivered(s) {
            assert forall|i: int| 0 <= i < t.len() implies (#[trigger] t[i]) is Delivered by {
                assert(t[i] == s[i]);
            }
            assert(s.last() == s[s.len() - 1]);
        }
        if delivered_count(s) == s.len() {
            assert forall|i: int| 0 <= i < s.len() implies (#[trigger] s[i]) is Delivered by {
                if i < t.len() {
                    assert(s[i] == t[i]);
                }
            }
        }
    }
}

/// A copy of an error.
pub fn duplicate_error(e: &ArchiveError) -> (r: ArchiveError)
    ensures
        r == *e,
{
    match e {
        ArchiveError::UnknownFormat => ArchiveError::UnknownFormat,
        ArchiveError::NotFound => ArchiveError::NotFound,
        ArchiveError::FormatError { file } => ArchiveError::FormatError { file: file.clone() },
        ArchiveError::IOError { detail } => ArchiveError::IOError { detail: detail.clone() },
        ArchiveError::EmptyArchive => ArchiveError::EmptyArchive,
        ArchiveError::UnsupportedOperation => ArchiveError::UnsupportedOperation,
        ArchiveError::Cancelled => ArchiveError::Cancelled,
    }
}

/// Adds the outcomes of a batch up. The batch succeeded when every unit was delivered,
/// and the count is then the number of units. Otherwise the failure carries the number of
/// delivered units, which is less than the number of units, and the cause.
pub fn summarise(outcomes: &Vec<UnitOutcome>) -> (r: Result<usize, BatchFailure>)
    ensures
        match r {
            Ok(n) => all_delivered(outcomes@) && n == outcomes@.len(),
            Err(f) => !all_delivered(outcomes@) && f.completed == delivered_count(outcomes@)
                && f.completed < outcomes@.len() && f.cause == batch_cause(outcomes@),
        },
{
    let mut completed: usize = 0;
    let mut cause: Option<ArchiveError> = None;
    let mut i: usize = 0;
    while i < outcomes.len()
        invariant
            i <= outcomes.len(),
            completed == delivered_count(outcomes@.take(i as int)),
            completed <= i,
            cause == first_failure(outcomes@.take(i as int)),
        decreases outcomes.len() - i,
    {
        proof {
            assert(outcomes@.take(i + 1).drop_last() =~= outcomes@.take(i as int));
            assert(outcomes@.take(i + 1).last() == outcomes@[i as int]);
        }
        match &outcomes[i] {
            UnitOutcome::Delivered => {
                completed += 1;
            },
            UnitOutcome::Skipped => {},
            UnitOutcome::Failed(e) => {
                if cause.is_none() {
                    cause = Some(duplicate_error(e));
                }
            },
        }
        i += 1;
    }
    proof {
        assert(outcomes@.take(outcomes@.len() as int) =~= outcomes@);
        lemma_delivered_count(outcomes@);
    }
    if completed == outcomes.len() {
        Ok(completed)
    } else {
        let cause = match cause {
            Some(e) => e,
            None => ArchiveError::Cancelled,
        };
        Err(BatchFailure { completed, cause })
    }
}

/// The progress callback was told of a file of the given name, with the given total and
/// a count of at least one.
pub open spec fn progress_told<F: Fn(usize, usize, &str)>(
    progress: &F,
    total: usize,
    name: Seq<char>,
) -> bool {
    exists|current: usize, shown: &str, done: ()|
        current >= 1 && shown@ == name && #[trigger] call_ensures(
            *progress,
            (current, total, shown),
            done,
        )
}

/// Counts one more file as done and tells the progress callback of it: the count reached,
/// the total, and the file's name.
pub fn tell_progress<F: Fn(usize, usize, &str)>(
    progress: &F,
    counter: &AtomicUsize,
    total: usize,
    name: &str,
)
    requires
        forall|current: usize, all: usize, shown: &str| call_requires(*progress, (current, all, shown)),
    ensures
        progress_told(progress, total, name@),
{
    let current = counter_next(counter);
    let done = progress(current, total, name);
    assert(call_ensures(*progress, (current, total, name), done));
}

/// The sink was called with the given path and content and answered `Ok`.
pub open spec fn delivered_to<F: Fn(&str, Vec<u8>) -> Result<(), ArchiveError>>(
    sink: &F,
    path: Seq<char>,
    content: Seq<u8>,
) -> bool {
    exists|p: &str, d: Vec<u8>, answer: Result<(), ArchiveError>|
        p@ == path && d@ == content && answer is Ok && #[trigger] call_ensures(
            *sink,
            (p, d),
            answer,
        )
}

/// The entry at position `i` has a content that the codec decodes, and the sink was called
/// with the entry's listed path and that content and answered `Ok`.
pub open spec fn sink_accepted<F: Fn(&str, Vec<u8>) -> Result<(), ArchiveError>>(
    archive: &OpenArchive<'_>,
    i: int,
    sink: &F,
) -> bool {
    &&& archive.files.content(i) is Some
    &&& delivered_to(sink, archive.paths@[i]@, archive.files.content(i)->0)
}

/// The sink accepted `n` of the picked entries of an archive model: there are `n`
/// positions of the picked list whose entries the codec decodes and the sink was called
/// with and answered `Ok`.
pub open spec fn accepted_of<F: Fn(&str, Vec<u8>) -> Result<(), ArchiveError>>(
    sink: &F,
    m: Seq<(Seq<char>, Option<Seq<u8>>)>,
    picked: Seq<usize>,
    n: nat,
) -> bool {
    exists|done: Set<int>| #[trigger]
        done.finite() && done.len() == n && forall|k: int| #[trigger]
            done.contains(k) ==> 0 <= k < picked.len() && m[picked[k] as int].1 is Some
                && delivered_to(sink, m[picked[k] as int].0, m[picked[k] as int].1->0)
}

/// The sink was called with the given path and content and refused them with `e`.
pub open spec fn refused_by<F: Fn(&str, Vec<u8>) -> Result<(), ArchiveError>>(
    sink: &F,
    path: Seq<char>,
    content: Seq<u8>,
    e: ArchiveError,
) -> bool {
    exists|p: &str, d: Vec<u8>|
        p@ == path && d@ == content && #[trigger] call_ensures(
            *sink,
            (p, d),
            Err::<(), ArchiveError>(e),
        )
}

/// The unit of an entry, given by its path and its content, can fail with `e`: `e` is
/// `Cancelled`; or the codec does not decode the content and `e` is the `FormatError`
/// that names the entry; or the sink was called with the entry and refused it with `e`.
pub open spec fn fails_with<F: Fn(&str, Vec<u8>) -> Result<(), ArchiveError>>(
    sink: &F,
    entry: (Seq<char>, Option<Seq<u8>>),
    e: ArchiveError,
) -> bool {
    ||| e is Cancelled
    ||| entry.1 is None && e is FormatError && e->FormatError_file@ == entry.0
    ||| entry.1 is Some && refused_by(sink, entry.0, entry.1->0, e)
}

/// `e` can be the cause of a failed batch over the picked entries of an archive model:
/// it is `Cancelled`, or what the unit of one of the picked entries failed with.
pub open spec fn caused_by<F: Fn(&str, Vec<u8>) -> Result<(), ArchiveError>>(
    sink: &F,
    m: Seq<(Seq<char>, Option<Seq<u8>>)>,
    picked: Seq<usize>,
    e: ArchiveError,
) -> bool {
    e is Cancelled || exists|k: int|
        0 <= k < picked.len() && #[trigger] fails_with(sink, m[picked[k] as int], e)
}

/// The first failure is the error of one of the failed units.
pub proof fn lemma_first_failure(s: Seq<UnitOutcome>)
    ensures
        first_failure(s) matches Some(e) ==> exists|k: int|
            0 <= k < s.len() && #[trigger] s[k] == UnitOutcome::Failed(e),
    decreases s.len(),
{
    if s.len() > 0 {
        let t = s.drop_last();
        lemma_first_failure(t);
        match first_failure(t) {
            Some(e) => {
                let k = choose|k: int| 0 <= k < t.len() && #[trigger] t[k] == UnitOutcome::Failed(e);
                assert(s[k] == UnitOutcome::Failed(e));
            },
            None => {
                if let UnitOutcome::Failed(e) = s.last() {
                    assert(s[s.len() - 1] == UnitOutcome::Failed(e));
                }
            },
        }
    }
}

/// A batch that was stopped by a request alone reports that request: where some unit
/// was not delivered and every unit that failed did so with `Cancelled`, the cause of the
/// batch is `Cancelled`, and the number of delivered units is less than the number of
/// units. What was delivered stays delivered: it is counted.
pub proof fn lemma_cancelled_batch(s: Seq<UnitOutcome>)
    requires
        !all_delivered(s),
        forall|k: int|
            0 <= k < s.len() && (#[trigger] s[k]) is Failed ==> s[k]->Failed_0 is Cancelled,
    ensures
        batch_cause(s) is Cancelled,
        delivered_count(s) < s.len(),
{
    lemma_first_failure(s);
    lemma_delivered_count(s);
    if let Some(e) = first_failure(s) {
        let k = choose|k: int| 0 <= k < s.len() && #[trigger] s[k] == UnitOutcome::Failed(e);
        assert(s[k] is Failed);
    }
}

/// The positions below `n` of the delivered units.
pub open spec fn delivered_set(s: Seq<UnitOutcome>, n: int) -> Set<int> {
    Set::new(|k: int| 0 <= k < n && s[k] is Delivered)
}

/// There are as many positions of delivered units as delivered units.
pub proof fn lemma_delivered_set(s: Seq<UnitOutcome>, n: int)
    requires
        0 <= n <= s.len(),
    ensures
        delivered_set(s, n).finite(),
        delivered_set(s, n).len() == delivered_count(s.take(n)),
    decreases n,
{
    if n == 0 {
        assert(delivered_set(s, 0) =~= Set::<int>::empty());
    } else {
        lemma_delivered_set(s, n - 1);
        assert(s.take(n).drop_last() =~= s.take(n - 1));
        assert(s.take(n).last() == s[n - 1]);
        if s[n - 1] is Delivered {
            assert(delivered_set(s, n) =~= delivered_set(s, n - 1).insert(n - 1));
        } else {
            assert(delivered_set(s, n) =~= delivered_set(s, n - 1));
        }
    }
}

/// What a unit does for the entry at position `i` once it has read the two flags.
///
/// Where a stop was asked for, the unit does no work and fails with `Cancelled`. Where
/// the batch is aborting because another unit has failed, it is skipped. Otherwise the
/// entry is decoded and handed to the sink: the unit fails with the `FormatError` that
/// names the entry where the codec does not decode it, and with the sink's error where
/// the sink refuses it.
pub fn deliver_entry<F: Fn(&str, Vec<u8>) -> Result<(), ArchiveError>>(
    stop_asked: bool,
    aborting: bool,
    archive: &OpenArchive<'_>,
    i: usize,
    sink: &F,
) -> (o: UnitOutcome)
    requires
        archive.wf(),
        i < archive.paths@.len(),
        forall|p: &str, d: Vec<u8>| call_requires(*sink, (p, d)),
    ensures
        stop_asked ==> o == UnitOutcome::Failed(ArchiveError::Cancelled),
        !stop_asked && aborting ==> o is Skipped,
        !stop_asked && !aborting ==> match archive.files.content(i as int) {
            None => o is Failed && o->Failed_0 is FormatError && o->Failed_0->FormatError_file@
                == archive.paths@[i as int]@,
            Some(content) => match o {
                UnitOutcome::Delivered => delivered_to(sink, archive.paths@[i as int]@, content),
                UnitOutcome::Failed(e) => refused_by(sink, archive.paths@[i as int]@, content, e),
                UnitOutcome::Skipped => false,
            },
        },
{
    if stop_asked {
        return UnitOutcome::Failed(ArchiveError::Cancelled);
    }
    if aborting {
        return UnitOutcome::Skipped;
    }
    let data = match archive.decode(i) {
        Ok(data) => data,
        Err(e) => {
            return UnitOutcome::Failed(e);
        },
    };
    let path = archive.paths[i].as_str();
    let ghost handed = data;
    let answer = sink(path, data);
    assert(call_ensures(*sink, (path, handed), answer));
    match answer {
        Ok(_) => UnitOutcome::Delivered,
        Err(e) => {
            assert(answer == Err::<(), ArchiveError>(e));
            UnitOutcome::Failed(e)
        },
    }
}

/// One unit of a batch: the work for the entry at position `i`.
///
/// The unit first reads the cancellation flag, once, and where no stop was asked for,
/// the flag that tells whether another unit has failed. It then does what
/// `deliver_entry` does for what it has read, and a unit that fails tells the others to
/// skip.
pub fn deliver_unit<F: Fn(&str, Vec<u8>) -> Result<(), ArchiveError>>(
    archive: &OpenArchive<'_>,
    i: usize,
    cancel: &AtomicBool,
    abort: &AtomicBool,
    sink: &F,
) -> (o: UnitOutcome)
    requires
        archive.wf(),
        i < archive.paths@.len(),
        forall|p: &str, d: Vec<u8>| call_requires(*sink, (p, d)),
    ensures
        o is Delivered ==> sink_accepted(archive, i as int, sink),
        o matches UnitOutcome::Failed(e) ==> fails_with(
            sink,
            (archive.paths@[i as int]@, archive.files.content(i as int)),
            e,
        ),
{
    let stop_asked = flag_is_set(cancel);
    let aborting = if stop_asked {
        false
    } else {
        flag_is_set(abort)
    };
    let o = deliver_entry(stop_asked, aborting, archive, i, sink);
    match &o {
        UnitOutcome::Failed(_) => {
            flag_set(abort, true);
        },
        _ => {},
    }
    o
}

/// Runs one unit per picked entry on the worker pool and adds the outcomes up.
///
/// `Ok(n)` means that every picked entry was decoded and accepted by the sink, and `n`
/// is their number. A failure carries the number of entries that the sink accepted, which
/// is then less than the number picked, and the cause: `Cancelled`, or what one of the
/// units failed with.
pub fn deliver_batch<F: Fn(&str, Vec<u8>) -> Result<(), ArchiveError> + Send + Sync>(
    archive: &OpenArchive<'_>,
    picked: &Vec<usize>,
    cancel: &AtomicBool,
    sink: &F,
) -> (r: Result<usize, BatchFailure>)
    requires
        archive.wf(),
        forall|k: int| 0 <= k < picked@.len() ==> #[trigger] picked@[k] < archive.paths@.len(),
        forall|p: &str, d: Vec<u8>| call_requires(*sink, (p, d)),
    ensures
        match r {
            Ok(n) => n == picked@.len() && forall|k: int|
                0 <= k < picked@.len() ==> sink_accepted(archive, (#[trigger] picked@[k]) as int, sink),
            Err(f) => f.completed < picked@.len() && accepted_of(
                sink,
                archive.model(),
                picked@,
                f.completed as nat,
            ) && caused_by(sink, archive.model(), picked@, f.cause),
        },
{
    let abort = AtomicBool::new(false);
    let unit = |k: usize| -> (o: UnitOutcome)
        requires
            k < picked@.len(),
        ensures
            o is Delivered ==> sink_accepted(archive, picked@[k as int] as int, sink),
            o matches UnitOutcome::Failed(e) ==> fails_with(
                sink,
                (
                    archive.paths@[picked@[k as int] as int]@,
                    archive.files.content(picked@[k as int] as int),
                ),
                e,
            ),
        { deliver_unit(archive, picked[k], cancel, &abort, sink) };
    let outcomes = par_map_indices(picked.len(), &unit);
    let r = summarise(&outcomes);
    proof {
        assert forall|k: int| 0 <= k < picked@.len() && (#[trigger] outcomes@[k]) is Delivered implies sink_accepted(
            archive,
            picked@[k] as int,
            sink,
        ) by {
            assert(call_ensures(unit, (k as usize,), outcomes@[k as usize as int]));
        }
        if r is Err {
            let done = delivered_set(outcomes@, outcomes@.len() as int);
            lemma_delivered_set(outcomes@, outcomes@.len() as int);
            assert(outcomes@.take(outcomes@.len() as int) =~= outcomes@);
            let m = archive.model();
            assert forall|k: int| #[trigger] done.contains(k) implies 0 <= k < picked@.len()
                && m[picked@[k] as int].1 is Some && delivered_to(
                sink,
                m[picked@[k] as int].0,
                m[picked@[k] as int].1->0,
            ) by {
                assert(outcomes@[k] is Delivered);
                assert(sink_accepted(archive, picked@[k] as int, sink));
            }
            assert(done.finite() && done.len() == r->Err_0.completed as nat);
            lemma_first_failure(outcomes@);
            if let Some(e) = first_failure(outcomes@) {
                let k = choose|k: int|
                    0 <= k < outcomes@.len() && #[trigger] outcomes@[k] == UnitOutcome::Failed(e);
                assert(call_ensures(unit, (k as usize,), outcomes@[k as usize as int]));
                assert(fails_with(sink, m[picked@[k] as int], e));
            }
        }
        if r is Ok {
            assert forall|k: int| 0 <= k < picked@.len() implies sink_accepted(
                archive,
                (#[trigger] picked@[k]) as int,
                sink,
            ) by {
                assert(outcomes@[k] is Delivered);
                assert(call_ensures(unit, (k as usize,), outcomes@[k as usize as int]));
            }
        }
    }
    r
}

} // verus!
