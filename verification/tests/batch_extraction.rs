use std::sync::atomic::{AtomicBool, AtomicUsize, Ordering};
use std::sync::Mutex;

use bsa_ba2_tool::archive::batch::{deliver_entry, select_wanted};
use bsa_ba2_tool::archive::entries::open_archive;
use bsa_ba2_tool::archive::{
    extract_archive_files_batch, extract_ba2_files_batch, extract_bsa_files_batch,
    extract_tes3_files_batch, list_archive_files, summarise, ArchiveError, ArchiveFormat, Ba2Builder,
    Ba2CompressionFormat, BsaBuilder, ErrorKind, UnitOutcome, WantedSet,
};

fn quiet(_current: usize, _total: usize, _name: &str) {}

fn numbered_archive(n: usize) -> (Vec<u8>, Vec<String>) {
    let mut builder = Ba2Builder::new().with_compression(Ba2CompressionFormat::Uncompressed);
    let mut paths = Vec::new();
    for i in 0..n {
        let path = format!("data\\file{:04}.bin", i);
        builder.add_file(&path, vec![(i % 256) as u8; 8]);
        paths.push(path);
    }
    (builder.build_with_progress(quiet).unwrap(), paths)
}

#[test]
fn cancelling_after_the_first_unit_stops_the_batch_early() {
    let (bytes, paths) = numbered_archive(1000);
    let cancel = AtomicBool::new(false);
    let started_after_cancel = AtomicUsize::new(0);
    let delivered = AtomicUsize::new(0);
    let r = extract_archive_files_batch(&bytes, "big.ba2", &paths, &cancel, |_path, _data| {
        if cancel.load(Ordering::SeqCst) {
            started_after_cancel.fetch_add(1, Ordering::SeqCst);
        }
        delivered.fetch_add(1, Ordering::SeqCst);
        cancel.store(true, Ordering::SeqCst);
        Ok::<(), ArchiveError>(())
    });
    let failure = r.unwrap_err();
    assert_eq!(failure.cause.kind(), ErrorKind::Cancelled);
    assert_eq!(failure.cause.message(), "Cancelled");
    assert!(failure.completed < 1000);
    assert!(failure.completed >= 1);
    assert_eq!(failure.completed, delivered.load(Ordering::SeqCst));
    // a unit that was already past its check when the flag was set may still deliver,
    // but a pool has far fewer workers than the batch has units
    assert!(started_after_cancel.load(Ordering::SeqCst) < 200);
}

#[test]
fn a_batch_that_starts_cancelled_delivers_nothing() {
    let (bytes, paths) = numbered_archive(50);
    let cancel = AtomicBool::new(true);
    let calls = AtomicUsize::new(0);
    let failure = extract_archive_files_batch(&bytes, "big.ba2", &paths, &cancel, |_p, _d| {
        calls.fetch_add(1, Ordering::SeqCst);
        Ok::<(), ArchiveError>(())
    })
    .unwrap_err();
    assert_eq!(failure.cause.kind(), ErrorKind::Cancelled);
    assert_eq!(failure.completed, 0);
    assert_eq!(calls.load(Ordering::SeqCst), 0);
}

#[test]
fn a_failing_sink_aborts_and_reports_the_count() {
    let (bytes, paths) = numbered_archive(300);
    let cancel = AtomicBool::new(false);
    let accepted = AtomicUsize::new(0);
    let failure = extract_archive_files_batch(&bytes, "big.ba2", &paths, &cancel, |path, _d| {
        if path.ends_with("7.bin") {
            return Err(ArchiveError::IOError { detail: format!("disk full at {}", path) });
        }
        accepted.fetch_add(1, Ordering::SeqCst);
        Ok(())
    })
    .unwrap_err();
    assert_eq!(failure.cause.kind(), ErrorKind::IOError);
    assert!(failure.cause.message().starts_with("I/O error: disk full at data\\file"));
    assert!(failure.completed < 300);
    assert_eq!(failure.completed, accepted.load(Ordering::SeqCst));
}

#[test]
fn only_wanted_entries_are_delivered() {
    let (bytes, _paths) = numbered_archive(20);
    let wanted = vec![
        "DATA/FILE0003.BIN".to_string(),
        "data\\file0011.bin".to_string(),
        "data/file0011.bin".to_string(),
        "data/nothere.bin".to_string(),
    ];
    let seen: Mutex<Vec<(String, Vec<u8>)>> = Mutex::new(Vec::new());
    let cancel = AtomicBool::new(false);
    let n = extract_archive_files_batch(&bytes, "x.ba2", &wanted, &cancel, |p, d| {
        seen.lock().unwrap().push((p.to_string(), d));
        Ok::<(), ArchiveError>(())
    })
    .unwrap();
    assert_eq!(n, 2);
    let mut seen = seen.into_inner().unwrap();
    seen.sort();
    assert_eq!(
        seen,
        vec![
            ("data\\file0003.bin".to_string(), vec![3u8; 8]),
            ("data\\file0011.bin".to_string(), vec![11u8; 8]),
        ]
    );

    let none: Vec<String> = Vec::new();
    let n = extract_archive_files_batch(&bytes, "x.ba2", &none, &cancel, |_p, _d| {
        Ok::<(), ArchiveError>(())
    })
    .unwrap();
    assert_eq!(n, 0);
}

#[test]
fn unreadable_archives_fail_the_batch_with_nothing_done() {
    let cancel = AtomicBool::new(false);
    let wanted = vec!["a".to_string()];
    let sink = |_p: &str, _d: Vec<u8>| Ok::<(), ArchiveError>(());
    let f = extract_archive_files_batch(b"plain", "p.txt", &wanted, &cancel, sink).unwrap_err();
    assert_eq!((f.completed, f.cause.kind()), (0, ErrorKind::UnknownFormat));
    let f = extract_archive_files_batch(b"plain", "p.bsa", &wanted, &cancel, sink).unwrap_err();
    assert_eq!((f.completed, f.cause.kind()), (0, ErrorKind::FormatError));
}

#[test]
fn per_layout_batches_take_prepared_wanted_sets() {
    let cancel = AtomicBool::new(false);
    let sink = |_p: &str, _d: Vec<u8>| Ok::<(), ArchiveError>(());

    let mut bsa = BsaBuilder::new();
    bsa.add_file("a/one.txt", vec![1]);
    bsa.add_file("a/two.txt", vec![2]);
    bsa.add_file("three.txt", vec![3]);
    let bsa = bsa.build_with_progress(quiet).unwrap();
    let wanted = WantedSet::from_paths(
        ArchiveFormat::Bsa,
        &vec!["A/ONE.txt".to_string(), "three.txt".to_string()],
    );
    assert_eq!(extract_bsa_files_batch(&bsa, &wanted, &cancel, sink).unwrap(), 2);
    assert!(wanted.wants(ArchiveFormat::Bsa, "a\\one.TXT"));
    assert!(!wanted.wants(ArchiveFormat::Bsa, "a\\two.txt"));

    let (ba2, paths) = numbered_archive(5);
    let wanted = WantedSet::from_paths(ArchiveFormat::Ba2, &paths);
    assert_eq!(extract_ba2_files_batch(&ba2, &wanted, &cancel, sink).unwrap(), 5);

    let tes3: ba2::tes3::Archive = [
        (ba2::tes3::ArchiveKey::from(&b"x\\y.txt"[..]), ba2::tes3::File::from(&b"y"[..])),
        (ba2::tes3::ArchiveKey::from(&b"z.txt"[..]), ba2::tes3::File::from(&b"z"[..])),
    ]
    .into_iter()
    .collect();
    let mut tes3_bytes = Vec::new();
    tes3.write(&mut tes3_bytes).unwrap();
    let wanted = WantedSet::from_paths(ArchiveFormat::Tes3Bsa, &vec!["X/Y.TXT".to_string()]);
    assert_eq!(extract_tes3_files_batch(&tes3_bytes, &wanted, &cancel, sink).unwrap(), 1);
}

#[test]
fn wanted_positions_come_in_archive_order() {
    let listed: Vec<String> =
        ["b\\x", "a\\y", "c\\z", "A\\Y"].iter().map(|s| s.to_string()).collect();
    let wanted =
        WantedSet::from_paths(ArchiveFormat::Bsa, &vec!["a/y".to_string(), "c/z".to_string()]);
    assert_eq!(select_wanted(ArchiveFormat::Bsa, &listed, &wanted), vec![1, 2, 3]);
    let nothing = WantedSet::from_paths(ArchiveFormat::Bsa, &Vec::new());
    assert_eq!(select_wanted(ArchiveFormat::Bsa, &listed, &nothing), Vec::<usize>::new());
}

#[test]
fn outcomes_add_up() {
    assert_eq!(summarise(&Vec::new()).unwrap(), 0);
    assert_eq!(
        summarise(&vec![UnitOutcome::Delivered, UnitOutcome::Delivered, UnitOutcome::Delivered])
            .unwrap(),
        3
    );
    let f = summarise(&vec![
        UnitOutcome::Delivered,
        UnitOutcome::Skipped,
        UnitOutcome::Failed(ArchiveError::NotFound),
        UnitOutcome::Delivered,
        UnitOutcome::Failed(ArchiveError::Cancelled),
    ])
    .unwrap_err();
    assert_eq!((f.completed, f.cause.kind()), (2, ErrorKind::NotFound));
    let f = summarise(&vec![UnitOutcome::Skipped, UnitOutcome::Delivered]).unwrap_err();
    assert_eq!((f.completed, f.cause.kind()), (1, ErrorKind::Cancelled));
    let f = summarise(&vec![UnitOutcome::Failed(ArchiveError::Cancelled)]).unwrap_err();
    assert_eq!((f.completed, f.cause.kind()), (0, ErrorKind::Cancelled));
}

#[test]
fn a_unit_does_what_the_flags_it_read_ask_for() {
    let (bytes, _paths) = numbered_archive(3);
    let listed = list_archive_files(&bytes, "three.ba2").unwrap();
    let number: u8 = listed[1].path["data\\file".len()..][..4].parse().unwrap();
    let archive = open_archive(ArchiveFormat::Ba2, &bytes).unwrap();
    let seen: Mutex<Vec<(String, Vec<u8>)>> = Mutex::new(Vec::new());
    let sink = |path: &str, data: Vec<u8>| {
        seen.lock().unwrap().push((path.to_string(), data));
        Ok::<(), ArchiveError>(())
    };

    // a stop was asked for: no work, whatever the other flag says
    for aborting in [false, true] {
        match deliver_entry(true, aborting, &archive, 1, &sink) {
            UnitOutcome::Failed(e) => assert_eq!(e.kind(), ErrorKind::Cancelled),
            _ => panic!("a unit that sees the stop must fail"),
        }
    }
    assert!(seen.lock().unwrap().is_empty());

    // the batch is aborting: the unit is skipped
    assert!(matches!(deliver_entry(false, true, &archive, 1, &sink), UnitOutcome::Skipped));
    assert!(seen.lock().unwrap().is_empty());

    // neither: the entry is decoded and handed over
    assert!(matches!(deliver_entry(false, false, &archive, 1, &sink), UnitOutcome::Delivered));
    assert_eq!(*seen.lock().unwrap(), vec![(listed[1].path.clone(), vec![number; 8])]);

    // the sink's own error is the unit's error
    let refusing = |_path: &str, _data: Vec<u8>| {
        Err::<(), ArchiveError>(ArchiveError::IOError { detail: "disk full".to_string() })
    };
    match deliver_entry(false, false, &archive, 2, &refusing) {
        UnitOutcome::Failed(e) => {
            assert_eq!(e.kind(), ErrorKind::IOError);
            assert_eq!(e.message(), "I/O error: disk full");
        },
        _ => panic!("a refused entry must fail its unit"),
    }
}

#[test]
fn a_batch_stopped_by_a_request_alone_reports_the_request() {
    let outcomes = vec![
        UnitOutcome::Delivered,
        UnitOutcome::Failed(ArchiveError::Cancelled),
        UnitOutcome::Skipped,
        UnitOutcome::Delivered,
        UnitOutcome::Failed(ArchiveError::Cancelled),
    ];
    let failure = summarise(&outcomes).unwrap_err();
    assert_eq!(failure.cause.kind(), ErrorKind::Cancelled);
    assert_eq!(failure.completed, 2);

    let outcomes = vec![UnitOutcome::Delivered, UnitOutcome::Skipped];
    let failure = summarise(&outcomes).unwrap_err();
    assert_eq!(failure.cause.kind(), ErrorKind::Cancelled);
    assert_eq!(failure.completed, 1);
}
