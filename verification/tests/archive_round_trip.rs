use std::sync::atomic::AtomicBool;
use std::sync::Mutex;

use bsa_ba2_tool::archive::{
    detect_format, detect_game_version, extract_archive_file, extract_archive_files_batch,
    list_archive_files, ArchiveError, ArchiveFormat, Ba2Builder, Ba2CompressionFormat,
    Ba2Version, BsaBuilder, BsaVersion, ErrorKind, GameVersion,
};

fn quiet(_current: usize, _total: usize, _name: &str) {}

fn sample_files() -> Vec<(String, Vec<u8>)> {
    vec![
        ("meshes/armor/iron.nif".to_string(), vec![1u8; 300]),
        ("meshes/armor/steel.nif".to_string(), (0..=255u8).collect()),
        ("scripts/main.pex".to_string(), b"hello world, hello world, hello world".to_vec()),
        ("readme.txt".to_string(), b"top level".to_vec()),
    ]
}

#[test]
fn ba2_general_round_trip_keeps_paths_and_bytes() {
    let mut builder = Ba2Builder::new().with_version(Ba2Version::V1);
    for (path, data) in sample_files() {
        builder.add_file(&path, data);
    }
    assert_eq!(builder.file_count(), 4);
    let bytes = builder.build_with_progress(quiet).unwrap();
    assert_eq!(detect_format(&bytes, "x.bin"), Some(ArchiveFormat::Ba2));

    let listed = list_archive_files(&bytes, "out.ba2").unwrap();
    let mut paths: Vec<String> = listed.iter().map(|e| e.path.clone()).collect();
    paths.sort();
    assert_eq!(
        paths,
        vec![
            "meshes\\armor\\iron.nif".to_string(),
            "meshes\\armor\\steel.nif".to_string(),
            "readme.txt".to_string(),
            "scripts\\main.pex".to_string(),
        ]
    );
    for (path, data) in sample_files() {
        let got = extract_archive_file(&bytes, "out.ba2", &path).unwrap();
        assert_eq!(got, data);
    }
}

#[test]
fn bsa_round_trip_keeps_paths_and_bytes() {
    for (version, compress) in [
        (BsaVersion::V103, false),
        (BsaVersion::V104, true),
        (BsaVersion::V105, true),
    ] {
        let mut builder = BsaBuilder::new().with_version(version).with_compression(compress);
        for (path, data) in sample_files() {
            builder.add_file(&path, data);
        }
        let bytes = builder.build_with_progress(quiet).unwrap();
        assert_eq!(detect_format(&bytes, "x.bin"), Some(ArchiveFormat::Bsa));
        let listed = list_archive_files(&bytes, "out.bsa").unwrap();
        let mut paths: Vec<String> = listed.iter().map(|e| e.path.clone()).collect();
        paths.sort();
        assert_eq!(
            paths,
            vec![
                "meshes\\armor\\iron.nif".to_string(),
                "meshes\\armor\\steel.nif".to_string(),
                "readme.txt".to_string(),
                "scripts\\main.pex".to_string(),
            ]
        );
        for (path, data) in sample_files() {
            let got = extract_archive_file(&bytes, "out.bsa", &path).unwrap();
            assert_eq!(got, data);
        }
    }
}

#[test]
fn batch_extraction_delivers_every_wanted_entry() {
    let mut builder = Ba2Builder::new().with_compression(Ba2CompressionFormat::Uncompressed);
    for (path, data) in sample_files() {
        builder.add_file(&path, data);
    }
    let bytes = builder.build_with_progress(quiet).unwrap();
    let wanted = vec!["MESHES/ARMOR/IRON.NIF".to_string(), "readme.txt".to_string()];
    let seen: Mutex<Vec<(String, Vec<u8>)>> = Mutex::new(Vec::new());
    let cancel = AtomicBool::new(false);
    let n = extract_archive_files_batch(&bytes, "a.ba2", &wanted, &cancel, |path, data| {
        seen.lock().unwrap().push((path.to_string(), data));
        Ok::<(), ArchiveError>(())
    })
    .unwrap();
    assert_eq!(n, 2);
    let mut seen = seen.into_inner().unwrap();
    seen.sort();
    assert_eq!(seen[0], ("meshes\\armor\\iron.nif".to_string(), vec![1u8; 300]));
    assert_eq!(seen[1], ("readme.txt".to_string(), b"top level".to_vec()));
}

#[test]
fn unknown_bytes_are_an_unknown_format() {
    let err = list_archive_files(b"nothing here", "notes.txt").unwrap_err();
    assert_eq!(err.kind(), ErrorKind::UnknownFormat);
    assert_eq!(detect_game_version(b"nothing here", "notes.txt"), None);
    assert_eq!(detect_game_version(b"nothing here", "notes.ba2"), Some(GameVersion::Fallout4Fo76));
}
