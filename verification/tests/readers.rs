use bsa_ba2_tool::archive::{
    detect_format, detect_game_version, extract_archive_file, extract_ba2_file, extract_file,
    extract_tes3_file, list_archive_files, list_ba2_files, list_files, list_tes3_files,
    ArchiveFormat, Ba2Builder, BsaBuilder, BsaVersion, ErrorKind, GameVersion,
};

fn quiet(_current: usize, _total: usize, _name: &str) {}

fn tes3_archive(files: &[(&[u8], &[u8])]) -> Vec<u8> {
    let archive: ba2::tes3::Archive = files
        .iter()
        .map(|(name, data)| (ba2::tes3::ArchiveKey::from(*name), ba2::tes3::File::from(*data)))
        .collect();
    let mut out = Vec::new();
    archive.write(&mut out).unwrap();
    out
}

fn ba2_archive(files: &[(&str, &[u8])]) -> Vec<u8> {
    let mut builder = Ba2Builder::new();
    for (path, data) in files {
        builder.add_file(path, data.to_vec());
    }
    builder.build_with_progress(quiet).unwrap()
}

fn bsa_archive(version: BsaVersion, files: &[(&str, &[u8])]) -> Vec<u8> {
    let mut builder = BsaBuilder::new().with_version(version);
    for (path, data) in files {
        builder.add_file(path, data.to_vec());
    }
    builder.build_with_progress(quiet).unwrap()
}

#[test]
fn tes3_archive_is_listed_and_extracted() {
    let bytes = tes3_archive(&[
        (b"meshes\\a.nif", b"mesh a"),
        (b"icons\\gold.dds", b"gold"),
        (b"root.txt", b"root"),
    ]);
    assert_eq!(detect_format(&bytes, "x"), Some(ArchiveFormat::Tes3Bsa));
    assert_eq!(detect_game_version(&bytes, "x"), Some(GameVersion::Morrowind));
    let mut paths: Vec<String> =
        list_tes3_files(&bytes).unwrap().into_iter().map(|e| e.path).collect();
    paths.sort();
    assert_eq!(paths, vec!["icons\\gold.dds", "meshes\\a.nif", "root.txt"]);
    let mut paths: Vec<String> =
        list_archive_files(&bytes, "Morrowind.bsa").unwrap().into_iter().map(|e| e.path).collect();
    paths.sort();
    assert_eq!(paths, vec!["icons\\gold.dds", "meshes\\a.nif", "root.txt"]);
    assert_eq!(extract_tes3_file(&bytes, "Icons/GOLD.dds").unwrap(), b"gold".to_vec());
    assert_eq!(extract_archive_file(&bytes, "m.bsa", "ROOT.TXT").unwrap(), b"root".to_vec());
    assert_eq!(
        extract_tes3_file(&bytes, "icons\\silver.dds").unwrap_err().kind(),
        ErrorKind::NotFound
    );
}

#[test]
fn extraction_ignores_case_and_slash_convention() {
    let bsa = bsa_archive(BsaVersion::V104, &[("foo\\bar.txt", b"bsa payload")]);
    assert_eq!(list_files(&bsa).unwrap()[0].path, "foo\\bar.txt");
    assert_eq!(extract_file(&bsa, "Foo/Bar.txt").unwrap(), b"bsa payload".to_vec());
    assert_eq!(extract_file(&bsa, "FOO\\BAR.TXT").unwrap(), b"bsa payload".to_vec());
    assert_eq!(extract_file(&bsa, "foo/bar.txt").unwrap(), b"bsa payload".to_vec());

    let ba2 = ba2_archive(&[("Foo/Bar.txt", b"ba2 payload")]);
    assert_eq!(list_ba2_files(&ba2).unwrap()[0].path, "foo\\bar.txt");
    assert_eq!(extract_ba2_file(&ba2, "Foo/Bar.txt").unwrap(), b"ba2 payload".to_vec());
    assert_eq!(extract_ba2_file(&ba2, "foo\\bar.txt").unwrap(), b"ba2 payload".to_vec());
    assert_eq!(extract_ba2_file(&ba2, "FOO\\BAR.TXT").unwrap(), b"ba2 payload".to_vec());

    let tes3 = tes3_archive(&[(b"foo\\bar.txt", b"tes3 payload")]);
    assert_eq!(extract_tes3_file(&tes3, "Foo/Bar.txt").unwrap(), b"tes3 payload".to_vec());
}

#[test]
fn root_level_files_are_found_by_their_listed_path() {
    let bsa = bsa_archive(BsaVersion::V105, &[("readme.txt", b"hello"), ("a/b.txt", b"b")]);
    let mut paths: Vec<String> = list_files(&bsa).unwrap().into_iter().map(|e| e.path).collect();
    paths.sort();
    assert_eq!(paths, vec!["a\\b.txt", "readme.txt"]);
    assert_eq!(extract_file(&bsa, "README.txt").unwrap(), b"hello".to_vec());
}

#[test]
fn missing_entry_is_not_found() {
    let ba2 = ba2_archive(&[("a/b.txt", b"b")]);
    assert_eq!(extract_ba2_file(&ba2, "a/c.txt").unwrap_err().kind(), ErrorKind::NotFound);
    assert_eq!(extract_ba2_file(&ba2, "").unwrap_err().kind(), ErrorKind::NotFound);
    let err = extract_archive_file(&ba2, "x.ba2", "b.txt").unwrap_err();
    assert_eq!(err.kind(), ErrorKind::NotFound);
    assert_eq!(err.message(), "File not found in archive");
}

#[test]
fn bytes_that_the_codec_rejects_are_a_format_error() {
    let err = list_archive_files(b"BSA\0 and then nothing of use", "x.bsa").unwrap_err();
    assert_eq!(err.kind(), ErrorKind::FormatError);
    assert_eq!(err.message(), "Malformed archive data: ");
    let err = list_archive_files(b"BTDX", "x.ba2").unwrap_err();
    assert_eq!(err.kind(), ErrorKind::FormatError);
    let err = extract_archive_file(&[0, 1, 0, 0], "x.bsa", "a").unwrap_err();
    assert_eq!(err.kind(), ErrorKind::FormatError);
    assert_eq!(list_files(b"plain text").unwrap_err().kind(), ErrorKind::FormatError);
    assert_eq!(list_ba2_files(b"plain text").unwrap_err().kind(), ErrorKind::FormatError);
    assert_eq!(list_tes3_files(b"plain text").unwrap_err().kind(), ErrorKind::FormatError);
    let err = list_archive_files(b"plain text", "plain.txt").unwrap_err();
    assert_eq!(err.kind(), ErrorKind::UnknownFormat);
    assert_eq!(err.message(), "Unknown archive format");
    assert_eq!(
        extract_archive_file(b"plain text", "plain.txt", "a").unwrap_err().kind(),
        ErrorKind::UnknownFormat
    );
}

#[test]
fn game_is_told_from_layout_and_version() {
    let files: [(&str, &[u8]); 1] = [("a/b.txt", b"b")];
    assert_eq!(
        detect_game_version(&bsa_archive(BsaVersion::V103, &files), "x"),
        Some(GameVersion::Oblivion)
    );
    assert_eq!(
        detect_game_version(&bsa_archive(BsaVersion::V104, &files), "x"),
        Some(GameVersion::Fallout3)
    );
    assert_eq!(
        detect_game_version(&bsa_archive(BsaVersion::V105, &files), "x"),
        Some(GameVersion::SkyrimSE)
    );
    assert_eq!(detect_game_version(&ba2_archive(&files), "x"), Some(GameVersion::Fallout4Fo76));
    assert_eq!(detect_game_version(b"garbage", "x.bsa"), Some(GameVersion::Fallout3));
    assert_eq!(detect_game_version(b"garbage", "x.ba2"), Some(GameVersion::Fallout4Fo76));
    assert_eq!(detect_game_version(b"garbage", "x.zip"), None);
}

#[test]
fn names_that_are_no_utf8_are_listed_leniently() {
    let bytes = tes3_archive(&[(b"caf\xE9.txt", b"x")]);
    let listed = list_tes3_files(&bytes).unwrap();
    assert_eq!(listed.len(), 1);
    assert_eq!(listed[0].path, "caf\u{FFFD}.txt");
}
