use bsa_ba2_tool::archive::layout::{entry_is_sound, read_le_u32, tes4_tables_sound};
use bsa_ba2_tool::archive::{
    detect_game_version, extract_archive_file, list_archive_files, ArchiveFlags, BsaBuilder,
    BsaVersion, ErrorKind, GameVersion,
};

fn silent(_current: usize, _total: usize, _name: &str) {}

fn word(n: u32) -> [u8; 4] {
    n.to_le_bytes()
}

/// A header, one directory entry counting one file, and one file entry with the given
/// size and offset words, followed by `data`.
fn one_file_archive(version: u32, flags: u32, size: u32, offset: u32, data: &[u8]) -> Vec<u8> {
    let mut bytes = Vec::new();
    bytes.extend_from_slice(b"BSA\0");
    bytes.extend_from_slice(&word(version));
    bytes.extend_from_slice(&word(36));
    bytes.extend_from_slice(&word(flags));
    bytes.extend_from_slice(&word(1));
    bytes.extend_from_slice(&word(1));
    bytes.extend_from_slice(&word(0));
    bytes.extend_from_slice(&word(0));
    bytes.extend_from_slice(&[0u8; 4]);
    let directory_size = if version == 105 { 24 } else { 16 };
    let mut directory = vec![0u8; directory_size];
    directory[8..12].copy_from_slice(&word(1));
    bytes.extend_from_slice(&directory);
    bytes.extend_from_slice(&[0u8; 8]);
    bytes.extend_from_slice(&word(size));
    bytes.extend_from_slice(&word(offset));
    bytes.extend_from_slice(data);
    bytes
}

#[test]
fn four_bytes_are_read_least_significant_first() {
    assert_eq!(read_le_u32(&[0x42, 0x53, 0x41, 0x00], 0), 0x0041_5342);
    assert_eq!(read_le_u32(&[9, 1, 2, 3, 4], 1), 0x0403_0201);
    assert_eq!(read_le_u32(&[0xff, 0xff, 0xff, 0xff], 0), u32::MAX);
}

#[test]
fn a_size_smaller_than_the_length_field_is_rejected_before_the_codec_sees_it() {
    // compressed archive, one file of size 0 at offset 0: the length field alone takes 4
    let bytes = one_file_archive(104, 4, 0, 0, &[]);
    assert_eq!(bytes.len(), 68);
    assert!(!tes4_tables_sound(&bytes));
    assert_eq!(list_archive_files(&bytes, "bad.bsa").unwrap_err().kind(), ErrorKind::FormatError);
    assert_eq!(
        extract_archive_file(&bytes, "bad.bsa", "a.txt").unwrap_err().kind(),
        ErrorKind::FormatError
    );
    assert_eq!(detect_game_version(&bytes, "bad.bsa"), Some(GameVersion::Fallout3));

    for size in 0..4 {
        let bytes = one_file_archive(104, 4, size, 68, &[0u8; 4]);
        assert!(!tes4_tables_sound(&bytes), "size {size}");
        assert!(list_archive_files(&bytes, "bad.bsa").is_err());
    }
    // the flip bit of the entry asks for the length field in an archive that is not compressed
    let bytes = one_file_archive(103, 0, 0x4000_0002, 68, &[0u8; 4]);
    assert!(!tes4_tables_sound(&bytes));
    assert!(list_archive_files(&bytes, "bad.bsa").is_err());
}

#[test]
fn a_size_that_covers_the_length_field_is_read() {
    let bytes = one_file_archive(104, 4, 4, 68, &[0u8; 4]);
    assert!(tes4_tables_sound(&bytes));
    let listed = list_archive_files(&bytes, "small.bsa").unwrap();
    assert_eq!(listed.len(), 1);
    assert_eq!(detect_game_version(&bytes, "small.bsa"), Some(GameVersion::Fallout3));

    // flipped in a compressed archive: stored as it is, nothing is taken off
    let bytes = one_file_archive(105, 4, 0x4000_0003, 76, b"abc");
    assert!(tes4_tables_sound(&bytes));
    let listed = list_archive_files(&bytes, "small.bsa").unwrap();
    assert_eq!(listed.len(), 1);
    assert_eq!(extract_archive_file(&bytes, "small.bsa", &listed[0].path).unwrap(), b"abc");
    assert_eq!(detect_game_version(&bytes, "small.bsa"), Some(GameVersion::SkyrimSE));
}

#[test]
fn a_size_smaller_than_the_embedded_name_is_rejected() {
    // names embedded: the data begins with a length byte and a name of five bytes
    let data = [5u8, b'a', b'.', b't', b'x', b't', b'!'];
    for size in 0..6 {
        let bytes = one_file_archive(104, 0x100, size, 68, &data);
        assert!(!tes4_tables_sound(&bytes), "size {size}");
        assert!(list_archive_files(&bytes, "bad.bsa").is_err());
    }
    let bytes = one_file_archive(104, 0x100, 7, 68, &data);
    assert!(tes4_tables_sound(&bytes));
    let listed = list_archive_files(&bytes, "named.bsa").unwrap();
    assert_eq!(listed.len(), 1);
    assert_eq!(listed[0].path, "a.txt");
    assert_eq!(extract_archive_file(&bytes, "named.bsa", "a.txt").unwrap(), b"!");
    // version 103 embeds no names, whatever the flag word says
    let bytes = one_file_archive(103, 0x100, 2, 52, &data);
    assert!(tes4_tables_sound(&bytes));
}

#[test]
fn data_that_lies_outside_the_bytes_is_rejected() {
    let bytes = one_file_archive(104, 0, 4, 68, b"abc");
    assert!(!tes4_tables_sound(&bytes));
    assert!(list_archive_files(&bytes, "short.bsa").is_err());
    let bytes = one_file_archive(104, 0, 1, 500, b"abc");
    assert!(!tes4_tables_sound(&bytes));
    let bytes = one_file_archive(104, 0, 3, 68, b"abc");
    assert!(tes4_tables_sound(&bytes));
}

#[test]
fn headers_that_are_none_are_rejected() {
    assert!(!tes4_tables_sound(b""));
    assert!(!tes4_tables_sound(&[0u8; 35]));
    let good = one_file_archive(104, 0, 3, 68, b"abc");
    let mut bad = good.clone();
    bad[0] = b'X';
    assert!(!tes4_tables_sound(&bad));
    let mut bad = good.clone();
    bad[4] = 102;
    assert!(!tes4_tables_sound(&bad));
    let mut bad = good.clone();
    bad[8] = 35;
    assert!(!tes4_tables_sound(&bad));
    // more directories counted than there are
    let mut bad = good.clone();
    bad[16] = 200;
    assert!(!tes4_tables_sound(&bad));
    assert!(list_archive_files(&bad, "bad.bsa").is_err());
    // no directory at all: nothing to walk
    let mut empty = good[..36].to_vec();
    empty[16] = 0;
    assert!(tes4_tables_sound(&empty));
}

#[test]
fn one_entry_is_judged_where_it_stands() {
    let bytes = one_file_archive(104, 4, 4, 68, &[0u8; 4]);
    assert!(entry_is_sound(&bytes, 104, 4, 52));
    assert!(!entry_is_sound(&bytes, 104, 0x104, 52));
    assert!(!entry_is_sound(&bytes, 104, 4, 60));
    assert!(!entry_is_sound(&bytes, 104, 4, 68));
}

#[test]
fn archives_that_the_builder_writes_have_sound_tables() {
    let files: [(&str, Vec<u8>); 4] = [
        ("meshes/armor/iron.nif", vec![7u8; 300]),
        ("meshes/armor/steel.nif", vec![8u8; 5]),
        ("textures/a.dds", Vec::new()),
        ("readme.txt", b"read me".to_vec()),
    ];
    for version in [BsaVersion::V103, BsaVersion::V104, BsaVersion::V105] {
        for bits in [0u32, 3, 7, 0x103, 0x107, 0x3f] {
            let mut builder =
                BsaBuilder::new().with_version(version).with_flags(ArchiveFlags { bits });
            for (path, data) in &files {
                builder.add_file(path, data.clone());
            }
            let bytes = builder.build_with_progress(silent).unwrap();
            assert!(tes4_tables_sound(&bytes), "{version:?} {bits:#x}");
            let listed = list_archive_files(&bytes, "built.bsa").unwrap();
            assert_eq!(listed.len(), 4, "{version:?} {bits:#x}");
            if bits & 3 == 3 || (bits & 0x100 != 0 && version != BsaVersion::V103) {
                for (path, data) in &files {
                    assert_eq!(
                        &extract_archive_file(&bytes, "built.bsa", path).unwrap(),
                        data,
                        "{version:?} {bits:#x} {path}"
                    );
                }
            }
        }
    }
}
