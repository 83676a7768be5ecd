use std::sync::atomic::{AtomicBool, AtomicUsize, Ordering};
use std::sync::Mutex;

use bsa_ba2_tool::archive::ba2_writer::ba2_format_for_output;
use bsa_ba2_tool::archive::flag::{counter_new, counter_next, flag_is_set, flag_set};
use bsa_ba2_tool::archive::writer::{find_number, make_bsa_key, split_bsa_key};
use bsa_ba2_tool::archive::{
    default_flags_fo3, default_flags_oblivion, detect_types, detect_version,
    extract_archive_file, list_archive_files, ArchiveFlags, ArchiveTypes, Ba2Builder,
    Ba2CompressionFormat, Ba2Format, Ba2Version, BsaBuilder, BsaVersion, ErrorKind,
};

fn quiet(_current: usize, _total: usize, _name: &str) {}

/// A 4x4 texture of 32-bit pixels in a DDS container.
fn small_dds() -> Vec<u8> {
    let mut words: Vec<u32> = vec![
        0x2053_4444, // "DDS "
        124,         // header size
        0x0000_100F, // caps, height, width, pitch, pixel format
        4,           // height
        4,           // width
        16,          // pitch
        0,           // depth
        1,           // mip count
    ];
    words.extend([0u32; 11]);
    words.extend([32, 0x41, 0, 32, 0x00FF_0000, 0x0000_FF00, 0x0000_00FF, 0xFF00_0000]);
    words.extend([0x1000, 0, 0, 0, 0]);
    let mut bytes: Vec<u8> = words.iter().flat_map(|w| w.to_le_bytes()).collect();
    assert_eq!(bytes.len(), 128);
    bytes.extend((0..64u8).map(|i| i.wrapping_mul(3)));
    bytes
}

#[test]
fn new_builders_are_empty_with_their_defaults() {
    let ba2 = Ba2Builder::new();
    assert!(ba2.is_empty());
    assert_eq!(ba2.file_count(), 0);
    assert_eq!(ba2.format(), Ba2Format::General);
    assert_eq!(ba2.compression(), Ba2CompressionFormat::Zlib);
    assert_eq!(ba2.version(), Ba2Version::V7);
    assert!(ba2.strings());
    let ba2 = Ba2Builder::default();
    assert!(ba2.is_empty());

    let bsa = BsaBuilder::new();
    assert!(bsa.is_empty());
    assert_eq!(bsa.file_count(), 0);
    assert_eq!(bsa.version(), BsaVersion::V104);
    assert_eq!(bsa.flags().bits, 63);
    assert_eq!(bsa.types().bits, 0);
    assert!(BsaBuilder::default().is_empty());
}

#[test]
fn building_nothing_is_an_empty_archive_error() {
    let err = Ba2Builder::new().build_with_progress(quiet).unwrap_err();
    assert_eq!(err.kind(), ErrorKind::EmptyArchive);
    assert_eq!(err.message(), "Cannot create empty archive");
    let err = Ba2Builder::new().with_format(Ba2Format::DX10).build_with_progress(quiet).unwrap_err();
    assert_eq!(err.kind(), ErrorKind::EmptyArchive);
    let err = BsaBuilder::new().build_with_progress(quiet).unwrap_err();
    assert_eq!(err.kind(), ErrorKind::EmptyArchive);
}

#[test]
fn duplicate_key_keeps_the_last_payload() {
    let mut builder = Ba2Builder::new();
    builder.add_file("x/y.dat", b"AAAA".to_vec());
    builder.add_file("x/y.dat", b"BB".to_vec());
    assert_eq!(builder.file_count(), 1);
    let bytes = builder.build_with_progress(quiet).unwrap();
    let listed = list_archive_files(&bytes, "a.ba2").unwrap();
    assert_eq!(listed.len(), 1);
    assert_eq!(listed[0].path, "x\\y.dat");
    assert_eq!(extract_archive_file(&bytes, "a.ba2", "x/y.dat").unwrap(), b"BB".to_vec());

    let mut builder = BsaBuilder::new();
    builder.add_file("x/y.dat", b"AAAA".to_vec());
    builder.add_file("x\\y.dat", b"BB".to_vec());
    builder.add_file("/x/y.dat", b"CCC".to_vec());
    assert_eq!(builder.file_count(), 1);
    let bytes = builder.build_with_progress(quiet).unwrap();
    let listed = list_archive_files(&bytes, "a.bsa").unwrap();
    assert_eq!(listed.len(), 1);
    assert_eq!(extract_archive_file(&bytes, "a.bsa", "x/y.dat").unwrap(), b"CCC".to_vec());
}

#[test]
fn keys_are_normalized_before_staging() {
    let mut builder = Ba2Builder::new();
    builder.add_file("a\\b.txt", vec![1]);
    builder.add_file("/a/b.txt", vec![2]);
    builder.add_file("a/b.txt", vec![3]);
    builder.add_file("A/b.txt", vec![4]);
    assert_eq!(builder.file_count(), 2);
}

#[test]
fn build_does_not_depend_on_the_order_of_staging() {
    let files: Vec<(String, Vec<u8>)> = (0..40u32)
        .map(|i| (format!("dir{}/file{}.bin", i % 7, i), vec![(i % 251) as u8; 50 + i as usize]))
        .collect();

    let mut forward = Ba2Builder::new();
    for (p, d) in files.iter() {
        forward.add_file(p, d.clone());
    }
    let mut backward = Ba2Builder::new();
    for (p, d) in files.iter().rev() {
        backward.add_file(p, d.clone());
    }
    let a = forward.build_with_progress(quiet).unwrap();
    let b = backward.build_with_progress(quiet).unwrap();
    assert_eq!(a, b);

    let mut forward = BsaBuilder::new();
    for (p, d) in files.iter() {
        forward.add_file(p, d.clone());
    }
    let mut backward = BsaBuilder::new();
    for (p, d) in files.iter().rev() {
        backward.add_file(p, d.clone());
    }
    let a = forward.build_with_progress(quiet).unwrap();
    let b = backward.build_with_progress(quiet).unwrap();
    assert_eq!(a, b);
    let again = {
        let mut third = BsaBuilder::new();
        for (p, d) in files.iter() {
            third.add_file(p, d.clone());
        }
        third.build_with_progress(quiet).unwrap()
    };
    assert_eq!(a, again);
}

#[test]
fn progress_is_told_of_every_file() {
    let calls = AtomicUsize::new(0);
    let names: Mutex<Vec<String>> = Mutex::new(Vec::new());
    let mut builder = Ba2Builder::new();
    builder.add_file("b/two.txt", vec![2; 10]);
    builder.add_file("a/one.txt", vec![1; 10]);
    builder.add_file("c/three.txt", vec![3; 10]);
    builder
        .build_with_progress(|current, total, name| {
            assert_eq!(total, 3);
            assert!(current >= 1 && current <= 3);
            calls.fetch_add(1, Ordering::SeqCst);
            names.lock().unwrap().push(name.to_string());
        })
        .unwrap();
    assert_eq!(calls.load(Ordering::SeqCst), 3);
    let mut names = names.into_inner().unwrap();
    names.sort();
    assert_eq!(names, vec!["a/one.txt", "b/two.txt", "c/three.txt"]);

    let names: Mutex<Vec<String>> = Mutex::new(Vec::new());
    let mut builder = BsaBuilder::new();
    builder.add_file("b/two.txt", vec![2; 10]);
    builder.add_file("top.txt", vec![1; 10]);
    builder
        .build_with_progress(|current, total, name| {
            assert_eq!(total, 2);
            assert!(current >= 1 && current <= 2);
            names.lock().unwrap().push(name.to_string());
        })
        .unwrap();
    let mut names = names.into_inner().unwrap();
    names.sort();
    assert_eq!(names, vec!["./top.txt", "b/two.txt"]);
}

#[test]
fn compressed_and_uncompressed_archives_hold_the_same_content() {
    let data: Vec<u8> = std::iter::repeat(b"abcabcabc".iter().copied()).take(200).flatten().collect();
    let mut sizes = Vec::new();
    for compression in [
        Ba2CompressionFormat::Uncompressed,
        Ba2CompressionFormat::Zlib,
        Ba2CompressionFormat::Lz4,
    ] {
        let mut builder = Ba2Builder::new().with_compression(compression).with_strings(false);
        builder.add_file("data/big.bin", data.clone());
        let bytes = builder.build_with_progress(quiet).unwrap();
        sizes.push(bytes.len());
    }
    assert!(sizes[1] < sizes[0]);
    assert_eq!(sizes[1], sizes[2]);

    let mut builder = Ba2Builder::new().with_compression(Ba2CompressionFormat::Zlib);
    builder.add_file("data/big.bin", data.clone());
    let bytes = builder.build_with_progress(quiet).unwrap();
    assert_eq!(extract_archive_file(&bytes, "x.ba2", "data/big.bin").unwrap(), data);

    let mut plain = BsaBuilder::new().with_compression(false);
    plain.add_file("data/big.bin", data.clone());
    let plain = plain.build_with_progress(quiet).unwrap();
    let mut packed = BsaBuilder::new().with_compression(true);
    packed.add_file("data/big.bin", data.clone());
    let packed = packed.build_with_progress(quiet).unwrap();
    assert!(packed.len() < plain.len());
    assert_eq!(extract_archive_file(&packed, "x.bsa", "data/big.bin").unwrap(), data);
    assert_eq!(extract_archive_file(&plain, "x.bsa", "data/big.bin").unwrap(), data);
}

#[test]
fn texture_archive_takes_textures_only() {
    let mut builder = Ba2Builder::new()
        .with_format(Ba2Format::DX10)
        .with_version(Ba2Version::V1);
    builder.add_file("textures/a.dds", small_dds());
    builder.add_file("textures/b.dds", small_dds());
    let bytes = builder.build_with_progress(quiet).unwrap();
    let listed = list_archive_files(&bytes, "t.ba2").unwrap();
    assert_eq!(listed.len(), 2);
    let back = extract_archive_file(&bytes, "t.ba2", "textures/a.dds").unwrap();
    assert_eq!(&back[0..4], b"DDS ");
    assert_eq!(&back[back.len() - 64..], &small_dds()[128..]);

    let mut builder = Ba2Builder::new().with_format(Ba2Format::DX10);
    builder.add_file("textures/a.dds", small_dds());
    builder.add_file("textures/broken.dds", b"this is no texture".to_vec());
    builder.add_file("textures/z_also_broken.dds", vec![0u8; 3]);
    let err = builder.build_with_progress(quiet).unwrap_err();
    assert_eq!(err.kind(), ErrorKind::FormatError);
    assert_eq!(err.message(), "Malformed archive data: textures/broken.dds");
}

#[test]
fn settings_are_guessed_from_names() {
    assert_eq!(Ba2Builder::from_name("MyMod - Textures.ba2").format(), Ba2Format::DX10);
    assert_eq!(Ba2Builder::from_name("Textures1.ba2").format(), Ba2Format::DX10);
    assert_eq!(Ba2Builder::from_name("C:\\Data\\textures.ba2").format(), Ba2Format::DX10);
    assert_eq!(Ba2Builder::from_name("data/MyTexturesPack.ba2").format(), Ba2Format::DX10);
    assert_eq!(Ba2Builder::from_name("MyTextures - Main.ba2").format(), Ba2Format::General);
    assert_eq!(Ba2Builder::from_name("MyTextures_main.ba2").format(), Ba2Format::General);
    assert_eq!(Ba2Builder::from_name("textures/MyMod - Main.ba2").format(), Ba2Format::General);
    assert_eq!(Ba2Builder::from_name("MyMod - Main.ba2").format(), Ba2Format::General);
    assert_eq!(Ba2Builder::from_name("").format(), Ba2Format::General);
    assert_eq!(Ba2Builder::from_name("x").compression(), Ba2CompressionFormat::Zlib);

    assert_eq!(ba2_format_for_output("MyMod - TEXTURES.ba2"), Ba2Format::DX10);
    assert_eq!(ba2_format_for_output("MyTextures - Main.ba2"), Ba2Format::DX10);
    assert_eq!(ba2_format_for_output("MyMod - Main.ba2"), Ba2Format::General);

    assert_eq!(detect_version("Oblivion - Meshes.bsa"), BsaVersion::V103);
    assert_eq!(detect_version("DLCShiveringIsles - Sounds.bsa"), BsaVersion::V103);
    assert_eq!(detect_version("KNIGHTS.bsa"), BsaVersion::V103);
    assert_eq!(detect_version("Fallout - Meshes.bsa"), BsaVersion::V104);
    assert_eq!(detect_version("Skyrim - Textures.bsa"), BsaVersion::V104);

    assert_eq!(detect_types("Fallout - Meshes.bsa").bits, 1);
    assert_eq!(detect_types("Fallout - TEXTURES.bsa").bits, 2);
    assert_eq!(detect_types("Fallout - MenuVoices.bsa").bits, 20);
    assert_eq!(detect_types("Fallout - Voices.bsa").bits, 16);
    assert_eq!(detect_types("Fallout - Sound.bsa").bits, 8);
    assert_eq!(detect_types("Fallout - Misc.bsa").bits, 256);
    assert_eq!(detect_types("meshes and textures").bits, 1);

    let b = BsaBuilder::from_name("Oblivion - Textures - Compressed.bsa");
    assert_eq!(b.version(), BsaVersion::V103);
    assert_eq!(b.flags().bits, 3);
    assert_eq!(b.types().bits, 2);
    let b = BsaBuilder::from_name("Fallout - Sound.bsa");
    assert_eq!(b.version(), BsaVersion::V104);
    assert_eq!(b.flags().bits, 63);
    assert_eq!(b.types().bits, 8);
}

#[test]
fn flags_and_types_are_set_as_given() {
    assert_eq!(default_flags_fo3().bits, 0b11_1111);
    assert_eq!(default_flags_oblivion().bits, 0b11);
    let b = BsaBuilder::new()
        .with_flags(ArchiveFlags { bits: 3 })
        .with_types(ArchiveTypes { bits: 9 })
        .with_version(BsaVersion::V105);
    assert_eq!(b.flags().bits, 3);
    assert_eq!(b.types().bits, 9);
    assert_eq!(b.version(), BsaVersion::V105);
    let b = b.with_compression(true);
    assert_eq!(b.flags().bits, 7);
    let b = b.with_compression(true);
    assert_eq!(b.flags().bits, 7);
    let b = b.with_compression(false);
    assert_eq!(b.flags().bits, 3);
    let b = Ba2Builder::new()
        .with_version(Ba2Version::V3)
        .with_format(Ba2Format::DX10)
        .with_compression(Ba2CompressionFormat::Lz4)
        .with_strings(false);
    assert_eq!(b.version(), Ba2Version::V3);
    assert_eq!(b.format(), Ba2Format::DX10);
    assert_eq!(b.compression(), Ba2CompressionFormat::Lz4);
    assert!(!b.strings());
}

#[test]
fn bsa_keys_hold_directory_and_file_name() {
    assert_eq!(make_bsa_key(b"meshes\\armor\\iron.nif"), b"meshes/armor\0iron.nif".to_vec());
    assert_eq!(make_bsa_key(b"/readme.txt"), b".\0readme.txt".to_vec());
    assert_eq!(make_bsa_key(b"a/"), b"a\0".to_vec());
    assert_eq!(
        split_bsa_key(b"meshes/armor\0iron.nif"),
        (b"meshes/armor".to_vec(), b"iron.nif".to_vec())
    );
    assert_eq!(split_bsa_key(b".\0readme.txt"), (b".".to_vec(), b"readme.txt".to_vec()));
    assert_eq!(split_bsa_key(b"nokey"), (b"nokey".to_vec(), Vec::new()));
}

#[test]
fn directories_that_differ_in_case_only_are_merged() {
    let mut builder = BsaBuilder::new().with_compression(false);
    builder.add_file("Meshes/a.nif", b"a".to_vec());
    builder.add_file("between/x.txt", b"x".to_vec());
    builder.add_file("meshes/b.nif", b"b".to_vec());
    assert_eq!(builder.file_count(), 3);
    let bytes = builder.build_with_progress(quiet).unwrap();
    let mut paths: Vec<String> =
        list_archive_files(&bytes, "m.bsa").unwrap().into_iter().map(|e| e.path).collect();
    paths.sort();
    assert_eq!(paths, vec!["between\\x.txt", "meshes\\a.nif", "meshes\\b.nif"]);
    assert_eq!(extract_archive_file(&bytes, "m.bsa", "meshes/a.nif").unwrap(), b"a".to_vec());
    assert_eq!(extract_archive_file(&bytes, "m.bsa", "meshes/b.nif").unwrap(), b"b".to_vec());
}

#[test]
fn a_counter_counts_from_one_and_stays_when_full() {
    let counter = counter_new();
    assert_eq!(counter_next(&counter), 1);
    assert_eq!(counter_next(&counter), 2);
    assert_eq!(counter_next(&counter), 3);

    let full = AtomicUsize::new(usize::MAX);
    assert_eq!(counter_next(&full), usize::MAX);
}

#[test]
fn a_flag_holds_what_was_last_written() {
    let flag = AtomicBool::new(false);
    assert!(!flag_is_set(&flag));
    flag_set(&flag, true);
    assert!(flag_is_set(&flag));
    flag_set(&flag, false);
    assert!(!flag_is_set(&flag));
}

#[test]
fn a_number_is_found_where_it_first_stands() {
    let numbers = vec![7u64, 9, 7, 11];
    assert_eq!(find_number(&numbers, 7), Some(0));
    assert_eq!(find_number(&numbers, 9), Some(1));
    assert_eq!(find_number(&numbers, 11), Some(3));
    assert_eq!(find_number(&numbers, 8), None);
    assert_eq!(find_number(&Vec::new(), 8), None);
}

#[test]
fn directories_that_the_codec_takes_for_one_keep_all_their_files() {
    let mut builder = BsaBuilder::new().with_compression(true);
    builder.add_file("Textures/Armor/a.dds", vec![1u8; 40]);
    builder.add_file("sound/x.wav", vec![2u8; 40]);
    builder.add_file("textures/armor/b.dds", vec![3u8; 40]);
    builder.add_file("TEXTURES/ARMOR/c.dds", vec![4u8; 40]);
    builder.add_file("textures/d.dds", vec![5u8; 40]);
    let bytes = builder.build_with_progress(quiet).unwrap();
    let mut paths: Vec<String> =
        list_archive_files(&bytes, "t.bsa").unwrap().into_iter().map(|e| e.path).collect();
    paths.sort();
    assert_eq!(
        paths,
        vec![
            "sound\\x.wav",
            "textures\\armor\\a.dds",
            "textures\\armor\\b.dds",
            "textures\\armor\\c.dds",
            "textures\\d.dds",
        ]
    );
    for (path, byte) in [("a", 1u8), ("b", 3), ("c", 4)] {
        let request = format!("textures/armor/{path}.dds");
        assert_eq!(extract_archive_file(&bytes, "t.bsa", &request).unwrap(), vec![byte; 40]);
    }
}
