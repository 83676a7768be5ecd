use bsa_ba2_tool::archive::format::format_by_extension;
use bsa_ba2_tool::archive::{detect_format, ArchiveFormat};

#[test]
fn signature_tells_the_layout() {
    assert_eq!(detect_format(&[0x00, 0x01, 0x00, 0x00, 9, 9], "x"), Some(ArchiveFormat::Tes3Bsa));
    assert_eq!(detect_format(b"BSA\0rest", "x"), Some(ArchiveFormat::Bsa));
    assert_eq!(detect_format(b"BTDX", "x"), Some(ArchiveFormat::Ba2));
}

#[test]
fn signature_wins_over_extension() {
    assert_eq!(detect_format(b"BTDXmore", "archive.bsa"), Some(ArchiveFormat::Ba2));
    assert_eq!(detect_format(b"BSA\0more", "archive.ba2"), Some(ArchiveFormat::Bsa));
    assert_eq!(detect_format(&[0, 1, 0, 0], "archive.ba2"), Some(ArchiveFormat::Tes3Bsa));
}

#[test]
fn extension_decides_where_the_signature_is_silent() {
    assert_eq!(detect_format(b"", "Skyrim.bsa"), Some(ArchiveFormat::Bsa));
    assert_eq!(detect_format(b"BTD", "Fallout4.ba2"), Some(ArchiveFormat::Ba2));
    assert_eq!(detect_format(b"xxxxxxxx", "MOD.BSA"), Some(ArchiveFormat::Bsa));
    assert_eq!(detect_format(b"xxxxxxxx", "Mod.Ba2"), Some(ArchiveFormat::Ba2));
    assert_eq!(detect_format(b"BSA\x01", "a.b.ba2"), Some(ArchiveFormat::Ba2));
}

#[test]
fn neither_signature_nor_extension() {
    assert_eq!(detect_format(b"xxxxxxxx", "readme.txt"), None);
    assert_eq!(detect_format(b"", ""), None);
    assert_eq!(detect_format(b"bsa\0", "noext"), None);
    assert_eq!(detect_format(b"btdx", "archive.bsa2"), None);
    assert_eq!(detect_format(&[0, 1, 0], "archive."), None);
}

#[test]
fn a_leading_dot_is_no_extension() {
    assert_eq!(format_by_extension(".bsa"), None);
    assert_eq!(format_by_extension(".ba2"), None);
    assert_eq!(format_by_extension("x.bsa"), Some(ArchiveFormat::Bsa));
    assert_eq!(format_by_extension("..bsa"), Some(ArchiveFormat::Bsa));
    assert_eq!(format_by_extension("bsa"), None);
}

#[test]
fn conventions_of_the_layouts() {
    assert_eq!(ArchiveFormat::Tes3Bsa.separator(), '\\');
    assert_eq!(ArchiveFormat::Bsa.separator(), '\\');
    assert_eq!(ArchiveFormat::Ba2.separator(), '/');
    assert_eq!(ArchiveFormat::Bsa.native_path("Meshes/Armor\\Iron.nif"), "Meshes\\Armor\\Iron.nif");
    assert_eq!(ArchiveFormat::Ba2.native_path("Meshes/Armor\\Iron.nif"), "Meshes/Armor/Iron.nif");
    assert_eq!(ArchiveFormat::Bsa.canonical_key("Meshes/Armor\\IRON.nif"), "meshes\\armor\\iron.nif");
    assert_eq!(ArchiveFormat::Tes3Bsa.canonical_key("A/B"), "a\\b");
    assert_eq!(ArchiveFormat::Ba2.canonical_key("Meshes\\ÄRMOR/Iron.NIF"), "meshes/ärmor/iron.nif");
}
