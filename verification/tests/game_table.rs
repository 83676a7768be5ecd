use bsa_ba2_tool::archive::{
    builder_for, Ba2CompressionFormat, Ba2Format, Ba2Version, BsaVersion, ErrorKind, GameVersion,
    PackBuilder,
};

#[test]
fn table_has_eleven_rows_in_index_order() {
    let all = GameVersion::all();
    assert_eq!(all.len(), 11);
    for (i, v) in all.iter().enumerate() {
        assert_eq!(v.index(), i as i32);
        assert_eq!(GameVersion::from_index(i as i32), *v);
    }
    assert_eq!(all[0], GameVersion::Morrowind);
    assert_eq!(all[10], GameVersion::StarfieldV3);
}

#[test]
fn index_outside_the_table_is_the_default_game() {
    assert_eq!(GameVersion::from_index(-1), GameVersion::Fallout4Fo76);
    assert_eq!(GameVersion::from_index(11), GameVersion::Fallout4Fo76);
    assert_eq!(GameVersion::from_index(i32::MAX), GameVersion::Fallout4Fo76);
    assert_eq!(GameVersion::from_index(i32::MIN), GameVersion::Fallout4Fo76);
    assert_eq!(GameVersion::default(), GameVersion::Fallout4Fo76);
    assert_eq!(GameVersion::default().index(), 6);
}

#[test]
fn display_names_are_those_of_the_table() {
    let names: Vec<&str> = GameVersion::all().iter().map(|v| v.display_name()).collect();
    assert_eq!(
        names,
        vec![
            "Morrowind (BSA)",
            "Oblivion (BSA v103)",
            "Fallout 3 (BSA v104)",
            "Fallout: New Vegas (BSA v104)",
            "Skyrim LE (BSA v104)",
            "Skyrim SE (BSA v105)",
            "Fallout 4 / Fallout 76 (BA2 v1)",
            "Fallout 4 Next Gen (BA2 v7)",
            "Fallout 4 Next Gen (BA2 v8)",
            "Starfield (BA2 v2)",
            "Starfield (BA2 v3)",
        ]
    );
}

#[test]
fn cli_names_lead_back_to_their_game() {
    let names: Vec<&str> = GameVersion::all().iter().map(|v| v.cli_name()).collect();
    assert_eq!(
        names,
        vec![
            "morrowind",
            "oblivion",
            "fo3",
            "fonv",
            "skyrimle",
            "skyrimse",
            "fo4-fo76",
            "fo4ng-v7",
            "fo4ng-v8",
            "starfield-v2",
            "starfield-v3",
        ]
    );
    for v in GameVersion::all() {
        assert_eq!(GameVersion::from_cli_name(v.cli_name()), Some(v));
    }
}

#[test]
fn cli_names_are_found_whatever_their_case() {
    assert_eq!(GameVersion::from_cli_name("SkyrimSE"), Some(GameVersion::SkyrimSE));
    assert_eq!(GameVersion::from_cli_name("FO4NG-V8"), Some(GameVersion::Fallout4NGv8));
    assert_eq!(GameVersion::from_cli_name("Starfield-V2"), Some(GameVersion::StarfieldV2));
    assert_eq!(GameVersion::from_cli_name("skyrim"), None);
    assert_eq!(GameVersion::from_cli_name(""), None);
    assert_eq!(GameVersion::from_cli_name("fo4_fo76"), None);
}

#[test]
fn layout_and_compression_follow_the_table() {
    let ba2: Vec<bool> = GameVersion::all().iter().map(|v| v.is_ba2()).collect();
    assert_eq!(
        ba2,
        vec![false, false, false, false, false, false, true, true, true, true, true]
    );
    let tes3: Vec<bool> = GameVersion::all().iter().map(|v| v.is_tes3()).collect();
    assert_eq!(
        tes3,
        vec![true, false, false, false, false, false, false, false, false, false, false]
    );
    let compresses: Vec<bool> =
        GameVersion::all().iter().map(|v| v.supports_compression()).collect();
    assert_eq!(
        compresses,
        vec![false, false, true, true, true, true, true, true, true, true, true]
    );
}

#[test]
fn binary_versions_follow_the_table() {
    let bsa: Vec<Option<BsaVersion>> =
        GameVersion::all().iter().map(|v| v.bsa_version()).collect();
    assert_eq!(
        bsa,
        vec![
            None,
            Some(BsaVersion::V103),
            Some(BsaVersion::V104),
            Some(BsaVersion::V104),
            Some(BsaVersion::V104),
            Some(BsaVersion::V105),
            None,
            None,
            None,
            None,
            None,
        ]
    );
    let ba2: Vec<Option<Ba2Version>> =
        GameVersion::all().iter().map(|v| v.ba2_version()).collect();
    assert_eq!(
        ba2,
        vec![
            None,
            None,
            None,
            None,
            None,
            None,
            Some(Ba2Version::V1),
            Some(Ba2Version::V7),
            Some(Ba2Version::V8),
            Some(Ba2Version::V2),
            Some(Ba2Version::V3),
        ]
    );
    assert_eq!(GameVersion::StarfieldV2.ba2_compression(), Ba2CompressionFormat::Lz4);
    assert_eq!(GameVersion::StarfieldV3.ba2_compression(), Ba2CompressionFormat::Lz4);
    assert_eq!(GameVersion::Fallout4Fo76.ba2_compression(), Ba2CompressionFormat::Zlib);
    assert_eq!(GameVersion::Morrowind.ba2_compression(), Ba2CompressionFormat::Zlib);
    assert_eq!(Ba2Version::default(), Ba2Version::V7);
    assert_eq!(Ba2CompressionFormat::default(), Ba2CompressionFormat::Zlib);
    assert_eq!(Ba2Format::default(), Ba2Format::General);
}

#[test]
fn morrowind_cannot_be_packed() {
    let err = match builder_for(GameVersion::Morrowind, "out.bsa") {
        Err(e) => e,
        Ok(_) => panic!("a builder for Morrowind"),
    };
    assert_eq!(err.kind(), ErrorKind::UnsupportedOperation);
    assert_eq!(err.message(), "Writing this archive format is not supported");
}

#[test]
fn builder_for_follows_the_profile_of_the_game() {
    match builder_for(GameVersion::StarfieldV2, "MyMod - Textures.ba2").unwrap() {
        PackBuilder::Ba2(b) => {
            assert_eq!(b.version(), Ba2Version::V2);
            assert_eq!(b.compression(), Ba2CompressionFormat::Lz4);
            assert_eq!(b.format(), Ba2Format::DX10);
            assert!(b.strings());
            assert!(b.is_empty());
        }
        PackBuilder::Bsa(_) => panic!("a BSA builder for Starfield"),
    }
    match builder_for(GameVersion::Fallout4NGv8, "MyMod - Main.ba2").unwrap() {
        PackBuilder::Ba2(b) => {
            assert_eq!(b.version(), Ba2Version::V8);
            assert_eq!(b.compression(), Ba2CompressionFormat::Zlib);
            assert_eq!(b.format(), Ba2Format::General);
        }
        PackBuilder::Bsa(_) => panic!("a BSA builder for Fallout 4"),
    }
    match builder_for(GameVersion::Oblivion, "textures.bsa").unwrap() {
        PackBuilder::Bsa(b) => {
            assert_eq!(b.version(), BsaVersion::V103);
            assert_eq!(b.flags().bits, 59);
            assert_eq!(b.types().bits, 0);
        }
        PackBuilder::Ba2(_) => panic!("a BA2 builder for Oblivion"),
    }
    match builder_for(GameVersion::SkyrimSE, "x.bsa").unwrap() {
        PackBuilder::Bsa(b) => {
            assert_eq!(b.version(), BsaVersion::V105);
            assert_eq!(b.flags().bits, 63);
        }
        PackBuilder::Ba2(_) => panic!("a BA2 builder for Skyrim"),
    }
}
