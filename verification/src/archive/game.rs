//! The table of supported games: which layout, binary version and compression each one
//! writes.

use vstd::prelude::*;
use crate::text::{lowercase, str_eq};

verus! {

/// The binary version of a TES4 archive.
#[derive(Debug, Clone, Copy, PartialEq, Eq, Structural)]
pub enum BsaVersion {
    /// Oblivion.
    V103,
    /// Fallout 3, Fallout: New Vegas, Skyrim LE.
    V104,
    /// Skyrim SE.
    V105,
}

/// The binary version of a BA2 archive.
#[derive(Debug, Clone, Copy, PartialEq, Eq, Structural)]
pub enum Ba2Version {
    /// Fallout 4 before the next-gen update, Fallout 76.
    V1,
    /// Starfield.
    V2,
    /// Starfield.
    V3,
    /// Fallout 4 next-gen update.
    V7,
    /// Fallout 4 next-gen update.
    V8,
}

impl Default for Ba2Version {
    fn default() -> (v: Ba2Version)
        ensures
            v == Ba2Version::V7,
    {
        Ba2Version::V7
    }
}

/// How the payloads of a BA2 archive are compressed.
#[derive(Debug, Clone, Copy, PartialEq, Eq, Structural)]
pub enum Ba2CompressionFormat {
    /// Stored as they are.
    Uncompressed,
    /// zlib (Fallout 4, Fallout 76).
    Zlib,
    /// LZ4 (Starfield).
    Lz4,
}

impl Default for Ba2CompressionFormat {
    fn default() -> (v: Ba2CompressionFormat)
        ensures
            v == Ba2CompressionFormat::Zlib,
    {
        Ba2CompressionFormat::Zlib
    }
}

/// The two kinds of BA2 archive.
#[derive(Debug, Clone, Copy, PartialEq, Eq, Structural)]
pub enum Ba2Format {
    /// Any kind of file (GNRL).
    General,
    /// DirectX textures only (DX10).
    DX10,
}

impl Default for Ba2Format {
    fn default() -> (v: Ba2Format)
        ensures
            v == Ba2Format::General,
    {
        Ba2Format::General
    }
}

/// A game whose archives can be written.
#[derive(Debug, Clone, Copy, PartialEq, Eq, Structural)]
pub enum GameVersion {
    /// TES3 BSA (Morrowind), never compressed.
    Morrowind,
    /// TES4 v103 (Oblivion), never compressed.
    Oblivion,
    /// TES4 v104 (Fallout 3), zlib.
    Fallout3,
    /// TES4 v104 (Fallout: New Vegas), zlib.
    FalloutNewVegas,
    /// TES4 v104 (Skyrim LE), zlib.
    SkyrimLE,
    /// TES4 v105 (Skyrim SE), zlib.
    SkyrimSE,
    /// BA2 v1 (Fallout 4 / Fallout 76), zlib.
    Fallout4Fo76,
    /// BA2 v7 (Fallout 4 Next Gen), zlib.
    Fallout4NGv7,
    /// BA2 v8 (Fallout 4 Next Gen), zlib.
    Fallout4NGv8,
    /// BA2 v2 (Starfield), LZ4.
    StarfieldV2,
    /// BA2 v3 (Starfield), LZ4.
    StarfieldV3,
}

impl Default for GameVersion {
    fn default() -> (v: GameVersion)
        ensures
            v == GameVersion::Fallout4Fo76,
    {
        GameVersion::Fallout4Fo76
    }
}

impl GameVersion {
    /// The name shown to a user.
    pub open spec fn spec_display_name(self) -> Seq<char> {
        match self {
            GameVersion::Morrowind => "Morrowind (BSA)"@,
            GameVersion::Oblivion => "Oblivion (BSA v103)"@,
            GameVersion::Fallout3 => "Fallout 3 (BSA v104)"@,
            GameVersion::FalloutNewVegas => "Fallout: New Vegas (BSA v104)"@,
            GameVersion::SkyrimLE => "Skyrim LE (BSA v104)"@,
            GameVersion::SkyrimSE => "Skyrim SE (BSA v105)"@,
            GameVersion::Fallout4Fo76 => "Fallout 4 / Fallout 76 (BA2 v1)"@,
            GameVersion::Fallout4NGv7 => "Fallout 4 Next Gen (BA2 v7)"@,
            GameVersion::Fallout4NGv8 => "Fallout 4 Next Gen (BA2 v8)"@,
            GameVersion::StarfieldV2 => "Starfield (BA2 v2)"@,
            GameVersion::StarfieldV3 => "Starfield (BA2 v3)"@,
        }
    }

    /// The name shown to a user.
    pub fn display_name(&self) -> (s: &'static str)
        ensures
            s@ == self.spec_display_name(),
    {
        match self {
            GameVersion::Morrowind => "Morrowind (BSA)",
            GameVersion::Oblivion => "Oblivion (BSA v103)",
            GameVersion::Fallout3 => "Fallout 3 (BSA v104)",
            GameVersion::FalloutNewVegas => "Fallout: New Vegas (BSA v104)",
            GameVersion::SkyrimLE => "Skyrim LE (BSA v104)",
            GameVersion::SkyrimSE => "Skyrim SE (BSA v105)",
            GameVersion::Fallout4Fo76 => "Fallout 4 / Fallout 76 (BA2 v1)",
            GameVersion::Fallout4NGv7 => "Fallout 4 Next Gen (BA2 v7)",
            GameVersion::Fallout4NGv8 => "Fallout 4 Next Gen (BA2 v8)",
            GameVersion::StarfieldV2 => "Starfield (BA2 v2)",
            GameVersion::StarfieldV3 => "Starfield (BA2 v3)",
        }
    }

    /// Whether this game writes BA2 archives.
    pub open spec fn spec_is_ba2(self) -> bool {
        self is Fallout4Fo76 || self is Fallout4NGv7 || self is Fallout4NGv8 || self is StarfieldV2
            || self is StarfieldV3
    }

    /// Whether this game writes BA2 archives.
    pub fn is_ba2(&self) -> (b: bool)
        ensures
            b == self.spec_is_ba2(),
    {
        matches!(
            self,
            GameVersion::Fallout4Fo76 | GameVersion::Fallout4NGv7 | GameVersion::Fallout4NGv8
                | GameVersion::StarfieldV2 | GameVersion::StarfieldV3
        )
    }

    /// Whether this game writes TES3 archives.
    pub open spec fn spec_is_tes3(self) -> bool {
        self is Morrowind
    }

    /// Whether this game writes TES3 archives.
    pub fn is_tes3(&self) -> (b: bool)
        ensures
            b == self.spec_is_tes3(),
    {
        matches!(self, GameVersion::Morrowind)
    }

    /// Whether archives of this game may hold compressed payloads: all but the two oldest.
    pub open spec fn spec_supports_compression(self) -> bool {
        !(self is Morrowind || self is Oblivion)
    }

    /// Whether archives of this game may hold compressed payloads.
    pub fn supports_compression(&self) -> (b: bool)
        ensures
            b == self.spec_supports_compression(),
    {
        !matches!(self, GameVersion::Morrowind | GameVersion::Oblivion)
    }

    /// The TES4 binary version of this game, for the games that write TES4 archives.
    pub open spec fn spec_bsa_version(self) -> Option<BsaVersion> {
        match self {
            GameVersion::Oblivion => Some(BsaVersion::V103),
            GameVersion::Fallout3 | GameVersion::FalloutNewVegas | GameVersion::SkyrimLE => Some(
                BsaVersion::V104,
            ),
            GameVersion::SkyrimSE => Some(BsaVersion::V105),
            _ => None,
        }
    }

    /// The TES4 binary version of this game: `Some` exactly for the games that are neither
    /// TES3 nor BA2.
    pub fn bsa_version(&self) -> (v: Option<BsaVersion>)
        ensures
            v == self.spec_bsa_version(),
            v is Some <==> !self.spec_is_ba2() && !self.spec_is_tes3(),
    {
        match self {
            GameVersion::Oblivion => Some(BsaVersion::V103),
            GameVersion::Fallout3 | GameVersion::FalloutNewVegas | GameVersion::SkyrimLE => Some(
                BsaVersion::V104,
            ),
            GameVersion::SkyrimSE => Some(BsaVersion::V105),
            _ => None,
        }
    }

    /// The BA2 binary version of this game, for the games that write BA2 archives.
    pub open spec fn spec_ba2_version(self) -> Option<Ba2Version> {
        match self {
            GameVersion::Fallout4Fo76 => Some(Ba2Version::V1),
            GameVersion::Fallout4NGv7 => Some(Ba2Version::V7),
            GameVersion::Fallout4NGv8 => Some(Ba2Version::V8),
            GameVersion::StarfieldV2 => Some(Ba2Version::V2),
            GameVersion::StarfieldV3 => Some(Ba2Version::V3),
            _ => None,
        }
    }

    /// The BA2 binary version of this game: `Some` exactly for the BA2 games.
    pub fn ba2_version(&self) -> (v: Option<Ba2Version>)
        ensures
            v == self.spec_ba2_version(),
            v is Some <==> self.spec_is_ba2(),
    {
        match self {
            GameVersion::Fallout4Fo76 => Some(Ba2Version::V1),
            GameVersion::Fallout4NGv7 => Some(Ba2Version::V7),
            GameVersion::Fallout4NGv8 => Some(Ba2Version::V8),
            GameVersion::StarfieldV2 => Some(Ba2Version::V2),
            GameVersion::StarfieldV3 => Some(Ba2Version::V3),
            _ => None,
        }
    }

    /// The compression that BA2 archives of this game use by default: LZ4 for Starfield,
    /// zlib for every other game.
    pub open spec fn spec_ba2_compression(self) -> Ba2CompressionFormat {
        if self is StarfieldV2 || self is StarfieldV3 {
            Ba2CompressionFormat::Lz4
        } else {
            Ba2CompressionFormat::Zlib
        }
    }

    /// The compression that BA2 archives of this game use by default.
    pub fn ba2_compression(&self) -> (c: Ba2CompressionFormat)
        ensures
            c == self.spec_ba2_compression(),
    {
        match self {
            GameVersion::StarfieldV2 | GameVersion::StarfieldV3 => Ba2CompressionFormat::Lz4,
            _ => Ba2CompressionFormat::Zlib,
        }
    }

    /// The table's rows, in the order in which they are offered for choice.
    pub open spec fn spec_all() -> Seq<GameVersion> {
        seq![
            GameVersion::Morrowind,
            GameVersion::Oblivion,
            GameVersion::Fallout3,
            GameVersion::FalloutNewVegas,
            GameVersion::SkyrimLE,
            GameVersion::SkyrimSE,
            GameVersion::Fallout4Fo76,
            GameVersion::Fallout4NGv7,
            GameVersion::Fallout4NGv8,
            GameVersion::StarfieldV2,
            GameVersion::StarfieldV3,
        ]
    }

    /// Every game of the table, in table order: the game at position `i` has index `i`.
    pub fn all() -> (v: Vec<GameVersion>)
        ensures
            v@ == Self::spec_all(),
            v@.len() == 11,
            forall|i: int| 0 <= i < 11 ==> (#[trigger] v@[i]).spec_index() == i,
    {
        let v = vec![
            GameVersion::Morrowind,
            GameVersion::Oblivion,
            GameVersion::Fallout3,
            GameVersion::FalloutNewVegas,
            GameVersion::SkyrimLE,
            GameVersion::SkyrimSE,
            GameVersion::Fallout4Fo76,
            GameVersion::Fallout4NGv7,
            GameVersion::Fallout4NGv8,
            GameVersion::StarfieldV2,
            GameVersion::StarfieldV3,
        ];
        assert(v@ =~= Self::spec_all());
        v
    }

    /// The position of this game in the table.
    pub open spec fn spec_index(self) -> int {
        match self {
            GameVersion::Morrowind => 0,
            GameVersion::Oblivion => 1,
            GameVersion::Fallout3 => 2,
            GameVersion::FalloutNewVegas => 3,
            GameVersion::SkyrimLE => 4,
            GameVersion::SkyrimSE => 5,
            GameVersion::Fallout4Fo76 => 6,
            GameVersion::Fallout4NGv7 => 7,
            GameVersion::Fallout4NGv8 => 8,
            GameVersion::StarfieldV2 => 9,
            GameVersion::StarfieldV3 => 10,
        }
    }

    /// The game at position `index`; any position outside the table stands for the
    /// default game.
    pub open spec fn spec_from_index(index: int) -> GameVersion {
        if index == 0 {
            GameVersion::Morrowind
        } else if index == 1 {
            GameVersion::Oblivion
        } else if index == 2 {
            GameVersion::Fallout3
        } else if index == 3 {
            GameVersion::FalloutNewVegas
        } else if index == 4 {
            GameVersion::SkyrimLE
        } else if index == 5 {
            GameVersion::SkyrimSE
        } else if index == 6 {
            GameVersion::Fallout4Fo76
        } else if index == 7 {
            GameVersion::Fallout4NGv7
        } else if index == 8 {
            GameVersion::Fallout4NGv8
        } else if index == 9 {
            GameVersion::StarfieldV2
        } else if index == 10 {
            GameVersion::StarfieldV3
        } else {
            GameVersion::Fallout4Fo76
        }
    }

    /// The game at position `index` of the table. A position outside `0..=10` gives the
    /// default game, Fallout 4 / Fallout 76.
    pub fn from_index(index: i32) -> (v: GameVersion)
        ensures
            v == Self::spec_from_index(index as int),
            0 <= index <= 10 ==> v.spec_index() == index,
            !(0 <= index <= 10) ==> v == GameVersion::Fallout4Fo76,
    {
        match index {
            0 => GameVersion::Morrowind,
            1 => GameVersion::Oblivion,
            2 => GameVersion::Fallout3,
            3 => GameVersion::FalloutNewVegas,
            4 => GameVersion::SkyrimLE,
            5 => GameVersion::SkyrimSE,
            6 => GameVersion::Fallout4Fo76,
            7 => GameVersion::Fallout4NGv7,
            8 => GameVersion::Fallout4NGv8,
            9 => GameVersion::StarfieldV2,
            10 => GameVersion::StarfieldV3,
            _ => GameVersion::Fallout4Fo76,
        }
    }

    /// The position of this game in the table; `from_index` leads back from it.
    pub fn index(self) -> (i: i32)
        ensures
            i == self.spec_index(),
            0 <= i <= 10,
            Self::spec_from_index(i as int) == self,
    {
        match self {
            GameVersion::Morrowind => 0,
            GameVersion::Oblivion => 1,
            GameVersion::Fallout3 => 2,
            GameVersion::FalloutNewVegas => 3,
            GameVersion::SkyrimLE => 4,
            GameVersion::SkyrimSE => 5,
            GameVersion::Fallout4Fo76 => 6,
            GameVersion::Fallout4NGv7 => 7,
            GameVersion::Fallout4NGv8 => 8,
            GameVersion::StarfieldV2 => 9,
            GameVersion::StarfieldV3 => 10,
        }
    }

    /// The short name by which a game is chosen on a command line.
    pub open spec fn spec_cli_name(self) -> Seq<char> {
        match self {
            GameVersion::Morrowind => "morrowind"@,
            GameVersion::Oblivion => "oblivion"@,
            GameVersion::Fallout3 => "fo3"@,
            GameVersion::FalloutNewVegas => "fonv"@,
            GameVersion::SkyrimLE => "skyrimle"@,
            GameVersion::SkyrimSE => "skyrimse"@,
            GameVersion::Fallout4Fo76 => "fo4-fo76"@,
            GameVersion::Fallout4NGv7 => "fo4ng-v7"@,
            GameVersion::Fallout4NGv8 => "fo4ng-v8"@,
            GameVersion::StarfieldV2 => "starfield-v2"@,
            GameVersion::StarfieldV3 => "starfield-v3"@,
        }
    }

    /// The short name by which a game is chosen on a command line.
    pub fn cli_name(&self) -> (s: &'static str)
        ensures
            s@ == self.spec_cli_name(),
    {
        match self {
            GameVersion::Morrowind => "morrowind",
            GameVersion::Oblivion => "oblivion",
            GameVersion::Fallout3 => "fo3",
            GameVersion::FalloutNewVegas => "fonv",
            GameVersion::SkyrimLE => "skyrimle",
            GameVersion::SkyrimSE => "skyrimse",
            GameVersion::Fallout4Fo76 => "fo4-fo76",
            GameVersion::Fallout4NGv7 => "fo4ng-v7",
            GameVersion::Fallout4NGv8 => "fo4ng-v8",
            GameVersion::StarfieldV2 => "starfield-v2",
            GameVersion::StarfieldV3 => "starfield-v3",
        }
    }

    /// The first game of the table, from position `from` on, whose short name is `lower`.
    pub open spec fn spec_find_cli_name(lower: Seq<char>, from: int) -> Option<GameVersion>
        decreases 11 - from,
    {
        if from < 0 || from >= 11 {
            None
        } else if Self::spec_all()[from].spec_cli_name() == lower {
            Some(Self::spec_all()[from])
        } else {
            Self::spec_find_cli_name(lower, from + 1)
        }
    }

    /// The game whose short name is `lower`, if there is one.
    pub open spec fn spec_from_cli_name(lower: Seq<char>) -> Option<GameVersion> {
        Self::spec_find_cli_name(lower, 0)
    }

    /// Finds a game by its short name, whatever the letter case of `name`: the result is
    /// the first game of the table whose short name equals the lower-cased `name`, and
    /// `None` when no short name does.
    pub fn from_cli_name(name: &str) -> (r: Option<GameVersion>)
        ensures
            r == Self::spec_from_cli_name(lowercase(name@)),
            r matches Some(v) ==> v.spec_cli_name() == lowercase(name@),
            r is None ==> forall|i: int|
                0 <= i < 11 ==> (#[trigger] Self::spec_all()[i]).spec_cli_name() != lowercase(
                    name@,
                ),
    {
        let lower = name.to_lowercase();
        let table = Self::all();
        let mut i: usize = 0;
        while i < table.len()
            invariant
                i <= 11,
                table@ == Self::spec_all(),
                lower@ == lowercase(name@),
                Self::spec_find_cli_name(lower@, 0) == Self::spec_find_cli_name(lower@, i as int),
                forall|j: int|
                    0 <= j < i ==> (#[trigger] Self::spec_all()[j]).spec_cli_name() != lower@,
            decreases 11 - i,
        {
            if str_eq(table[i].cli_name(), lower.as_str()) {
                return Some(table[i]);
            }
            i += 1;
        }
        None
    }
}

} // verus!
