//! The three container layouts and the path convention each one keeps.

use vstd::prelude::*;
use crate::text::{
    ascii_lower, chars_of, find_last, last_index_of, lemma_last_index_of, lowercase,
    replace_char, replace_separator, chars_eq_ignore_ascii_case,
};

verus! {

/// The three container layouts an archive file can have.
#[derive(Debug, Clone, Copy, PartialEq, Eq, Structural)]
pub enum ArchiveFormat {
    /// TES3 BSA (Morrowind).
    Tes3Bsa,
    /// TES4 BSA (Oblivion, Fallout 3, Fallout: New Vegas, Skyrim).
    Bsa,
    /// BA2 (Fallout 4, Fallout 76, Starfield).
    Ba2,
}

impl ArchiveFormat {
    /// The character that separates the components of a path in this layout.
    pub open spec fn spec_separator(self) -> char {
        match self {
            ArchiveFormat::Tes3Bsa | ArchiveFormat::Bsa => '\\',
            ArchiveFormat::Ba2 => '/',
        }
    }

    /// The separator of the other convention, which this layout turns into its own.
    pub open spec fn spec_foreign_separator(self) -> char {
        match self {
            ArchiveFormat::Tes3Bsa | ArchiveFormat::Bsa => '/',
            ArchiveFormat::Ba2 => '\\',
        }
    }

    /// The character that separates the components of a path in this layout.
    pub fn separator(&self) -> (c: char)
        ensures
            c == self.spec_separator(),
    {
        match self {
            ArchiveFormat::Tes3Bsa | ArchiveFormat::Bsa => '\\',
            ArchiveFormat::Ba2 => '/',
        }
    }

    /// The separator of the other convention.
    pub fn foreign_separator(&self) -> (c: char)
        ensures
            c == self.spec_foreign_separator(),
    {
        match self {
            ArchiveFormat::Tes3Bsa | ArchiveFormat::Bsa => '/',
            ArchiveFormat::Ba2 => '\\',
        }
    }

    /// `path` written with this layout's separator.
    pub open spec fn spec_native_path(self, path: Seq<char>) -> Seq<char> {
        replace_char(path, self.spec_foreign_separator(), self.spec_separator())
    }

    /// `path` written with this layout's separator.
    pub fn native_path(&self, path: &str) -> (r: String)
        ensures
            r@ == self.spec_native_path(path@),
    {
        replace_separator(path, self.foreign_separator(), self.separator())
    }

    /// The key under which a path is looked up in this layout: its separators are those
    /// of the layout and its letters are lower case. Two paths name the same entry when
    /// their keys are equal.
    pub open spec fn spec_canonical_key(self, path: Seq<char>) -> Seq<char> {
        lowercase(self.spec_native_path(path))
    }

    /// The lookup key of `path` in this layout.
    pub fn canonical_key(&self, path: &str) -> (r: String)
        ensures
            r@ == self.spec_canonical_key(path@),
    {
        let native = self.native_path(path);
        native.as_str().to_lowercase()
    }
}

/// The layout that the first four bytes of a file announce, if they announce one:
/// `00 01 00 00` is TES3, `BSA\0` is TES4 and `BTDX` is BA2.
pub open spec fn signature_format(header: Seq<u8>) -> Option<ArchiveFormat> {
    if header.len() < 4 {
        None
    } else if header[0] == 0x00 && header[1] == 0x01 && header[2] == 0x00 && header[3] == 0x00 {
        Some(ArchiveFormat::Tes3Bsa)
    } else if header[0] == 0x42 && header[1] == 0x53 && header[2] == 0x41 && header[3] == 0x00 {
        Some(ArchiveFormat::Bsa)
    } else if header[0] == 0x42 && header[1] == 0x54 && header[2] == 0x44 && header[3] == 0x58 {
        Some(ArchiveFormat::Ba2)
    } else {
        None
    }
}

/// The extension of a file name: what follows its last dot, provided that the dot is not
/// the name's first character. A name without such a dot has no extension.
pub open spec fn extension_of(file_name: Seq<char>) -> Option<Seq<char>> {
    let dot = last_index_of(file_name, '.');
    if dot <= 0 {
        None
    } else {
        Some(file_name.subrange(dot + 1, file_name.len() as int))
    }
}

/// The layout that a file extension stands for, letter case aside: `bsa` is taken for
/// TES4 and `ba2` for BA2.
pub open spec fn extension_format(file_name: Seq<char>) -> Option<ArchiveFormat> {
    match extension_of(file_name) {
        Some(ext) => if ascii_lower(ext) == seq!['b', 's', 'a'] {
            Some(ArchiveFormat::Bsa)
        } else if ascii_lower(ext) == seq!['b', 'a', '2'] {
            Some(ArchiveFormat::Ba2)
        } else {
            None
        },
        None => None,
    }
}

/// The layout of a file: what its signature announces, and only where the signature
/// announces nothing, what its extension stands for.
pub open spec fn detected_format(header: Seq<u8>, file_name: Seq<char>) -> Option<ArchiveFormat> {
    match signature_format(header) {
        Some(f) => Some(f),
        None => extension_format(file_name),
    }
}

/// The layout that the extension of `file_name` stands for.
pub fn format_by_extension(file_name: &str) -> (r: Option<ArchiveFormat>)
    ensures
        r == extension_format(file_name@),
{
    let name = chars_of(file_name);
    let dot = find_last(&name, '.');
    proof {
        lemma_last_index_of(name@, '.');
    }
    match dot {
        None => None,
        Some(d) => {
            assert(last_index_of(name@, '.') == d as int);
            assert(d < name.len());
            if d == 0 {
                return None;
            }
            let mut ext: Vec<char> = Vec::new();
            let mut i: usize = d + 1;
            while i < name.len()
                invariant
                    d + 1 <= i <= name.len(),
                    ext@ == name@.subrange(d + 1, i as int),
                decreases name.len() - i,
            {
                ext.push(name[i]);
                i += 1;
                assert(ext@ =~= name@.subrange(d + 1, i as int));
            }
            let bsa: Vec<char> = vec!['b', 's', 'a'];
            let ba2: Vec<char> = vec!['b', 'a', '2'];
            assert(ascii_lower(bsa@) =~= seq!['b', 's', 'a']);
            assert(ascii_lower(ba2@) =~= seq!['b', 'a', '2']);
            if chars_eq_ignore_ascii_case(&ext, &bsa) {
                Some(ArchiveFormat::Bsa)
            } else if chars_eq_ignore_ascii_case(&ext, &ba2) {
                Some(ArchiveFormat::Ba2)
            } else {
                None
            }
        },
    }
}

} // verus!
