//! An opened archive: its entries with their listed paths, how a requested path finds an
//! entry, and how an entry's content is decoded.

use vstd::prelude::*;
use crate::archive::codec::{
    fo4_file_content, fo4_open, fo4_parsed, fo4_read_file, tes3_file_bytes, tes3_open,
    tes3_parsed, tes3_read_file, tes4_file_content, tes4_open, tes4_parsed, tes4_read_file,
};
use crate::archive::error::ArchiveError;
use crate::archive::format::ArchiveFormat;
use crate::archive::game::BsaVersion;
use crate::archive::layout::{tes4_sound, tes4_tables_sound};
use crate::text::{
    ascii_lower, ascii_lower_char, chars_of, decode_utf8_lossy, eq_ignore_ascii_case, lowercase, replace_char,
    replace_separator, str_eq, utf8_lossy,
};

verus! {

/// The files of an opened archive as the codec hands them out, each with its stored name,
/// and what is needed to decode them.
pub enum ArchiveFiles<'a> {
    /// TES3 files; TES3 archives store their files as they are.
    Tes3(Vec<(Vec<u8>, ba2::tes3::File<'a>)>),
    /// The binary version of a TES4 archive and its files, each with the name of its
    /// directory and its own name.
    Tes4(BsaVersion, Vec<(Vec<u8>, Vec<u8>, ba2::tes4::File<'a>)>),
    /// Whether a BA2 archive compresses with LZ4, and its files.
    Fo4(bool, Vec<(Vec<u8>, ba2::fo4::File<'a>)>),
}

impl<'a> ArchiveFiles<'a> {
    /// The number of files.
    pub open spec fn count(self) -> nat {
        match self {
            ArchiveFiles::Tes3(v) => v@.len(),
            ArchiveFiles::Tes4(_, v) => v@.len(),
            ArchiveFiles::Fo4(_, v) => v@.len(),
        }
    }

    /// The path under which file `i` is listed.
    pub open spec fn listed_path(self, i: int) -> Seq<char> {
        match self {
            ArchiveFiles::Tes3(v) => utf8_lossy(v@[i].0@),
            ArchiveFiles::Tes4(_, v) => tes4_listed_path(
                utf8_lossy(v@[i].0@),
                utf8_lossy(v@[i].1@),
            ),
            ArchiveFiles::Fo4(_, v) => utf8_lossy(v@[i].0@),
        }
    }

    /// The decoded content of file `i`, or `None` where the codec cannot decode it.
    pub open spec fn content(self, i: int) -> Option<Seq<u8>> {
        match self {
            ArchiveFiles::Tes3(v) => Some(tes3_file_bytes(v@[i].1)),
            ArchiveFiles::Tes4(version, v) => tes4_file_content(v@[i].2, version),
            ArchiveFiles::Fo4(lz4, v) => fo4_file_content(v@[i].1, lz4),
        }
    }
}

/// An opened archive: the listed path of every entry, in the archive's own order, and the
/// codec's handles on the stored files.
pub struct OpenArchive<'a> {
    /// The path under which each entry is listed, in the layout's own convention.
    pub paths: Vec<String>,
    /// The stored files, in the same order.
    pub files: ArchiveFiles<'a>,
}

impl<'a> OpenArchive<'a> {
    /// The paths belong to the files: there is one per file, and it is the file's listed
    /// path.
    pub open spec fn wf(self) -> bool {
        &&& self.paths@.len() == self.files.count()
        &&& forall|i: int|
            0 <= i < self.paths@.len() ==> (#[trigger] self.paths@[i])@ == self.files.listed_path(i)
    }

    /// The archive as plain values: listed path and decoded content of each entry.
    pub open spec fn model(self) -> Seq<(Seq<char>, Option<Seq<u8>>)> {
        Seq::new(self.paths@.len(), |i: int| (self.paths@[i]@, self.files.content(i)))
    }

    /// The number of entries.
    pub fn len(&self) -> (n: usize)
        ensures
            n == self.paths@.len(),
    {
        self.paths.len()
    }

    /// Decodes the content of entry `i`. A content that the codec cannot decode is a
    /// `FormatError` naming the entry.
    pub fn decode(&self, i: usize) -> (r: Result<Vec<u8>, ArchiveError>)
        requires
            self.wf(),
            i < self.paths@.len(),
        ensures
            match r {
                Ok(data) => self.files.content(i as int) == Some(data@),
                Err(e) => self.files.content(i as int) is None && e is FormatError
                    && e->FormatError_file@ == self.paths@[i as int]@,
            },
    {
        match &self.files {
            ArchiveFiles::Tes3(v) => Ok(tes3_read_file(&v[i].1)),
            ArchiveFiles::Tes4(version, v) => match tes4_read_file(&v[i].2, *version) {
                Ok(data) => Ok(data),
                Err(_) => Err(ArchiveError::malformed_entry(self.paths[i].as_str())),
            },
            ArchiveFiles::Fo4(lz4, v) => match fo4_read_file(&v[i].1, *lz4) {
                Ok(data) => Ok(data),
                Err(_) => Err(ArchiveError::malformed_entry(self.paths[i].as_str())),
            },
        }
    }
}

/// The path under which a TES4 entry is listed: the file name alone where the directory
/// name is empty or a single dot, else directory, backslash, file name.
pub open spec fn tes4_listed_path(dir: Seq<char>, file: Seq<char>) -> Seq<char> {
    if dir.len() == 0 || dir == seq!['.'] {
        file
    } else {
        dir + seq!['\\'] + file
    }
}

/// What is read of a TES4 archive: what the codec reads from bytes whose tables are
/// sound, and nothing from any others.
pub open spec fn tes4_read(bytes: Seq<u8>) -> Option<
    (BsaVersion, Seq<(Seq<u8>, Seq<u8>, Option<Seq<u8>>)>),
> {
    if tes4_sound(bytes) {
        tes4_parsed(bytes)
    } else {
        None
    }
}

/// The entries that an archive of the given layout holds, in the archive's own order:
/// listed path and decoded content of each. `None` where the codec rejects the bytes, or
/// the tables of a TES4 archive are not sound.
/// Names are decoded from bytes to text leniently.
pub open spec fn archive_model(format: ArchiveFormat, bytes: Seq<u8>) -> Option<
    Seq<(Seq<char>, Option<Seq<u8>>)>,
> {
    match format {
        ArchiveFormat::Tes3Bsa => match tes3_parsed(bytes) {
            Some(es) => Some(Seq::new(es.len(), |i: int| (utf8_lossy(es[i].0), Some(es[i].1)))),
            None => None,
        },
        ArchiveFormat::Bsa => match tes4_read(bytes) {
            Some((_, es)) => Some(
                Seq::new(
                    es.len(),
                    |i: int|
                        (tes4_listed_path(utf8_lossy(es[i].0), utf8_lossy(es[i].1)), es[i].2),
                ),
            ),
            None => None,
        },
        ArchiveFormat::Ba2 => match fo4_parsed(bytes) {
            Some((_, es)) => Some(Seq::new(es.len(), |i: int| (utf8_lossy(es[i].0), es[i].1))),
            None => None,
        },
    }
}

/// The listed paths of an archive model.
pub open spec fn model_paths(m: Seq<(Seq<char>, Option<Seq<u8>>)>) -> Seq<Seq<char>> {
    Seq::new(m.len(), |i: int| m[i].0)
}

/// Joins a TES4 directory name and file name into the listed path.
pub fn join_tes4_path(dir: &str, file: &str) -> (r: String)
    ensures
        r@ == tes4_listed_path(dir@, file@),
{
    let d = chars_of(dir);
    let f = chars_of(file);
    if d.len() == 0 || (d.len() == 1 && d[0] == '.') {
        assert(d.len() == 1 && d@[0] == '.' ==> d@ =~= seq!['.']);
        let mut r = String::new();
        let mut i: usize = 0;
        while i < f.len()
            invariant
                i <= f.len(),
                r@ == f@.take(i as int),
            decreases f.len() - i,
        {
            r.push(f[i]);
            i += 1;
            assert(r@ =~= f@.take(i as int));
        }
        assert(f@.take(f.len() as int) =~= f@);
        r
    } else {
        assert(d@ != seq!['.']) by {
            if d@ == seq!['.'] {
                assert(d@.len() == 1);
                assert(d@[0] == seq!['.'][0]);
            }
        }
        let mut r = String::new();
        let mut i: usize = 0;
        while i < d.len()
            invariant
                i <= d.len(),
                r@ == d@.take(i as int),
            decreases d.len() - i,
        {
            r.push(d[i]);
            i += 1;
            assert(r@ =~= d@.take(i as int));
        }
        assert(d@.take(d.len() as int) =~= d@);
        r.push('\\');
        let mut j: usize = 0;
        while j < f.len()
            invariant
                j <= f.len(),
                r@ == d@ + seq!['\\'] + f@.take(j as int),
            decreases f.len() - j,
        {
            r.push(f[j]);
            j += 1;
            assert(r@ =~= d@ + seq!['\\'] + f@.take(j as int));
        }
        assert(f@.take(f.len() as int) =~= f@);
        r
    }
}

/// Opens the bytes of an archive of the given layout and lists its entries. The codec
/// decides whether the bytes are an archive; where it rejects them the error is a
/// `FormatError` that names no entry. The tables of a TES4 archive are walked first, and
/// bytes whose tables are not sound are rejected in the same way without being handed to
/// the codec.
pub fn open_archive<'a>(format: ArchiveFormat, bytes: &'a [u8]) -> (r: Result<
    OpenArchive<'a>,
    ArchiveError,
>)
    ensures
        match r {
            Ok(a) => a.wf() && archive_model(format, bytes@) == Some(a.model()),
            Err(e) => archive_model(format, bytes@) is None && e is FormatError
                && e->FormatError_file@.len() == 0,
        },
{
    let mut paths: Vec<String> = Vec::new();
    match format {
        ArchiveFormat::Tes3Bsa => {
            let raw = match tes3_open(bytes) {
                Ok(raw) => raw,
                Err(_) => {
                    return Err(ArchiveError::malformed_container());
                },
            };
            let mut i: usize = 0;
            while i < raw.len()
                invariant
                    i <= raw.len(),
                    paths.len() == i,
                    forall|j: int| 0 <= j < i ==> (#[trigger] paths@[j])@ == utf8_lossy(raw@[j].0@),
                decreases raw.len() - i,
            {
                paths.push(decode_utf8_lossy(raw[i].0.as_slice()));
                i += 1;
            }
            let a = OpenArchive { paths, files: ArchiveFiles::Tes3(raw) };
            assert(a.model() =~= archive_model(format, bytes@)->0);
            Ok(a)
        },
        ArchiveFormat::Bsa => {
            if !tes4_tables_sound(bytes) {
                return Err(ArchiveError::malformed_container());
            }
            let (version, raw) = match tes4_open(bytes) {
                Ok(opened) => opened,
                Err(_) => {
                    return Err(ArchiveError::malformed_container());
                },
            };
            let mut i: usize = 0;
            while i < raw.len()
                invariant
                    i <= raw.len(),
                    paths.len() == i,
                    forall|j: int|
                        0 <= j < i ==> (#[trigger] paths@[j])@ == tes4_listed_path(
                            utf8_lossy(raw@[j].0@),
                            utf8_lossy(raw@[j].1@),
                        ),
                decreases raw.len() - i,
            {
                let dir = decode_utf8_lossy(raw[i].0.as_slice());
                let file = decode_utf8_lossy(raw[i].1.as_slice());
                paths.push(join_tes4_path(dir.as_str(), file.as_str()));
                i += 1;
            }
            let a = OpenArchive { paths, files: ArchiveFiles::Tes4(version, raw) };
            assert(a.model() =~= archive_model(format, bytes@)->0);
            Ok(a)
        },
        ArchiveFormat::Ba2 => {
            let (lz4, raw) = match fo4_open(bytes) {
                Ok(opened) => opened,
                Err(_) => {
                    return Err(ArchiveError::malformed_container());
                },
            };
            let mut i: usize = 0;
            while i < raw.len()
                invariant
                    i <= raw.len(),
                    paths.len() == i,
                    forall|j: int| 0 <= j < i ==> (#[trigger] paths@[j])@ == utf8_lossy(raw@[j].0@),
                decreases raw.len() - i,
            {
                paths.push(decode_utf8_lossy(raw[i].0.as_slice()));
                i += 1;
            }
            let a = OpenArchive { paths, files: ArchiveFiles::Fo4(lz4, raw) };
            assert(a.model() =~= archive_model(format, bytes@)->0);
            Ok(a)
        },
    }
}

/// The TES4 version that is read from the bytes of an archive, if its tables are sound and
/// the codec accepts it.
pub fn tes4_version_of(bytes: &[u8]) -> (r: Option<BsaVersion>)
    ensures
        match r {
            Some(v) => tes4_read(bytes@) is Some && (tes4_read(bytes@)->0).0 == v,
            None => tes4_read(bytes@) is None,
        },
{
    if !tes4_tables_sound(bytes) {
        return None;
    }
    match tes4_open(bytes) {
        Ok((version, _)) => Some(version),
        Err(_) => None,
    }
}

/// Whether a requested path names an entry listed under `listed`.
///
/// TES3 and TES4 compare the listed path with the request written with backslashes,
/// ASCII letter case aside. BA2 lower-cases both and accepts the request under either
/// separator convention.
pub open spec fn path_matches(format: ArchiveFormat, listed: Seq<char>, requested: Seq<char>) -> bool {
    match format {
        ArchiveFormat::Tes3Bsa | ArchiveFormat::Bsa => ascii_lower(listed) == ascii_lower(
            replace_char(requested, '/', '\\'),
        ),
        ArchiveFormat::Ba2 => {
            let current = lowercase(listed);
            let forward = lowercase(replace_char(requested, '\\', '/'));
            let backward = lowercase(replace_char(requested, '/', '\\'));
            current == forward || current == backward || replace_char(current, '\\', '/')
                == forward || replace_char(current, '/', '\\') == backward
        },
    }
}

/// A request names the same entries whichever separators it is written with.
pub proof fn lemma_separators_do_not_matter(
    format: ArchiveFormat,
    listed: Seq<char>,
    requested: Seq<char>,
)
    ensures
        path_matches(format, listed, replace_char(requested, '/', '\\')) == path_matches(
            format,
            listed,
            requested,
        ),
        path_matches(format, listed, replace_char(requested, '\\', '/')) == path_matches(
            format,
            listed,
            requested,
        ),
{
    let back = replace_char(requested, '/', '\\');
    let forth = replace_char(requested, '\\', '/');
    assert(replace_char(back, '/', '\\') =~= back);
    assert(replace_char(back, '\\', '/') =~= forth);
    assert(replace_char(forth, '/', '\\') =~= back);
    assert(replace_char(forth, '\\', '/') =~= forth);
}

/// In a TES3 or TES4 archive a request names the same entries whatever the case of its
/// ASCII letters.
pub proof fn lemma_ascii_case_does_not_matter(
    format: ArchiveFormat,
    listed: Seq<char>,
    requested: Seq<char>,
    other: Seq<char>,
)
    requires
        format != ArchiveFormat::Ba2,
        ascii_lower(requested) == ascii_lower(other),
    ensures
        path_matches(format, listed, requested) == path_matches(format, listed, other),
{
    let a = replace_char(requested, '/', '\\');
    let b = replace_char(other, '/', '\\');
    assert(ascii_lower(requested).len() == requested.len());
    assert(ascii_lower(other).len() == other.len());
    assert(requested.len() == other.len());
    assert forall|i: int| 0 <= i < a.len() implies ascii_lower(a)[i] == ascii_lower(b)[i] by {
        assert(ascii_lower(requested)[i] == ascii_lower_char(requested[i]));
        assert(ascii_lower(other)[i] == ascii_lower_char(other[i]));
        crate::text::lemma_ascii_lower_keeps_separators(requested[i], other[i]);
        assert(ascii_lower(a)[i] == ascii_lower_char(a[i]));
        assert(ascii_lower(b)[i] == ascii_lower_char(b[i]));
    }
    assert(ascii_lower(a) =~= ascii_lower(b));
}

/// The first position at or after `from` whose path the request names.
pub open spec fn first_match(
    format: ArchiveFormat,
    paths: Seq<Seq<char>>,
    requested: Seq<char>,
    from: int,
) -> Option<int>
    decreases paths.len() - from,
{
    if from < 0 || from >= paths.len() {
        None
    } else if path_matches(format, paths[from], requested) {
        Some(from)
    } else {
        first_match(format, paths, requested, from + 1)
    }
}

/// `first_match` finds a matching position before which nothing matches, or finds nothing
/// where nothing matches.
pub proof fn lemma_first_match(
    format: ArchiveFormat,
    paths: Seq<Seq<char>>,
    requested: Seq<char>,
    from: int,
)
    requires
        0 <= from,
    ensures
        match first_match(format, paths, requested, from) {
            Some(i) => from <= i < paths.len() && path_matches(format, paths[i], requested)
                && forall|j: int| from <= j < i ==> !path_matches(format, paths[j], requested),
            None => forall|j: int|
                from <= j < paths.len() ==> !path_matches(format, paths[j], requested),
        },
    decreases paths.len() - from,
{
    if from < paths.len() && !path_matches(format, paths[from], requested) {
        lemma_first_match(format, paths, requested, from + 1);
    }
}

/// The position of the first listed path that the request names.
pub fn find_entry(format: ArchiveFormat, paths: &Vec<String>, requested: &str) -> (r: Option<usize>)
    ensures
        match r {
            Some(i) => first_match(
                format,
                Seq::new(paths@.len(), |k: int| paths@[k]@),
                requested@,
                0,
            ) == Some(i as int),
            None => first_match(
                format,
                Seq::new(paths@.len(), |k: int| paths@[k]@),
                requested@,
                0,
            ) is None,
        },
{
    let ghost views = Seq::new(paths@.len(), |k: int| paths@[k]@);
    let backward = replace_separator(requested, '/', '\\');
    let forward = replace_separator(requested, '\\', '/');
    let backward_lower = backward.as_str().to_lowercase();
    let forward_lower = forward.as_str().to_lowercase();
    let mut i: usize = 0;
    while i < paths.len()
        invariant
            i <= paths.len(),
            views == Seq::new(paths@.len(), |k: int| paths@[k]@),
            backward@ == replace_char(requested@, '/', '\\'),
            forward@ == replace_char(requested@, '\\', '/'),
            backward_lower@ == lowercase(backward@),
            forward_lower@ == lowercase(forward@),
            first_match(format, views, requested@, 0) == first_match(
                format,
                views,
                requested@,
                i as int,
            ),
        decreases paths.len() - i,
    {
        let listed = paths[i].as_str();
        assert(views[i as int] == listed@);
        let hit = match format {
            ArchiveFormat::Tes3Bsa | ArchiveFormat::Bsa => eq_ignore_ascii_case(
                listed,
                backward.as_str(),
            ),
            ArchiveFormat::Ba2 => {
                let current = listed.to_lowercase();
                if str_eq(current.as_str(), forward_lower.as_str()) || str_eq(
                    current.as_str(),
                    backward_lower.as_str(),
                ) {
                    true
                } else {
                    let current_forward = replace_separator(current.as_str(), '\\', '/');
                    let current_backward = replace_separator(current.as_str(), '/', '\\');
                    str_eq(current_forward.as_str(), forward_lower.as_str()) || str_eq(
                        current_backward.as_str(),
                        backward_lower.as_str(),
                    )
                }
            },
        };
        assert(hit == path_matches(format, views[i as int], requested@));
        if hit {
            return Some(i);
        }
        i += 1;
    }
    None
}

} // verus!
