//! Choosing the builder that packs for a game.

use vstd::prelude::*;
use vstd::string::StringSliceAdditionalSpecFns;
use crate::archive::ba2_writer::{ba2_format_for_output, format_for_output_name, Ba2Builder};
use crate::archive::error::ArchiveError;
use crate::archive::game::GameVersion;
use crate::archive::writer::{bsa_key, BsaBuilder, FLAG_COMPRESSED};
use crate::text::normalized_key;

verus! {

/// The builder for one of the layouts that can be written.
pub enum PackBuilder {
    /// A BA2 archive.
    Ba2(Ba2Builder),
    /// A TES4 BSA archive.
    Bsa(BsaBuilder),
}

impl PackBuilder {
    /// The builder's staging area is in order.
    pub open spec fn wf(self) -> bool {
        match self {
            PackBuilder::Ba2(b) => b.wf(),
            PackBuilder::Bsa(b) => b.wf(),
        }
    }

    /// The number of staged files.
    pub open spec fn staged_len(self) -> nat {
        match self {
            PackBuilder::Ba2(b) => b.staged_pairs().len(),
            PackBuilder::Bsa(b) => b.staged_pairs().len(),
        }
    }

    /// Stages a file; the last one staged under a key wins.
    pub fn add_file(&mut self, path: &str, data: Vec<u8>)
        ensures
            old(self).wf(),
            final(self).wf(),
            match (*old(self), *final(self)) {
                (PackBuilder::Ba2(a), PackBuilder::Ba2(b)) => {
                    &&& b.staged() == a.staged().insert(normalized_key(path.spec_bytes()), data@)
                    &&& b.spec_format() == a.spec_format()
                    &&& b.spec_compression() == a.spec_compression()
                    &&& b.spec_strings() == a.spec_strings()
                    &&& b.spec_version() == a.spec_version()
                },
                (PackBuilder::Bsa(a), PackBuilder::Bsa(b)) => {
                    &&& b.staged() == a.staged().insert(bsa_key(path.spec_bytes()), data@)
                    &&& b.spec_flags() == a.spec_flags()
                    &&& b.spec_types() == a.spec_types()
                    &&& b.spec_version() == a.spec_version()
                },
                _ => false,
            },
    {
        match self {
            PackBuilder::Ba2(b) => b.add_file(path, data),
            PackBuilder::Bsa(b) => b.add_file(path, data),
        }
    }

    /// The number of staged files.
    pub fn file_count(&self) -> (n: usize)
        ensures
            self.wf(),
            n == self.staged_len(),
    {
        match self {
            PackBuilder::Ba2(b) => b.file_count(),
            PackBuilder::Bsa(b) => b.file_count(),
        }
    }

    /// Builds the archive and returns its bytes; with nothing staged the error is
    /// `EmptyArchive`. See the builders for what is built.
    pub fn build_with_progress<F: Fn(usize, usize, &str) + Send + Sync>(self, progress: F) -> (r:
        Result<Vec<u8>, ArchiveError>)
        requires
            forall|current: usize, total: usize, name: &str|
                call_requires(progress, (current, total, name)),
        ensures
            match self {
                PackBuilder::Ba2(b) => b.built(r),
                PackBuilder::Bsa(b) => b.built(r),
            },
            self.staged_len() == 0 ==> r is Err && r->Err_0 is EmptyArchive,
    {
        match self {
            PackBuilder::Ba2(b) => b.build_with_progress(progress),
            PackBuilder::Bsa(b) => b.build_with_progress(progress),
        }
    }
}

/// The empty builder that packs for `game` into a file called `output_file_name`.
///
/// TES3 archives cannot be written: for Morrowind the error is `UnsupportedOperation`.
/// A BA2 game gets a BA2 builder with the game's version and compression, for textures
/// where the output name holds `textures` and general otherwise. Every other game gets a
/// BSA builder with the game's version, compressing where the game supports it.
pub fn builder_for(game: GameVersion, output_file_name: &str) -> (r: Result<
    PackBuilder,
    ArchiveError,
>)
    ensures
        game.spec_is_tes3() ==> r is Err && r->Err_0 is UnsupportedOperation,
        game.spec_is_ba2() ==> r is Ok && r->Ok_0 is Ba2 && {
            let b = r->Ok_0->Ba2_0;
            &&& b.wf()
            &&& b.staged() == Map::<Seq<u8>, Seq<u8>>::empty()
            &&& Some(b.spec_version()) == game.spec_ba2_version()
            &&& b.spec_compression() == game.spec_ba2_compression()
            &&& b.spec_format() == format_for_output_name(output_file_name@)
            &&& b.spec_strings()
        },
        !game.spec_is_tes3() && !game.spec_is_ba2() ==> r is Ok && r->Ok_0 is Bsa && {
            let b = r->Ok_0->Bsa_0;
            &&& b.wf()
            &&& b.staged() == Map::<Seq<u8>, Seq<u8>>::empty()
            &&& Some(b.spec_version()) == game.spec_bsa_version()
            &&& b.spec_flags().bits == if game.spec_supports_compression() {
                63u32 | FLAG_COMPRESSED
            } else {
                63u32 & !FLAG_COMPRESSED
            }
            &&& b.spec_types().bits == 0
        },
{
    if game.is_tes3() {
        return Err(ArchiveError::UnsupportedOperation);
    }
    match game.ba2_version() {
        Some(version) => {
            let format = ba2_format_for_output(output_file_name);
            let builder = Ba2Builder::new().with_version(version).with_compression(
                game.ba2_compression(),
            ).with_format(format);
            Ok(PackBuilder::Ba2(builder))
        },
        None => match game.bsa_version() {
            Some(version) => {
                let builder = BsaBuilder::new().with_version(version).with_compression(
                    game.supports_compression(),
                );
                Ok(PackBuilder::Bsa(builder))
            },
            None => Err(ArchiveError::UnsupportedOperation),
        },
    }
}

} // verus!
