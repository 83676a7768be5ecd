//! The state of the selection view: what is loaded, the hierarchy over it, what is
//! selected, and what the search filter shows.

use std::sync::atomic::AtomicBool;
use std::sync::Arc;
use vstd::prelude::*;
use crate::archive::entries::{archive_model, model_paths};
use crate::archive::error::ArchiveError;
use crate::archive::flag::flag_set;
use crate::archive::format::detected_format;
use crate::archive::game::GameVersion;
use crate::archive::{detect_game_version, likely_game, list_archive_files, ArchiveFileEntry};
use crate::gui::hierarchy::{
    all_addressed, all_open_and_selected, build_tree, children_in_order,
    first_child_follows, folders_distinct, in_key_order, normalized_paths, rooted,
};
use crate::gui::order::{children_sorted, lemma_selection_keeps_order};
use crate::gui::search::{
    matches_filter, node_is_visible, path_matches_filter, subtree_matches,
    subtree_matches_pattern, visible, SearchPattern,
};
use crate::gui::tree::{
    count_files, count_selected_files, file_paths, in_subtree, is_ancestor, is_file_below,
    lemma_folder_tri_state, lemma_same_files, no_empty_folder, parents, same_but_expanded,
    same_place, same_selection, same_shape, selected_file_paths, selected_files,
    set_all_selected, toggle_expand_node, toggle_select_node, tree_wf, InternalNode,
};
use crate::text::{chars_of, replace_char, string_of};

verus! {

/// What is loaded and what the user has chosen of it.
///
/// The hierarchy changes through the methods of this type only, and they keep it a tree
/// whose selection is consistent.
pub struct AppState {
    archive_path: Option<String>,
    entries: Vec<ArchiveFileEntry>,
    tree: Vec<InternalNode>,
    search_filter: String,
    cancelled: Arc<AtomicBool>,
    game_version: Option<GameVersion>,
    pack_mode: bool,
    source_folder: Option<String>,
}

/// `t` is the hierarchy over `paths` under a root called `root_name`: a consistent tree
/// with that root, everything expanded and selected, every node where its path says, no
/// folder twice and none empty but a root without files, the children of every folder in
/// the order in which they stand in the tree, folders first and each kind by lower-cased
/// name, and its files the given paths, written with backslashes, in key order.
pub open spec fn built_from(t: Seq<InternalNode>, paths: Seq<Seq<char>>, root_name: Seq<char>) -> bool {
    &&& tree_wf(t)
    &&& rooted(t, root_name)
    &&& all_open_and_selected(t)
    &&& all_addressed(t)
    &&& folders_distinct(t)
    &&& file_paths(t).to_multiset() == Seq::new(
        paths.len(),
        |i: int| replace_char(paths[i], '/', '\\'),
    ).to_multiset()
    &&& file_paths(t).len() == paths.len()
    &&& in_key_order(file_paths(t))
    &&& children_in_order(t)
    &&& first_child_follows(t)
    &&& paths.len() > 0 ==> no_empty_folder(t)
    &&& children_sorted(t)
}

/// What holds of the hierarchy in every state: it is a tree with a consistent selection,
/// every folder lists its children folders first and each kind by lower-cased name, and
/// where the tree holds a file it has no empty folder.
pub open spec fn whole(t: Seq<InternalNode>) -> bool {
    &&& tree_wf(t)
    &&& children_sorted(t)
    &&& file_paths(t).len() > 0 ==> no_empty_folder(t)
}

/// The paths of a list of entries.
pub open spec fn entry_paths(entries: Seq<ArchiveFileEntry>) -> Seq<Seq<char>> {
    Seq::new(entries.len(), |i: int| entries[i].path@)
}

/// The texts of a list of strings.
pub open spec fn string_views(strings: Seq<String>) -> Seq<Seq<char>> {
    Seq::new(strings.len(), |i: int| strings[i]@)
}

/// The name under which a tree is rooted: the given name, or `fallback` where none is
/// given.
pub open spec fn root_name_for(name: Seq<char>, fallback: Seq<char>) -> Seq<char> {
    if name.len() == 0 {
        fallback
    } else {
        name
    }
}

/// The text of an optional string.
pub open spec fn optional_text(s: Option<String>) -> Option<Seq<char>> {
    match s {
        Some(text) => Some(text@),
        None => None,
    }
}

impl AppState {
    #[verifier::type_invariant]
    closed spec fn inv(self) -> bool {
        whole(self.tree@)
    }

    /// The nodes of the hierarchy, the root first; empty while nothing is loaded.
    pub closed spec fn nodes_view(self) -> Seq<InternalNode> {
        self.tree@
    }

    /// The path of the loaded archive, if one is loaded.
    pub closed spec fn spec_archive_path(self) -> Option<Seq<char>> {
        optional_text(self.archive_path)
    }

    /// The entries of the loaded archive.
    pub closed spec fn spec_entries(self) -> Seq<ArchiveFileEntry> {
        self.entries@
    }

    /// The search filter; empty where none is set.
    pub closed spec fn spec_search_filter(self) -> Seq<char> {
        self.search_filter@
    }

    /// The game that the loaded archive is most likely of.
    pub closed spec fn spec_game_version(self) -> Option<GameVersion> {
        self.game_version
    }

    /// Whether a folder is loaded for packing, rather than an archive for extraction.
    pub closed spec fn spec_pack_mode(self) -> bool {
        self.pack_mode
    }

    /// The folder that is loaded for packing.
    pub closed spec fn spec_source_folder(self) -> Option<Seq<char>> {
        optional_text(self.source_folder)
    }

    /// The same archive or folder is loaded in both states: they agree on everything but
    /// the hierarchy and the search filter.
    pub open spec fn same_load(self, other: AppState) -> bool {
        &&& self.spec_archive_path() == other.spec_archive_path()
        &&& self.spec_entries() == other.spec_entries()
        &&& self.spec_game_version() == other.spec_game_version()
        &&& self.spec_pack_mode() == other.spec_pack_mode()
        &&& self.spec_source_folder() == other.spec_source_folder()
        &&& self.spec_cancelled() == other.spec_cancelled()
    }

    /// The flag by which running work is asked to stop. It is made with the state and
    /// stays the same flag for as long as the state lives.
    pub closed spec fn spec_cancelled(self) -> Arc<AtomicBool> {
        self.cancelled
    }

    /// The hierarchy is a tree with a consistent selection and its children in order, and
    /// where it holds a file it has no empty folder.
    pub open spec fn wf(self) -> bool {
        whole(self.nodes_view())
    }

    /// The tri-state of a folder, told from the files below it: in every state that holds
    /// a file, a folder is selected exactly when every file below it is selected, and
    /// partially selected exactly when some but not all of them are; it is never both.
    pub proof fn lemma_tri_state(self, i: int)
        requires
            self.wf(),
            file_paths(self.nodes_view()).len() > 0,
            0 <= i < self.nodes_view().len(),
            self.nodes_view()[i].is_folder,
        ensures
            self.nodes_view()[i].selected <==> forall|j: int|
                is_file_below(self.nodes_view(), j, i) ==> self.nodes_view()[j].selected,
            self.nodes_view()[i].partially_selected <==> (exists|j: int|
                is_file_below(self.nodes_view(), j, i) && self.nodes_view()[j].selected) && (
            exists|j: int| is_file_below(self.nodes_view(), j, i) && !self.nodes_view()[j].selected),
            !(self.nodes_view()[i].selected && self.nodes_view()[i].partially_selected),
    {
        lemma_folder_tri_state(self.nodes_view(), i);
    }

    /// A state with nothing loaded.
    pub fn new() -> (s: AppState)
        ensures
            s.wf(),
            s.spec_archive_path() is None,
            s.spec_entries().len() == 0,
            s.nodes_view().len() == 0,
            s.spec_search_filter().len() == 0,
            s.spec_game_version() is None,
            !s.spec_pack_mode(),
            s.spec_source_folder() is None,
    {
        AppState {
            archive_path: None,
            entries: Vec::new(),
            tree: Vec::new(),
            search_filter: String::new(),
            cancelled: Arc::new(AtomicBool::new(false)),
            game_version: None,
            pack_mode: false,
            source_folder: None,
        }
    }

    /// The nodes of the hierarchy, the root first.
    pub fn nodes(&self) -> (r: &Vec<InternalNode>)
        ensures
            r@ == self.nodes_view(),
            self.wf(),
    {
        proof {
            use_type_invariant(self);
        }
        &self.tree
    }

    /// The path of the loaded archive, if one is loaded.
    pub fn archive_path(&self) -> (r: &Option<String>)
        ensures
            optional_text(*r) == self.spec_archive_path(),
    {
        &self.archive_path
    }

    /// The entries of the loaded archive.
    pub fn entries(&self) -> (r: &Vec<ArchiveFileEntry>)
        ensures
            r@ == self.spec_entries(),
    {
        &self.entries
    }

    /// The search filter.
    pub fn search_filter(&self) -> (r: &String)
        ensures
            r@ == self.spec_search_filter(),
    {
        &self.search_filter
    }

    /// The flag by which running work is asked to stop, to be shared with that work: the
    /// state's own flag, the one that `reset_cancel` clears.
    pub fn cancelled(&self) -> (r: &Arc<AtomicBool>)
        ensures
            *r == self.spec_cancelled(),
    {
        &self.cancelled
    }

    /// The game that the loaded archive is most likely of.
    pub fn game_version(&self) -> (r: Option<GameVersion>)
        ensures
            r == self.spec_game_version(),
    {
        self.game_version
    }

    /// Whether a folder is loaded for packing, rather than an archive for extraction.
    pub fn pack_mode(&self) -> (r: bool)
        ensures
            r == self.spec_pack_mode(),
    {
        self.pack_mode
    }

    /// The folder that is loaded for packing.
    pub fn source_folder(&self) -> (r: &Option<String>)
        ensures
            optional_text(*r) == self.spec_source_folder(),
    {
        &self.source_folder
    }

    /// Loads an archive from its bytes and builds the hierarchy over its entries.
    ///
    /// `path` is where the archive lies and `file_name` is its file name, which tells the
    /// layout where the signature does not and under which the tree is rooted (`Archive`
    /// where it is empty). The error is `UnknownFormat` where the layout cannot be told and
    /// a `FormatError` where the codec rejects the bytes; only the archive path has then
    /// changed.
    pub fn load_archive(&mut self, path: &str, file_name: &str, archive: &[u8]) -> (r: Result<
        (),
        ArchiveError,
    >)
        ensures
            final(self).wf(),
            final(self).spec_archive_path() == Some(path@),
            final(self).spec_search_filter() == old(self).spec_search_filter(),
            final(self).spec_cancelled() == old(self).spec_cancelled(),
            match detected_format(archive@, file_name@) {
                None => r is Err && r->Err_0 is UnknownFormat,
                Some(format) => match archive_model(format, archive@) {
                    None => r is Err && r->Err_0 is FormatError,
                    Some(m) => r is Ok,
                },
            },
            r is Err ==> final(self).nodes_view() == old(self).nodes_view() && final(self).spec_entries() == old(self).spec_entries() && final(self).spec_game_version() == old(self).spec_game_version() && final(self).spec_pack_mode() == old(self).spec_pack_mode()
                && final(self).spec_source_folder() == old(self).spec_source_folder(),
            r is Ok ==> {
                let format = detected_format(archive@, file_name@)->0;
                &&& entry_paths(final(self).spec_entries()) == model_paths(
                    archive_model(format, archive@)->0,
                )
                &&& final(self).spec_game_version() == likely_game(archive@, file_name@)
                &&& !final(self).spec_pack_mode()
                &&& final(self).spec_source_folder() is None
                &&& built_from(
                    final(self).nodes_view(),
                    entry_paths(final(self).spec_entries()),
                    root_name_for(file_name@, "Archive"@),
                )
            },
    {
        proof {
            use_type_invariant(&*self);
        }
        self.archive_path = Some(string_of(&chars_of(path)));
        let entries = match list_archive_files(archive, file_name) {
            Ok(entries) => entries,
            Err(e) => {
                return Err(e);
            },
        };
        let game = detect_game_version(archive, file_name);
        let mut paths: Vec<String> = Vec::new();
        let mut i: usize = 0;
        while i < entries.len()
            invariant
                i <= entries@.len(),
                paths@.len() == i,
                forall|j: int| 0 <= j < i ==> (#[trigger] paths@[j])@ == entries@[j].path@,
            decreases entries@.len() - i,
        {
            paths.push(entries[i].path.clone());
            i += 1;
        }
        let root_name = if chars_of(file_name).len() == 0 {
            string_of(&chars_of("Archive"))
        } else {
            string_of(&chars_of(file_name))
        };
        let tree = build_tree(&paths, root_name);
        proof {
            assert(normalized_paths(paths@) =~= Seq::new(
                entries@.len(),
                |i: int| replace_char(entry_paths(entries@)[i], '/', '\\'),
            ));
            assert(entry_paths(entries@) =~= Seq::new(entries@.len(), |i: int| entries@[i].path@));
        }
        self.entries = entries;
        self.game_version = game;
        self.pack_mode = false;
        self.source_folder = None;
        self.tree = tree;
        Ok(())
    }

    /// Loads a folder for packing from the list of the files found below it, each given
    /// by its path relative to the folder, and builds the hierarchy over them.
    ///
    /// `folder` is where the folder lies and `folder_name` is its name, under which the
    /// tree is rooted (`Folder` where it is empty). A folder without files is an
    /// `EmptyArchive` error, and the tree is then as it was.
    pub fn load_folder(&mut self, folder: &str, folder_name: &str, files: Vec<String>) -> (r:
        Result<(), ArchiveError>)
        ensures
            final(self).wf(),
            final(self).spec_pack_mode(),
            final(self).spec_source_folder() == Some(folder@),
            final(self).spec_archive_path() is None,
            final(self).spec_entries().len() == 0,
            final(self).spec_search_filter() == old(self).spec_search_filter(),
            final(self).spec_cancelled() == old(self).spec_cancelled(),
            final(self).spec_game_version() == old(self).spec_game_version(),
            files@.len() == 0 ==> r is Err && r->Err_0 is EmptyArchive && final(self).nodes_view()
                == old(self).nodes_view(),
            files@.len() > 0 ==> r is Ok && built_from(
                final(self).nodes_view(),
                string_views(files@),
                root_name_for(folder_name@, "Folder"@),
            ),
    {
        proof {
            use_type_invariant(&*self);
        }
        self.pack_mode = true;
        self.source_folder = Some(string_of(&chars_of(folder)));
        self.archive_path = None;
        self.entries = Vec::new();
        if files.len() == 0 {
            return Err(ArchiveError::EmptyArchive);
        }
        let root_name = if chars_of(folder_name).len() == 0 {
            string_of(&chars_of("Folder"))
        } else {
            string_of(&chars_of(folder_name))
        };
        let tree = build_tree(&files, root_name);
        proof {
            assert(normalized_paths(files@) =~= Seq::new(
                files@.len(),
                |i: int| replace_char(string_views(files@)[i], '/', '\\'),
            ));
        }
        self.tree = tree;
        Ok(())
    }

    /// Replaces the hierarchy by the one over `paths`, rooted under `root_name`.
    pub fn build_tree_from_paths(&mut self, paths: Vec<String>, root_name: String)
        ensures
            built_from(final(self).nodes_view(), string_views(paths@), root_name@),
            final(self).wf(),
            final(self).spec_archive_path() == old(self).spec_archive_path(),
            final(self).spec_entries() == old(self).spec_entries(),
            final(self).spec_search_filter() == old(self).spec_search_filter(),
            final(self).spec_cancelled() == old(self).spec_cancelled(),
            final(self).spec_game_version() == old(self).spec_game_version(),
            final(self).spec_pack_mode() == old(self).spec_pack_mode(),
            final(self).spec_source_folder() == old(self).spec_source_folder(),
    {
        let tree = build_tree(&paths, root_name);
        proof {
            assert(normalized_paths(paths@) =~= Seq::new(
                paths@.len(),
                |i: int| replace_char(string_views(paths@)[i], '/', '\\'),
            ));
        }
        self.tree = tree;
    }

    /// Flips whether the folder at `index` shows its children. A file, or an index
    /// outside the tree, changes nothing; no other node changes.
    pub fn toggle_expand(&mut self, index: usize)
        ensures
            final(self).wf(),
            final(self).nodes_view().len() == old(self).nodes_view().len(),
            forall|j: int|
                0 <= j < old(self).nodes_view().len() && j != index ==> final(self).nodes_view()[j] == old(self).nodes_view()[j],
            index < old(self).nodes_view().len() ==> same_but_expanded(
                old(self).nodes_view()[index as int],
                final(self).nodes_view()[index as int],
            ) && final(self).nodes_view()[index as int].expanded == if old(self).nodes_view()[index as int].is_folder {
                !old(self).nodes_view()[index as int].expanded
            } else {
                old(self).nodes_view()[index as int].expanded
            },
            final(self).spec_search_filter() == old(self).spec_search_filter(),
            old(self).same_load(*final(self)),
    {
        proof {
            use_type_invariant(&*self);
        }
        let mut tree: Vec<InternalNode> = Vec::new();
        std::mem::swap(&mut self.tree, &mut tree);
        let ghost before = tree@;
        toggle_expand_node(&mut tree, index);
        proof {
            assert forall|i: int| 0 <= i < before.len() implies same_place(
                #[trigger] before[i],
                tree@[i],
            ) by {}
            lemma_same_files(before, tree@);
            lemma_selection_keeps_order(before, tree@);
        }
        self.tree = tree;
    }

    /// Flips the selection of the node at `index`, gives the new selection to
    /// everything below it, and recomputes every ancestor from its children, so that the
    /// selection stays consistent: afterwards every node with children is selected
    /// exactly when all its children are wholly selected, and partially selected exactly
    /// when some but not all are selected at least in part. An index outside the tree
    /// changes nothing.
    pub fn toggle_select(&mut self, index: usize)
        ensures
            final(self).wf(),
            same_shape(old(self).nodes_view(), final(self).nodes_view()),
            index >= old(self).nodes_view().len() ==> forall|j: int|
                0 <= j < old(self).nodes_view().len() ==> same_selection(
                    #[trigger] final(self).nodes_view()[j],
                    old(self).nodes_view()[j],
                ),
            index < old(self).nodes_view().len() ==> forall|j: int|
                0 <= j < old(self).nodes_view().len() ==> if in_subtree(
                    parents(old(self).nodes_view()),
                    j,
                    index as int,
                ) {
                    (#[trigger] final(self).nodes_view()[j]).selected == !old(self).nodes_view()[index as int].selected && !final(self).nodes_view()[j].partially_selected
                } else if is_ancestor(parents(old(self).nodes_view()), j, index as int) {
                    true
                } else {
                    same_selection(final(self).nodes_view()[j], old(self).nodes_view()[j])
                },
            final(self).spec_search_filter() == old(self).spec_search_filter(),
            old(self).same_load(*final(self)),
    {
        proof {
            use_type_invariant(&*self);
        }
        let mut tree: Vec<InternalNode> = Vec::new();
        std::mem::swap(&mut self.tree, &mut tree);
        let ghost before = tree@;
        toggle_select_node(&mut tree, index);
        proof {
            assert forall|i: int| 0 <= i < before.len() implies same_place(
                #[trigger] before[i],
                tree@[i],
            ) by {}
            lemma_same_files(before, tree@);
            lemma_selection_keeps_order(before, tree@);
        }
        self.tree = tree;
    }

    /// Selects every node.
    pub fn select_all(&mut self)
        ensures
            final(self).wf(),
            same_shape(old(self).nodes_view(), final(self).nodes_view()),
            forall|j: int|
                0 <= j < old(self).nodes_view().len() ==> (
                #[trigger] final(self).nodes_view()[j]).selected && !final(self).nodes_view()[j].partially_selected,
            final(self).spec_search_filter() == old(self).spec_search_filter(),
            old(self).same_load(*final(self)),
    {
        proof {
            use_type_invariant(&*self);
        }
        let mut tree: Vec<InternalNode> = Vec::new();
        std::mem::swap(&mut self.tree, &mut tree);
        let ghost before = tree@;
        set_all_selected(&mut tree, true);
        proof {
            assert forall|i: int| 0 <= i < before.len() implies same_place(
                #[trigger] before[i],
                tree@[i],
            ) by {}
            lemma_same_files(before, tree@);
            lemma_selection_keeps_order(before, tree@);
        }
        self.tree = tree;
    }

    /// Deselects every node.
    pub fn select_none(&mut self)
        ensures
            final(self).wf(),
            same_shape(old(self).nodes_view(), final(self).nodes_view()),
            forall|j: int|
                0 <= j < old(self).nodes_view().len() ==> !(
                #[trigger] final(self).nodes_view()[j]).selected && !final(self).nodes_view()[j].partially_selected,
            final(self).spec_search_filter() == old(self).spec_search_filter(),
            old(self).same_load(*final(self)),
    {
        proof {
            use_type_invariant(&*self);
        }
        let mut tree: Vec<InternalNode> = Vec::new();
        std::mem::swap(&mut self.tree, &mut tree);
        let ghost before = tree@;
        set_all_selected(&mut tree, false);
        proof {
            assert forall|i: int| 0 <= i < before.len() implies same_place(
                #[trigger] before[i],
                tree@[i],
            ) by {}
            lemma_same_files(before, tree@);
            lemma_selection_keeps_order(before, tree@);
        }
        self.tree = tree;
    }

    /// Sets the search filter. The empty filter shows everything that is not collapsed.
    pub fn set_search(&mut self, filter: String)
        ensures
            final(self).wf(),
            final(self).spec_search_filter() == filter@,
            final(self).nodes_view() == old(self).nodes_view(),
            old(self).same_load(*final(self)),
    {
        proof {
            use_type_invariant(&*self);
        }
        self.search_filter = filter;
    }

    /// Whether the path of the node at `index` matches the search filter. No node stands
    /// at an index outside the tree, and nothing matches there.
    pub fn matches_search(&self, index: usize) -> (r: bool)
        ensures
            r == (index < self.nodes_view().len() && matches_filter(
                self.spec_search_filter(),
                self.nodes_view()[index as int].path@,
            )),
    {
        if index >= self.tree.len() {
            return false;
        }
        path_matches_filter(self.search_filter.as_str(), self.tree[index].path.as_str())
    }

    /// Whether the node at `index`, or something below it, matches the search filter.
    /// Nothing matches at an index outside the tree.
    pub fn node_or_descendants_match(&self, index: usize) -> (r: bool)
        ensures
            r == (index < self.nodes_view().len() && (self.spec_search_filter().len() == 0
                || subtree_matches(self.nodes_view(), self.spec_search_filter(), index as int))),
    {
        proof {
            use_type_invariant(self);
        }
        if index >= self.tree.len() {
            return false;
        }
        if chars_of(self.search_filter.as_str()).len() == 0 {
            return true;
        }
        let pattern = SearchPattern::new(self.search_filter.as_str());
        subtree_matches_pattern(&self.tree, &pattern, Ghost(self.search_filter@), index)
    }

    /// Whether the node at `index` is shown: the search filter is empty or matches the
    /// node or something below it, and every ancestor of the node is expanded. Nothing is
    /// shown at an index outside the tree.
    pub fn is_visible(&self, index: usize) -> (r: bool)
        ensures
            r == (index < self.nodes_view().len() && visible(
                self.nodes_view(),
                self.spec_search_filter(),
                index as int,
            )),
    {
        proof {
            use_type_invariant(self);
        }
        if index >= self.tree.len() {
            return false;
        }
        node_is_visible(&self.tree, self.search_filter.as_str(), index)
    }

    /// The positions of the nodes that are shown, in tree order.
    pub fn visible_nodes(&self) -> (r: Vec<usize>)
        ensures
            forall|k: int|
                0 <= k < r@.len() ==> (#[trigger] r@[k]) < self.nodes_view().len() && visible(
                    self.nodes_view(),
                    self.spec_search_filter(),
                    r@[k] as int,
                ),
            forall|i: int|
                0 <= i < self.nodes_view().len() && visible(
                    self.nodes_view(),
                    self.spec_search_filter(),
                    i,
                ) ==> r@.contains(i as usize),
            forall|a: int, b: int| 0 <= a < b < r@.len() ==> r@[a] < r@[b],
    {
        let mut r: Vec<usize> = Vec::new();
        let mut i: usize = 0;
        while i < self.tree.len()
            invariant
                i <= self.nodes_view().len(),
                self.tree@ == self.nodes_view(),
                forall|k: int|
                    0 <= k < r@.len() ==> (#[trigger] r@[k]) < i && visible(
                        self.nodes_view(),
                        self.spec_search_filter(),
                        r@[k] as int,
                    ),
                forall|j: int|
                    0 <= j < i && visible(self.nodes_view(), self.spec_search_filter(), j)
                        ==> r@.contains(j as usize),
                forall|a: int, b: int| 0 <= a < b < r@.len() ==> r@[a] < r@[b],
            decreases self.nodes_view().len() - i,
        {
            if self.is_visible(i) {
                let ghost held = r@;
                r.push(i);
                proof {
                    assert(r@[r@.len() - 1] == i);
                    assert forall|j: int|
                        0 <= j < i + 1 && visible(
                            self.nodes_view(),
                            self.spec_search_filter(),
                            j,
                        ) implies r@.contains(j as usize) by {
                        if j < i {
                            assert(held.contains(j as usize));
                            let k = choose|k: int| 0 <= k < held.len() && held[k] == j as usize;
                            assert(r@[k] == j as usize);
                        }
                    }
                }
            }
            i += 1;
        }
        r
    }

    /// The paths of the selected files, in tree order.
    pub fn get_selected_files(&self) -> (r: Vec<String>)
        ensures
            string_views(r@) == selected_files(self.nodes_view()),
    {
        let r = selected_file_paths(&self.tree);
        assert(string_views(r@) =~= Seq::new(r@.len(), |i: int| r@[i]@));
        r
    }

    /// The number of selected files.
    pub fn selected_count(&self) -> (n: usize)
        ensures
            n == selected_files(self.nodes_view()).len(),
    {
        count_selected_files(&self.tree)
    }

    /// The number of files.
    pub fn total_count(&self) -> (n: usize)
        ensures
            n == file_paths(self.nodes_view()).len(),
    {
        count_files(&self.tree)
    }

    /// Withdraws a request to stop. The flag is shared with running work, so nothing is
    /// said of what it holds afterwards: another thread may set it again at once.
    pub fn reset_cancel(&self) {
        flag_set(&self.cancelled, false);
    }
}

impl Default for AppState {
    fn default() -> (s: AppState)
        ensures
            s.wf(),
            s.nodes_view().len() == 0,
    {
        AppState::new()
    }
}

} // verus!
