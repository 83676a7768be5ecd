use std::sync::atomic::Ordering;

use bsa_ba2_tool::gui::{AppState, InternalNode};

fn strings(items: &[&str]) -> Vec<String> {
    items.iter().map(|s| s.to_string()).collect()
}

fn loaded(paths: &[&str]) -> AppState {
    let mut state = AppState::new();
    state.build_tree_from_paths(strings(paths), "Root".to_string());
    state
}

fn find(state: &AppState, path: &str) -> usize {
    state
        .nodes()
        .iter()
        .position(|n| n.path == path)
        .unwrap_or_else(|| panic!("no node with path {}", path))
}

fn descendant_leaves(tree: &[InternalNode], index: usize, out: &mut Vec<usize>) {
    if tree[index].children.is_empty() {
        if !tree[index].is_folder {
            out.push(index);
        }
        return;
    }
    for &c in &tree[index].children {
        descendant_leaves(tree, c, out);
    }
}

/// Recomputes every folder's state from the leaves below it and compares.
fn assert_tri_state(state: &AppState) {
    for (i, node) in state.nodes().iter().enumerate() {
        assert!(!(node.selected && node.partially_selected), "node {} is both", i);
        if node.children.is_empty() {
            assert!(!node.partially_selected);
            continue;
        }
        let mut leaves = Vec::new();
        descendant_leaves(state.nodes(), i, &mut leaves);
        let selected = leaves.iter().filter(|&&l| state.nodes()[l].selected).count();
        assert_eq!(node.selected, selected == leaves.len(), "selected of node {}", i);
        assert_eq!(
            node.partially_selected,
            selected > 0 && selected < leaves.len(),
            "partial of node {}",
            i
        );
    }
}

#[test]
fn new_state_is_empty() {
    let state = AppState::new();
    assert!(state.nodes().is_empty());
    assert!(state.entries().is_empty());
    assert!(state.archive_path().is_none());
    assert!(state.source_folder().is_none());
    assert!(state.game_version().is_none());
    assert!(!state.pack_mode());
    assert_eq!(state.search_filter(), "");
    assert_eq!(state.total_count(), 0);
    assert_eq!(state.selected_count(), 0);
    assert!(state.get_selected_files().is_empty());
}

#[test]
fn build_creates_one_folder_per_prefix_and_one_leaf_per_file() {
    let state = loaded(&["a/b.txt", "a/c.txt", "d.txt", "a/sub/e.txt"]);
    let shape: Vec<(String, String, i32, bool, Option<usize>)> = state
        .nodes()
        .iter()
        .map(|n| (n.path.clone(), n.name.clone(), n.depth, n.is_folder, n.parent))
        .collect();
    assert_eq!(
        shape,
        vec![
            ("".to_string(), "Root".to_string(), 0, true, None),
            ("a".to_string(), "a".to_string(), 1, true, Some(0)),
            ("a\\sub".to_string(), "sub".to_string(), 2, true, Some(1)),
            ("a\\sub\\e.txt".to_string(), "e.txt".to_string(), 3, false, Some(2)),
            ("a\\b.txt".to_string(), "b.txt".to_string(), 2, false, Some(1)),
            ("a\\c.txt".to_string(), "c.txt".to_string(), 2, false, Some(1)),
            ("d.txt".to_string(), "d.txt".to_string(), 1, false, Some(0)),
        ]
    );
    assert_eq!(state.nodes()[0].children, vec![1, 6]);
    assert_eq!(state.nodes()[1].children, vec![2, 4, 5]);
    assert_eq!(state.nodes()[2].children, vec![3]);
    assert!(state.nodes().iter().all(|n| n.expanded && n.selected && !n.partially_selected));
    assert_eq!(state.total_count(), 4);
    assert_eq!(state.selected_count(), 4);
}

#[test]
fn children_are_folders_first_then_by_lower_case_name() {
    let state = loaded(&["zeta.txt", "Beta/x", "alpha.txt", "gamma/y", "Delta.txt", "beta.txt"]);
    let root_children: Vec<String> =
        state.nodes()[0].children.iter().map(|&c| state.nodes()[c].name.clone()).collect();
    assert_eq!(root_children, vec!["Beta", "gamma", "alpha.txt", "beta.txt", "Delta.txt", "zeta.txt"]);
}

#[test]
fn rebuilding_discards_the_previous_tree() {
    let mut state = loaded(&["a/b.txt", "c.txt"]);
    state.toggle_select(0);
    state.build_tree_from_paths(strings(&["only.txt"]), "Second".to_string());
    assert_eq!(state.nodes().len(), 2);
    assert_eq!(state.nodes()[0].name, "Second");
    assert!(state.nodes()[1].selected);
    assert_eq!(state.get_selected_files(), vec!["only.txt".to_string()]);
}

#[test]
fn empty_path_list_gives_a_lone_root() {
    let state = loaded(&[]);
    assert_eq!(state.nodes().len(), 1);
    assert!(state.nodes()[0].is_folder);
    assert!(state.nodes()[0].children.is_empty());
    assert_eq!(state.total_count(), 0);
}

#[test]
fn duplicate_paths_give_one_leaf_each() {
    let state = loaded(&["x/y", "x/y"]);
    assert_eq!(state.total_count(), 2);
    assert_eq!(state.nodes().iter().filter(|n| n.is_folder).count(), 2);
    assert_eq!(state.get_selected_files(), vec!["x\\y".to_string(), "x\\y".to_string()]);
}

#[test]
fn a_leading_separator_hangs_the_file_below_the_root() {
    let state = loaded(&["/a"]);
    assert_eq!(state.nodes().len(), 2);
    assert_eq!(state.nodes()[1].path, "\\a");
    assert_eq!(state.nodes()[1].name, "a");
    assert_eq!(state.nodes()[1].parent, Some(0));
    assert_eq!(state.nodes()[1].depth, 2);
}

#[test]
fn toggle_expand_flips_folders_only() {
    let mut state = loaded(&["a/b.txt", "d.txt"]);
    let a = find(&state, "a");
    let d = find(&state, "d.txt");
    state.toggle_expand(a);
    assert!(!state.nodes()[a].expanded);
    state.toggle_expand(a);
    assert!(state.nodes()[a].expanded);
    state.toggle_expand(d);
    assert!(state.nodes()[d].expanded);
    state.toggle_expand(999);
    assert!(state.nodes().iter().all(|n| n.expanded));
}

#[test]
fn toggle_select_propagates_down_and_up() {
    let mut state = loaded(&["a/b.txt", "a/c.txt", "d.txt"]);
    let a = find(&state, "a");
    let b = find(&state, "a\\b.txt");
    let c = find(&state, "a\\c.txt");
    let d = find(&state, "d.txt");

    state.toggle_select(b);
    assert!(!state.nodes()[b].selected);
    assert!(state.nodes()[c].selected);
    assert!(!state.nodes()[a].selected && state.nodes()[a].partially_selected);
    assert!(!state.nodes()[0].selected && state.nodes()[0].partially_selected);
    assert_tri_state(&state);
    assert_eq!(state.get_selected_files(), vec!["a\\c.txt".to_string(), "d.txt".to_string()]);
    assert_eq!(state.selected_count(), 2);

    state.toggle_select(a);
    assert!(state.nodes()[a].selected && !state.nodes()[a].partially_selected);
    assert!(state.nodes()[b].selected && state.nodes()[c].selected);
    assert!(state.nodes()[0].selected && !state.nodes()[0].partially_selected);
    assert_tri_state(&state);

    state.toggle_select(0);
    assert!(state.nodes().iter().all(|n| !n.selected && !n.partially_selected));
    assert_tri_state(&state);

    state.toggle_select(d);
    assert!(state.nodes()[d].selected);
    assert!(!state.nodes()[0].selected && state.nodes()[0].partially_selected);
    assert!(!state.nodes()[a].selected && !state.nodes()[a].partially_selected);
    assert_tri_state(&state);

    state.toggle_select(12345);
    assert_tri_state(&state);
    assert_eq!(state.selected_count(), 1);
}

#[test]
fn tri_state_holds_after_many_toggles() {
    let mut state = loaded(&[
        "meshes/armor/iron/cuirass.nif",
        "meshes/armor/iron/boots.nif",
        "meshes/armor/steel/cuirass.nif",
        "meshes/weapons/sword.nif",
        "textures/armor/iron.dds",
        "textures/sky.dds",
        "readme.txt",
        "scripts/source/main.psc",
        "scripts/main.pex",
    ]);
    let n = state.nodes().len();
    let mut x: usize = 7;
    for _ in 0..400 {
        x = (x * 1103515245 + 12345) % 2147483648;
        state.toggle_select(x % n);
        assert_tri_state(&state);
    }
}

#[test]
fn select_all_and_select_none_are_uniform() {
    let mut state = loaded(&["a/b.txt", "a/c.txt", "d.txt"]);
    state.toggle_select(find(&state, "a\\b.txt"));
    state.select_none();
    assert!(state.nodes().iter().all(|n| !n.selected && !n.partially_selected));
    assert_eq!(state.selected_count(), 0);
    assert!(state.get_selected_files().is_empty());
    assert_tri_state(&state);
    state.toggle_select(find(&state, "d.txt"));
    state.select_all();
    assert!(state.nodes().iter().all(|n| n.selected && !n.partially_selected));
    assert_eq!(state.selected_count(), 3);
    assert_tri_state(&state);
}

#[test]
fn selected_files_come_in_tree_order() {
    let state = loaded(&["z.txt", "b/y.txt", "a/x.txt", "a/inner/w.txt"]);
    assert_eq!(
        state.get_selected_files(),
        strings(&["a\\inner\\w.txt", "a\\x.txt", "b\\y.txt", "z.txt"])
    );
}

#[test]
fn search_with_wildcard_shows_all_three_leaves() {
    let mut state = loaded(&["a/b.txt", "a/c.txt", "d.txt"]);
    state.set_search("*.txt".to_string());
    for path in ["a\\b.txt", "a\\c.txt", "d.txt"] {
        assert!(state.is_visible(find(&state, path)), "{} should be visible", path);
    }
}

#[test]
fn search_without_wildcard_shows_matches_and_their_ancestors() {
    let mut state = loaded(&["a/b.txt", "a/c.txt", "d.txt"]);
    state.set_search("b".to_string());
    assert!(state.is_visible(find(&state, "a\\b.txt")));
    assert!(state.is_visible(find(&state, "a")));
    assert!(state.is_visible(0));
    assert!(!state.is_visible(find(&state, "a\\c.txt")));
    assert!(!state.is_visible(find(&state, "d.txt")));
    assert_eq!(state.visible_nodes(), vec![0, find(&state, "a"), find(&state, "a\\b.txt")]);
}

#[test]
fn collapsed_ancestor_hides_everything_below() {
    let mut state = loaded(&["a/sub/e.txt", "a/b.txt", "d.txt"]);
    let a = find(&state, "a");
    state.toggle_expand(a);
    assert!(state.is_visible(a));
    assert!(!state.is_visible(find(&state, "a\\sub")));
    assert!(!state.is_visible(find(&state, "a\\sub\\e.txt")));
    assert!(!state.is_visible(find(&state, "a\\b.txt")));
    assert!(state.is_visible(find(&state, "d.txt")));
    state.toggle_expand(a);
    assert!(state.is_visible(find(&state, "a\\sub\\e.txt")));
}

#[test]
fn search_is_case_insensitive_and_anchored_with_wildcards() {
    let mut state = loaded(&["Textures/Sky.DDS", "textures/ground.dds.bak"]);
    let sky = find(&state, "Textures\\Sky.DDS");
    let bak = find(&state, "textures\\ground.dds.bak");
    state.set_search("SKY".to_string());
    assert!(state.matches_search(sky));
    assert!(!state.matches_search(bak));
    state.set_search("*.dds".to_string());
    assert!(state.matches_search(sky));
    assert!(!state.matches_search(bak));
    state.set_search("textures*".to_string());
    assert!(state.matches_search(sky));
    assert!(state.matches_search(bak));
    state.set_search("sky*".to_string());
    assert!(!state.matches_search(sky));
    state.set_search("*gr*nd*bak".to_string());
    assert!(state.matches_search(bak));
    assert!(!state.matches_search(sky));
    state.set_search("".to_string());
    assert!(state.matches_search(sky));
    assert!(state.node_or_descendants_match(0));
}

#[test]
fn wildcard_matches_the_last_occurrence_at_the_end() {
    let mut state = loaded(&["a.txt.txt"]);
    state.set_search("*.txt".to_string());
    assert!(state.matches_search(1));
    state.set_search("a*t".to_string());
    assert!(state.matches_search(1));
    state.set_search("a*x".to_string());
    assert!(!state.matches_search(1));
}

#[test]
fn load_folder_builds_the_tree_for_packing() {
    let mut state = AppState::new();
    let r = state.load_folder("/mods/my_mod", "my_mod", strings(&["meshes/a.nif", "b.txt"]));
    assert!(r.is_ok());
    assert!(state.pack_mode());
    assert_eq!(state.source_folder().as_deref(), Some("/mods/my_mod"));
    assert!(state.archive_path().is_none());
    assert_eq!(state.nodes()[0].name, "my_mod");
    assert_eq!(state.total_count(), 2);

    let mut empty = AppState::new();
    let r = empty.load_folder("/mods/none", "", Vec::new());
    assert!(r.is_err());
    assert!(empty.nodes().is_empty());
    assert!(empty.pack_mode());
}

#[test]
fn positions_outside_the_tree_show_nothing() {
    let mut state = loaded(&["a/b.txt"]);
    assert!(!state.is_visible(3));
    assert!(!state.matches_search(3));
    assert!(!state.node_or_descendants_match(usize::MAX));
    state.set_search("b".to_string());
    assert!(!state.is_visible(99));
    assert!(state.node_or_descendants_match(0));
    assert!(!state.matches_search(0));
}

#[test]
fn load_archive_lists_the_entries_and_builds_the_tree() {
    let mut builder = bsa_ba2_tool::archive::BsaBuilder::new();
    builder.add_file("meshes/a.nif", vec![1, 2, 3]);
    builder.add_file("meshes/sub/b.nif", vec![4]);
    builder.add_file("readme.txt", vec![5]);
    let bytes = builder.build_with_progress(|_, _, _| {}).unwrap();

    let mut state = AppState::new();
    state.set_search("keep".to_string());
    state.load_archive("/games/data/Mod.bsa", "Mod.bsa", &bytes).unwrap();
    assert_eq!(state.archive_path().as_deref(), Some("/games/data/Mod.bsa"));
    assert_eq!(state.game_version(), Some(bsa_ba2_tool::archive::GameVersion::Fallout3));
    assert!(!state.pack_mode());
    assert!(state.source_folder().is_none());
    assert_eq!(state.search_filter(), "keep");
    assert_eq!(state.entries().len(), 3);
    assert_eq!(state.total_count(), 3);
    assert_eq!(state.nodes()[0].name, "Mod.bsa");
    let paths: Vec<String> = state.nodes().iter().map(|n| n.path.clone()).collect();
    assert_eq!(
        paths,
        vec!["", "meshes", "meshes\\sub", "meshes\\sub\\b.nif", "meshes\\a.nif", "readme.txt"]
    );

    let mut state = AppState::new();
    let err = state.load_archive("/x/notes.txt", "notes.txt", b"just text").unwrap_err();
    assert_eq!(err.kind(), bsa_ba2_tool::archive::ErrorKind::UnknownFormat);
    assert_eq!(state.archive_path().as_deref(), Some("/x/notes.txt"));
    assert!(state.nodes().is_empty());
    let err = state.load_archive("/x/broken.bsa", "broken.bsa", b"just text").unwrap_err();
    assert_eq!(err.kind(), bsa_ba2_tool::archive::ErrorKind::FormatError);

    let mut state = AppState::new();
    state.load_archive("/x/unnamed", "", &bytes).unwrap();
    assert_eq!(state.nodes()[0].name, "Archive");
}

#[test]
fn reset_cancel_clears_the_flag() {
    let state = AppState::new();
    let shared = state.cancelled().clone();
    shared.store(true, Ordering::SeqCst);
    assert!(state.cancelled().load(Ordering::SeqCst));
    state.reset_cancel();
    assert!(!shared.load(Ordering::SeqCst));
}

#[test]
fn names_that_differ_in_case_only_stand_in_byte_order() {
    let state = loaded(&["readme.TXT", "Readme.txt", "README.txt", "docs/B.md", "Docs/a.md"]);
    let root_children: Vec<String> =
        state.nodes()[0].children.iter().map(|&c| state.nodes()[c].name.clone()).collect();
    assert_eq!(root_children, vec!["Docs", "docs", "README.txt", "Readme.txt", "readme.TXT"]);
    assert_eq!(
        state.get_selected_files(),
        strings(&["Docs\\a.md", "docs\\B.md", "README.txt", "Readme.txt", "readme.TXT"])
    );
}

#[test]
fn shorter_names_stand_before_their_extensions() {
    let state = loaded(&["ab", "a", "a b", "a.b", "abc/x", "ab/y"]);
    let root_children: Vec<String> =
        state.nodes()[0].children.iter().map(|&c| state.nodes()[c].name.clone()).collect();
    assert_eq!(root_children, vec!["ab", "abc", "a", "a b", "a.b", "ab"]);
}

#[test]
fn a_leading_separator_does_not_disturb_the_order() {
    let state = loaded(&["/a", "z/b", "/m/c", "b"]);
    let root_children: Vec<String> =
        state.nodes()[0].children.iter().map(|&c| state.nodes()[c].path.clone()).collect();
    assert_eq!(root_children, vec!["\\m", "z", "\\a", "b"]);
    let kinds: Vec<bool> =
        state.nodes()[0].children.iter().map(|&c| state.nodes()[c].is_folder).collect();
    assert_eq!(kinds, vec![true, true, false, false]);
    assert_eq!(state.get_selected_files(), strings(&["\\m\\c", "z\\b", "\\a", "b"]));
}

#[test]
fn the_flag_handed_out_is_the_same_through_every_change() {
    let mut state = AppState::new();
    let shared = state.cancelled().clone();
    state.build_tree_from_paths(strings(&["a/b.txt", "d.txt"]), "root".to_string());
    state.toggle_select(1);
    state.select_none();
    state.set_search("b".to_string());
    let _ = state.load_folder("somewhere", "folder", strings(&["x.txt"]));
    assert!(std::sync::Arc::ptr_eq(&shared, state.cancelled()));
    shared.store(true, Ordering::SeqCst);
    assert!(state.cancelled().load(Ordering::SeqCst));
}
