//! Building the hierarchy from a flat list of paths.

use vstd::hash_map::StringHashMap;
use vstd::prelude::*;
use vstd::string::StringSliceAdditionalSpecFns;
use vstd::utf8::encode_utf8;
use crate::gui::order::{children_sorted, lemma_children_sorted, stands_before};
use crate::gui::tree::{
    child_linked, file_paths, file_paths_upto, lemma_file_counts, lemma_file_paths_agree,
    lemma_uniform_selection, no_empty_folder, parent_linked, structure_wf, tree_wf,
    InternalNode,
};
use crate::text::{
    bytes_lt, chars_of, escaped, last_index_of, lemma_last_index_of_unique,
    lemma_lex_transitive, lemma_lex_trichotomy, lex_lt, lowercase, replace_char,
    push_escaped, replace_separator, string_of, string_of_range,
};

verus! {

/// The number of backslashes among the first `n` characters of `s`.
pub open spec fn sep_count(s: Seq<char>, n: int) -> int
    decreases n,
{
    if n <= 0 {
        0
    } else {
        sep_count(s, n - 1) + if s[n - 1] == '\\' {
            1int
        } else {
            0int
        }
    }
}

/// The depth of a node with the given path: the number of its components, which is one
/// more than the number of its backslashes, as far as an `i32` holds it.
pub open spec fn depth_for(path: Seq<char>) -> i32 {
    let components = sep_count(path, path.len() as int) + 1;
    if components >= i32::MAX {
        i32::MAX
    } else {
        components as i32
    }
}

/// Node `i` is where its path says: its name is what follows the last backslash of its
/// path, its parent is the node whose path is what precedes that backslash (the root
/// where there is none, or nothing precedes it), and its depth is that of its path.
pub open spec fn addressed(t: Seq<InternalNode>, i: int) -> bool {
    let path = t[i].path@;
    let cut = last_index_of(path, '\\');
    &&& t[i].parent is Some
    &&& t[i].name@ == path.subrange(cut + 1, path.len() as int)
    &&& t[t[i].parent->0 as int].path@ == path.subrange(
        0,
        if cut < 0 {
            0
        } else {
            cut
        },
    )
    &&& t[i].depth == depth_for(path)
}

/// The counts of two sequences that agree on their first `n` characters are the same.
pub proof fn lemma_sep_count_agree(a: Seq<char>, b: Seq<char>, n: int)
    requires
        0 <= n <= a.len(),
        n <= b.len(),
        forall|i: int| 0 <= i < n ==> a[i] == b[i],
    ensures
        sep_count(a, n) == sep_count(b, n),
    decreases n,
{
    if n > 0 {
        lemma_sep_count_agree(a, b, n - 1);
    }
}

/// The depth that goes with a number of backslashes.
fn depth_of(seps: usize) -> (d: i32)
    ensures
        d == if seps + 1 >= i32::MAX {
            i32::MAX
        } else {
            (seps + 1) as i32
        },
{
    if seps >= 2147483646 {
        i32::MAX
    } else {
        (seps + 1) as i32
    }
}

/// Every node is expanded and selected, and none is partially selected.
pub open spec fn all_open_and_selected(t: Seq<InternalNode>) -> bool {
    forall|i: int|
        0 <= i < t.len() ==> (#[trigger] t[i]).expanded && t[i].selected
            && !t[i].partially_selected
}

/// Every node but the root is where its path says.
pub open spec fn all_addressed(t: Seq<InternalNode>) -> bool {
    forall|i: int| 0 < i < t.len() ==> #[trigger] addressed(t, i)
}

/// `b` is `a` with one more node, linked below `parent`; what was there is as it was,
/// but for the new child in the list of `parent`.
pub open spec fn grown(a: Seq<InternalNode>, b: Seq<InternalNode>, parent: int) -> bool {
    &&& b.len() == a.len() + 1
    &&& forall|i: int| 0 <= i < a.len() && i != parent ==> #[trigger] b[i] == a[i]
    &&& b[parent].path == a[parent].path
    &&& b[parent].name == a[parent].name
    &&& b[parent].depth == a[parent].depth
    &&& b[parent].is_folder == a[parent].is_folder
    &&& b[parent].expanded == a[parent].expanded
    &&& b[parent].selected == a[parent].selected
    &&& b[parent].partially_selected == a[parent].partially_selected
    &&& b[parent].parent == a[parent].parent
    &&& b[parent].children@ == a[parent].children@.push(a.len() as usize)
}

/// Every node lists its children in the order of their positions, which is the order in
/// which they are shown.
pub open spec fn children_in_order(t: Seq<InternalNode>) -> bool {
    forall|i: int, a: int, b: int|
        0 <= i < t.len() && 0 <= a < b < t[i].children@.len() ==> #[trigger] t[i].children@[a]
            < #[trigger] t[i].children@[b]
}

/// Every folder has a child, but for the root and the folder `open`.
pub open spec fn folders_filled(t: Seq<InternalNode>, open: int) -> bool {
    forall|i: int|
        0 < i < t.len() && i != open && (#[trigger] t[i]).is_folder ==> t[i].children@.len() > 0
}

/// Where node `i` is a folder and not the last node, the node behind it is its child.
pub open spec fn child_follows(t: Seq<InternalNode>, i: int) -> bool {
    0 <= i < t.len() - 1 && t[i].is_folder ==> t[i + 1].parent is Some && t[i + 1].parent->0 == i
}

/// Every folder that is not the last node is followed at once by a child of its own.
pub open spec fn first_child_follows(t: Seq<InternalNode>) -> bool {
    forall|i: int| #[trigger] child_follows(t, i)
}

/// Appends a node below the folder `parent`. The new node is expanded and selected.
fn add_node(
    t: &mut Vec<InternalNode>,
    parent: usize,
    path: String,
    name: String,
    depth: i32,
    is_folder: bool,
) -> (idx: usize)
    requires
        structure_wf(old(t)@),
        parent < old(t)@.len(),
        old(t)@[parent as int].is_folder,
    ensures
        idx == old(t)@.len(),
        structure_wf(final(t)@),
        grown(old(t)@, final(t)@, parent as int),
        final(t)@[idx as int].path == path,
        final(t)@[idx as int].name == name,
        final(t)@[idx as int].depth == depth,
        final(t)@[idx as int].is_folder == is_folder,
        final(t)@[idx as int].expanded,
        final(t)@[idx as int].selected,
        !final(t)@[idx as int].partially_selected,
        final(t)@[idx as int].parent == Some(parent),
        final(t)@[idx as int].children@.len() == 0,
        children_in_order(old(t)@) ==> children_in_order(final(t)@),
        first_child_follows(old(t)@) && (old(t)@[old(t)@.len() - 1].is_folder ==> parent == old(
            t,
        )@.len() - 1) ==> first_child_follows(final(t)@),
{
    let ghost before = t@;
    let idx = t.len();
    t.push(
        InternalNode {
            path,
            name,
            depth,
            is_folder,
            expanded: true,
            selected: true,
            partially_selected: false,
            children: Vec::new(),
            parent: Some(parent),
        },
    );
    t[parent].children.push(idx);
    proof {
        let after = t@;
        assert forall|i: int| 0 < i < after.len() implies #[trigger] child_linked(after, i) by {
            if i < before.len() {
                assert(child_linked(before, i));
                let q = before[i].parent->0 as int;
                let k = choose|k: int|
                    0 <= k < before[q].children@.len() && #[trigger] before[q].children@[k] == i;
                assert(after[q].children@[k] == i);
            } else {
                let k = before[parent as int].children@.len() as int;
                assert(after[parent as int].children@[k] == i);
            }
        }
        assert forall|i: int, k: int|
            0 <= i < after.len() && 0 <= k < after[i].children@.len() implies #[trigger] parent_linked(
            after,
            i,
            k,
        ) by {
            if i < before.len() && k < before[i].children@.len() {
                assert(parent_linked(before, i, k));
            }
        }
        if first_child_follows(before) && (before[before.len() - 1].is_folder ==> parent
            == before.len() - 1) {
            assert forall|i: int| #[trigger] child_follows(after, i) by {
                assert(child_follows(before, i));
                if 0 <= i < before.len() - 1 {
                    assert(after[i + 1].parent == before[i + 1].parent);
                }
            }
        }
        if children_in_order(before) {
            assert forall|i: int, a: int, b: int|
                0 <= i < after.len() && 0 <= a < b < after[i].children@.len() implies #[trigger] after[i].children@[a]
                < #[trigger] after[i].children@[b] by {
                if i < before.len() {
                    if b < before[i].children@.len() {
                        assert(before[i].children@[a] < before[i].children@[b]);
                    } else {
                        assert(parent_linked(before, i, a));
                    }
                }
            }
        }
    }
    idx
}

/// The first position at or after `i` where `s` holds a backslash, or the length of `s`.
pub open spec fn first_sep_from(s: Seq<char>, i: int) -> int
    decreases s.len() - i,
{
    if i < 0 || i >= s.len() || s[i] == '\\' {
        i
    } else {
        first_sep_from(s, i + 1)
    }
}

/// The part of a sort key that one component of a path gives: a tag that puts folders
/// before files, the lower-cased component, and the component itself to tell apart
/// what differs in letter case only, both in the form that tells where they end.
pub open spec fn component_key(c: Seq<char>, is_last: bool) -> Seq<u8> {
    seq![
        if is_last {
            2u8
        } else {
            1u8
        },
    ] + escaped(encode_utf8(lowercase(c))) + escaped(encode_utf8(c))
}

/// The sort key of the path from position `start` on: the keys of its components in a row.
pub open spec fn sort_key_from(path: Seq<char>, start: int) -> Seq<u8>
    decreases path.len() - start,
{
    let k = first_sep_from(path, start);
    if start < 0 || start > path.len() {
        Seq::empty()
    } else if k >= path.len() {
        component_key(path.subrange(start, path.len() as int), true)
    } else if k < start {
        Seq::empty()
    } else {
        component_key(path.subrange(start, k), false) + sort_key_from(path, k + 1)
    }
}

/// Where the components of a path begin that give its sort key: behind the backslash
/// that the path begins with, if it does. Nothing precedes such a backslash, so it names
/// no folder, and what follows it hangs below the root.
pub open spec fn key_start(path: Seq<char>) -> int {
    if path.len() > 0 && path[0] == '\\' {
        1
    } else {
        0
    }
}

/// The key by which the files of a tree are put in order. In the byte order of their
/// keys, what lies in a folder's folders comes before the folder's own files, and what
/// lies in one folder is in the order of its lower-cased names.
pub open spec fn tree_sort_key(path: Seq<char>) -> Seq<u8> {
    sort_key_from(path, key_start(path))
}

/// Computes the sort key of a path.
pub fn sort_key(v: &Vec<char>) -> (key: Vec<u8>)
    ensures
        key@ == tree_sort_key(v@),
{
    let mut key: Vec<u8> = Vec::new();
    let mut start: usize = if v.len() > 0 && v[0] == '\\' {
        1
    } else {
        0
    };
    assert(key@ + sort_key_from(v@, start as int) =~= tree_sort_key(v@));
    loop
        invariant
            start <= v@.len(),
            key@ + sort_key_from(v@, start as int) == tree_sort_key(v@),
        decreases v@.len() - start,
    {
        let mut k: usize = start;
        while k < v.len() && v[k] != '\\'
            invariant
                start <= k <= v@.len(),
                first_sep_from(v@, start as int) == first_sep_from(v@, k as int),
            decreases v@.len() - k,
        {
            k += 1;
        }
        assert(first_sep_from(v@, start as int) == k);
        let component = string_of_range(v, start, k);
        let lower = component.as_str().to_lowercase();
        let is_last = k >= v.len();
        let ghost held = key@;
        key.push(
            if is_last {
                2u8
            } else {
                1u8
            },
        );
        push_escaped(&mut key, lower.as_str().as_bytes());
        push_escaped(&mut key, component.as_str().as_bytes());
        assert(key@ =~= held + component_key(v@.subrange(start as int, k as int), is_last));
        if is_last {
            assert(key@ =~= held + sort_key_from(v@, start as int));
            return key;
        }
        assert(held + sort_key_from(v@, start as int) =~= key@ + sort_key_from(v@, k + 1));
        start = k + 1;
    }
}

/// A path waiting to become a file of the tree, with its sort key.
pub struct PendingFile {
    pub key: Vec<u8>,
    pub path: Vec<char>,
}

/// The paths of pending files.
pub open spec fn pending_paths(s: Seq<PendingFile>) -> Seq<Seq<char>> {
    Seq::new(s.len(), |i: int| s[i].path@)
}

/// The pending files carry their own sort keys and are in the order of these.
pub open spec fn pending_sorted(s: Seq<PendingFile>) -> bool {
    &&& forall|i: int| 0 <= i < s.len() ==> (#[trigger] s[i]).key@ == tree_sort_key(s[i].path@)
    &&& forall|i: int, j: int|
        0 <= i < j < s.len() ==> !lex_lt(#[trigger] s[j].key@, #[trigger] s[i].key@)
}

/// A sequence of paths is in the order of their sort keys.
pub open spec fn in_key_order(paths: Seq<Seq<char>>) -> bool {
    forall|i: int, j: int|
        0 <= i < j < paths.len() ==> !lex_lt(
            tree_sort_key(#[trigger] paths[j]),
            tree_sort_key(#[trigger] paths[i]),
        )
}

/// The paths as they are stored in the tree: with backslashes.
pub open spec fn normalized_paths(paths: Seq<String>) -> Seq<Seq<char>> {
    Seq::new(paths.len(), |i: int| replace_char(paths[i]@, '/', '\\'))
}

/// Puts a pending file into a list that is in key order, behind everything that does not
/// come after it.
fn insert_pending(list: &mut Vec<PendingFile>, file: PendingFile)
    requires
        pending_sorted(old(list)@),
        file.key@ == tree_sort_key(file.path@),
    ensures
        pending_sorted(final(list)@),
        pending_paths(final(list)@).to_multiset() == pending_paths(old(list)@).to_multiset().insert(
            file.path@,
        ),
{
    let ghost before = list@;
    let ghost key = file.key@;
    let mut lo: usize = 0;
    let mut hi: usize = list.len();
    while lo < hi
        invariant
            pending_sorted(before),
            list@ == before,
            key == file.key@,
            lo <= hi <= before.len(),
            forall|i: int| 0 <= i < lo ==> !lex_lt(key, #[trigger] before[i].key@),
            forall|i: int| hi <= i < before.len() ==> lex_lt(key, #[trigger] before[i].key@),
        decreases hi - lo,
    {
        let mid = lo + (hi - lo) / 2;
        if bytes_lt(file.key.as_slice(), list[mid].key.as_slice()) {
            assert forall|i: int| mid <= i < before.len() implies lex_lt(
                key,
                #[trigger] before[i].key@,
            ) by {
                if i > mid {
                    lemma_lex_trichotomy(before[i].key@, before[mid as int].key@);
                    if before[i].key@ != before[mid as int].key@ {
                        lemma_lex_transitive(key, before[mid as int].key@, before[i].key@);
                    }
                }
            }
            hi = mid;
        } else {
            assert forall|i: int| 0 <= i < mid + 1 implies !lex_lt(
                key,
                #[trigger] before[i].key@,
            ) by {
                if i < mid && lex_lt(key, before[i].key@) {
                    lemma_lex_trichotomy(before[mid as int].key@, before[i].key@);
                    if before[mid as int].key@ != before[i].key@ {
                        lemma_lex_transitive(key, before[i].key@, before[mid as int].key@);
                    }
                }
            }
            lo = mid + 1;
        }
    }
    let ghost path = file.path@;
    list.insert(lo, file);
    proof {
        let after = list@;
        assert forall|i: int, j: int| 0 <= i < j < after.len() implies !lex_lt(
            #[trigger] after[j].key@,
            #[trigger] after[i].key@,
        ) by {
            if j == lo {
                assert(after[i] == before[i]);
            } else if i == lo {
                assert(after[j] == before[j - 1]);
                lemma_lex_trichotomy(key, before[j - 1].key@);
            } else if j < lo {
                assert(after[i] == before[i] && after[j] == before[j]);
            } else if i < lo {
                assert(after[i] == before[i] && after[j] == before[j - 1]);
            } else {
                assert(after[i] == before[i - 1] && after[j] == before[j - 1]);
            }
        }
        assert forall|i: int| 0 <= i < after.len() implies (#[trigger] after[i]).key@
            == tree_sort_key(after[i].path@) by {
            if i < lo {
                assert(after[i] == before[i]);
            } else if i > lo {
                assert(after[i] == before[i - 1]);
            }
        }
        let pa = pending_paths(after);
        let pb = pending_paths(before);
        assert(pa.remove(lo as int) =~= pb);
        assert(pa[lo as int] == path);
        vstd::seq_lib::to_multiset_remove(pa, lo as int);
        assert(pa.to_multiset().count(path) > 0) by {
            pa.to_multiset_ensures();
            assert(pa.contains(path));
        }
        assert(pa.to_multiset() =~= pb.to_multiset().insert(path));
    }
}

/// Puts the paths in tree order: normalized, and sorted by their sort keys, what has
/// equal keys staying in the order given.
pub fn sort_for_tree(paths: &Vec<String>) -> (list: Vec<PendingFile>)
    ensures
        pending_sorted(list@),
        pending_paths(list@).to_multiset() == normalized_paths(paths@).to_multiset(),
{
    let mut list: Vec<PendingFile> = Vec::new();
    let mut i: usize = 0;
    assert(pending_paths(list@) =~= normalized_paths(paths@).take(0));
    while i < paths.len()
        invariant
            i <= paths@.len(),
            pending_sorted(list@),
            pending_paths(list@).to_multiset() == normalized_paths(paths@).take(
                i as int,
            ).to_multiset(),
        decreases paths@.len() - i,
    {
        let normalized = replace_separator(paths[i].as_str(), '/', '\\');
        let path = chars_of(normalized.as_str());
        let key = sort_key(&path);
        insert_pending(&mut list, PendingFile { key, path });
        proof {
            let all = normalized_paths(paths@);
            assert(all.take(i + 1) =~= all.take(i as int).push(all[i as int]));
            vstd::seq_lib::to_multiset_build(all.take(i as int), all[i as int]);
        }
        i += 1;
    }
    assert(normalized_paths(paths@).take(paths@.len() as int) =~= normalized_paths(paths@));
    list
}

/// The folder index knows exactly the folders of the tree, each under its path.
pub open spec fn index_agrees(t: Seq<InternalNode>, index: Map<Seq<char>, usize>) -> bool {
    &&& forall|key: Seq<char>| #[trigger]
        index.contains_key(key) ==> index[key] < t.len() && t[index[key] as int].is_folder
            && t[index[key] as int].path@ == key
    &&& forall|i: int|
        0 <= i < t.len() && (#[trigger] t[i]).is_folder ==> index.contains_key(t[i].path@)
            && index[t[i].path@] == i
}

/// No two folders have the same path.
pub open spec fn folders_distinct(t: Seq<InternalNode>) -> bool {
    forall|i: int, j: int|
        0 <= i < j < t.len() && (#[trigger] t[i]).is_folder && (#[trigger] t[j]).is_folder
            ==> t[i].path@ != t[j].path@
}

/// The first node is the root with the given name: a folder of depth 0 with an empty path.
pub open spec fn rooted(t: Seq<InternalNode>, root_name: Seq<char>) -> bool {
    &&& t.len() >= 1
    &&& t[0].path@.len() == 0
    &&& t[0].name@ == root_name
    &&& t[0].depth == 0
    &&& t[0].is_folder
    &&& t[0].parent is None
}

/// What holds of the tree while it is built.
pub open spec fn under_construction(
    t: Seq<InternalNode>,
    index: Map<Seq<char>, usize>,
    root_name: Seq<char>,
) -> bool {
    &&& structure_wf(t)
    &&& rooted(t, root_name)
    &&& all_open_and_selected(t)
    &&& all_addressed(t)
    &&& index_agrees(t, index)
    &&& children_in_order(t)
}

/// Adding a node below a folder keeps every other node where its path says.
proof fn lemma_grown_addressed(a: Seq<InternalNode>, b: Seq<InternalNode>, parent: int)
    requires
        grown(a, b, parent),
        0 <= parent < a.len(),
        all_addressed(a),
        structure_wf(a),
        a.len() >= 1,
        addressed(b, a.len() as int),
    ensures
        all_addressed(b),
{
    assert forall|i: int| 0 < i < b.len() implies #[trigger] addressed(b, i) by {
        if i < a.len() {
            assert(addressed(a, i));
            assert(child_linked(a, i));
        }
    }
}

/// Creates the nodes for files that are in tree order: the root, a folder for every
/// prefix that a path has before one of its backslashes, and a file for every path.
pub fn build_nodes(list: &Vec<PendingFile>, root_name: String) -> (t: Vec<InternalNode>)
    ensures
        tree_wf(t@),
        rooted(t@, root_name@),
        all_open_and_selected(t@),
        all_addressed(t@),
        folders_distinct(t@),
        file_paths(t@) == pending_paths(list@),
        children_in_order(t@),
        first_child_follows(t@),
        list@.len() > 0 ==> no_empty_folder(t@),
        list@.len() == 0 ==> t@.len() == 1,
{
    let mut t: Vec<InternalNode> = Vec::new();
    t.push(
        InternalNode {
            path: String::new(),
            name: root_name,
            depth: 0,
            is_folder: true,
            expanded: true,
            selected: true,
            partially_selected: false,
            children: Vec::new(),
            parent: None,
        },
    );
    let mut index: StringHashMap<usize> = StringHashMap::new();
    index.insert(String::new(), 0);
    assert(file_paths(t@) =~= pending_paths(list@).take(0)) by {
        reveal_with_fuel(file_paths_upto, 2);
    }
    let mut s: usize = 0;
    while s < list.len()
        invariant
            s <= list@.len(),
            under_construction(t@, index@, root_name@),
            folders_filled(t@, 0),
            first_child_follows(t@),
            t@.len() == 1 || !t@[t@.len() - 1].is_folder,
                s == 0 ==> t@.len() == 1,
            file_paths(t@) == pending_paths(list@).take(s as int),
        decreases list@.len() - s,
    {
        let v = &list[s].path;
        let mut parent: usize = 0;
        let mut start: usize = 0;
        let mut seps: usize = 0;
        let mut k: usize = 0;
        proof {
            assert(v@.subrange(0, 0) =~= t@[0].path@);
            assert(pending_paths(list@)[s as int] == v@);
        }
        while k < v.len()
            invariant
                s < list@.len(),
                v == &list@[s as int].path,
                start <= k <= v@.len(),
                under_construction(t@, index@, root_name@),
                folders_filled(t@, parent as int),
                first_child_follows(t@),
                t@[t@.len() - 1].is_folder ==> parent == t@.len() - 1,
                        file_paths(t@) == pending_paths(list@).take(s as int),
                parent < t@.len(),
                t@[parent as int].is_folder,
                t@[parent as int].path@ == v@.subrange(
                    0,
                    if start == 0 {
                        0
                    } else {
                        start - 1
                    },
                ),
                start == 0 || v@[start - 1] == '\\',
                forall|j: int| start <= j < k ==> v@[j] != '\\',
                seps == sep_count(v@, k as int),
                seps <= k,
            decreases v@.len() - k,
        {
            if v[k] == '\\' {
                let prefix = string_of_range(v, 0, k);
                let found = match index.get(prefix.as_str()) {
                    Some(id) => Some(*id),
                    None => None,
                };
                match found {
                    Some(id) => {
                        proof {
                            // the folder found hangs below the folder of the prefix before it,
                            // which therefore has a child
                            let now = t@;
                            if id != 0 {
                                assert(addressed(now, id as int));
                                assert(child_linked(now, id as int));
                                let up = now[id as int].parent->0 as int;
                                let cut = if start == 0 {
                                    -1
                                } else {
                                    start - 1
                                };
                                lemma_last_index_of_unique(prefix@, '\\', cut);
                                assert(now[up].path@ =~= now[parent as int].path@);
                                assert(now[up].children@.len() > 0);
                                assert(now[up].is_folder);
                                assert(index@[now[up].path@] == up);
                                assert(index@[now[parent as int].path@] == parent);
                                // the last node has no child, so it is not this folder
                                if now[now.len() - 1].is_folder {
                                    assert(parent_linked(now, parent as int, 0));
                                }
                            } else {
                                assert(now[0].path@ == prefix@);
                                assert(k == 0);
                                assert(index@[now[parent as int].path@] == parent);
                            }
                        }
                        parent = id;
                    },
                    None => {
                        let name = string_of_range(v, start, k);
                        let ghost before = t@;
                        let ghost known = index@;
                        let ghost p = prefix@;
                        proof {
                            let cut = if start == 0 {
                                -1
                            } else {
                                start - 1
                            };
                            lemma_last_index_of_unique(p, '\\', cut);
                            lemma_sep_count_agree(p, v@, k as int);
                            assert(name@ =~= p.subrange(cut + 1, p.len() as int));
                            assert(before[parent as int].path@ =~= p.subrange(
                                0,
                                if cut < 0 {
                                    0
                                } else {
                                    cut
                                },
                            ));
                        }
                        let idx = add_node(&mut t, parent, prefix, name, depth_of(seps), true);
                        index.insert(string_of_range(v, 0, k), idx);
                        proof {
                            let after = t@;
                            assert(addressed(after, idx as int));
                            lemma_grown_addressed(before, after, parent as int);
                            assert(index_agrees(after, index@)) by {
                                assert forall|key: Seq<char>| #[trigger]
                                    index@.contains_key(key) implies index@[key] < after.len()
                                    && after[index@[key] as int].is_folder
                                    && after[index@[key] as int].path@ == key by {
                                    if key != p {
                                        assert(known.contains_key(key));
                                    }
                                }
                                assert forall|i: int|
                                    0 <= i < after.len() && (
                                    #[trigger] after[i]).is_folder implies index@.contains_key(
                                    after[i].path@,
                                ) && index@[after[i].path@] == i by {
                                    if i < before.len() {
                                        assert(before[i].is_folder);
                                        assert(known.contains_key(before[i].path@));
                                    }
                                }
                            }
                            assert(all_open_and_selected(after)) by {
                                assert forall|i: int| 0 <= i < after.len() implies (
                                #[trigger] after[i]).expanded && after[i].selected
                                    && !after[i].partially_selected by {
                                    if i < before.len() {
                                        assert(before[i].expanded);
                                    }
                                }
                            }
                            lemma_file_paths_agree(before, after, before.len() as int);
                            assert(file_paths(after) == file_paths(before));
                        }
                        parent = idx;
                    },
                }
                start = k + 1;
                seps += 1;
                proof {
                    assert(t@[parent as int].path@ =~= v@.subrange(0, k as int));
                }
            }
            k += 1;
        }
        // the file itself
        let name = string_of_range(v, start, v.len());
        let path = string_of(v);
        let ghost before = t@;
        proof {
            let cut = if start == 0 {
                -1
            } else {
                start - 1
            };
            lemma_last_index_of_unique(v@, '\\', cut);
            assert(name@ =~= v@.subrange(cut + 1, v@.len() as int));
        }
        let idx = add_node(&mut t, parent, path, name, depth_of(seps), false);
        proof {
            let after = t@;
            assert(addressed(after, idx as int));
            lemma_grown_addressed(before, after, parent as int);
            assert(index_agrees(after, index@)) by {
                assert forall|key: Seq<char>| #[trigger]
                    index@.contains_key(key) implies index@[key] < after.len()
                    && after[index@[key] as int].is_folder && after[index@[key] as int].path@
                    == key by {
                    let i = index@[key] as int;
                    assert(before[i].is_folder);
                }
                assert forall|i: int|
                    0 <= i < after.len() && (#[trigger] after[i]).is_folder implies index@.contains_key(
                    after[i].path@,
                ) && index@[after[i].path@] == i by {
                    assert(before[i].is_folder);
                }
            }
            assert(all_open_and_selected(after)) by {
                assert forall|i: int| 0 <= i < after.len() implies (#[trigger] after[i]).expanded
                    && after[i].selected && !after[i].partially_selected by {
                    if i < before.len() {
                        assert(before[i].expanded);
                    }
                }
            }
            lemma_file_paths_agree(before, after, before.len() as int);
            assert(pending_paths(list@).take(s + 1) =~= pending_paths(list@).take(s as int).push(
                v@,
            ));
        }
        s += 1;
    }
    proof {
        assert(pending_paths(list@).take(list@.len() as int) =~= pending_paths(list@));
        lemma_uniform_selection(t@, true);
        if list@.len() > 0 {
            lemma_file_counts(t@, t@.len() as int);
            assert(t@.len() > 1) by {
                if t@.len() == 1 {
                    reveal_with_fuel(file_paths_upto, 2);
                    assert(file_paths(t@).len() == 0);
                }
            }
            assert(child_linked(t@, 1));
            assert(t@[0].children@.len() > 0);
        }
        assert forall|i: int, j: int|
            0 <= i < j < t@.len() && (#[trigger] t@[i]).is_folder && (
            #[trigger] t@[j]).is_folder implies t@[i].path@ != t@[j].path@ by {
            assert(index@[t@[i].path@] == i);
            assert(index@[t@[j].path@] == j);
        }
    }
    t
}

/// Builds the hierarchy over a flat list of file paths.
///
/// Every path, written with backslashes, becomes a file of the tree; every prefix that a
/// path has before one of its backslashes becomes a folder, once; and every node hangs
/// below the folder that its path names. A backslash at the very beginning of a path has
/// nothing before it and names no folder: what follows it hangs below the root. The files
/// stand in the order of their sort keys, and every folder lists its folders first and
/// each kind by lower-cased name. Everything is expanded and selected.
pub fn build_tree(paths: &Vec<String>, root_name: String) -> (t: Vec<InternalNode>)
    ensures
        tree_wf(t@),
        rooted(t@, root_name@),
        all_open_and_selected(t@),
        all_addressed(t@),
        folders_distinct(t@),
        file_paths(t@).to_multiset() == normalized_paths(paths@).to_multiset(),
        file_paths(t@).len() == paths@.len(),
        in_key_order(file_paths(t@)),
        children_in_order(t@),
        first_child_follows(t@),
        paths@.len() > 0 ==> no_empty_folder(t@),
        children_sorted(t@),
{
    let list = sort_for_tree(paths);
    let t = build_nodes(&list, root_name);
    proof {
        let given = normalized_paths(paths@);
        let sorted = pending_paths(list@);
        given.to_multiset_ensures();
        sorted.to_multiset_ensures();
        if list@.len() == 0 {
            assert forall|p: int, x: int, y: int|
                0 <= p < t@.len() && 0 <= x < y < t@[p].children@.len() implies stands_before(
                t@[#[trigger] t@[p].children@[x] as int],
                t@[#[trigger] t@[p].children@[y] as int],
            ) by {
                assert(parent_linked(t@, p, x));
            }
        } else {
            lemma_children_sorted(t@);
        }
    }
    proof {
        let fp = file_paths(t@);
        fp.to_multiset_ensures();
        normalized_paths(paths@).to_multiset_ensures();
        assert forall|i: int, j: int| 0 <= i < j < fp.len() implies !lex_lt(
            tree_sort_key(#[trigger] fp[j]),
            tree_sort_key(#[trigger] fp[i]),
        ) by {
            assert(list@[i].key@ == tree_sort_key(list@[i].path@));
            assert(list@[j].key@ == tree_sort_key(list@[j].path@));
        }
    }
    t
}

} // verus!
