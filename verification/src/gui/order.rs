//! The order in which a folder shows its children: folders before files, and within
//! each kind by lower-cased name.

use vstd::prelude::*;
use vstd::utf8::encode_utf8;
use crate::gui::hierarchy::{
    addressed, all_addressed, child_follows, children_in_order, component_key,
    first_child_follows, first_sep_from, folders_distinct, in_key_order, key_start,
    sort_key_from, tree_sort_key,
};
use crate::gui::tree::{
    child_linked, file_paths, file_paths_upto, in_subtree, lemma_subtree_order,
    lemma_subtree_up, no_empty_folder, parent_linked, parents, same_place, structure_wf,
    InternalNode,
};
use crate::text::{
    escaped, last_index_of, lemma_escaped_order, lemma_last_index_of, lemma_lex_common_prefix,
    lemma_lex_first_byte, lemma_lex_trichotomy, lex_lt, lowercase,
};

verus! {

/// Whether `a` may stand before `b` among the children of one folder: a folder stands
/// before a file; two of a kind stand in the byte order of their lower-cased names, and
/// where these are equal, of their names.
pub open spec fn stands_before(a: InternalNode, b: InternalNode) -> bool {
    let lower_a = encode_utf8(lowercase(a.name@));
    let lower_b = encode_utf8(lowercase(b.name@));
    if a.is_folder != b.is_folder {
        a.is_folder
    } else {
        lex_lt(lower_a, lower_b) || (lower_a == lower_b && !lex_lt(
            encode_utf8(b.name@),
            encode_utf8(a.name@),
        ))
    }
}

/// Every folder lists its children folders first, and each kind by lower-cased name.
pub open spec fn children_sorted(t: Seq<InternalNode>) -> bool {
    forall|p: int, x: int, y: int|
        0 <= p < t.len() && 0 <= x < y < t[p].children@.len() ==> stands_before(
            t[#[trigger] t[p].children@[x] as int],
            t[#[trigger] t[p].children@[y] as int],
        )
}

/// Below every node stands a file, reached by going from each folder to the node right
/// behind it; all that is passed on the way lies below the node.
proof fn lemma_first_file_below(t: Seq<InternalNode>, a: int) -> (f: int)
    requires
        structure_wf(t),
        no_empty_folder(t),
        first_child_follows(t),
        0 <= a < t.len(),
    ensures
        a <= f < t.len(),
        !t[f].is_folder,
        !t[a].is_folder ==> f == a,
        forall|j: int| a <= j <= f ==> in_subtree(parents(t), j, a),
    decreases t.len() - a,
{
    let ps = parents(t);
    assert(in_subtree(ps, a, a));
    if !t[a].is_folder {
        a
    } else {
        assert(parent_linked(t, a, 0));
        assert(a + 1 < t.len());
        assert(child_follows(t, a));
        let f = lemma_first_file_below(t, a + 1);
        assert forall|j: int| a <= j <= f implies in_subtree(ps, j, a) by {
            if j > a {
                assert(in_subtree(ps, j, a + 1));
                lemma_subtree_up(ps, j, a + 1, a);
            }
        }
        f
    }
}

/// Whether `p` is `q` or what `q` holds before one of its backslashes.
pub open spec fn is_path_prefix(p: Seq<char>, q: Seq<char>) -> bool {
    &&& p.len() <= q.len()
    &&& q.subrange(0, p.len() as int) == p
    &&& p.len() == q.len() || q[p.len() as int] == '\\'
}

/// The path of a node is the beginning of the path of everything below it.
proof fn lemma_path_prefix(t: Seq<InternalNode>, f: int, x: int)
    requires
        structure_wf(t),
        t.len() > 0,
        t[0].path@.len() == 0,
        all_addressed(t),
        folders_distinct(t),
        0 < x < t.len(),
        0 <= f < t.len(),
        in_subtree(parents(t), f, x),
    ensures
        is_path_prefix(t[x].path@, t[f].path@),
        f != x ==> t[x].path@.len() < t[f].path@.len(),
    decreases f,
{
    let ps = parents(t);
    let px = t[x].path@;
    let pf = t[f].path@;
    if f == x {
        assert(pf.subrange(0, px.len() as int) =~= px);
    } else {
        let q = ps[f]->0 as int;
        lemma_subtree_order(ps, q, x);
        assert(addressed(t, f));
        assert(child_linked(t, f));
        assert(t[q].is_folder);
        let pq = t[q].path@;
        let cut = last_index_of(pf, '\\');
        lemma_last_index_of(pf, '\\');
        // q is a folder other than the root, so its path is not empty
        assert(pq.len() > 0) by {
            if pq.len() == 0 {
                assert(pq =~= t[0].path@);
            }
        }
        assert(cut >= 1);
        assert(pq == pf.subrange(0, cut));
        lemma_path_prefix(t, q, x);
        assert(pf.subrange(0, px.len() as int) =~= pq.subrange(0, px.len() as int));
        if px.len() < pq.len() {
            assert(pq[px.len() as int] == pf[px.len() as int]);
        }
    }
}

/// A file stands in the list of files behind all files before it, with its own path.
proof fn lemma_file_position(t: Seq<InternalNode>, f: int, n: int)
    requires
        0 <= f < n <= t.len(),
        !t[f].is_folder,
    ensures
        file_paths_upto(t, f).len() < file_paths_upto(t, n).len(),
        file_paths_upto(t, n)[file_paths_upto(t, f).len() as int] == t[f].path@,
    decreases n,
{
    if n - 1 > f {
        lemma_file_position(t, f, n - 1);
    }
}

/// The key that the folders of a path give: the keys of the components that begin at or
/// after `i` and end at or before the backslash at `k`.
pub open spec fn folders_key(v: Seq<char>, i: int, k: int) -> Seq<u8>
    decreases k + 1 - i,
{
    let j = first_sep_from(v, i);
    if i < 0 || i > k || j < i || j > k {
        Seq::empty()
    } else {
        component_key(v.subrange(i, j), false) + folders_key(v, j + 1, k)
    }
}

/// The first backslash at or after `s` is where the conditions say it is.
proof fn lemma_first_sep_is(v: Seq<char>, s: int, e: int)
    requires
        0 <= s <= e <= v.len(),
        forall|j: int| s <= j < e ==> v[j] != '\\',
        e == v.len() || v[e] == '\\',
    ensures
        first_sep_from(v, s) == e,
    decreases e - s,
{
    if s < e {
        lemma_first_sep_is(v, s + 1, e);
    }
}

/// The first backslash at or after `i` is not before `i`, and not behind a backslash
/// at `k`.
proof fn lemma_first_sep_bound(v: Seq<char>, i: int, k: int)
    requires
        0 <= i <= k < v.len(),
        v[k] == '\\',
    ensures
        i <= first_sep_from(v, i) <= k,
        v[first_sep_from(v, i)] == '\\',
        forall|j: int| i <= j < first_sep_from(v, i) ==> v[j] != '\\',
    decreases k - i,
{
    if v[i] != '\\' {
        lemma_first_sep_bound(v, i + 1, k);
    }
}

/// The sort key of a path from `i` on is the key of its folders up to the backslash at
/// `k`, followed by its sort key from behind that backslash on.
proof fn lemma_key_split(v: Seq<char>, i: int, k: int)
    requires
        0 <= i <= k + 1 <= v.len(),
        k >= 0 ==> v[k] == '\\',
    ensures
        sort_key_from(v, i) == folders_key(v, i, k) + sort_key_from(v, k + 1),
    decreases k + 1 - i,
{
    if i > k {
        assert(folders_key(v, i, k) =~= Seq::<u8>::empty());
        assert(sort_key_from(v, i) =~= folders_key(v, i, k) + sort_key_from(v, k + 1));
    } else {
        lemma_first_sep_bound(v, i, k);
        let j = first_sep_from(v, i);
        lemma_key_split(v, j + 1, k);
        assert(sort_key_from(v, i) =~= component_key(v.subrange(i, j), false) + sort_key_from(
            v,
            j + 1,
        ));
        assert(sort_key_from(v, i) =~= folders_key(v, i, k) + sort_key_from(v, k + 1));
    }
}

/// Two paths that agree up to a backslash at `k` give the same key of folders up to it.
proof fn lemma_folders_key_agree(v: Seq<char>, w: Seq<char>, i: int, k: int)
    requires
        0 <= i <= k + 1,
        k + 1 <= v.len(),
        k + 1 <= w.len(),
        k >= 0 ==> v[k] == '\\',
        forall|j: int| 0 <= j <= k ==> v[j] == w[j],
    ensures
        folders_key(v, i, k) == folders_key(w, i, k),
    decreases k + 1 - i,
{
    if i <= k {
        lemma_first_sep_bound(v, i, k);
        lemma_first_sep_bound(w, i, k);
        let j = first_sep_from(v, i);
        let jw = first_sep_from(w, i);
        assert(j == jw) by {
            if j < jw {
                assert(w[j] == v[j]);
            }
            if jw < j {
                assert(v[jw] == w[jw]);
            }
        }
        assert(v.subrange(i, j) =~= w.subrange(i, j));
        lemma_folders_key_agree(v, w, j + 1, k);
    }
}

/// The sort key of a file that lies below the node `x`, from where the name of `x`
/// begins: the key of that name, as a folder's where the file is not `x` itself, and
/// something behind it.
proof fn lemma_key_of_descendant(t: Seq<InternalNode>, f: int, x: int) -> (rest: Seq<u8>)
    requires
        structure_wf(t),
        t.len() > 0,
        t[0].path@.len() == 0,
        all_addressed(t),
        folders_distinct(t),
        0 < x < t.len(),
        0 <= f < t.len(),
        !t[f].is_folder,
        in_subtree(parents(t), f, x),
        f != x ==> t[x].is_folder,
    ensures
        sort_key_from(t[f].path@, last_index_of(t[x].path@, '\\') + 1) == component_key(
            t[x].name@,
            !t[x].is_folder,
        ) + rest,
{
    let px = t[x].path@;
    let pf = t[f].path@;
    let cut = last_index_of(px, '\\');
    let s = cut + 1;
    lemma_last_index_of(px, '\\');
    lemma_path_prefix(t, f, x);
    assert(addressed(t, x));
    let e = px.len() as int;
    assert forall|j: int| s <= j < e implies pf[j] != '\\' by {
        assert(pf.subrange(0, e)[j] == px[j]);
    }
    lemma_first_sep_is(pf, s, e);
    assert(pf.subrange(s, e) =~= px.subrange(s, e));
    assert(t[x].name@ == px.subrange(s, e));
    if f == x {
        assert(sort_key_from(pf, s) =~= component_key(t[x].name@, true) + Seq::<u8>::empty());
        Seq::empty()
    } else {
        sort_key_from(pf, e + 1)
    }
}

/// What holds of a tree that was built over at least one path.
pub open spec fn built_in_order(t: Seq<InternalNode>) -> bool {
    &&& structure_wf(t)
    &&& t.len() > 0
    &&& t[0].path@.len() == 0
    &&& all_addressed(t)
    &&& folders_distinct(t)
    &&& children_in_order(t)
    &&& first_child_follows(t)
    &&& no_empty_folder(t)
    &&& in_key_order(file_paths(t))
}

/// The same, kept closed so that each step of the proof opens only what it needs.
#[verifier::opaque]
spec fn in_order(t: Seq<InternalNode>) -> bool {
    built_in_order(t)
}

/// A file that stands before another in the tree does not come after it by sort key.
proof fn lemma_files_in_key_order(t: Seq<InternalNode>, fa: int, fb: int)
    requires
        in_key_order(file_paths(t)),
        0 <= fa < fb < t.len(),
        !t[fa].is_folder,
        !t[fb].is_folder,
    ensures
        !lex_lt(tree_sort_key(t[fb].path@), tree_sort_key(t[fa].path@)),
{
    lemma_file_position(t, fa, fb);
    lemma_file_position(t, fa, t.len() as int);
    lemma_file_position(t, fb, t.len() as int);
    let files = file_paths(t);
    let ia = file_paths_upto(t, fa).len() as int;
    let ib = file_paths_upto(t, fb).len() as int;
    assert(files[ia] == t[fa].path@);
    assert(files[ib] == t[fb].path@);
    assert(ia < ib < files.len());
}

/// A child of a folder does not lie below a child of the same folder that stands before
/// it.
proof fn lemma_sibling_outside(t: Seq<InternalNode>, p: int, a: int, b: int)
    requires
        structure_wf(t),
        0 <= p < t.len(),
        0 <= a < b < t.len(),
        t[a].parent is Some,
        t[a].parent->0 == p,
        t[b].parent is Some,
        t[b].parent->0 == p,
        p < a,
    ensures
        !in_subtree(parents(t), b, a),
{
    let ps = parents(t);
    if in_subtree(ps, b, a) {
        assert(in_subtree(ps, p, a));
        lemma_subtree_order(ps, p, a);
    }
}

/// Of two children of one folder, the first has a file below it whose sort key does not
/// come after that of a file below the second.
proof fn lemma_files_of_siblings(t: Seq<InternalNode>, p: int, x: int, y: int) -> (r: (int, int))
    requires
        in_order(t),
        0 <= p < t.len(),
        0 <= x < y < t[p].children@.len(),
    ensures
        0 <= r.0 < t.len(),
        0 <= r.1 < t.len(),
        !t[r.0].is_folder,
        !t[r.1].is_folder,
        in_subtree(parents(t), r.0, t[p].children@[x] as int),
        in_subtree(parents(t), r.1, t[p].children@[y] as int),
        r.0 != t[p].children@[x] ==> t[t[p].children@[x] as int].is_folder,
        r.1 != t[p].children@[y] ==> t[t[p].children@[y] as int].is_folder,
        !lex_lt(tree_sort_key(t[r.1].path@), tree_sort_key(t[r.0].path@)),
{
    let ps = parents(t);
    let a = t[p].children@[x] as int;
    let b = t[p].children@[y] as int;
    assert(structure_wf(t) && no_empty_folder(t) && first_child_follows(t)) by {
        reveal(in_order);
    }
    assert(a < b) by {
        reveal(in_order);
    }
    assert(parent_linked(t, p, x));
    assert(parent_linked(t, p, y));
    let fa = lemma_first_file_below(t, a);
    let fb = lemma_first_file_below(t, b);
    assert(in_subtree(ps, fa, a));
    assert(in_subtree(ps, fb, b));
    lemma_sibling_outside(t, p, a, b);
    assert(fa < b) by {
        if b <= fa {
            assert(in_subtree(ps, b, a));
        }
    }
    lemma_subtree_order(ps, fb, b);
    assert(!lex_lt(tree_sort_key(t[fb].path@), tree_sort_key(t[fa].path@))) by {
        assert(in_key_order(file_paths(t))) by {
            reveal(in_order);
        }
        lemma_files_in_key_order(t, fa, fb);
    }
    (fa, fb)
}

/// The names of two children of one folder other than the root begin at the same place
/// of their paths, behind the path of the folder.
proof fn lemma_siblings_cut(t: Seq<InternalNode>, p: int, a: int, b: int)
    requires
        t.len() > 0,
        t[0].path@.len() == 0,
        folders_distinct(t),
        0 < p < t.len(),
        t[0].is_folder,
        t[p].is_folder,
        0 < a < t.len(),
        0 < b < t.len(),
        t[a].parent is Some,
        t[a].parent->0 == p,
        t[b].parent is Some,
        t[b].parent->0 == p,
        addressed(t, a),
        addressed(t, b),
    ensures
        last_index_of(t[a].path@, '\\') == last_index_of(t[b].path@, '\\'),
        last_index_of(t[a].path@, '\\') >= 1,
        t[a].path@.subrange(0, last_index_of(t[a].path@, '\\')) == t[b].path@.subrange(
            0,
            last_index_of(t[a].path@, '\\'),
        ),
{
    let pa = t[a].path@;
    let pb = t[b].path@;
    let pp = t[p].path@;
    lemma_last_index_of(pa, '\\');
    lemma_last_index_of(pb, '\\');
    assert(pp.len() > 0) by {
        if pp.len() == 0 {
            assert(pp =~= t[0].path@);
        }
    }
    let cut_a = last_index_of(pa, '\\');
    let cut_b = last_index_of(pb, '\\');
    assert(pp == pa.subrange(0, if cut_a < 0 { 0 } else { cut_a }));
    assert(pp == pb.subrange(0, if cut_b < 0 { 0 } else { cut_b }));
    assert(cut_a == pp.len());
    assert(cut_b == pp.len());
}

/// Two paths with a common beginning agree on it.
proof fn lemma_agree_on_prefix(
    va: Seq<char>,
    pa: Seq<char>,
    vb: Seq<char>,
    pb: Seq<char>,
    cut: int,
)
    requires
        is_path_prefix(pa, va),
        is_path_prefix(pb, vb),
        0 <= cut < pa.len(),
        cut < pb.len(),
        pa.subrange(0, cut) == pb.subrange(0, cut),
        pa[cut] == '\\',
        pb[cut] == '\\',
    ensures
        forall|j: int| 0 <= j <= cut ==> va[j] == vb[j],
        va[cut] == '\\',
{
    let ha = va.subrange(0, pa.len() as int);
    let hb = vb.subrange(0, pb.len() as int);
    assert(ha == pa);
    assert(hb == pb);
    assert forall|j: int| 0 <= j <= cut implies va[j] == vb[j] by {
        assert(ha[j] == va[j]);
        assert(hb[j] == vb[j]);
        if j < cut {
            assert(pa.subrange(0, cut)[j] == pa[j]);
            assert(pb.subrange(0, cut)[j] == pb[j]);
        }
    }
    assert(ha[cut] == va[cut]);
}

/// The names of two children of one folder other than the root begin at the same place
/// of their paths, and the paths of what lies below them agree before that place.
proof fn lemma_siblings_share_start(t: Seq<InternalNode>, p: int, a: int, b: int, fa: int, fb: int)
    requires
        in_order(t),
        0 < p < t.len(),
        0 < a < t.len(),
        0 < b < t.len(),
        t[a].parent is Some,
        t[a].parent->0 == p,
        t[b].parent is Some,
        t[b].parent->0 == p,
        0 <= fa < t.len(),
        0 <= fb < t.len(),
        in_subtree(parents(t), fa, a),
        in_subtree(parents(t), fb, b),
    ensures
        last_index_of(t[a].path@, '\\') == last_index_of(t[b].path@, '\\'),
        1 <= last_index_of(t[a].path@, '\\') < t[fa].path@.len(),
        last_index_of(t[a].path@, '\\') < t[fb].path@.len(),
        t[fa].path@[last_index_of(t[a].path@, '\\')] == '\\',
        forall|j: int|
            0 <= j <= last_index_of(t[a].path@, '\\') ==> t[fa].path@[j] == t[fb].path@[j],
{
    let pa = t[a].path@;
    let pb = t[b].path@;
    let va = t[fa].path@;
    let vb = t[fb].path@;
    lemma_last_index_of(pa, '\\');
    lemma_last_index_of(pb, '\\');
    assert(is_path_prefix(pa, va) && is_path_prefix(pb, vb)) by {
        reveal(in_order);
        lemma_path_prefix(t, fa, a);
        lemma_path_prefix(t, fb, b);
    }
    assert(last_index_of(pa, '\\') == last_index_of(pb, '\\') && last_index_of(pa, '\\') >= 1
        && pa.subrange(0, last_index_of(pa, '\\')) == pb.subrange(
        0,
        last_index_of(pa, '\\'),
    )) by {
        reveal(in_order);
        assert(addressed(t, a));
        assert(addressed(t, b));
        assert(child_linked(t, a));
        assert(t[p].is_folder);
        assert(t[0].is_folder);
        lemma_siblings_cut(t, p, a, b);
    }
    let cut = last_index_of(pa, '\\');
    lemma_agree_on_prefix(va, pa, vb, pb, cut);
}

/// The sort key of what lies below a child of the root begins with the name of that
/// child.
proof fn lemma_top_level_start(t: Seq<InternalNode>, a: int, f: int)
    requires
        in_order(t),
        0 < a < t.len(),
        t[a].parent == Some(0usize),
        0 <= f < t.len(),
        in_subtree(parents(t), f, a),
        f != a ==> t[a].is_folder,
    ensures
        key_start(t[f].path@) == last_index_of(t[a].path@, '\\') + 1,
{
    let pa = t[a].path@;
    let va = t[f].path@;
    let cut = last_index_of(pa, '\\');
    lemma_last_index_of(pa, '\\');
    reveal(in_order);
    assert(addressed(t, a));
    lemma_path_prefix(t, f, a);
    assert(cut <= 0) by {
        if cut > 0 {
            assert(t[0].path@ == pa.subrange(0, cut));
        }
    }
    if pa.len() == 0 {
        // no folder but the root has an empty path
        assert(!t[a].is_folder) by {
            if t[a].is_folder {
                assert(t[a].path@ =~= t[0].path@);
            }
        }
    } else {
        assert(va.subrange(0, pa.len() as int)[0] == va[0]);
    }
}

/// What the order of two sort keys says of the nodes whose names they hold: where the key
/// with the name of `b` does not come before the key with the name of `a`, `a` may stand
/// before `b`.
proof fn lemma_names_compare(a: InternalNode, rest_a: Seq<u8>, b: InternalNode, rest_b: Seq<u8>)
    requires
        !lex_lt(
            component_key(b.name@, !b.is_folder) + rest_b,
            component_key(a.name@, !a.is_folder) + rest_a,
        ),
    ensures
        stands_before(a, b),
{
    let key_a = component_key(a.name@, !a.is_folder) + rest_a;
    let key_b = component_key(b.name@, !b.is_folder) + rest_b;
    let lower_a = encode_utf8(lowercase(a.name@));
    let lower_b = encode_utf8(lowercase(b.name@));
    let name_a = encode_utf8(a.name@);
    let name_b = encode_utf8(b.name@);
    let tail_a = escaped(lower_a) + (escaped(name_a) + rest_a);
    let tail_b = escaped(lower_b) + (escaped(name_b) + rest_b);
    let tag_a = if a.is_folder {
        1u8
    } else {
        2u8
    };
    let tag_b = if b.is_folder {
        1u8
    } else {
        2u8
    };
    assert(key_a =~= seq![tag_a] + tail_a);
    assert(key_b =~= seq![tag_b] + tail_b);
    if a.is_folder != b.is_folder {
        assert(key_a[0] == tag_a);
        assert(key_b[0] == tag_b);
        lemma_lex_first_byte(key_b, key_a);
    } else {
        lemma_lex_common_prefix(seq![tag_a], tail_b, tail_a);
        lemma_escaped_order(lower_b, escaped(name_b) + rest_b, lower_a, escaped(name_a) + rest_a);
        lemma_lex_trichotomy(lower_a, lower_b);
        if lower_a == lower_b {
            lemma_escaped_order(name_b, rest_b, name_a, rest_a);
        }
    }
}

/// `lemma_key_of_descendant`, for a tree that is in order.
proof fn lemma_descendant_key(t: Seq<InternalNode>, f: int, x: int) -> (rest: Seq<u8>)
    requires
        in_order(t),
        0 < x < t.len(),
        0 <= f < t.len(),
        !t[f].is_folder,
        in_subtree(parents(t), f, x),
        f != x ==> t[x].is_folder,
    ensures
        sort_key_from(t[f].path@, last_index_of(t[x].path@, '\\') + 1) == component_key(
            t[x].name@,
            !t[x].is_folder,
        ) + rest,
{
    reveal(in_order);
    lemma_key_of_descendant(t, f, x)
}

/// Two children of one folder stand in order.
proof fn lemma_siblings_sorted(t: Seq<InternalNode>, p: int, x: int, y: int)
    requires
        in_order(t),
        0 <= p < t.len(),
        0 <= x < y < t[p].children@.len(),
    ensures
        stands_before(t[t[p].children@[x] as int], t[t[p].children@[y] as int]),
{
    let a = t[p].children@[x] as int;
    let b = t[p].children@[y] as int;
    assert(0 < a < t.len() && 0 < b < t.len() && t[a].parent is Some && t[a].parent->0 == p
        && t[b].parent is Some && t[b].parent->0 == p) by {
        reveal(in_order);
        assert(parent_linked(t, p, x));
        assert(parent_linked(t, p, y));
    }
    let (fa, fb) = lemma_files_of_siblings(t, p, x, y);
    let va = t[fa].path@;
    let vb = t[fb].path@;
    let rest_a = lemma_descendant_key(t, fa, a);
    let rest_b = lemma_descendant_key(t, fb, b);
    let key_a = component_key(t[a].name@, !t[a].is_folder) + rest_a;
    let key_b = component_key(t[b].name@, !t[b].is_folder) + rest_b;
    if p == 0 {
        lemma_top_level_start(t, a, fa);
        lemma_top_level_start(t, b, fb);
        assert(tree_sort_key(va) == key_a);
        assert(tree_sort_key(vb) == key_b);
    } else {
        lemma_siblings_share_start(t, p, a, b, fa, fb);
        let cut = last_index_of(t[a].path@, '\\');
        let s0 = key_start(va);
        assert(key_start(vb) == s0);
        lemma_key_split(va, s0, cut);
        lemma_key_split(vb, s0, cut);
        lemma_folders_key_agree(va, vb, s0, cut);
        let common = folders_key(va, s0, cut);
        assert(tree_sort_key(va) == common + key_a);
        assert(tree_sort_key(vb) == common + key_b);
        lemma_lex_common_prefix(common, key_b, key_a);
    }
    lemma_names_compare(t[a], rest_a, t[b], rest_b);
}

/// In a tree whose files stand in key order, and whose folders are each followed by their
/// first child and none empty, every folder lists its children folders first and each
/// kind by lower-cased name.
pub proof fn lemma_children_sorted(t: Seq<InternalNode>)
    requires
        built_in_order(t),
    ensures
        children_sorted(t),
{
    assert(in_order(t)) by {
        reveal(in_order);
    }
    assert forall|p: int, x: int, y: int|
        0 <= p < t.len() && 0 <= x < y < t[p].children@.len() implies stands_before(
        t[#[trigger] t[p].children@[x] as int],
        t[#[trigger] t[p].children@[y] as int],
    ) by {
        lemma_siblings_sorted(t, p, x, y);
    }
}

/// The order of the children is fixed when the tree is built: a tree that differs from a
/// sorted one in selection and expansion only is sorted.
pub proof fn lemma_selection_keeps_order(a: Seq<InternalNode>, b: Seq<InternalNode>)
    requires
        structure_wf(a),
        a.len() == b.len(),
        forall|i: int| 0 <= i < a.len() ==> same_place(#[trigger] a[i], b[i]),
        children_sorted(a),
    ensures
        children_sorted(b),
{
    assert forall|p: int, x: int, y: int|
        0 <= p < b.len() && 0 <= x < y < b[p].children@.len() implies stands_before(
        b[#[trigger] b[p].children@[x] as int],
        b[#[trigger] b[p].children@[y] as int],
    ) by {
        assert(same_place(a[p], b[p]));
        assert(parent_linked(a, p, x));
        assert(parent_linked(a, p, y));
        let i = a[p].children@[x] as int;
        let j = a[p].children@[y] as int;
        assert(stands_before(a[i], a[j]));
        assert(same_place(a[i], b[i]));
        assert(same_place(a[j], b[j]));
    }
}

} // verus!
