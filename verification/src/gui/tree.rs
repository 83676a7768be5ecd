//! The folder hierarchy over a flat list of paths: its shape, and how selection is kept
//! consistent between folders and what lies below them.

use vstd::prelude::*;

verus! {

/// A node of the hierarchy: the root, a folder or a file.
#[derive(Debug)]
pub struct InternalNode {
    /// The full path of the node, with backslashes; empty for the root.
    pub path: String,
    /// The last component of the path; for the root, the name given to the tree.
    pub name: String,
    /// The number of components of the path; 0 for the root.
    pub depth: i32,
    /// Whether the node is a folder. The root is one.
    pub is_folder: bool,
    /// Whether the folder shows its children.
    pub expanded: bool,
    /// Whether the node is selected: for a folder with children, whether all of them are.
    pub selected: bool,
    /// Whether some but not all that lies below the folder is selected.
    pub partially_selected: bool,
    /// The positions of the node's children, in display order.
    pub children: Vec<usize>,
    /// The position of the node's parent; `None` for the root.
    pub parent: Option<usize>,
}

/// The parent of every node.
pub open spec fn parents(t: Seq<InternalNode>) -> Seq<Option<usize>> {
    Seq::new(t.len(), |i: int| t[i].parent)
}

/// Whether `d` lies in the subtree of `a`: whether `a` is `d` itself or an ancestor of it.
pub open spec fn in_subtree(ps: Seq<Option<usize>>, d: int, a: int) -> bool
    decreases d,
{
    if d == a {
        true
    } else if d < 0 || d >= ps.len() {
        false
    } else {
        match ps[d] {
            Some(p) => p < d && in_subtree(ps, p as int, a),
            None => false,
        }
    }
}

/// Whether `a` is an ancestor of `d` and not `d` itself.
pub open spec fn is_ancestor(ps: Seq<Option<usize>>, a: int, d: int) -> bool {
    a != d && in_subtree(ps, d, a)
}

/// Node `i` names a parent that comes before it and lists it among its children.
pub open spec fn child_linked(t: Seq<InternalNode>, i: int) -> bool {
    &&& t[i].parent is Some
    &&& t[i].parent->0 < i
    &&& exists|k: int|
        0 <= k < t[t[i].parent->0 as int].children@.len() && #[trigger] t[t[i].parent->0 as int].children@[k]
            == i
}

/// The `k`-th child of node `i` comes after it and names it as its parent.
pub open spec fn parent_linked(t: Seq<InternalNode>, i: int, k: int) -> bool {
    &&& i < t[i].children@[k] < t.len()
    &&& t[t[i].children@[k] as int].parent is Some
    &&& t[t[i].children@[k] as int].parent->0 == i
}

/// The nodes form a tree: the first node is the root, a folder without parent; every
/// other node has a parent before it, and parent and child name each other; and only
/// folders have children.
pub open spec fn structure_wf(t: Seq<InternalNode>) -> bool {
    &&& t.len() > 0 ==> t[0].parent is None && t[0].is_folder
    &&& forall|i: int| 0 < i < t.len() ==> #[trigger] child_linked(t, i)
    &&& forall|i: int, k: int|
        0 <= i < t.len() && 0 <= k < t[i].children@.len() ==> #[trigger] parent_linked(t, i, k)
    &&& forall|i: int| 0 <= i < t.len() && !(#[trigger] t[i]).is_folder ==> t[i].children@.len() == 0
}

/// Whether a node counts as wholly selected.
pub open spec fn fully_selected(n: InternalNode) -> bool {
    n.selected && !n.partially_selected
}

/// Whether a node counts as selected at least in part.
pub open spec fn marked(n: InternalNode) -> bool {
    n.selected || n.partially_selected
}

/// Whether every child of node `i` is wholly selected.
pub open spec fn all_children_full(t: Seq<InternalNode>, i: int) -> bool {
    forall|k: int|
        0 <= k < t[i].children@.len() ==> fully_selected(#[trigger] t[t[i].children@[k] as int])
}

/// Whether some child of node `i` is selected at least in part.
pub open spec fn any_child_marked(t: Seq<InternalNode>, i: int) -> bool {
    exists|k: int| 0 <= k < t[i].children@.len() && marked(#[trigger] t[t[i].children@[k] as int])
}

/// The selection of node `i` is what its children add up to: a node with children is
/// selected exactly when all of them are wholly selected, and partially selected exactly
/// when some but not all of them are selected at least in part. A node without children
/// is never partially selected.
pub open spec fn node_agrees(t: Seq<InternalNode>, i: int) -> bool {
    if t[i].children@.len() == 0 {
        !t[i].partially_selected
    } else {
        &&& t[i].selected == all_children_full(t, i)
        &&& t[i].partially_selected == (any_child_marked(t, i) && !all_children_full(t, i))
    }
}

/// The selection of every node is what its children add up to.
pub open spec fn selection_consistent(t: Seq<InternalNode>) -> bool {
    forall|i: int| 0 <= i < t.len() ==> #[trigger] node_agrees(t, i)
}

/// The tree is well formed: it is a tree, and its selection is consistent.
pub open spec fn tree_wf(t: Seq<InternalNode>) -> bool {
    structure_wf(t) && selection_consistent(t)
}

/// Two nodes differ at most in their selection.
pub open spec fn same_but_selection(x: InternalNode, y: InternalNode) -> bool {
    &&& x.path == y.path
    &&& x.name == y.name
    &&& x.depth == y.depth
    &&& x.is_folder == y.is_folder
    &&& x.expanded == y.expanded
    &&& x.children == y.children
    &&& x.parent == y.parent
}

/// Two trees differ at most in the selection of their nodes.
pub open spec fn same_shape(a: Seq<InternalNode>, b: Seq<InternalNode>) -> bool {
    &&& a.len() == b.len()
    &&& forall|i: int| 0 <= i < a.len() ==> same_but_selection(#[trigger] a[i], b[i])
}

/// Two nodes have the same selection.
pub open spec fn same_selection(x: InternalNode, y: InternalNode) -> bool {
    x.selected == y.selected && x.partially_selected == y.partially_selected
}

/// No node is both selected and partially selected.
pub proof fn lemma_selected_excludes_partial(t: Seq<InternalNode>, i: int)
    requires
        selection_consistent(t),
        0 <= i < t.len(),
    ensures
        !(t[i].selected && t[i].partially_selected),
{
    assert(node_agrees(t, i));
}

/// A tree of the same shape as a tree is a tree, with the same parents.
pub proof fn lemma_same_shape(a: Seq<InternalNode>, b: Seq<InternalNode>)
    requires
        same_shape(a, b),
        structure_wf(a),
    ensures
        structure_wf(b),
        parents(a) == parents(b),
{
    assert(parents(a) =~= parents(b));
    assert forall|i: int| 0 < i < b.len() implies #[trigger] child_linked(b, i) by {
        assert(child_linked(a, i));
    }
    assert forall|i: int, k: int|
        0 <= i < b.len() && 0 <= k < b[i].children@.len() implies #[trigger] parent_linked(
        b,
        i,
        k,
    ) by {
        assert(parent_linked(a, i, k));
    }
    assert forall|i: int| 0 <= i < b.len() && !(#[trigger] b[i]).is_folder implies b[i].children@.len()
        == 0 by {
        assert(same_but_selection(a[i], b[i]));
    }
}

/// An ancestor comes before its descendants.
pub proof fn lemma_subtree_order(ps: Seq<Option<usize>>, d: int, a: int)
    requires
        in_subtree(ps, d, a),
    ensures
        a <= d,
    decreases d,
{
    if d != a {
        lemma_subtree_order(ps, ps[d]->0 as int, a);
    }
}

/// What lies below a node lies below the node's parent.
pub proof fn lemma_subtree_up(ps: Seq<Option<usize>>, d: int, c: int, p: int)
    requires
        in_subtree(ps, d, c),
        0 <= c < ps.len(),
        ps[c] is Some,
        ps[c]->0 == p,
        0 <= p < c,
    ensures
        in_subtree(ps, d, p),
    decreases d,
{
    if d == c {
        assert(in_subtree(ps, p, p));
    } else {
        lemma_subtree_up(ps, ps[d]->0 as int, c, p);
    }
}

/// The subtree of a node is the node and the subtrees of its children.
pub proof fn lemma_subtree_children(t: Seq<InternalNode>, index: int, j: int)
    requires
        structure_wf(t),
        0 <= index < t.len(),
        0 <= j < t.len(),
    ensures
        in_subtree(parents(t), j, index) <==> (j == index || exists|m: int|
            0 <= m < t[index].children@.len() && in_subtree(
                parents(t),
                j,
                #[trigger] t[index].children@[m] as int,
            )),
    decreases j,
{
    let ps = parents(t);
    let kids = t[index].children@;
    if j != index {
        if in_subtree(ps, j, index) {
            let p = ps[j]->0 as int;
            if p == index {
                assert(child_linked(t, j));
                let m = choose|m: int| 0 <= m < kids.len() && #[trigger] kids[m] == j;
                assert(in_subtree(ps, j, kids[m] as int));
            } else {
                lemma_subtree_children(t, index, p);
                let m = choose|m: int|
                    0 <= m < kids.len() && in_subtree(ps, p, #[trigger] kids[m] as int);
                assert(in_subtree(ps, j, kids[m] as int));
            }
        }
        if exists|m: int| 0 <= m < kids.len() && in_subtree(ps, j, #[trigger] kids[m] as int) {
            let m = choose|m: int|
                0 <= m < kids.len() && in_subtree(ps, j, #[trigger] kids[m] as int);
            let c = kids[m] as int;
            assert(parent_linked(t, index, m));
            lemma_subtree_up(ps, j, c, index);
        }
    }
}

/// Sets the selection of node `index` and of everything below it, and clears the partial
/// marks there. Nothing else changes.
pub fn set_selected_recursive(t: &mut Vec<InternalNode>, index: usize, selected: bool)
    requires
        structure_wf(old(t)@),
        index < old(t)@.len(),
    ensures
        same_shape(old(t)@, final(t)@),
        forall|j: int|
            0 <= j < old(t)@.len() ==> if in_subtree(parents(old(t)@), j, index as int) {
                (#[trigger] final(t)@[j]).selected == selected && !final(t)@[j].partially_selected
            } else {
                same_selection(final(t)@[j], old(t)@[j])
            },
    decreases old(t)@.len() - index,
{
    let ghost before = t@;
    let ghost ps = parents(before);
    let ghost kids = before[index as int].children@;
    t[index].selected = selected;
    t[index].partially_selected = false;
    let n = t[index].children.len();
    let mut k: usize = 0;
    while k < n
        invariant
            before.len() == old(t)@.len(),
            structure_wf(before),
            index < before.len(),
            ps == parents(before),
            kids == before[index as int].children@,
            n == kids.len(),
            k <= n,
            same_shape(before, t@),
            forall|j: int|
                0 <= j < before.len() ==> if j == index || exists|m: int|
                    0 <= m < k && in_subtree(ps, j, #[trigger] kids[m] as int) {
                    (#[trigger] t@[j]).selected == selected && !t@[j].partially_selected
                } else {
                    same_selection(t@[j], before[j])
                },
        decreases n - k,
    {
        let ghost mid = t@;
        proof {
            lemma_same_shape(before, mid);
            assert(parent_linked(before, index as int, k as int));
        }
        let c = t[index].children[k];
        assert(same_but_selection(before[index as int], mid[index as int]));
        assert(c == kids[k as int]);
        assert(index < c < mid.len());
        set_selected_recursive(t, c, selected);
        proof {
            assert forall|j: int| 0 <= j < before.len() implies if j == index || exists|m: int|
                0 <= m < k + 1 && in_subtree(ps, j, #[trigger] kids[m] as int) {
                (#[trigger] t@[j]).selected == selected && !t@[j].partially_selected
            } else {
                same_selection(t@[j], before[j])
            } by {
                if in_subtree(ps, j, c as int) {
                    assert(in_subtree(ps, j, kids[k as int] as int));
                } else {
                    assert(same_selection(t@[j], mid[j]));
                    if exists|m: int| 0 <= m < k + 1 && in_subtree(ps, j, #[trigger] kids[m] as int) {
                        let m = choose|m: int|
                            0 <= m < k + 1 && in_subtree(ps, j, #[trigger] kids[m] as int);
                        assert(m < k);
                    }
                }
            }
            assert forall|i: int| 0 <= i < before.len() implies same_but_selection(
                #[trigger] before[i],
                t@[i],
            ) by {
                assert(same_but_selection(before[i], mid[i]));
                assert(same_but_selection(mid[i], t@[i]));
            }
        }
        k += 1;
    }
    proof {
        assert forall|j: int| 0 <= j < before.len() implies if in_subtree(ps, j, index as int) {
            (#[trigger] t@[j]).selected == selected && !t@[j].partially_selected
        } else {
            same_selection(t@[j], before[j])
        } by {
            lemma_subtree_children(before, index as int, j);
        }
    }
}

/// What the children of node `p` add up to: whether all are wholly selected, and whether
/// any is selected at least in part.
pub fn children_summary(t: &Vec<InternalNode>, p: usize) -> (r: (bool, bool))
    requires
        structure_wf(t@),
        p < t@.len(),
    ensures
        r.0 == all_children_full(t@, p as int),
        r.1 == any_child_marked(t@, p as int),
{
    let mut all = true;
    let mut any = false;
    let n = t[p].children.len();
    let mut k: usize = 0;
    while k < n
        invariant
            structure_wf(t@),
            p < t@.len(),
            n == t@[p as int].children@.len(),
            k <= n,
            all == forall|m: int|
                0 <= m < k ==> fully_selected(#[trigger] t@[t@[p as int].children@[m] as int]),
            any == exists|m: int|
                0 <= m < k && marked(#[trigger] t@[t@[p as int].children@[m] as int]),
        decreases n - k,
    {
        assert(parent_linked(t@, p as int, k as int));
        let c = t[p].children[k];
        let ghost any_before = any;
        if !(t[c].selected && !t[c].partially_selected) {
            all = false;
        }
        if t[c].selected || t[c].partially_selected {
            any = true;
        }
        k += 1;
        proof {
            if any_before {
                let m = choose|m: int|
                    0 <= m < k - 1 && marked(#[trigger] t@[t@[p as int].children@[m] as int]);
                assert(0 <= m < k);
            }
            if !any {
                assert forall|m: int| 0 <= m < k implies !marked(
                    #[trigger] t@[t@[p as int].children@[m] as int],
                ) by {
                    if m < k - 1 {
                    }
                }
            }
        }
    }
    (all, any)
}

/// Recomputes the selection of every ancestor of `index` from its children, from the
/// parent of `index` up to the root.
pub fn update_parent_selection(t: &mut Vec<InternalNode>, index: usize)
    requires
        structure_wf(old(t)@),
        index < old(t)@.len(),
        forall|j: int|
            0 <= j < old(t)@.len() && !is_ancestor(parents(old(t)@), j, index as int)
                ==> #[trigger] node_agrees(old(t)@, j),
    ensures
        same_shape(old(t)@, final(t)@),
        selection_consistent(final(t)@),
        forall|j: int|
            0 <= j < old(t)@.len() && !is_ancestor(parents(old(t)@), j, index as int)
                ==> same_selection(#[trigger] final(t)@[j], old(t)@[j]),
{
    let ghost before = t@;
    let ghost ps = parents(before);
    let mut cur: usize = index;
    loop
        invariant
            structure_wf(before),
            ps == parents(before),
            same_shape(before, t@),
            cur <= index < before.len(),
            in_subtree(ps, index as int, cur as int),
            forall|j: int|
                0 <= j < before.len() && !is_ancestor(ps, j, cur as int) ==> #[trigger] node_agrees(
                    t@,
                    j,
                ),
            forall|j: int|
                0 <= j < before.len() && !is_ancestor(ps, j, index as int) ==> same_selection(
                    #[trigger] t@[j],
                    before[j],
                ),
        ensures
            same_shape(before, t@),
            selection_consistent(t@),
            forall|j: int|
                0 <= j < before.len() && !is_ancestor(ps, j, index as int) ==> same_selection(
                    #[trigger] t@[j],
                    before[j],
                ),
        decreases cur,
    {
        let ghost mid = t@;
        proof {
            lemma_same_shape(before, mid);
        }
        match t[cur].parent {
            None => {
                proof {
                    assert forall|j: int| 0 <= j < mid.len() implies #[trigger] node_agrees(
                        mid,
                        j,
                    ) by {
                        if is_ancestor(ps, j, cur as int) {
                            assert(ps[cur as int] is None);
                        }
                    }
                }
                break ;
            },
            Some(p) => {
                proof {
                    if cur > 0 {
                        assert(child_linked(mid, cur as int));
                    }
                    assert(cur > 0);
                    assert(p < cur);
                }
                let summary = children_summary(t, p);
                t[p].selected = summary.0;
                t[p].partially_selected = summary.1 && !summary.0;
                proof {
                    let now = t@;
                    assert forall|i: int| 0 <= i < before.len() implies same_but_selection(
                        #[trigger] before[i],
                        now[i],
                    ) by {
                        assert(same_but_selection(before[i], mid[i]));
                    }
                    lemma_subtree_up(ps, index as int, cur as int, p as int);
                    lemma_subtree_order(ps, index as int, cur as int);
                    assert(is_ancestor(ps, p as int, index as int));
                    // the children of a node other than p's parent are as they were
                    assert forall|j: int|
                        0 <= j < before.len() && !is_ancestor(
                            ps,
                            j,
                            p as int,
                        ) implies #[trigger] node_agrees(now, j) by {
                        assert forall|m: int| 0 <= m < now[j].children@.len() implies now[now[j].children@[m] as int]
                            == mid[mid[j].children@[m] as int] by {
                            assert(parent_linked(mid, j, m));
                            let c = mid[j].children@[m] as int;
                            if c == p {
                                assert(ps[p as int]->0 == j);
                                assert(in_subtree(ps, j, j));
                                assert(in_subtree(ps, p as int, j));
                            }
                        }
                        assert(all_children_full(now, j) == all_children_full(mid, j)) by {
                            if all_children_full(mid, j) {
                                assert forall|m: int|
                                    0 <= m < now[j].children@.len() implies fully_selected(
                                    #[trigger] now[now[j].children@[m] as int],
                                ) by {
                                    assert(fully_selected(mid[mid[j].children@[m] as int]));
                                }
                            }
                            if all_children_full(now, j) {
                                assert forall|m: int|
                                    0 <= m < mid[j].children@.len() implies fully_selected(
                                    #[trigger] mid[mid[j].children@[m] as int],
                                ) by {
                                    assert(fully_selected(now[now[j].children@[m] as int]));
                                }
                            }
                        }
                        assert(any_child_marked(now, j) == any_child_marked(mid, j)) by {
                            if any_child_marked(mid, j) {
                                let m = choose|m: int|
                                    0 <= m < mid[j].children@.len() && marked(
                                        #[trigger] mid[mid[j].children@[m] as int],
                                    );
                                assert(marked(now[now[j].children@[m] as int]));
                            }
                            if any_child_marked(now, j) {
                                let m = choose|m: int|
                                    0 <= m < now[j].children@.len() && marked(
                                        #[trigger] now[now[j].children@[m] as int],
                                    );
                                assert(marked(mid[mid[j].children@[m] as int]));
                            }
                        }
                        if j == p {
                            assert(child_linked(mid, cur as int));
                            assert(now[j].children@.len() > 0);
                        } else {
                            // an ancestor of cur is p or an ancestor of p
                            assert(!is_ancestor(ps, j, cur as int)) by {
                                if is_ancestor(ps, j, cur as int) {
                                    assert(in_subtree(ps, p as int, j));
                                }
                            }
                            assert(node_agrees(mid, j));
                            assert(now[j] == mid[j]);
                        }
                    }
                    assert forall|j: int|
                        0 <= j < before.len() && !is_ancestor(
                            ps,
                            j,
                            index as int,
                        ) implies same_selection(#[trigger] now[j], before[j]) by {
                        assert(same_selection(mid[j], before[j]));
                        assert(j != p);
                    }
                }
                cur = p;
            },
        }
    }
}

/// Flips the selection of node `index`, gives the new selection to everything below it,
/// and recomputes every ancestor from its children. An index outside the tree changes
/// nothing.
pub fn toggle_select_node(t: &mut Vec<InternalNode>, index: usize)
    requires
        tree_wf(old(t)@),
    ensures
        tree_wf(final(t)@),
        same_shape(old(t)@, final(t)@),
        index >= old(t)@.len() ==> forall|j: int|
            0 <= j < old(t)@.len() ==> same_selection(#[trigger] final(t)@[j], old(t)@[j]),
        index < old(t)@.len() ==> forall|j: int|
            0 <= j < old(t)@.len() ==> if in_subtree(parents(old(t)@), j, index as int) {
                (#[trigger] final(t)@[j]).selected == !old(t)@[index as int].selected
                    && !final(t)@[j].partially_selected
            } else if is_ancestor(parents(old(t)@), j, index as int) {
                true
            } else {
                same_selection(final(t)@[j], old(t)@[j])
            },
{
    if index >= t.len() {
        assert forall|i: int| 0 <= i < t@.len() implies same_but_selection(#[trigger] t@[i], t@[i]) by {
        }
        return ;
    }
    let ghost before = t@;
    let ghost ps = parents(before);
    let new_state = !t[index].selected;
    set_selected_recursive(t, index, new_state);
    let ghost mid = t@;
    proof {
        lemma_same_shape(before, mid);
        assert forall|j: int|
            0 <= j < mid.len() && !is_ancestor(ps, j, index as int) implies #[trigger] node_agrees(
            mid,
            j,
        ) by {
            if in_subtree(ps, j, index as int) {
                // everything below index, j's children included, has the new selection
                assert forall|m: int| 0 <= m < mid[j].children@.len() implies {
                    let c = #[trigger] mid[mid[j].children@[m] as int];
                    c.selected == new_state && !c.partially_selected
                } by {
                    assert(parent_linked(mid, j, m));
                    let c = mid[j].children@[m] as int;
                    assert(in_subtree(ps, c, index as int));
                }
                if mid[j].children@.len() > 0 {
                    let c0 = mid[mid[j].children@[0] as int];
                    assert(c0.selected == new_state && !c0.partially_selected);
                    if new_state {
                        assert(all_children_full(mid, j));
                        assert(marked(c0));
                    } else {
                        assert(!fully_selected(c0));
                        assert(!all_children_full(mid, j));
                        assert(!any_child_marked(mid, j));
                    }
                }
            } else {
                // j and its children lie outside the subtree and are as they were
                assert(node_agrees(before, j));
                assert(same_selection(mid[j], before[j]));
                assert forall|m: int| 0 <= m < mid[j].children@.len() implies same_selection(
                    #[trigger] mid[mid[j].children@[m] as int],
                    before[before[j].children@[m] as int],
                ) by {
                    assert(parent_linked(before, j, m));
                    assert(same_but_selection(before[j], mid[j]));
                    let c = before[j].children@[m] as int;
                    if in_subtree(ps, c, index as int) {
                        if c == index {
                            assert(in_subtree(ps, j, j));
                            assert(in_subtree(ps, index as int, j));
                        } else {
                            assert(in_subtree(ps, j, index as int));
                        }
                    }
                }
                assert(same_but_selection(before[j], mid[j]));
                assert(all_children_full(mid, j) == all_children_full(before, j)) by {
                    if all_children_full(before, j) {
                        assert forall|m: int|
                            0 <= m < mid[j].children@.len() implies fully_selected(
                            #[trigger] mid[mid[j].children@[m] as int],
                        ) by {
                            assert(fully_selected(before[before[j].children@[m] as int]));
                        }
                    }
                    if all_children_full(mid, j) {
                        assert forall|m: int|
                            0 <= m < before[j].children@.len() implies fully_selected(
                            #[trigger] before[before[j].children@[m] as int],
                        ) by {
                            assert(fully_selected(mid[mid[j].children@[m] as int]));
                        }
                    }
                }
                assert(any_child_marked(mid, j) == any_child_marked(before, j)) by {
                    if any_child_marked(before, j) {
                        let m = choose|m: int|
                            0 <= m < before[j].children@.len() && marked(
                                #[trigger] before[before[j].children@[m] as int],
                            );
                        assert(marked(mid[mid[j].children@[m] as int]));
                    }
                    if any_child_marked(mid, j) {
                        let m = choose|m: int|
                            0 <= m < mid[j].children@.len() && marked(
                                #[trigger] mid[mid[j].children@[m] as int],
                            );
                        assert(marked(before[before[j].children@[m] as int]));
                    }
                }
            }
        }
    }
    update_parent_selection(t, index);
    proof {
        assert forall|i: int| 0 <= i < before.len() implies same_but_selection(
            #[trigger] before[i],
            t@[i],
        ) by {
            assert(same_but_selection(before[i], mid[i]));
            assert(same_but_selection(mid[i], t@[i]));
        }
        lemma_same_shape(before, t@);
        assert forall|j: int| 0 <= j < before.len() implies if in_subtree(ps, j, index as int) {
            (#[trigger] t@[j]).selected == !before[index as int].selected
                && !t@[j].partially_selected
        } else if is_ancestor(ps, j, index as int) {
            true
        } else {
            same_selection(t@[j], before[j])
        } by {
            if in_subtree(ps, j, index as int) {
                lemma_subtree_order(ps, j, index as int);
                if is_ancestor(ps, j, index as int) {
                    lemma_subtree_order(ps, index as int, j);
                }
                assert(same_selection(t@[j], mid[j]));
            } else if !is_ancestor(ps, j, index as int) {
                assert(same_selection(t@[j], mid[j]));
                assert(same_selection(mid[j], before[j]));
            }
        }
    }
}

/// Whether `j` is a file in the subtree of `i`.
pub open spec fn is_file_below(t: Seq<InternalNode>, j: int, i: int) -> bool {
    0 <= j < t.len() && !t[j].is_folder && in_subtree(parents(t), j, i)
}

/// Every folder has at least one child.
pub open spec fn no_empty_folder(t: Seq<InternalNode>) -> bool {
    forall|f: int| 0 <= f < t.len() && (#[trigger] t[f]).is_folder ==> t[f].children@.len() > 0
}

/// In a consistent tree without empty folders, what a node shows is what the files below
/// it add up to: the node is wholly selected exactly when every file below it is
/// selected, and selected at least in part exactly when some file below it is.
pub proof fn lemma_selection_reflects_files(t: Seq<InternalNode>, i: int)
    requires
        tree_wf(t),
        no_empty_folder(t),
        0 <= i < t.len(),
    ensures
        fully_selected(t[i]) <==> forall|j: int| is_file_below(t, j, i) ==> t[j].selected,
        marked(t[i]) <==> exists|j: int| is_file_below(t, j, i) && t[j].selected,
    decreases t.len() - i,
{
    let ps = parents(t);
    let kids = t[i].children@;
    assert(node_agrees(t, i));
    assert(in_subtree(ps, i, i));
    if kids.len() == 0 {
        assert(!t[i].is_folder);
        assert forall|j: int| is_file_below(t, j, i) implies j == i by {
            lemma_subtree_children(t, i, j);
        }
        assert(is_file_below(t, i, i));
    } else {
        assert forall|m: int| 0 <= m < kids.len() implies i < (#[trigger] kids[m]) < t.len() by {
            assert(parent_linked(t, i, m));
        }
        assert forall|m: int| 0 <= m < kids.len() implies (fully_selected(
            #[trigger] t[kids[m] as int],
        ) <==> forall|j: int| is_file_below(t, j, kids[m] as int) ==> t[j].selected) && (marked(
            t[kids[m] as int],
        ) <==> exists|j: int| is_file_below(t, j, kids[m] as int) && t[j].selected) by {
            lemma_selection_reflects_files(t, kids[m] as int);
        }
        // a file lies below i exactly when it lies below one of i's children
        assert forall|j: int| is_file_below(t, j, i) <==> exists|m: int|
            0 <= m < kids.len() && is_file_below(t, j, #[trigger] kids[m] as int) by {
            if 0 <= j < t.len() {
                lemma_subtree_children(t, i, j);
                if is_file_below(t, j, i) {
                    assert(j != i);
                    let m = choose|m: int|
                        0 <= m < kids.len() && in_subtree(ps, j, #[trigger] kids[m] as int);
                    assert(is_file_below(t, j, kids[m] as int));
                }
                if exists|m: int|
                    0 <= m < kids.len() && is_file_below(t, j, #[trigger] kids[m] as int) {
                    let m = choose|m: int|
                        0 <= m < kids.len() && is_file_below(t, j, #[trigger] kids[m] as int);
                    assert(in_subtree(ps, j, kids[m] as int));
                }
            }
        }
        let all_files = forall|j: int| is_file_below(t, j, i) ==> t[j].selected;
        let some_file = exists|j: int| is_file_below(t, j, i) && t[j].selected;
        assert(all_children_full(t, i) <==> all_files) by {
            if all_children_full(t, i) {
                assert forall|j: int| is_file_below(t, j, i) implies t[j].selected by {
                    let m = choose|m: int|
                        0 <= m < kids.len() && is_file_below(t, j, #[trigger] kids[m] as int);
                    assert(fully_selected(t[kids[m] as int]));
                }
            }
            if all_files {
                assert forall|m: int| 0 <= m < kids.len() implies fully_selected(
                    #[trigger] t[kids[m] as int],
                ) by {
                    assert forall|j: int| is_file_below(t, j, kids[m] as int) implies t[j].selected by {
                        assert(is_file_below(t, j, i));
                    }
                }
            }
        }
        assert(any_child_marked(t, i) <==> some_file) by {
            if any_child_marked(t, i) {
                let m = choose|m: int| 0 <= m < kids.len() && marked(#[trigger] t[kids[m] as int]);
                let j = choose|j: int| is_file_below(t, j, kids[m] as int) && t[j].selected;
                assert(is_file_below(t, j, i));
            }
            if some_file {
                let j = choose|j: int| is_file_below(t, j, i) && t[j].selected;
                let m = choose|m: int|
                    0 <= m < kids.len() && is_file_below(t, j, #[trigger] kids[m] as int);
                assert(marked(t[kids[m] as int]));
            }
        }
        if all_children_full(t, i) {
            assert(fully_selected(t[kids[0] as int]));
            assert(marked(t[kids[0] as int]));
        }
    }
}

/// The tri-state of a folder, told from the files below it: in a consistent tree without
/// empty folders, a folder is selected exactly when every file below it is selected, and
/// partially selected exactly when some but not all of them are; it is never both.
pub proof fn lemma_folder_tri_state(t: Seq<InternalNode>, i: int)
    requires
        tree_wf(t),
        no_empty_folder(t),
        0 <= i < t.len(),
        t[i].is_folder,
    ensures
        t[i].selected <==> forall|j: int| is_file_below(t, j, i) ==> t[j].selected,
        t[i].partially_selected <==> (exists|j: int| is_file_below(t, j, i) && t[j].selected) && (
        exists|j: int| is_file_below(t, j, i) && !t[j].selected),
        !(t[i].selected && t[i].partially_selected),
{
    lemma_selection_reflects_files(t, i);
    assert(node_agrees(t, i));
}

/// A tree whose nodes all have the same selection and no partial mark is consistent.
pub proof fn lemma_uniform_selection(t: Seq<InternalNode>, selected: bool)
    requires
        structure_wf(t),
        forall|j: int|
            0 <= j < t.len() ==> (#[trigger] t[j]).selected == selected && !t[j].partially_selected,
    ensures
        selection_consistent(t),
{
    assert forall|j: int| 0 <= j < t.len() implies #[trigger] node_agrees(t, j) by {
        if t[j].children@.len() > 0 {
            assert(parent_linked(t, j, 0));
            let c0 = t[t[j].children@[0] as int];
            assert(c0.selected == selected && !c0.partially_selected);
            assert forall|m: int| 0 <= m < t[j].children@.len() implies {
                let c = #[trigger] t[t[j].children@[m] as int];
                c.selected == selected && !c.partially_selected
            } by {
                assert(parent_linked(t, j, m));
            }
            if selected {
                assert(all_children_full(t, j));
                assert(marked(c0));
            } else {
                assert(!fully_selected(c0));
                assert(!any_child_marked(t, j));
            }
        }
    }
}

/// Selects or deselects every node and clears every partial mark.
pub fn set_all_selected(t: &mut Vec<InternalNode>, selected: bool)
    requires
        structure_wf(old(t)@),
    ensures
        tree_wf(final(t)@),
        same_shape(old(t)@, final(t)@),
        forall|j: int|
            0 <= j < old(t)@.len() ==> (#[trigger] final(t)@[j]).selected == selected
                && !final(t)@[j].partially_selected,
{
    let ghost before = t@;
    let mut i: usize = 0;
    while i < t.len()
        invariant
            i <= t@.len(),
            same_shape(before, t@),
            forall|j: int|
                0 <= j < i ==> (#[trigger] t@[j]).selected == selected && !t@[j].partially_selected,
        decreases t@.len() - i,
    {
        let ghost mid = t@;
        t[i].selected = selected;
        t[i].partially_selected = false;
        i += 1;
        proof {
            assert forall|j: int| 0 <= j < before.len() implies same_but_selection(
                #[trigger] before[j],
                t@[j],
            ) by {
                assert(same_but_selection(before[j], mid[j]));
            }
        }
    }
    proof {
        lemma_same_shape(before, t@);
        lemma_uniform_selection(t@, selected);
    }
}

/// Two nodes differ at most in whether they are expanded.
pub open spec fn same_but_expanded(x: InternalNode, y: InternalNode) -> bool {
    &&& x.path == y.path
    &&& x.name == y.name
    &&& x.depth == y.depth
    &&& x.is_folder == y.is_folder
    &&& x.selected == y.selected
    &&& x.partially_selected == y.partially_selected
    &&& x.children == y.children
    &&& x.parent == y.parent
}

/// Flips whether the folder at `index` shows its children. A file, or an index outside
/// the tree, changes nothing; no other node changes.
pub fn toggle_expand_node(t: &mut Vec<InternalNode>, index: usize)
    ensures
        final(t)@.len() == old(t)@.len(),
        forall|j: int| 0 <= j < old(t)@.len() && j != index ==> final(t)@[j] == old(t)@[j],
        index < old(t)@.len() ==> same_but_expanded(old(t)@[index as int], final(t)@[index as int])
            && final(t)@[index as int].expanded == if old(t)@[index as int].is_folder {
            !old(t)@[index as int].expanded
        } else {
            old(t)@[index as int].expanded
        },
        tree_wf(old(t)@) ==> tree_wf(final(t)@),
{
    let ghost before = t@;
    if index < t.len() && t[index].is_folder {
        let now = !t[index].expanded;
        t[index].expanded = now;
    }
    proof {
        let after = t@;
        if tree_wf(before) {
            assert forall|i: int| 0 < i < after.len() implies #[trigger] child_linked(after, i) by {
                assert(child_linked(before, i));
                let q = before[i].parent->0 as int;
                let k = choose|k: int|
                    0 <= k < before[q].children@.len() && #[trigger] before[q].children@[k] == i;
                assert(after[q].children@[k] == i);
            }
            assert forall|i: int, k: int|
                0 <= i < after.len() && 0 <= k < after[i].children@.len() implies #[trigger] parent_linked(
                after,
                i,
                k,
            ) by {
                assert(parent_linked(before, i, k));
            }
            assert forall|j: int| 0 <= j < after.len() implies #[trigger] node_agrees(after, j) by {
                assert(node_agrees(before, j));
                assert forall|m: int| 0 <= m < after[j].children@.len() implies same_selection(
                    #[trigger] after[after[j].children@[m] as int],
                    before[before[j].children@[m] as int],
                ) by {
                    assert(parent_linked(before, j, m));
                }
                if all_children_full(before, j) {
                    assert forall|m: int| 0 <= m < after[j].children@.len() implies fully_selected(
                        #[trigger] after[after[j].children@[m] as int],
                    ) by {
                        assert(fully_selected(before[before[j].children@[m] as int]));
                    }
                }
                if all_children_full(after, j) {
                    assert forall|m: int|
                        0 <= m < before[j].children@.len() implies fully_selected(
                        #[trigger] before[before[j].children@[m] as int],
                    ) by {
                        assert(fully_selected(after[after[j].children@[m] as int]));
                    }
                }
                if any_child_marked(before, j) {
                    let m = choose|m: int|
                        0 <= m < before[j].children@.len() && marked(
                            #[trigger] before[before[j].children@[m] as int],
                        );
                    assert(marked(after[after[j].children@[m] as int]));
                }
                if any_child_marked(after, j) {
                    let m = choose|m: int|
                        0 <= m < after[j].children@.len() && marked(
                            #[trigger] after[after[j].children@[m] as int],
                        );
                    assert(marked(before[before[j].children@[m] as int]));
                }
            }
        }
    }
}

/// The paths of the selected files among the first `n` nodes, in tree order.
pub open spec fn selected_files_upto(t: Seq<InternalNode>, n: int) -> Seq<Seq<char>>
    decreases n,
{
    if n <= 0 {
        Seq::empty()
    } else {
        let before = selected_files_upto(t, n - 1);
        if !t[n - 1].is_folder && t[n - 1].selected {
            before.push(t[n - 1].path@)
        } else {
            before
        }
    }
}

/// The paths of the files among the first `n` nodes, in tree order.
pub open spec fn file_paths_upto(t: Seq<InternalNode>, n: int) -> Seq<Seq<char>>
    decreases n,
{
    if n <= 0 {
        Seq::empty()
    } else {
        let before = file_paths_upto(t, n - 1);
        if !t[n - 1].is_folder {
            before.push(t[n - 1].path@)
        } else {
            before
        }
    }
}

/// The paths of the selected files of a tree, in tree order.
pub open spec fn selected_files(t: Seq<InternalNode>) -> Seq<Seq<char>> {
    selected_files_upto(t, t.len() as int)
}

/// The paths of the files of a tree, in tree order.
pub open spec fn file_paths(t: Seq<InternalNode>) -> Seq<Seq<char>> {
    file_paths_upto(t, t.len() as int)
}

/// Two nodes stand for the same file or folder with the same children.
pub open spec fn same_place(x: InternalNode, y: InternalNode) -> bool {
    x.path == y.path && x.name == y.name && x.is_folder == y.is_folder && x.children == y.children
}

/// The file paths of two trees that agree, node by node, on path and kind.
pub proof fn lemma_file_paths_agree(a: Seq<InternalNode>, b: Seq<InternalNode>, n: int)
    requires
        0 <= n <= a.len(),
        n <= b.len(),
        forall|i: int|
            0 <= i < n ==> (#[trigger] a[i]).path == b[i].path && a[i].is_folder == b[i].is_folder,
    ensures
        file_paths_upto(a, n) == file_paths_upto(b, n),
    decreases n,
{
    if n > 0 {
        lemma_file_paths_agree(a, b, n - 1);
    }
}

/// Two trees whose nodes stand for the same files and folders hold the same files, and
/// either both have an empty folder or neither has.
pub proof fn lemma_same_files(a: Seq<InternalNode>, b: Seq<InternalNode>)
    requires
        a.len() == b.len(),
        forall|i: int| 0 <= i < a.len() ==> same_place(#[trigger] a[i], b[i]),
    ensures
        file_paths(a) == file_paths(b),
        no_empty_folder(a) == no_empty_folder(b),
{
    assert forall|i: int| 0 <= i < a.len() implies (#[trigger] a[i]).path == b[i].path
        && a[i].is_folder == b[i].is_folder by {
        assert(same_place(a[i], b[i]));
    }
    lemma_file_paths_agree(a, b, a.len() as int);
    if no_empty_folder(a) {
        assert forall|f: int| 0 <= f < b.len() && (#[trigger] b[f]).is_folder implies b[f].children@.len()
            > 0 by {
            assert(same_place(a[f], b[f]));
        }
    }
    if no_empty_folder(b) {
        assert forall|f: int| 0 <= f < a.len() && (#[trigger] a[f]).is_folder implies a[f].children@.len()
            > 0 by {
            assert(same_place(a[f], b[f]));
        }
    }
}

/// There are no more selected files, and no more files, than nodes looked at.
pub proof fn lemma_file_counts(t: Seq<InternalNode>, n: int)
    requires
        0 <= n,
    ensures
        selected_files_upto(t, n).len() <= file_paths_upto(t, n).len() <= n,
    decreases n,
{
    if n > 0 {
        lemma_file_counts(t, n - 1);
    }
}

/// The paths of the selected files, in tree order.
pub fn selected_file_paths(t: &Vec<InternalNode>) -> (r: Vec<String>)
    ensures
        Seq::new(r@.len(), |i: int| r@[i]@) == selected_files(t@),
{
    let mut r: Vec<String> = Vec::new();
    let mut i: usize = 0;
    while i < t.len()
        invariant
            i <= t@.len(),
            Seq::new(r@.len(), |k: int| r@[k]@) == selected_files_upto(t@, i as int),
        decreases t@.len() - i,
    {
        let ghost held = Seq::new(r@.len(), |k: int| r@[k]@);
        if !t[i].is_folder && t[i].selected {
            r.push(t[i].path.clone());
            assert(Seq::new(r@.len(), |k: int| r@[k]@) =~= held.push(t@[i as int].path@));
        }
        i += 1;
    }
    r
}

/// The number of selected files.
pub fn count_selected_files(t: &Vec<InternalNode>) -> (n: usize)
    ensures
        n == selected_files(t@).len(),
{
    let mut n: usize = 0;
    let mut i: usize = 0;
    while i < t.len()
        invariant
            i <= t@.len(),
            n == selected_files_upto(t@, i as int).len(),
            n <= i,
        decreases t@.len() - i,
    {
        if !t[i].is_folder && t[i].selected {
            n += 1;
        }
        i += 1;
    }
    n
}

/// The number of files.
pub fn count_files(t: &Vec<InternalNode>) -> (n: usize)
    ensures
        n == file_paths(t@).len(),
{
    let mut n: usize = 0;
    let mut i: usize = 0;
    while i < t.len()
        invariant
            i <= t@.len(),
            n == file_paths_upto(t@, i as int).len(),
            n <= i,
        decreases t@.len() - i,
    {
        if !t[i].is_folder {
            n += 1;
        }
        i += 1;
    }
    n
}

} // verus!
