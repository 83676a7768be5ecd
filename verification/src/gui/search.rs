//! The search filter: when a path matches it, and which nodes of a tree it shows.

use vstd::prelude::*;
use crate::gui::tree::{
    child_linked, in_subtree, is_ancestor, lemma_subtree_children, lemma_subtree_order,
    lemma_subtree_up, parent_linked, parents, structure_wf, InternalNode,
};
use crate::text::{chars_of, contains_chars, contains_seq, lowercase};

verus! {

/// Whether the pattern from position `i` on matches the text from position `j` on. A
/// star stands for any run of characters, the empty one included; every other character
/// stands for itself.
pub open spec fn glob_from(p: Seq<char>, t: Seq<char>, i: int, j: int) -> bool
    decreases p.len() - i, t.len() - j,
{
    if i < 0 || j < 0 || j > t.len() {
        false
    } else if i >= p.len() {
        j == t.len()
    } else if p[i] == '*' {
        glob_from(p, t, i + 1, j) || (j < t.len() && glob_from(p, t, i, j + 1))
    } else {
        j < t.len() && t[j] == p[i] && glob_from(p, t, i + 1, j + 1)
    }
}

/// Whether the whole pattern matches the whole text.
pub open spec fn glob_matches(p: Seq<char>, t: Seq<char>) -> bool {
    glob_from(p, t, 0, 0)
}

/// Whether a path matches a search filter. The empty filter matches every path. Filter
/// and path are compared in lower case: a filter with a star must match the whole path
/// as a pattern, a filter without one must occur somewhere in the path.
pub open spec fn matches_filter(filter: Seq<char>, path: Seq<char>) -> bool {
    if filter.len() == 0 {
        true
    } else if lowercase(filter).contains('*') {
        glob_matches(lowercase(filter), lowercase(path))
    } else {
        contains_seq(lowercase(path), lowercase(filter))
    }
}

/// Whether the pattern matches the text, a star standing for any run of characters.
pub fn glob_match(p: &Vec<char>, t: &Vec<char>) -> (r: bool)
    ensures
        r == glob_matches(p@, t@),
{
    let m = p.len();
    let n = t.len();
    // row[k] tells whether the pattern from i on matches the text from n - k on
    let mut row: Vec<bool> = Vec::new();
    row.push(true);
    let mut k: usize = 0;
    while k < n
        invariant
            k <= n,
            n == t@.len(),
            m == p@.len(),
            row@.len() == k + 1,
            forall|x: int| 0 <= x <= k ==> #[trigger] row@[x] == glob_from(p@, t@, m as int, n - x),
        decreases n - k,
    {
        k += 1;
        row.push(false);
    }
    let mut i: usize = m;
    while i > 0
        invariant
            i <= m,
            n == t@.len(),
            m == p@.len(),
            row@.len() == n + 1,
            forall|x: int| 0 <= x <= n ==> #[trigger] row@[x] == glob_from(p@, t@, i as int, n - x),
        decreases i,
    {
        i -= 1;
        let c = p[i];
        let mut next: Vec<bool> = Vec::new();
        next.push(c == '*' && row[0]);
        let mut k: usize = 0;
        while k < n
            invariant
                k <= n,
                i < m,
                n == t@.len(),
                m == p@.len(),
                c == p@[i as int],
                row@.len() == n + 1,
                next@.len() == k + 1,
                forall|x: int|
                    0 <= x <= n ==> #[trigger] row@[x] == glob_from(p@, t@, i + 1, n - x),
                forall|x: int|
                    0 <= x <= k ==> #[trigger] next@[x] == glob_from(p@, t@, i as int, n - x),
            decreases n - k,
        {
            k += 1;
            let value = if c == '*' {
                row[k] || next[k - 1]
            } else {
                t[n - k] == c && row[k - 1]
            };
            next.push(value);
        }
        row = next;
    }
    row[n]
}

/// A search filter made ready for matching: its lower-case form and whether that holds a
/// star.
pub struct SearchPattern {
    lower: Vec<char>,
    has_star: bool,
}

impl SearchPattern {
    /// The pattern is that of `filter`.
    pub closed spec fn stands_for(self, filter: Seq<char>) -> bool {
        &&& filter.len() > 0
        &&& self.lower@ == lowercase(filter)
        &&& self.has_star == lowercase(filter).contains('*')
    }

    /// Prepares a filter that is not empty.
    pub fn new(filter: &str) -> (p: SearchPattern)
        requires
            filter@.len() > 0,
        ensures
            p.stands_for(filter@),
    {
        let lowered = filter.to_lowercase();
        let lower = chars_of(lowered.as_str());
        let mut has_star = false;
        let mut i: usize = 0;
        while i < lower.len()
            invariant
                i <= lower@.len(),
                has_star == exists|k: int| 0 <= k < i && lower@[k] == '*',
            decreases lower@.len() - i,
        {
            if lower[i] == '*' {
                has_star = true;
            }
            i += 1;
        }
        assert(has_star == lower@.contains('*')) by {
            if has_star {
                let k = choose|k: int| 0 <= k < lower@.len() && lower@[k] == '*';
                assert(lower@[k] == '*');
            }
            if lower@.contains('*') {
                let k = choose|k: int| 0 <= k < lower@.len() && lower@[k] == '*';
            }
        }
        SearchPattern { lower, has_star }
    }

    /// Whether `path` matches the filter that this pattern stands for.
    pub fn matches(&self, path: &str, Ghost(filter): Ghost<Seq<char>>) -> (r: bool)
        requires
            self.stands_for(filter),
        ensures
            r == matches_filter(filter, path@),
    {
        let lowered = path.to_lowercase();
        let text = chars_of(lowered.as_str());
        if self.has_star {
            glob_match(&self.lower, &text)
        } else {
            contains_chars(&text, &self.lower)
        }
    }
}

/// Whether `path` matches `filter`.
pub fn path_matches_filter(filter: &str, path: &str) -> (r: bool)
    ensures
        r == matches_filter(filter@, path@),
{
    if chars_of(filter).len() == 0 {
        return true;
    }
    let pattern = SearchPattern::new(filter);
    pattern.matches(path, Ghost(filter@))
}

/// Whether node `i` or something below it matches the filter.
pub open spec fn subtree_matches(t: Seq<InternalNode>, filter: Seq<char>, i: int) -> bool {
    exists|j: int|
        0 <= j < t.len() && #[trigger] in_subtree(parents(t), j, i) && matches_filter(
            filter,
            t[j].path@,
        )
}

/// Whether every ancestor of node `i` is expanded.
pub open spec fn ancestors_expanded(t: Seq<InternalNode>, i: int) -> bool {
    forall|a: int| 0 <= a < t.len() && #[trigger] is_ancestor(parents(t), a, i) ==> t[a].expanded
}

/// Whether node `i` is shown: the filter is empty or matches the node or something
/// below it, and every ancestor of the node is expanded.
pub open spec fn visible(t: Seq<InternalNode>, filter: Seq<char>, i: int) -> bool {
    (filter.len() == 0 || subtree_matches(t, filter, i)) && ancestors_expanded(t, i)
}

/// Whether node `index` or something below it matches the pattern.
pub fn subtree_matches_pattern(
    t: &Vec<InternalNode>,
    pattern: &SearchPattern,
    Ghost(filter): Ghost<Seq<char>>,
    index: usize,
) -> (r: bool)
    requires
        structure_wf(t@),
        index < t@.len(),
        pattern.stands_for(filter),
    ensures
        r == subtree_matches(t@, filter, index as int),
    decreases t@.len() - index,
{
    let ghost ps = parents(t@);
    if pattern.matches(t[index].path.as_str(), Ghost(filter)) {
        assert(in_subtree(ps, index as int, index as int));
        return true;
    }
    let n = t[index].children.len();
    let mut k: usize = 0;
    while k < n
        invariant
            structure_wf(t@),
            index < t@.len(),
            pattern.stands_for(filter),
            ps == parents(t@),
            n == t@[index as int].children@.len(),
            k <= n,
            forall|m: int|
                0 <= m < k ==> !subtree_matches(t@, filter, #[trigger] t@[index as int].children@[m] as int),
        decreases n - k,
    {
        assert(parent_linked(t@, index as int, k as int));
        let c = t[index].children[k];
        if subtree_matches_pattern(t, pattern, Ghost(filter), c) {
            proof {
                let j = choose|j: int|
                    0 <= j < t@.len() && #[trigger] in_subtree(ps, j, c as int) && matches_filter(
                        filter,
                        t@[j].path@,
                    );
                lemma_subtree_children(t@, index as int, j);
                assert(in_subtree(ps, j, index as int));
            }
            return true;
        }
        k += 1;
    }
    proof {
        if subtree_matches(t@, filter, index as int) {
            let j = choose|j: int|
                0 <= j < t@.len() && #[trigger] in_subtree(ps, j, index as int) && matches_filter(
                    filter,
                    t@[j].path@,
                );
            lemma_subtree_children(t@, index as int, j);
            let m = choose|m: int|
                0 <= m < n && in_subtree(ps, j, #[trigger] t@[index as int].children@[m] as int);
            assert(subtree_matches(t@, filter, t@[index as int].children@[m] as int));
        }
    }
    false
}

/// Whether every ancestor of node `index` is expanded.
pub fn ancestors_are_expanded(t: &Vec<InternalNode>, index: usize) -> (r: bool)
    requires
        structure_wf(t@),
        index < t@.len(),
    ensures
        r == ancestors_expanded(t@, index as int),
{
    let ghost ps = parents(t@);
    let mut cur: usize = index;
    loop
        invariant
            structure_wf(t@),
            ps == parents(t@),
            cur <= index < t@.len(),
            in_subtree(ps, index as int, cur as int),
            forall|a: int|
                0 <= a < t@.len() && #[trigger] is_ancestor(ps, a, index as int) && !is_ancestor(
                    ps,
                    a,
                    cur as int,
                ) ==> t@[a].expanded,
        decreases cur,
    {
        match t[cur].parent {
            None => {
                proof {
                    assert forall|a: int|
                        0 <= a < t@.len() && #[trigger] is_ancestor(
                            ps,
                            a,
                            index as int,
                        ) implies t@[a].expanded by {
                        if is_ancestor(ps, a, cur as int) {
                            assert(ps[cur as int] is None);
                        }
                    }
                }
                return true;
            },
            Some(p) => {
                proof {
                    if cur > 0 {
                        assert(child_linked(t@, cur as int));
                    }
                    lemma_subtree_up(ps, index as int, cur as int, p as int);
                    lemma_subtree_order(ps, index as int, cur as int);
                }
                if !t[p].expanded {
                    assert(is_ancestor(ps, p as int, index as int));
                    return false;
                }
                proof {
                    assert forall|a: int|
                        0 <= a < t@.len() && #[trigger] is_ancestor(ps, a, index as int)
                            && !is_ancestor(ps, a, p as int) implies t@[a].expanded by {
                        if is_ancestor(ps, a, cur as int) {
                            assert(in_subtree(ps, p as int, a));
                        }
                    }
                }
                cur = p;
            },
        }
    }
}

/// Whether node `index` is shown under `filter`: the filter is empty or matches the node
/// or something below it, and every ancestor of the node is expanded.
pub fn node_is_visible(t: &Vec<InternalNode>, filter: &str, index: usize) -> (r: bool)
    requires
        structure_wf(t@),
        index < t@.len(),
    ensures
        r == visible(t@, filter@, index as int),
{
    if chars_of(filter).len() > 0 {
        let pattern = SearchPattern::new(filter);
        if !subtree_matches_pattern(t, &pattern, Ghost(filter@), index) {
            return false;
        }
    }
    ancestors_are_expanded(t, index)
}

} // verus!
