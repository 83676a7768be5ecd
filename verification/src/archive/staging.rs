//! The files staged for an archive that is about to be built: a map from key to payload,
//! kept in key order so that what is built does not depend on the order of staging.

use vstd::prelude::*;
use crate::text::{bytes_eq, bytes_lt, lemma_lex_transitive, lemma_lex_trichotomy, lex_lt};

verus! {

/// Whether the keys of `s` increase strictly.
pub open spec fn sorted_strict(s: Seq<(Seq<u8>, Seq<u8>)>) -> bool {
    forall|i: int, j: int| 0 <= i < j < s.len() ==> lex_lt(#[trigger] s[i].0, #[trigger] s[j].0)
}

/// Whether `k` is the key of some pair of `s`.
pub open spec fn has_key(s: Seq<(Seq<u8>, Seq<u8>)>, k: Seq<u8>) -> bool {
    exists|i: int| 0 <= i < s.len() && (#[trigger] s[i]).0 == k
}

/// The map that a sequence of pairs stands for.
pub open spec fn pairs_map(s: Seq<(Seq<u8>, Seq<u8>)>) -> Map<Seq<u8>, Seq<u8>> {
    Map::new(
        |k: Seq<u8>| has_key(s, k),
        |k: Seq<u8>| s[choose|i: int| 0 <= i < s.len() && (#[trigger] s[i]).0 == k].1,
    )
}

/// In a strictly increasing sequence a key stands at one position only, and the map's
/// value for it is the payload at that position.
pub proof fn lemma_pairs_map_at(s: Seq<(Seq<u8>, Seq<u8>)>, i: int)
    requires
        sorted_strict(s),
        0 <= i < s.len(),
    ensures
        pairs_map(s).dom().contains(s[i].0),
        pairs_map(s)[s[i].0] == s[i].1,
        forall|j: int| 0 <= j < s.len() && (#[trigger] s[j]).0 == s[i].0 ==> j == i,
{
    assert forall|j: int| 0 <= j < s.len() && (#[trigger] s[j]).0 == s[i].0 implies j == i by {
        lemma_lex_trichotomy(s[i].0, s[j].0);
    }
    assert(has_key(s, s[i].0));
}

/// The map of a strictly increasing sequence has as many keys as the sequence has pairs.
pub proof fn lemma_pairs_map_len(s: Seq<(Seq<u8>, Seq<u8>)>)
    requires
        sorted_strict(s),
    ensures
        pairs_map(s).dom().finite(),
        pairs_map(s).dom().len() == s.len(),
    decreases s.len(),
{
    if s.len() == 0 {
        assert(pairs_map(s).dom() =~= Set::<Seq<u8>>::empty());
    } else {
        let t = s.drop_last();
        let last = s[s.len() - 1];
        assert forall|i: int, j: int| 0 <= i < j < t.len() implies lex_lt(
            #[trigger] t[i].0,
            #[trigger] t[j].0,
        ) by {
            assert(t[i] == s[i] && t[j] == s[j]);
        }
        lemma_pairs_map_len(t);
        assert(!has_key(t, last.0)) by {
            if has_key(t, last.0) {
                let i = choose|i: int| 0 <= i < t.len() && (#[trigger] t[i]).0 == last.0;
                assert(t[i] == s[i]);
                lemma_lex_trichotomy(s[i].0, s[s.len() - 1].0);
            }
        }
        assert(pairs_map(s).dom() =~= pairs_map(t).dom().insert(last.0)) by {
            assert forall|k: Seq<u8>| has_key(s, k) <==> (has_key(t, k) || k == last.0) by {
                if has_key(s, k) {
                    let i = choose|i: int| 0 <= i < s.len() && (#[trigger] s[i]).0 == k;
                    if i < t.len() {
                        assert(t[i].0 == k);
                    }
                }
                if has_key(t, k) {
                    let i = choose|i: int| 0 <= i < t.len() && (#[trigger] t[i]).0 == k;
                    assert(s[i].0 == k);
                }
                if k == last.0 {
                    assert(s[s.len() - 1].0 == k);
                }
            }
        }
    }
}

/// Two strictly increasing sequences that stand for the same map are the same sequence:
/// the order of a staging area is fixed by what it holds.
pub proof fn lemma_sorted_pairs_determined(a: Seq<(Seq<u8>, Seq<u8>)>, b: Seq<(Seq<u8>, Seq<u8>)>)
    requires
        sorted_strict(a),
        sorted_strict(b),
        pairs_map(a) == pairs_map(b),
    ensures
        a == b,
    decreases a.len(),
{
    if a.len() == 0 {
        if b.len() > 0 {
            lemma_pairs_map_at(b, 0);
            assert(has_key(a, b[0].0));
        }
        assert(a =~= b);
    } else if b.len() == 0 {
        lemma_pairs_map_at(a, 0);
        assert(has_key(b, a[0].0));
    } else {
        let la = a.len() - 1;
        let lb = b.len() - 1;
        lemma_pairs_map_at(a, la);
        lemma_pairs_map_at(b, lb);
        assert(has_key(b, a[la].0));
        assert(has_key(a, b[lb].0));
        let ja = choose|j: int| 0 <= j < b.len() && (#[trigger] b[j]).0 == a[la].0;
        let jb = choose|j: int| 0 <= j < a.len() && (#[trigger] a[j]).0 == b[lb].0;
        lemma_lex_trichotomy(a[la].0, b[lb].0);
        assert(a[la].0 == b[lb].0);
        assert(a[la].1 == b[lb].1);
        let a1 = a.drop_last();
        let b1 = b.drop_last();
        assert(sorted_strict(a1)) by {
            assert forall|i: int, j: int| 0 <= i < j < a1.len() implies lex_lt(
                #[trigger] a1[i].0,
                #[trigger] a1[j].0,
            ) by {
                assert(a1[i] == a[i] && a1[j] == a[j]);
            }
        }
        assert(sorted_strict(b1)) by {
            assert forall|i: int, j: int| 0 <= i < j < b1.len() implies lex_lt(
                #[trigger] b1[i].0,
                #[trigger] b1[j].0,
            ) by {
                assert(b1[i] == b[i] && b1[j] == b[j]);
            }
        }
        assert forall|k: Seq<u8>| has_key(a1, k) <==> has_key(b1, k) by {
            if has_key(a1, k) {
                let i = choose|i: int| 0 <= i < a1.len() && (#[trigger] a1[i]).0 == k;
                assert(a[i].0 == k);
                lemma_pairs_map_at(a, i);
                assert(has_key(b, k));
                let j = choose|j: int| 0 <= j < b.len() && (#[trigger] b[j]).0 == k;
                lemma_lex_trichotomy(a[i].0, a[la].0);
                assert(j != lb);
                assert(b1[j].0 == k);
            }
            if has_key(b1, k) {
                let i = choose|i: int| 0 <= i < b1.len() && (#[trigger] b1[i]).0 == k;
                assert(b[i].0 == k);
                lemma_pairs_map_at(b, i);
                assert(has_key(a, k));
                let j = choose|j: int| 0 <= j < a.len() && (#[trigger] a[j]).0 == k;
                lemma_lex_trichotomy(b[i].0, b[lb].0);
                assert(j != la);
                assert(a1[j].0 == k);
            }
        }
        assert forall|k: Seq<u8>| has_key(a1, k) implies pairs_map(a1)[k] == pairs_map(b1)[k] by {
            let i = choose|i: int| 0 <= i < a1.len() && (#[trigger] a1[i]).0 == k;
            let j = choose|j: int| 0 <= j < b1.len() && (#[trigger] b1[j]).0 == k;
            lemma_pairs_map_at(a1, i);
            lemma_pairs_map_at(b1, j);
            assert(a[i] == a1[i] && b[j] == b1[j]);
            lemma_pairs_map_at(a, i);
            lemma_pairs_map_at(b, j);
        }
        assert(pairs_map(a1) =~= pairs_map(b1));
        lemma_sorted_pairs_determined(a1, b1);
        assert(a =~= a1.push(a[la]));
        assert(b =~= b1.push(b[lb]));
    }
}

/// The last write wins: staging a second payload under a key leaves the staging area as
/// if only the second had been staged.
pub proof fn lemma_last_write_wins(
    staged: Map<Seq<u8>, Seq<u8>>,
    key: Seq<u8>,
    first: Seq<u8>,
    second: Seq<u8>,
)
    ensures
        staged.insert(key, first).insert(key, second) == staged.insert(key, second),
        staged.insert(key, first).insert(key, second)[key] == second,
{
    assert(staged.insert(key, first).insert(key, second) =~= staged.insert(key, second));
}

/// Staging under different keys does not depend on the order of staging.
pub proof fn lemma_staging_order_free(
    staged: Map<Seq<u8>, Seq<u8>>,
    key_a: Seq<u8>,
    a: Seq<u8>,
    key_b: Seq<u8>,
    b: Seq<u8>,
)
    requires
        key_a != key_b,
    ensures
        staged.insert(key_a, a).insert(key_b, b) == staged.insert(key_b, b).insert(key_a, a),
{
    assert(staged.insert(key_a, a).insert(key_b, b) =~= staged.insert(key_b, b).insert(key_a, a));
}

/// The pairs of key and payload that a vector of staged entries holds.
pub open spec fn pairs_of(entries: Seq<(Vec<u8>, Vec<u8>)>) -> Seq<(Seq<u8>, Seq<u8>)> {
    Seq::new(entries.len(), |i: int| (entries[i].0@, entries[i].1@))
}

/// Files staged under byte-string keys. A key is staged once; staging it again replaces
/// the payload. The keys are kept in strictly increasing order.
pub struct StagedFiles {
    entries: Vec<(Vec<u8>, Vec<u8>)>,
}

impl StagedFiles {
    #[verifier::type_invariant]
    closed spec fn inv(self) -> bool {
        sorted_strict(pairs_of(self.entries@))
    }

    /// The staged pairs of key and payload, in key order.
    pub closed spec fn pairs(self) -> Seq<(Seq<u8>, Seq<u8>)> {
        pairs_of(self.entries@)
    }

    /// The keys increase strictly.
    pub open spec fn wf(self) -> bool {
        sorted_strict(self.pairs())
    }

    /// What is staged, as a map from key to payload.
    pub open spec fn model(self) -> Map<Seq<u8>, Seq<u8>> {
        pairs_map(self.pairs())
    }

    /// An empty staging area.
    pub fn new() -> (s: StagedFiles)
        ensures
            s.wf(),
            s.pairs() == Seq::<(Seq<u8>, Seq<u8>)>::empty(),
            s.model() == Map::<Seq<u8>, Seq<u8>>::empty(),
    {
        let s = StagedFiles { entries: Vec::new() };
        assert(s.pairs() =~= Seq::<(Seq<u8>, Seq<u8>)>::empty());
        assert(s.model() =~= Map::<Seq<u8>, Seq<u8>>::empty());
        s
    }

    /// The number of staged keys.
    pub fn len(&self) -> (n: usize)
        ensures
            n == self.pairs().len(),
            self.wf(),
    {
        proof {
            use_type_invariant(self);
        }
        self.entries.len()
    }

    /// The key at position `i` of the key order.
    pub fn key(&self, i: usize) -> (k: &Vec<u8>)
        requires
            i < self.pairs().len(),
        ensures
            k@ == self.pairs()[i as int].0,
    {
        &self.entries[i].0
    }

    /// The payload at position `i` of the key order.
    pub fn payload(&self, i: usize) -> (d: &Vec<u8>)
        requires
            i < self.pairs().len(),
        ensures
            d@ == self.pairs()[i as int].1,
    {
        &self.entries[i].1
    }

    /// The number of staged keys that come before `key`.
    fn lower_bound(&self, key: &Vec<u8>) -> (p: usize)
        ensures
            self.wf(),
            p <= self.pairs().len(),
            forall|i: int| 0 <= i < p ==> lex_lt(#[trigger] self.pairs()[i].0, key@),
            forall|i: int|
                p <= i < self.pairs().len() ==> !lex_lt(#[trigger] self.pairs()[i].0, key@),
    {
        proof {
            use_type_invariant(self);
        }
        let mut lo: usize = 0;
        let mut hi: usize = self.entries.len();
        while lo < hi
            invariant
                self.wf(),
                lo <= hi <= self.entries@.len(),
                forall|i: int| 0 <= i < lo ==> lex_lt(#[trigger] self.pairs()[i].0, key@),
                forall|i: int|
                    hi <= i < self.pairs().len() ==> !lex_lt(#[trigger] self.pairs()[i].0, key@),
            decreases hi - lo,
        {
            let mid = lo + (hi - lo) / 2;
            if bytes_lt(self.entries[mid].0.as_slice(), key.as_slice()) {
                assert forall|i: int| 0 <= i < mid + 1 implies lex_lt(
                    #[trigger] self.pairs()[i].0,
                    key@,
                ) by {
                    if i < mid {
                        assert(lex_lt(self.pairs()[i].0, self.pairs()[mid as int].0));
                        lemma_lex_transitive(self.pairs()[i].0, self.pairs()[mid as int].0, key@);
                    }
                }
                lo = mid + 1;
            } else {
                assert forall|i: int| mid <= i < self.pairs().len() implies !lex_lt(
                    #[trigger] self.pairs()[i].0,
                    key@,
                ) by {
                    if i > mid && lex_lt(self.pairs()[i].0, key@) {
                        assert(lex_lt(self.pairs()[mid as int].0, self.pairs()[i].0));
                        lemma_lex_transitive(self.pairs()[mid as int].0, self.pairs()[i].0, key@);
                    }
                }
                hi = mid;
            }
        }
        lo
    }

    /// Stages `data` under `key`. A payload staged under the same key before is replaced:
    /// the last one staged wins.
    pub fn insert(&mut self, key: Vec<u8>, data: Vec<u8>)
        ensures
            old(self).wf(),
            final(self).wf(),
            final(self).model() == old(self).model().insert(key@, data@),
    {
        let p = self.lower_bound(&key);
        let ghost before = self.pairs();
        let ghost k = key@;
        let ghost d = data@;
        let mut entries: Vec<(Vec<u8>, Vec<u8>)> = Vec::new();
        assert(pairs_of(entries@) =~= Seq::<(Seq<u8>, Seq<u8>)>::empty());
        std::mem::swap(&mut self.entries, &mut entries);
        if p < entries.len() && bytes_eq(entries[p].0.as_slice(), key.as_slice()) {
            entries.set(p, (key, data));
            let ghost after = pairs_of(entries@);
            proof {
                assert(after =~= before.update(p as int, (k, d)));
                assert forall|i: int, j: int| 0 <= i < j < after.len() implies lex_lt(
                    #[trigger] after[i].0,
                    #[trigger] after[j].0,
                ) by {
                    assert(after[i].0 == before[i].0 && after[j].0 == before[j].0);
                }
                assert forall|x: Seq<u8>| has_key(after, x) <==> (has_key(before, x) || x == k) by {
                    if has_key(after, x) {
                        let i = choose|i: int| 0 <= i < after.len() && (#[trigger] after[i]).0 == x;
                        assert(before[i].0 == x);
                    }
                    if has_key(before, x) {
                        let i = choose|i: int|
                            0 <= i < before.len() && (#[trigger] before[i]).0 == x;
                        assert(after[i].0 == x);
                    }
                    if x == k {
                        assert(after[p as int].0 == x);
                    }
                }
                assert forall|x: Seq<u8>| has_key(after, x) implies pairs_map(after)[x]
                    == before_or(before, k, d, x) by {
                    let i = choose|i: int| 0 <= i < after.len() && (#[trigger] after[i]).0 == x;
                    lemma_pairs_map_at(after, i);
                    if x == k {
                        assert(after[p as int].0 == k);
                        assert(i == p);
                    } else {
                        assert(before[i] == after[i]);
                        lemma_pairs_map_at(before, i);
                    }
                }
                assert(pairs_map(after) =~= pairs_map(before).insert(k, d));
            }
        } else {
            entries.insert(p, (key, data));
            let ghost after = pairs_of(entries@);
            proof {
                assert(after =~= before.insert(p as int, (k, d)));
                assert forall|i: int| p <= i < before.len() implies lex_lt(
                    k,
                    #[trigger] before[i].0,
                ) by {
                    lemma_lex_trichotomy(before[p as int].0, k);
                    if i > p {
                        assert(lex_lt(before[p as int].0, before[i].0));
                        lemma_lex_transitive(k, before[p as int].0, before[i].0);
                    }
                }
                assert forall|i: int, j: int| 0 <= i < j < after.len() implies lex_lt(
                    #[trigger] after[i].0,
                    #[trigger] after[j].0,
                ) by {
                    if j < p {
                        assert(after[i] == before[i] && after[j] == before[j]);
                    } else if j == p {
                        assert(after[i] == before[i]);
                    } else if i < p {
                        assert(after[i] == before[i] && after[j] == before[j - 1]);
                    } else if i == p {
                        assert(after[j] == before[j - 1]);
                    } else {
                        assert(after[i] == before[i - 1] && after[j] == before[j - 1]);
                    }
                }
                assert forall|x: Seq<u8>| has_key(after, x) <==> (has_key(before, x) || x == k) by {
                    if has_key(after, x) {
                        let i = choose|i: int| 0 <= i < after.len() && (#[trigger] after[i]).0 == x;
                        if i < p {
                            assert(before[i].0 == x);
                        } else if i > p {
                            assert(before[i - 1].0 == x);
                        }
                    }
                    if has_key(before, x) {
                        let i = choose|i: int|
                            0 <= i < before.len() && (#[trigger] before[i]).0 == x;
                        if i < p {
                            assert(after[i].0 == x);
                        } else {
                            assert(after[i + 1].0 == x);
                        }
                    }
                    if x == k {
                        assert(after[p as int].0 == x);
                    }
                }
                assert forall|x: Seq<u8>| has_key(after, x) implies pairs_map(after)[x]
                    == before_or(before, k, d, x) by {
                    let i = choose|i: int| 0 <= i < after.len() && (#[trigger] after[i]).0 == x;
                    lemma_pairs_map_at(after, i);
                    if x == k {
                        assert(after[p as int].0 == k);
                        assert(i == p);
                    } else {
                        if i < p {
                            assert(before[i] == after[i]);
                            lemma_pairs_map_at(before, i);
                        } else {
                            assert(i != p);
                            assert(before[i - 1] == after[i]);
                            lemma_pairs_map_at(before, i - 1);
                        }
                    }
                }
                assert(pairs_map(after) =~= pairs_map(before).insert(k, d));
            }
        }
        self.entries = entries;
    }
}

/// The payload that `x` has once `d` is staged under `k` on top of `before`.
pub open spec fn before_or(
    before: Seq<(Seq<u8>, Seq<u8>)>,
    k: Seq<u8>,
    d: Seq<u8>,
    x: Seq<u8>,
) -> Seq<u8> {
    if x == k {
        d
    } else {
        pairs_map(before)[x]
    }
}

} // verus!
