//! Character and byte sequences: the small string vocabulary that paths,
//! search patterns and archive keys are described in.

use vstd::prelude::*;
use vstd::std_specs::iter::IteratorSpec;

verus! {

broadcast use vstd::string::group_string_axioms;

/// `String::push` of the standard library: the character is appended at the end.
/// Stated here because the verifier's own library leaves it unspecified.
pub assume_specification[ String::push ](s: &mut String, ch: char)
    ensures
        final(s)@ == old(s)@.push(ch),
;

/// The Unicode lower-casing of a character sequence, as `str::to_lowercase` computes it.
/// The mapping is a table of the Unicode standard and is not spelled out here.
pub uninterp spec fn lowercase(s: Seq<char>) -> Seq<char>;

/// `str::to_lowercase` of the standard library returns the lower-cased text named by
/// [`lowercase`]; nothing more is claimed of it.
pub assume_specification[ str::to_lowercase ](s: &str) -> (r: String)
    ensures
        r@ == lowercase(s@),
;

/// What `String::from_utf8_lossy` makes of a byte string: the decoded text, with each
/// malformed sequence replaced by U+FFFD.
pub uninterp spec fn utf8_lossy(bytes: Seq<u8>) -> Seq<char>;

/// Calls `String::from_utf8_lossy` and takes ownership of the result. The contract only
/// names the decoded text.
#[verifier::external_body]
pub(crate) fn decode_utf8_lossy(bytes: &[u8]) -> (r: String)
    ensures
        r@ == utf8_lossy(bytes@),
{
    String::from_utf8_lossy(bytes).into_owned()
}

/// The characters of a string slice, in order.
pub fn chars_of(s: &str) -> (v: Vec<char>)
    ensures
        v@ == s@,
{
    let mut v: Vec<char> = Vec::new();
    let mut it = s.chars();
    loop
        invariant
            it.obeys_prophetic_iter_laws(),
            it.decrease() is Some,
            v@ + it.remaining() == s@,
        decreases it.decrease()->0,
    {
        match it.next() {
            Some(c) => {
                v.push(c);
                assert(v@ + it.remaining() =~= s@);
            },
            None => {
                assert(v@ =~= s@);
                return v;
            },
        }
    }
}

/// The string made of the characters `v[from..to]`.
pub fn string_of_range(v: &Vec<char>, from: usize, to: usize) -> (s: String)
    requires
        from <= to <= v.len(),
    ensures
        s@ == v@.subrange(from as int, to as int),
{
    let mut s = String::new();
    let mut i: usize = from;
    while i < to
        invariant
            from <= i <= to <= v.len(),
            s@ == v@.subrange(from as int, i as int),
        decreases to - i,
    {
        s.push(v[i]);
        i += 1;
        assert(s@ =~= v@.subrange(from as int, i as int));
    }
    s
}

/// The string made of all the characters of `v`.
pub fn string_of(v: &Vec<char>) -> (s: String)
    ensures
        s@ == v@,
{
    let s = string_of_range(v, 0, v.len());
    assert(v@.subrange(0, v.len() as int) =~= v@);
    s
}

/// `s` with every occurrence of `from` turned into `to`.
pub open spec fn replace_char(s: Seq<char>, from: char, to: char) -> Seq<char> {
    Seq::new(
        s.len(),
        |i: int|
            if s[i] == from {
                to
            } else {
                s[i]
            },
    )
}

/// Replaces every `from` in `s` by `to`.
pub fn replace_separator(s: &str, from: char, to: char) -> (r: String)
    ensures
        r@ == replace_char(s@, from, to),
{
    let v = chars_of(s);
    let mut r = String::new();
    let mut i: usize = 0;
    while i < v.len()
        invariant
            i <= v.len(),
            v@ == s@,
            r@ == replace_char(s@, from, to).take(i as int),
        decreases v.len() - i,
    {
        let c = v[i];
        if c == from {
            r.push(to);
        } else {
            r.push(c);
        }
        i += 1;
        assert(r@ =~= replace_char(s@, from, to).take(i as int));
    }
    assert(replace_char(s@, from, to).take(v.len() as int) =~= replace_char(s@, from, to));
    r
}

/// The ASCII lower-case form of one character: `A`..`Z` move to `a`..`z`, all else stays.
pub open spec fn ascii_lower_char(c: char) -> char {
    if 'A' <= c && c <= 'Z' {
        ((c as u8 + 32) as u8) as char
    } else {
        c
    }
}

/// Lower-casing does not make or unmake a separator: two characters with the same
/// lower-case form are both a slash, both a backslash, or neither.
pub proof fn lemma_ascii_lower_keeps_separators(x: char, y: char)
    requires
        ascii_lower_char(x) == ascii_lower_char(y),
    ensures
        (x == '/') == (y == '/'),
        (x == '\\') == (y == '\\'),
{
    assert('A' as u32 == 65 && 'Z' as u32 == 90 && '/' as u32 == 47 && '\\' as u32 == 92);
    if 'A' <= x && x <= 'Z' {
        assert(ascii_lower_char(x) as u32 == (x as u32) + 32);
    }
    if 'A' <= y && y <= 'Z' {
        assert(ascii_lower_char(y) as u32 == (y as u32) + 32);
    }
}

/// `s` with each character in its ASCII lower-case form.
pub open spec fn ascii_lower(s: Seq<char>) -> Seq<char> {
    Seq::new(s.len(), |i: int| ascii_lower_char(s[i]))
}

/// The ASCII lower-case form of `c`.
pub fn to_ascii_lower(c: char) -> (r: char)
    ensures
        r == ascii_lower_char(c),
{
    if 'A' <= c && c <= 'Z' {
        ((c as u8) + 32) as char
    } else {
        c
    }
}

/// Whether two character vectors are equal up to ASCII letter case.
pub fn chars_eq_ignore_ascii_case(a: &Vec<char>, b: &Vec<char>) -> (r: bool)
    ensures
        r == (ascii_lower(a@) == ascii_lower(b@)),
{
    if a.len() != b.len() {
        assert(ascii_lower(a@).len() != ascii_lower(b@).len());
        return false;
    }
    let mut i: usize = 0;
    while i < a.len()
        invariant
            i <= a.len(),
            a.len() == b.len(),
            forall|j: int| 0 <= j < i ==> ascii_lower_char(a@[j]) == ascii_lower_char(b@[j]),
        decreases a.len() - i,
    {
        if to_ascii_lower(a[i]) != to_ascii_lower(b[i]) {
            assert(ascii_lower(a@)[i as int] != ascii_lower(b@)[i as int]);
            return false;
        }
        i += 1;
    }
    assert(ascii_lower(a@) =~= ascii_lower(b@));
    true
}

/// Whether two strings are equal up to ASCII letter case.
pub fn eq_ignore_ascii_case(a: &str, b: &str) -> (r: bool)
    ensures
        r == (ascii_lower(a@) == ascii_lower(b@)),
{
    let x = chars_of(a);
    let y = chars_of(b);
    chars_eq_ignore_ascii_case(&x, &y)
}

/// Whether two character vectors hold the same characters.
pub fn chars_eq(a: &Vec<char>, b: &Vec<char>) -> (r: bool)
    ensures
        r == (a@ == b@),
{
    if a.len() != b.len() {
        return false;
    }
    let mut i: usize = 0;
    while i < a.len()
        invariant
            i <= a.len(),
            a.len() == b.len(),
            forall|j: int| 0 <= j < i ==> a@[j] == b@[j],
        decreases a.len() - i,
    {
        if a[i] != b[i] {
            return false;
        }
        i += 1;
    }
    assert(a@ =~= b@);
    true
}

/// Whether two strings hold the same text.
pub fn str_eq(a: &str, b: &str) -> (r: bool)
    ensures
        r == (a@ == b@),
{
    let x = chars_of(a);
    let y = chars_of(b);
    chars_eq(&x, &y)
}

/// Whether `pat` stands in `text` at offset `k`.
pub open spec fn occurs_at(text: Seq<char>, pat: Seq<char>, k: int) -> bool {
    &&& 0 <= k
    &&& k + pat.len() <= text.len()
    &&& text.subrange(k, k + pat.len()) == pat
}

/// Whether `pat` occurs somewhere in `text`. The empty pattern occurs in every text.
pub open spec fn contains_seq(text: Seq<char>, pat: Seq<char>) -> bool {
    exists|k: int| occurs_at(text, pat, k)
}

/// Whether `text` begins with `pat`.
pub open spec fn starts_with_seq(text: Seq<char>, pat: Seq<char>) -> bool {
    occurs_at(text, pat, 0)
}

/// Whether `pat` stands in `text` at offset `k`.
pub fn occurs_at_exec(text: &Vec<char>, pat: &Vec<char>, k: usize) -> (r: bool)
    ensures
        r == occurs_at(text@, pat@, k as int),
{
    if pat.len() > text.len() || k > text.len() - pat.len() {
        return false;
    }
    let mut j: usize = 0;
    while j < pat.len()
        invariant
            j <= pat.len(),
            k + pat.len() <= text.len(),
            forall|x: int| 0 <= x < j ==> text@[k + x] == pat@[x],
        decreases pat.len() - j,
    {
        if text[k + j] != pat[j] {
            assert(text@.subrange(k as int, k + pat.len())[j as int] != pat@[j as int]);
            return false;
        }
        j += 1;
    }
    assert(text@.subrange(k as int, k + pat.len()) =~= pat@);
    true
}

/// Whether `pat` occurs somewhere in `text`.
pub fn contains_chars(text: &Vec<char>, pat: &Vec<char>) -> (r: bool)
    ensures
        r == contains_seq(text@, pat@),
{
    if pat.len() > text.len() {
        return false;
    }
    let last: usize = text.len() - pat.len();
    let mut k: usize = 0;
    loop
        invariant
            k <= last,
            last == text.len() - pat.len(),
            forall|x: int| 0 <= x < k ==> !occurs_at(text@, pat@, x),
        decreases last - k,
    {
        if occurs_at_exec(text, pat, k) {
            return true;
        }
        if k == last {
            return false;
        }
        k += 1;
    }
}

/// The last index `i` with `s[i] == c`, or `-1` when `c` does not occur.
pub open spec fn last_index_of(s: Seq<char>, c: char) -> int
    decreases s.len(),
{
    if s.len() == 0 {
        -1
    } else if s.last() == c {
        s.len() - 1
    } else {
        last_index_of(s.drop_last(), c)
    }
}

/// `last_index_of` names an occurrence, and nothing occurs after it.
pub proof fn lemma_last_index_of(s: Seq<char>, c: char)
    ensures
        -1 <= last_index_of(s, c) < s.len(),
        last_index_of(s, c) >= 0 ==> s[last_index_of(s, c)] == c,
        forall|j: int| last_index_of(s, c) < j < s.len() ==> s[j] != c,
    decreases s.len(),
{
    if s.len() > 0 && s.last() != c {
        let t = s.drop_last();
        lemma_last_index_of(t, c);
        assert forall|j: int| last_index_of(s, c) < j < s.len() implies s[j] != c by {
            if j < t.len() {
                assert(t[j] == s[j]);
            }
        }
    }
}

/// The index condition of `lemma_last_index_of` determines the value.
pub proof fn lemma_last_index_of_unique(s: Seq<char>, c: char, k: int)
    requires
        -1 <= k < s.len(),
        k >= 0 ==> s[k] == c,
        forall|j: int| k < j < s.len() ==> s[j] != c,
    ensures
        last_index_of(s, c) == k,
{
    lemma_last_index_of(s, c);
}

/// The last position of `c` in `v`, if any.
pub fn find_last(v: &Vec<char>, c: char) -> (r: Option<usize>)
    ensures
        match r {
            Some(i) => last_index_of(v@, c) == i as int && i < v.len() && v@[i as int] == c,
            None => last_index_of(v@, c) == -1,
        },
{
    let mut i: usize = v.len();
    while i > 0
        invariant
            i <= v.len(),
            forall|j: int| i <= j < v.len() ==> v@[j] != c,
        decreases i,
    {
        i -= 1;
        if v[i] == c {
            proof {
                lemma_last_index_of_unique(v@, c, i as int);
            }
            return Some(i);
        }
    }
    proof {
        lemma_last_index_of_unique(v@, c, -1);
    }
    None
}

/// `s` with every byte `from` turned into `to`.
pub open spec fn replace_byte(s: Seq<u8>, from: u8, to: u8) -> Seq<u8> {
    Seq::new(
        s.len(),
        |i: int|
            if s[i] == from {
                to
            } else {
                s[i]
            },
    )
}

/// The first position at or after `i` where `s` holds something other than `c`, or the
/// length of `s` where it holds nothing else from `i` on.
pub open spec fn first_other_from(s: Seq<u8>, c: u8, i: int) -> int
    decreases s.len() - i,
{
    if i < 0 || i >= s.len() || s[i] != c {
        i
    } else {
        first_other_from(s, c, i + 1)
    }
}

/// `s` without its leading run of `c`.
pub open spec fn strip_leading(s: Seq<u8>, c: u8) -> Seq<u8> {
    s.subrange(first_other_from(s, c, 0), s.len() as int)
}

/// The key under which a path is staged for writing: its bytes with every backslash turned
/// into a forward slash and without leading slashes.
pub open spec fn normalized_key(path: Seq<u8>) -> Seq<u8> {
    strip_leading(replace_byte(path, 0x5c, 0x2f), 0x2f)
}

/// Computes the staging key of a path given as bytes.
pub fn normalize_key(path: &[u8]) -> (r: Vec<u8>)
    ensures
        r@ == normalized_key(path@),
{
    let ghost replaced = replace_byte(path@, 0x5c, 0x2f);
    let mut start: usize = 0;
    while start < path.len() && (path[start] == 0x5c || path[start] == 0x2f)
        invariant
            start <= path.len(),
            replaced == replace_byte(path@, 0x5c, 0x2f),
            first_other_from(replaced, 0x2f, 0) == first_other_from(replaced, 0x2f, start as int),
        decreases path.len() - start,
    {
        assert(replaced[start as int] == 0x2f);
        start += 1;
    }
    assert(first_other_from(replaced, 0x2f, 0) == start) by {
        if start < path.len() {
            assert(replaced[start as int] != 0x2f);
        }
    }
    let mut r: Vec<u8> = Vec::new();
    let mut i: usize = start;
    while i < path.len()
        invariant
            start <= i <= path.len(),
            replaced == replace_byte(path@, 0x5c, 0x2f),
            r@ == replaced.subrange(start as int, i as int),
        decreases path.len() - i,
    {
        let b = path[i];
        if b == 0x5c {
            r.push(0x2f);
        } else {
            r.push(b);
        }
        i += 1;
        assert(r@ =~= replaced.subrange(start as int, i as int));
    }
    r
}

/// A copy of a byte vector.
pub fn copy_bytes(v: &[u8]) -> (r: Vec<u8>)
    ensures
        r@ == v@,
{
    let mut r: Vec<u8> = Vec::new();
    let mut i: usize = 0;
    while i < v.len()
        invariant
            i <= v.len(),
            r@ == v@.take(i as int),
        decreases v.len() - i,
    {
        r.push(v[i]);
        i += 1;
        assert(r@ =~= v@.take(i as int));
    }
    assert(v@.take(v.len() as int) =~= v@);
    r
}

/// The part of `s` after its last separator, of either convention; all of `s` where it
/// holds none.
pub open spec fn last_component(s: Seq<char>) -> Seq<char> {
    let a = last_index_of(s, '/');
    let b = last_index_of(s, '\\');
    let cut = if a >= b {
        a
    } else {
        b
    };
    s.subrange(cut + 1, s.len() as int)
}

/// The part of `v` after its last separator, of either convention.
pub fn last_component_of(v: &Vec<char>) -> (r: Vec<char>)
    ensures
        r@ == last_component(v@),
{
    let a = find_last(v, '/');
    let b = find_last(v, '\\');
    proof {
        lemma_last_index_of(v@, '/');
        lemma_last_index_of(v@, '\\');
    }
    let after_a: usize = match a {
        Some(x) => x + 1,
        None => 0,
    };
    let after_b: usize = match b {
        Some(y) => y + 1,
        None => 0,
    };
    let start: usize = if after_a >= after_b {
        after_a
    } else {
        after_b
    };
    let mut r: Vec<char> = Vec::new();
    let mut i: usize = start;
    while i < v.len()
        invariant
            start <= i <= v.len(),
            r@ == v@.subrange(start as int, i as int),
        decreases v.len() - i,
    {
        r.push(v[i]);
        i += 1;
        assert(r@ =~= v@.subrange(start as int, i as int));
    }
    r
}

/// The first position at or after `i` where `s` holds `c`, or the length of `s` where it
/// holds no `c` from `i` on.
pub open spec fn first_byte_from(s: Seq<u8>, c: u8, i: int) -> int
    decreases s.len() - i,
{
    if i < 0 || i >= s.len() || s[i] == c {
        i
    } else {
        first_byte_from(s, c, i + 1)
    }
}

/// The first position of `c` in `v`, or the length of `v` where `c` does not occur.
pub fn find_first_byte(v: &[u8], c: u8) -> (r: usize)
    ensures
        r == first_byte_from(v@, c, 0),
        r <= v.len(),
{
    let mut i: usize = 0;
    while i < v.len() && v[i] != c
        invariant
            i <= v.len(),
            first_byte_from(v@, c, 0) == first_byte_from(v@, c, i as int),
        decreases v.len() - i,
    {
        i += 1;
    }
    i
}

/// The last position of `c` in `s`, or `-1` where `c` does not occur.
pub open spec fn last_byte_index(s: Seq<u8>, c: u8) -> int
    decreases s.len(),
{
    if s.len() == 0 {
        -1
    } else if s.last() == c {
        s.len() - 1
    } else {
        last_byte_index(s.drop_last(), c)
    }
}

/// `last_byte_index` names an occurrence, and nothing occurs after it.
pub proof fn lemma_last_byte_index(s: Seq<u8>, c: u8)
    ensures
        -1 <= last_byte_index(s, c) < s.len(),
        last_byte_index(s, c) >= 0 ==> s[last_byte_index(s, c)] == c,
        forall|j: int| last_byte_index(s, c) < j < s.len() ==> s[j] != c,
    decreases s.len(),
{
    if s.len() > 0 && s.last() != c {
        let t = s.drop_last();
        lemma_last_byte_index(t, c);
        assert forall|j: int| last_byte_index(s, c) < j < s.len() implies s[j] != c by {
            if j < t.len() {
                assert(t[j] == s[j]);
            }
        }
    }
}

/// The last position of `c` in `v`, if any.
pub fn find_last_byte(v: &[u8], c: u8) -> (r: Option<usize>)
    ensures
        match r {
            Some(i) => last_byte_index(v@, c) == i as int && i < v.len() && v@[i as int] == c,
            None => last_byte_index(v@, c) == -1,
        },
{
    let mut i: usize = v.len();
    while i > 0
        invariant
            i <= v.len(),
            forall|j: int| i <= j < v.len() ==> v@[j] != c,
        decreases i,
    {
        i -= 1;
        if v[i] == c {
            proof {
                lemma_last_byte_index(v@, c);
            }
            return Some(i);
        }
    }
    proof {
        lemma_last_byte_index(v@, c);
    }
    None
}

/// The bytes `v[from..to]`.
pub fn copy_range(v: &[u8], from: usize, to: usize) -> (r: Vec<u8>)
    requires
        from <= to <= v.len(),
    ensures
        r@ == v@.subrange(from as int, to as int),
{
    let mut r: Vec<u8> = Vec::new();
    let mut i: usize = from;
    while i < to
        invariant
            from <= i <= to <= v.len(),
            r@ == v@.subrange(from as int, i as int),
        decreases to - i,
    {
        r.push(v[i]);
        i += 1;
        assert(r@ =~= v@.subrange(from as int, i as int));
    }
    r
}

/// Appends the bytes of `tail` to `head`.
pub fn append_bytes(head: &mut Vec<u8>, tail: &[u8])
    ensures
        final(head)@ == old(head)@ + tail@,
{
    let mut i: usize = 0;
    while i < tail.len()
        invariant
            i <= tail.len(),
            head@ == old(head)@ + tail@.take(i as int),
        decreases tail.len() - i,
    {
        head.push(tail[i]);
        i += 1;
        assert(head@ =~= old(head)@ + tail@.take(i as int));
    }
    assert(tail@.take(tail.len() as int) =~= tail@);
}

/// Strict lexicographic order on byte strings: `a` is a proper prefix of `b`, or the two
/// differ first at a position where `a` holds the smaller byte.
pub open spec fn lex_lt(a: Seq<u8>, b: Seq<u8>) -> bool {
    exists|k: int| lex_lt_at(a, b, k)
}

/// `k` is the position that decides `a < b`.
pub open spec fn lex_lt_at(a: Seq<u8>, b: Seq<u8>, k: int) -> bool {
    &&& 0 <= k <= a.len()
    &&& k < b.len()
    &&& a.take(k) == b.take(k)
    &&& (k == a.len() || a[k] < b[k])
}

/// The first position at or after `i` where `a` and `b` stop agreeing.
pub proof fn lemma_first_mismatch(a: Seq<u8>, b: Seq<u8>, i: int) -> (k: int)
    requires
        0 <= i <= a.len(),
        i <= b.len(),
        a.take(i) == b.take(i),
    ensures
        i <= k <= a.len(),
        k <= b.len(),
        a.take(k) == b.take(k),
        k == a.len() || k == b.len() || a[k] != b[k],
    decreases a.len() - i,
{
    if i == a.len() || i == b.len() || a[i] != b[i] {
        i
    } else {
        assert(a.take(i + 1) =~= a.take(i).push(a[i]));
        assert(b.take(i + 1) =~= b.take(i).push(b[i]));
        lemma_first_mismatch(a, b, i + 1)
    }
}

/// Two byte strings that agree up to `k` and up to `m` agree element by element below both.
proof fn lemma_take_agree(a: Seq<u8>, b: Seq<u8>, k: int, j: int)
    requires
        0 <= j < k,
        k <= a.len(),
        k <= b.len(),
        a.take(k) == b.take(k),
    ensures
        a[j] == b[j],
{
    assert(a.take(k)[j] == a[j]);
    assert(b.take(k)[j] == b[j]);
}

/// Of two byte strings exactly one holds: the first is smaller, they are equal, or the
/// second is smaller.
pub proof fn lemma_lex_trichotomy(a: Seq<u8>, b: Seq<u8>)
    ensures
        lex_lt(a, b) || a == b || lex_lt(b, a),
        !(lex_lt(a, b) && a == b),
        !(lex_lt(a, b) && lex_lt(b, a)),
        !(lex_lt(b, a) && a == b),
{
    assert(a.take(0) =~= b.take(0));
    let k = lemma_first_mismatch(a, b, 0);
    if k == a.len() && k == b.len() {
        assert(a.take(k) =~= a);
        assert(b.take(k) =~= b);
    } else if k == a.len() {
        assert(lex_lt_at(a, b, k));
    } else if k == b.len() {
        assert(lex_lt_at(b, a, k));
    } else if a[k] < b[k] {
        assert(lex_lt_at(a, b, k));
    } else {
        assert(lex_lt_at(b, a, k));
    }
    if lex_lt(a, b) {
        let m = choose|m: int| lex_lt_at(a, b, m);
        if a == b {
            assert(m < a.len());
        }
        if lex_lt(b, a) {
            let n = choose|n: int| lex_lt_at(b, a, n);
            if m < n {
                lemma_take_agree(b, a, n, m);
            } else if n < m {
                lemma_take_agree(a, b, m, n);
            }
        }
    }
    if lex_lt(b, a) && a == b {
        let n = choose|n: int| lex_lt_at(b, a, n);
        assert(n < b.len());
    }
}

/// The order is transitive.
pub proof fn lemma_lex_transitive(a: Seq<u8>, b: Seq<u8>, c: Seq<u8>)
    requires
        lex_lt(a, b),
        lex_lt(b, c),
    ensures
        lex_lt(a, c),
{
    let m = choose|m: int| lex_lt_at(a, b, m);
    let n = choose|n: int| lex_lt_at(b, c, n);
    let k = if m <= n {
        m
    } else {
        n
    };
    assert forall|j: int| 0 <= j < k implies a[j] == c[j] by {
        lemma_take_agree(a, b, m, j);
        lemma_take_agree(b, c, n, j);
    }
    assert(a.take(k) =~= c.take(k));
    if m < n {
        lemma_take_agree(b, c, n, m);
    } else if n < m {
        lemma_take_agree(a, b, m, n);
    }
    assert(lex_lt_at(a, c, k));
}

/// What stands before a common beginning does not matter to the order.
pub proof fn lemma_lex_common_prefix(k: Seq<u8>, x: Seq<u8>, y: Seq<u8>)
    ensures
        lex_lt(k + x, k + y) == lex_lt(x, y),
{
    let n = k.len() as int;
    if lex_lt(x, y) {
        let m = choose|m: int| lex_lt_at(x, y, m);
        assert forall|j: int| 0 <= j < n + m implies (k + x)[j] == (k + y)[j] by {
            if j >= n {
                lemma_take_agree(x, y, m, j - n);
            }
        }
        assert((k + x).take(n + m) =~= (k + y).take(n + m));
        assert(lex_lt_at(k + x, k + y, n + m));
    }
    if lex_lt(k + x, k + y) {
        let m = choose|m: int| lex_lt_at(k + x, k + y, m);
        if m < n {
            assert((k + x)[m] == k[m] && (k + y)[m] == k[m]);
            assert(m == (k + x).len());
        }
        assert forall|j: int| 0 <= j < m - n implies x[j] == y[j] by {
            lemma_take_agree(k + x, k + y, m, j + n);
            assert((k + x)[j + n] == x[j] && (k + y)[j + n] == y[j]);
        }
        assert(x.take(m - n) =~= y.take(m - n));
        if m < (k + x).len() {
            assert((k + x)[m] == x[m - n] && (k + y)[m] == y[m - n]);
        }
        assert(lex_lt_at(x, y, m - n));
    }
}

/// Where two byte strings begin with different bytes, the first bytes decide the order.
pub proof fn lemma_lex_first_byte(x: Seq<u8>, y: Seq<u8>)
    requires
        x.len() > 0,
        y.len() > 0,
        x[0] != y[0],
    ensures
        lex_lt(x, y) == (x[0] < y[0]),
{
    assert(x.take(0) =~= y.take(0));
    if x[0] < y[0] {
        assert(lex_lt_at(x, y, 0));
    } else {
        assert(lex_lt_at(y, x, 0));
        lemma_lex_trichotomy(x, y);
    }
}

/// A byte string in a form that tells where it ends: every byte behind a one, and a zero
/// at the end. In this form no string is the beginning of another, and the order of the
/// forms is the order of the strings.
pub open spec fn escaped(s: Seq<u8>) -> Seq<u8>
    decreases s.len(),
{
    if s.len() == 0 {
        seq![0u8]
    } else {
        seq![1u8, s[0]] + escaped(s.drop_first())
    }
}

/// The order of two escaped strings, each followed by something, is the order of the
/// strings; where the strings are equal, it is the order of what follows.
pub proof fn lemma_escaped_order(x: Seq<u8>, r: Seq<u8>, y: Seq<u8>, q: Seq<u8>)
    ensures
        lex_lt(escaped(x) + r, escaped(y) + q) == (lex_lt(x, y) || (x == y && lex_lt(r, q))),
    decreases x.len(),
{
    let a = escaped(x) + r;
    let b = escaped(y) + q;
    if x.len() == 0 {
        assert(x.take(0) =~= y.take(0));
        if y.len() == 0 {
            assert(x =~= y);
            lemma_lex_common_prefix(seq![0u8], r, q);
            assert(a =~= seq![0u8] + r);
            assert(b =~= seq![0u8] + q);
            lemma_lex_trichotomy(x, y);
        } else {
            assert(a[0] == 0u8);
            assert(b[0] == 1u8);
            lemma_lex_first_byte(a, b);
            assert(lex_lt_at(x, y, 0));
        }
    } else if y.len() == 0 {
        assert(a[0] == 1u8);
        assert(b[0] == 0u8);
        lemma_lex_first_byte(a, b);
        assert(x.take(0) =~= y.take(0));
        assert(lex_lt_at(y, x, 0));
        lemma_lex_trichotomy(x, y);
    } else {
        let x1 = x.drop_first();
        let y1 = y.drop_first();
        assert(a =~= seq![1u8] + (seq![x[0]] + (escaped(x1) + r)));
        assert(b =~= seq![1u8] + (seq![y[0]] + (escaped(y1) + q)));
        lemma_lex_common_prefix(seq![1u8], seq![x[0]] + (escaped(x1) + r), seq![y[0]] + (escaped(y1) + q));
        assert(x =~= seq![x[0]] + x1);
        assert(y =~= seq![y[0]] + y1);
        if x[0] != y[0] {
            lemma_lex_first_byte(seq![x[0]] + (escaped(x1) + r), seq![y[0]] + (escaped(y1) + q));
            lemma_lex_first_byte(x, y);
        } else {
            lemma_lex_common_prefix(seq![x[0]], escaped(x1) + r, escaped(y1) + q);
            lemma_lex_common_prefix(seq![x[0]], x1, y1);
            lemma_escaped_order(x1, r, y1, q);
            if x1 == y1 {
                assert(x =~= y);
            }
        }
    }
}

/// Appends the escaped form of `bytes` to `key`.
pub fn push_escaped(key: &mut Vec<u8>, bytes: &[u8])
    ensures
        final(key)@ == old(key)@ + escaped(bytes@),
{
    let mut i: usize = 0;
    assert(bytes@.subrange(0, bytes@.len() as int) =~= bytes@);
    while i < bytes.len()
        invariant
            i <= bytes.len(),
            key@ + escaped(bytes@.subrange(i as int, bytes@.len() as int)) == old(key)@ + escaped(
                bytes@,
            ),
        decreases bytes.len() - i,
    {
        let ghost rest = bytes@.subrange(i as int, bytes@.len() as int);
        let ghost held = key@;
        assert(rest.drop_first() =~= bytes@.subrange(i + 1, bytes@.len() as int));
        key.push(1u8);
        key.push(bytes[i]);
        assert(key@ + escaped(rest.drop_first()) =~= held + escaped(rest));
        i += 1;
    }
    let ghost held = key@;
    assert(bytes@.subrange(bytes@.len() as int, bytes@.len() as int).len() == 0);
    key.push(0u8);
    assert(key@ =~= held + escaped(bytes@.subrange(bytes@.len() as int, bytes@.len() as int)));
    assert(bytes@.subrange(0, bytes@.len() as int) =~= bytes@);
}

/// Whether `a` comes strictly before `b` in lexicographic byte order.
pub fn bytes_lt(a: &[u8], b: &[u8]) -> (r: bool)
    ensures
        r == lex_lt(a@, b@),
{
    let mut i: usize = 0;
    while i < a.len() && i < b.len() && a[i] == b[i]
        invariant
            i <= a.len(),
            i <= b.len(),
            a@.take(i as int) == b@.take(i as int),
        decreases a.len() - i,
    {
        assert(a@.take(i + 1) =~= a@.take(i as int).push(a@[i as int]));
        assert(b@.take(i + 1) =~= b@.take(i as int).push(b@[i as int]));
        i += 1;
    }
    let r = i < b.len() && (i == a.len() || a[i] < b[i]);
    proof {
        if r {
            assert(lex_lt_at(a@, b@, i as int));
        } else {
            lemma_lex_trichotomy(a@, b@);
            if i == b.len() && i == a.len() {
                assert(a@.take(i as int) =~= a@);
                assert(b@.take(i as int) =~= b@);
            } else {
                assert(lex_lt_at(b@, a@, i as int));
            }
        }
    }
    r
}

/// Whether two byte strings are equal.
pub fn bytes_eq(a: &[u8], b: &[u8]) -> (r: bool)
    ensures
        r == (a@ == b@),
{
    if a.len() != b.len() {
        return false;
    }
    let mut i: usize = 0;
    while i < a.len()
        invariant
            i <= a.len(),
            a.len() == b.len(),
            forall|j: int| 0 <= j < i ==> a@[j] == b@[j],
        decreases a.len() - i,
    {
        if a[i] != b[i] {
            return false;
        }
        i += 1;
    }
    assert(a@ =~= b@);
    true
}

} // verus!
