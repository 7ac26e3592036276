//! Character-level text utilities shared by the fuzzy matcher and the
//! full-text index: substring search, word handling, lexicographic order,
//! Levenshtein distance and decimal rendering, specified over `Seq<char>`,
//! together with the trusted wrappers for Unicode case folding, trimming
//! and whitespace splitting.

use vstd::prelude::*;
use vstd::string::StrSliceExecFns;
use vstd::string::StringExecFns;

verus! {

// ---------------------------------------------------------------------------
// Whitespace, trimming, words
// ---------------------------------------------------------------------------
/// The ASCII whitespace characters; the snippet anchor's fallback scans for
/// word boundaries by these.
pub open spec fn is_space(c: char) -> bool {
    c == ' ' || c == '\t' || c == '\n' || c == '\r' || c == '\u{c}'
}

/// Whether a character is whitespace.
pub fn is_space_exec(c: char) -> (r: bool)
    ensures
        r == is_space(c),
{
    c == ' ' || c == '\t' || c == '\n' || c == '\r' || c == '\u{c}'
}

// ---------------------------------------------------------------------------
// Words
// ---------------------------------------------------------------------------
/// Length of the whitespace-free prefix of a sequence.
pub open spec fn word_len(s: Seq<char>) -> int
    decreases s.len(),
{
    if s.len() == 0 || is_space(s[0]) {
        0
    } else {
        1 + word_len(s.skip(1))
    }
}

/// The exact characterisation of `word_len`: it is the first whitespace
/// position, or the length when there is none.
pub proof fn lemma_word_len_is(s: Seq<char>, m: int)
    requires
        0 <= m <= s.len(),
        forall|k: int| 0 <= k < m ==> !is_space(s[k]),
        m < s.len() ==> is_space(s[m]),
    ensures
        word_len(s) == m,
    decreases m,
{
    if m == 0 {
    } else {
        lemma_word_len_is(s.skip(1), m - 1);
    }
}

/// Words joined with single spaces between them.
pub open spec fn join_spaced(ws: Seq<Seq<char>>) -> Seq<char>
    decreases ws.len(),
{
    if ws.len() == 0 {
        Seq::empty()
    } else if ws.len() == 1 {
        ws[0]
    } else {
        ws[0] + seq![' '] + join_spaced(ws.skip(1))
    }
}

/// What remains to append once the first `k` words are joined: a separating
/// space when more words follow ones already written, then the rest.
pub open spec fn join_tail(ws: Seq<Seq<char>>, k: int) -> Seq<char> {
    if k == 0 {
        join_spaced(ws)
    } else if k < ws.len() {
        seq![' '] + join_spaced(ws.skip(k))
    } else {
        Seq::empty()
    }
}

/// Join words with single spaces.
#[verifier::loop_isolation(false)]
pub fn join_words(ws: &Vec<Vec<char>>) -> (r: Vec<char>)
    ensures
        r@ == join_spaced(ws@.map_values(|w: Vec<char>| w@)),
{
    let mut r: Vec<char> = Vec::new();
    let mut k: usize = 0;
    let ghost f = |w: Vec<char>| w@;
    let ghost m = ws@.map_values(f);
    while k < ws.len()
        invariant
            k <= ws@.len(),
            m == ws@.map_values(f),
            join_spaced(m) =~= r@ + join_tail(m, k as int),
        decreases ws@.len() - k,
    {
        proof {
            assert(m[k as int] == ws@[k as int]@);
            assert(m.skip(k as int)[0] == m[k as int]);
            assert(m.skip(k as int).skip(1) =~= m.skip(k + 1));
            if k as int + 1 < m.len() {
                assert(join_spaced(m.skip(k as int)) == m.skip(k as int)[0] + seq![' ']
                    + join_spaced(m.skip(k as int).skip(1)));
            } else {
                assert(m.skip(k as int).len() == 1);
                assert(join_spaced(m.skip(k as int)) == m.skip(k as int)[0]);
            }
        }
        if k > 0 {
            r.push(' ');
        }
        let w = &ws[k];
        let mut p: usize = 0;
        let ghost r0 = r@;
        while p < w.len()
            invariant
                p <= w@.len(),
                r@ == r0 + w@.take(p as int),
            decreases w@.len() - p,
        {
            r.push(w[p]);
            assert(r@ =~= r0 + w@.take(p + 1));
            p = p + 1;
        }
        assert(w@.take(w@.len() as int) =~= w@);
        assert(r@ == r0 + ws@[k as int]@);
        proof {
            if k == 0 {
                if m.len() > 1 {
                    assert(m.skip(0) =~= m);
                    assert(join_spaced(m) == m[0] + seq![' '] + join_spaced(m.skip(1)));
                    assert(join_spaced(m) =~= r@ + join_tail(m, k + 1));
                } else {
                    assert(join_spaced(m) == m[0]);
                    assert(join_spaced(m) =~= r@ + join_tail(m, k + 1));
                }
            } else {
                assert(join_spaced(m) =~= r@ + join_tail(m, k + 1));
            }
        }
        k = k + 1;
    }
    proof {
        if m.len() == 0 {
            assert(join_spaced(m) =~= r@);
        } else {
            assert(join_tail(m, m.len() as int) =~= Seq::<char>::empty());
            assert(join_spaced(m) =~= r@);
        }
    }
    r
}

// ---------------------------------------------------------------------------
// Substring search
// ---------------------------------------------------------------------------
/// `needle` occurs in `hay` at position `i`.
pub open spec fn contains_at(hay: Seq<char>, i: int, needle: Seq<char>) -> bool {
    0 <= i && i + needle.len() <= hay.len() && hay.subrange(i, i + needle.len()) == needle
}

/// `needle` occurs somewhere in `hay`.
pub open spec fn contains_seq(hay: Seq<char>, needle: Seq<char>) -> bool {
    exists|i: int| contains_at(hay, i, needle)
}

/// Position of the first occurrence of `needle` in `hay`, if any.
pub fn find_sub(hay: &Vec<char>, needle: &Vec<char>) -> (r: Option<usize>)
    ensures
        match r {
            Some(i) => contains_at(hay@, i as int, needle@) && forall|j: int|
                0 <= j < i ==> !contains_at(hay@, j, needle@),
            None => !contains_seq(hay@, needle@),
        },
{
    let n = hay.len();
    let m = needle.len();
    if m > n {
        assert(forall|i: int| !contains_at(hay@, i, needle@));
        return None;
    }
    if m == 0 {
        assert(hay@.subrange(0, 0) =~= needle@);
        return Some(0);
    }
    let mut i: usize = 0;
    while i <= n - m
        invariant
            m <= n,
            n == hay@.len(),
            m == needle@.len(),
            1 <= m,
            i <= n - m + 1,
            forall|j: int| 0 <= j < i ==> !contains_at(hay@, j, needle@),
        decreases n - i,
    {
        let mut k: usize = 0;
        let mut matched = true;
        while matched && k < m
            invariant
                1 <= m <= n,
                n == hay@.len(),
                m == needle@.len(),
                i <= n - m,
                k <= m,
                matched ==> hay@.subrange(i as int, i + k) =~= needle@.take(k as int),
                !matched ==> !contains_at(hay@, i as int, needle@),
            decreases m - k + (if matched { 1int } else { 0int }),
        {
            if hay[i + k] != needle[k] {
                proof {
                    if contains_at(hay@, i as int, needle@) {
                        assert(hay@.subrange(i as int, i + m)[k as int] == needle@[k as int]);
                        assert(hay@.subrange(i as int, i + m)[k as int] == hay@[i + k]);
                    }
                }
                matched = false;
            } else {
                assert(hay@.subrange(i as int, i + k + 1) =~= hay@.subrange(i as int, i + k).push(
                    hay@[i + k],
                ));
                assert(needle@.take(k + 1) =~= needle@.take(k as int).push(needle@[k as int]));
                k = k + 1;
            }
        }
        if matched {
            assert(needle@.take(m as int) =~= needle@);
            assert(hay@.subrange(i as int, i + m) == needle@);
            assert(contains_at(hay@, i as int, needle@));
            return Some(i);
        }
        i = i + 1;
    }
    assert(forall|j: int| !contains_at(hay@, j, needle@)) by {
        assert(forall|j: int| j > n - m ==> !contains_at(hay@, j, needle@));
    }
    None
}

/// Whether `needle` occurs somewhere in `hay`.
pub fn contains_chars(hay: &Vec<char>, needle: &Vec<char>) -> (r: bool)
    ensures
        r == contains_seq(hay@, needle@),
{
    find_sub(hay, needle).is_some()
}

/// Whether two character vectors hold the same characters.
pub fn chars_eq(a: &Vec<char>, b: &Vec<char>) -> (r: bool)
    ensures
        r == (a@ == b@),
{
    if a.len() != b.len() {
        return false;
    }
    let mut i: usize = 0;
    while i < a.len()
        invariant
            a@.len() == b@.len(),
            i <= a@.len(),
            forall|k: int| 0 <= k < i ==> a@[k] == b@[k],
        decreases a@.len() - i,
    {
        if a[i] != b[i] {
            return false;
        }
        i = i + 1;
    }
    proof {
        assert(a@ =~= b@);
    }
    true
}

// ---------------------------------------------------------------------------
// Levenshtein distance
// ---------------------------------------------------------------------------
pub open spec fn min3(a: int, b: int, c: int) -> int {
    if a <= b && a <= c {
        a
    } else if b <= c {
        b
    } else {
        c
    }
}

/// The Levenshtein edit distance between two character sequences, over
/// insertions, deletions and substitutions of single characters.
pub open spec fn lev(a: Seq<char>, b: Seq<char>) -> int
    decreases a.len() + b.len(),
{
    if a.len() == 0 {
        b.len() as int
    } else if b.len() == 0 {
        a.len() as int
    } else {
        let cost: int = if a.last() == b.last() {
            0
        } else {
            1
        };
        min3(lev(a.drop_last(), b) + 1, lev(a, b.drop_last()) + 1, lev(
            a.drop_last(),
            b.drop_last(),
        ) + cost)
    }
}

pub proof fn lemma_lev_bounds(a: Seq<char>, b: Seq<char>)
    ensures
        0 <= lev(a, b),
        lev(a, b) <= a.len() + b.len(),
        a.len() >= b.len() ==> lev(a, b) <= a.len(),
        b.len() >= a.len() ==> lev(a, b) <= b.len(),
    decreases a.len() + b.len(),
{
    if a.len() > 0 && b.len() > 0 {
        lemma_lev_bounds(a.drop_last(), b);
        lemma_lev_bounds(a, b.drop_last());
        lemma_lev_bounds(a.drop_last(), b.drop_last());
    }
}

/// The recurrence over prefixes that the dynamic program implements.
proof fn lemma_lev_step(a: Seq<char>, b: Seq<char>, i: int, j: int)
    requires
        1 <= i <= a.len(),
        1 <= j <= b.len(),
    ensures
        lev(a.take(i), b.take(j)) == ({
            let cost: int = if a[i - 1] == b[j - 1] {
                0
            } else {
                1
            };
            min3(lev(a.take(i - 1), b.take(j)) + 1, lev(a.take(i), b.take(j - 1)) + 1, lev(
                a.take(i - 1),
                b.take(j - 1),
            ) + cost)
        }),
{
    assert(a.take(i).drop_last() =~= a.take(i - 1));
    assert(b.take(j).drop_last() =~= b.take(j - 1));
    assert(a.take(i).last() == a[i - 1]);
    assert(b.take(j).last() == b[j - 1]);
}

/// The Levenshtein edit distance between two strings, computed over Unicode
/// code points by the classic dynamic program.
pub fn levenshtein_distance(s1: &str, s2: &str) -> (d: usize)
    ensures
        d == lev(s1@, s2@),
{
    let a = chars_of(s1);
    let b = chars_of(s2);
    levenshtein_chars(&a, &b)
}

/// The Levenshtein edit distance between two character vectors.
pub fn levenshtein_chars(a: &Vec<char>, b: &Vec<char>) -> (d: usize)
    ensures
        d == lev(a@, b@),
{
    let n1 = a.len();
    let n2 = b.len();
    // prev[t] == lev(a.take(i), b.take(t)) for the number i of rows done so far
    let mut prev: Vec<usize> = Vec::new();
    prev.push(0);
    let mut j: usize = 0;
    while j < n2
        invariant
            n2 == b@.len(),
            j <= n2,
            prev@.len() == j + 1,
            forall|t: int| 0 <= t <= j ==> prev@[t] == lev(a@.take(0), b@.take(t)),
        decreases n2 - j,
    {
        assert(b@.take(j + 1).len() == j + 1);
        assert(lev(a@.take(0), b@.take(j + 1)) == j + 1);
        prev.push(j + 1);
        j = j + 1;
    }
    let mut i: usize = 0;
    while i < n1
        invariant
            n1 == a@.len(),
            n2 == b@.len(),
            i <= n1,
            prev@.len() == n2 + 1,
            forall|t: int| 0 <= t <= n2 ==> prev@[t] == lev(a@.take(i as int), b@.take(t)),
        decreases n1 - i,
    {
        let mut cur: Vec<usize> = Vec::new();
        assert(a@.take(i + 1).len() == i + 1);
        assert(lev(a@.take(i + 1), b@.take(0)) == i + 1);
        cur.push(i + 1);
        let mut j2: usize = 0;
        while j2 < n2
            invariant
                n1 == a@.len(),
                n2 == b@.len(),
                i < n1,
                j2 <= n2,
                prev@.len() == n2 + 1,
                cur@.len() == j2 + 1,
                forall|t: int| 0 <= t <= n2 ==> prev@[t] == lev(a@.take(i as int), b@.take(t)),
                forall|t: int| 0 <= t <= j2 ==> cur@[t] == lev(a@.take(i + 1), b@.take(t)),
            decreases n2 - j2,
        {
            let cost: usize = if a[i] == b[j2] {
                0
            } else {
                1
            };
            proof {
                lemma_lev_step(a@, b@, i + 1, j2 + 1);
                lemma_lev_bounds(a@.take(i as int), b@.take(j2 + 1));
                lemma_lev_bounds(a@.take(i + 1), b@.take(j2 as int));
                lemma_lev_bounds(a@.take(i as int), b@.take(j2 as int));
                assert(a@.take(i as int).len() == i);
                assert(b@.take(j2 as int).len() == j2);
            }
            let p = prev[j2 + 1];
            let c = cur[j2];
            let q = prev[j2];
            let pc = if p <= c {
                p
            } else {
                c
            };
            // q + cost stays within bounds: the distance of the (i, j2)
            // prefixes is at most max(i, j2), and both are below their length.
            let qc = q + cost;
            let best = if qc <= pc {
                qc
            } else {
                pc + 1
            };
            assert(best == min3(p + 1, c + 1, q + cost));
            cur.push(best);
            j2 = j2 + 1;
        }
        prev = cur;
        i = i + 1;
    }
    assert(a@.take(n1 as int) =~= a@);
    assert(b@.take(n2 as int) =~= b@);
    prev[n2]
}

// ---------------------------------------------------------------------------
// Digits, prefixes, suffixes
// ---------------------------------------------------------------------------
/// Whether a character is an ASCII decimal digit.
pub open spec fn is_digit(c: char) -> bool {
    '0' <= c && c <= '9'
}

pub fn is_digit_exec(c: char) -> (r: bool)
    ensures
        r == is_digit(c),
{
    '0' <= c && c <= '9'
}

/// The digits of a sequence, in order.
pub open spec fn digits_of(s: Seq<char>) -> Seq<char> {
    s.filter(|c: char| is_digit(c))
}

/// Keep only the ASCII digits of a character vector.
pub fn digit_chars(v: &Vec<char>) -> (r: Vec<char>)
    ensures
        r@ == digits_of(v@),
{
    let mut r: Vec<char> = Vec::new();
    let mut i: usize = 0;
    while i < v.len()
        invariant
            i <= v@.len(),
            r@ == digits_of(v@.take(i as int)),
        decreases v@.len() - i,
    {
        proof {
            reveal(Seq::filter);
            assert(v@.take(i + 1).drop_last() =~= v@.take(i as int));
            assert(v@.take(i + 1).last() == v@[i as int]);
            if is_digit(v@[i as int]) {
                assert(digits_of(v@.take(i + 1)) == digits_of(v@.take(i as int)).push(
                    v@[i as int],
                ));
            } else {
                assert(digits_of(v@.take(i + 1)) == digits_of(v@.take(i as int)));
            }
        }
        if is_digit_exec(v[i]) {
            r.push(v[i]);
        }
        i = i + 1;
    }
    assert(v@.take(v@.len() as int) =~= v@);
    r
}

/// `s` starts with `p`.
pub open spec fn starts_with(s: Seq<char>, p: Seq<char>) -> bool {
    p.len() <= s.len() && s.take(p.len() as int) == p
}

pub fn starts_with_exec(v: &Vec<char>, p: &Vec<char>) -> (r: bool)
    ensures
        r == starts_with(v@, p@),
{
    if p.len() > v.len() {
        return false;
    }
    let mut i: usize = 0;
    while i < p.len()
        invariant
            p@.len() <= v@.len(),
            i <= p@.len(),
            forall|k: int| 0 <= k < i ==> v@[k] == p@[k],
        decreases p@.len() - i,
    {
        if v[i] != p[i] {
            assert(v@.take(p@.len() as int)[i as int] != p@[i as int]);
            return false;
        }
        i = i + 1;
    }
    proof {
        assert(v@.take(p@.len() as int) =~= p@);
    }
    true
}

/// `s` with every copy of the prefix `p` removed from the front.
pub open spec fn strip_prefix_all(s: Seq<char>, p: Seq<char>) -> Seq<char>
    decreases s.len(),
{
    if p.len() > 0 && starts_with(s, p) {
        strip_prefix_all(s.skip(p.len() as int), p)
    } else {
        s
    }
}

/// Remove every copy of the prefix `p` from the front of `v`.
pub fn strip_prefix_all_exec(v: Vec<char>, p: &Vec<char>) -> (r: Vec<char>)
    ensures
        r@ == strip_prefix_all(v@, p@),
    decreases v@.len(),
{
    if p.len() > 0 && starts_with_exec(&v, p) {
        let mut r: Vec<char> = Vec::new();
        let mut i: usize = p.len();
        while i < v.len()
            invariant
                p@.len() <= i <= v@.len(),
                r@ == v@.subrange(p@.len() as int, i as int),
            decreases v@.len() - i,
        {
            r.push(v[i]);
            assert(r@ =~= v@.subrange(p@.len() as int, i + 1));
            i = i + 1;
        }
        assert(r@ =~= v@.skip(p@.len() as int));
        strip_prefix_all_exec(r, p)
    } else {
        v
    }
}

/// Stripping prefixes leaves a suffix of the input.
pub proof fn lemma_strip_prefix_all_suffix(s: Seq<char>, p: Seq<char>)
    ensures
        exists|k: int| 0 <= k <= s.len() && strip_prefix_all(s, p) =~= s.skip(k),
    decreases s.len(),
{
    if p.len() > 0 && starts_with(s, p) {
        lemma_strip_prefix_all_suffix(s.skip(p.len() as int), p);
        let k0 = choose|k: int|
            0 <= k <= s.skip(p.len() as int).len() && strip_prefix_all(s.skip(p.len() as int), p)
                =~= s.skip(p.len() as int).skip(k);
        assert(s.skip(p.len() as int).skip(k0) =~= s.skip(p.len() + k0));
        assert(0 <= p.len() + k0 <= s.len() && strip_prefix_all(s, p) =~= s.skip(
            p.len() + k0,
        ));
    } else {
        assert(strip_prefix_all(s, p) =~= s.skip(0));
    }
}

/// `s` with every trailing copy of the character `c` removed.
pub open spec fn strip_suffix_char(s: Seq<char>, c: char) -> Seq<char>
    decreases s.len(),
{
    if s.len() > 0 && s.last() == c {
        strip_suffix_char(s.drop_last(), c)
    } else {
        s
    }
}

/// Stripping a trailing character leaves a prefix that does not end in it.
pub proof fn lemma_strip_suffix_char_wf(s: Seq<char>, c: char)
    ensures
        strip_suffix_char(s, c).len() == 0 || strip_suffix_char(s, c).last() != c,
        exists|j: int| 0 <= j <= s.len() && strip_suffix_char(s, c) =~= s.take(j),
    decreases s.len(),
{
    if s.len() > 0 && s.last() == c {
        assert(s.drop_last() =~= s.take(s.len() - 1));
        lemma_strip_suffix_char_wf(s.drop_last(), c);
        let j0 = choose|j: int|
            0 <= j <= s.drop_last().len() && strip_suffix_char(s.drop_last(), c) =~= s.drop_last()
                .take(j);
        assert(s.drop_last().take(j0) =~= s.take(j0));
        assert(0 <= j0 <= s.len() && strip_suffix_char(s, c) =~= s.take(j0));
    } else {
        assert(strip_suffix_char(s, c) =~= s.take(s.len() as int));
    }
}

/// Remove every trailing copy of `c` from `v`.
pub fn strip_suffix_char_exec(v: Vec<char>, c: char) -> (r: Vec<char>)
    ensures
        r@ == strip_suffix_char(v@, c),
{
    let mut r = v;
    while r.len() > 0 && r[r.len() - 1] == c
        invariant
            strip_suffix_char(r@, c) == strip_suffix_char(v@, c),
        decreases r@.len(),
    {
        let ghost before = r@;
        let _ = r.pop();
        assert(r@ =~= before.drop_last());
    }
    r
}

// ---------------------------------------------------------------------------
// Lexicographic order
// ---------------------------------------------------------------------------
/// Lexicographic order on character sequences, by code point; for ISO 8601
/// timestamps this agrees with time order.
pub open spec fn seq_lt(a: Seq<char>, b: Seq<char>) -> bool
    decreases a.len(),
{
    if b.len() == 0 {
        false
    } else if a.len() == 0 {
        true
    } else if a[0] != b[0] {
        (a[0] as u32) < (b[0] as u32)
    } else {
        seq_lt(a.skip(1), b.skip(1))
    }
}

/// `a` is lexicographically at most `b`.
pub open spec fn seq_le(a: Seq<char>, b: Seq<char>) -> bool {
    seq_lt(a, b) || a == b
}

/// Of two sequences, one is smaller or they are equal.
pub proof fn lemma_seq_lt_trichotomy(a: Seq<char>, b: Seq<char>)
    ensures
        seq_lt(a, b) || seq_lt(b, a) || a == b,
    decreases a.len() + b.len(),
{
    if a.len() == 0 && b.len() == 0 {
        assert(a =~= b);
    } else if a.len() > 0 && b.len() > 0 && a[0] == b[0] {
        lemma_seq_lt_trichotomy(a.skip(1), b.skip(1));
        if !seq_lt(a, b) && !seq_lt(b, a) {
            assert(a.skip(1) == b.skip(1));
            assert(a =~= b) by {
                assert(forall|k: int| 1 <= k < a.len() ==> a[k] == a.skip(1)[k - 1]);
                assert(forall|k: int| 1 <= k < b.len() ==> b[k] == b.skip(1)[k - 1]);
            }
        }
    } else if a.len() > 0 && b.len() > 0 {
        assert(a[0] != b[0]);
        if !seq_lt(a, b) && !seq_lt(b, a) {
            assert((a[0] as u32) == (b[0] as u32));
            vstd::utf8::char_u32_cast(a[0], a[0] as u32);
            vstd::utf8::char_u32_cast(b[0], b[0] as u32);
            assert(false);
        }
    }
}

/// The lexicographic order is transitive.
pub proof fn lemma_seq_lt_trans(a: Seq<char>, b: Seq<char>, c: Seq<char>)
    requires
        seq_lt(a, b),
        seq_lt(b, c),
    ensures
        seq_lt(a, c),
    decreases a.len() + b.len() + c.len(),
{
    if a.len() == 0 {
        assert(c.len() > 0);
    } else {
        assert(b.len() > 0 && c.len() > 0);
        if a[0] == b[0] && b[0] == c[0] {
            lemma_seq_lt_trans(a.skip(1), b.skip(1), c.skip(1));
        }
    }
}

/// The lexicographic order never holds in both directions.
pub proof fn lemma_seq_lt_asym(a: Seq<char>, b: Seq<char>)
    ensures
        !(seq_lt(a, b) && seq_lt(b, a)),
    decreases a.len() + b.len(),
{
    if a.len() > 0 && b.len() > 0 && a[0] == b[0] {
        lemma_seq_lt_asym(a.skip(1), b.skip(1));
    }
}

/// Lexicographic comparison of two character vectors.
pub fn chars_lt(a: &Vec<char>, b: &Vec<char>) -> (r: bool)
    ensures
        r == seq_lt(a@, b@),
{
    let mut i: usize = 0;
    let na = a.len();
    let nb = b.len();
    proof {
        assert(a@.skip(0) =~= a@);
        assert(b@.skip(0) =~= b@);
    }
    while i < na && i < nb
        invariant
            na == a@.len(),
            nb == b@.len(),
            i <= na,
            i <= nb,
            seq_lt(a@, b@) == seq_lt(a@.skip(i as int), b@.skip(i as int)),
            forall|k: int| 0 <= k < i ==> a@[k] == b@[k],
        decreases na - i,
    {
        proof {
            let sa = a@.skip(i as int);
            let sb = b@.skip(i as int);
            assert(sa[0] == a@[i as int]);
            assert(sb[0] == b@[i as int]);
            assert(sa.skip(1) =~= a@.skip(i + 1));
            assert(sb.skip(1) =~= b@.skip(i + 1));
        }
        if a[i] != b[i] {
            return (a[i] as u32) < (b[i] as u32);
        }
        proof {
            let sa = a@.skip(i as int);
            let sb = b@.skip(i as int);
            assert(seq_lt(sa, sb) == seq_lt(sa.skip(1), sb.skip(1)));
        }
        i = i + 1;
    }
    proof {
        let sa = a@.skip(i as int);
        let sb = b@.skip(i as int);
        if i == na {
            assert(sa.len() == 0);
        } else {
            assert(sb.len() == 0);
        }
    }
    i == na && i < nb
}

// ---------------------------------------------------------------------------
// Decimal rendering
// ---------------------------------------------------------------------------
/// The character of a single decimal digit.
pub open spec fn dec_digit(d: int) -> char {
    ((48 + d) as u32) as char
}

/// The decimal representation of a nonnegative number, most significant
/// digit first.
pub open spec fn dec_rep(n: int) -> Seq<char>
    decreases n,
{
    if n < 10 {
        seq![dec_digit(if n >= 0 {
            n
        } else {
            0
        })]
    } else {
        dec_rep(n / 10) + seq![dec_digit(n % 10)]
    }
}

/// Render a number in decimal.
pub fn u64_to_string(n: u64) -> (r: String)
    ensures
        r@ == dec_rep(n as int),
{
    let mut digits: Vec<char> = Vec::new();
    let mut m = n;
    loop
        invariant_except_break
            digits@.len() == 0 ==> m == n,
            digits@.len() > 0 ==> m > 0,
            m > 0 ==> dec_rep(n as int) =~= dec_rep(m as int) + digits@.reverse(),
        ensures
            dec_rep(n as int) =~= digits@.reverse(),
        decreases m, (if digits@.len() == 0 { 1int } else { 0int }),
    {
        let ghost before = digits@;
        let d = (m % 10) as u8;
        digits.push((48 + d) as char);
        proof {
            assert(digits@.reverse() =~= seq![dec_digit(m as int % 10)] + before.reverse());
            if m >= 10 {
                assert(dec_rep(m as int) == dec_rep(m as int / 10) + seq![
                    dec_digit(m as int % 10),
                ]);
                assert(dec_rep(m as int / 10) + seq![dec_digit(m as int % 10)] + before.reverse()
                    =~= dec_rep(m as int / 10) + digits@.reverse());
            } else {
                assert(dec_rep(m as int) == seq![dec_digit(m as int)]);
                assert(seq![dec_digit(m as int)] + before.reverse() =~= digits@.reverse());
            }
        }
        m = m / 10;
        if m == 0 {
            break ;
        }
    }
    // write the collected digits out, last first
    let mut out: Vec<char> = Vec::new();
    let total = digits.len();
    let mut i: usize = 0;
    while i < total
        invariant
            total == digits@.len(),
            i <= total,
            out@ =~= digits@.reverse().take(i as int),
        decreases total - i,
    {
        out.push(digits[total - 1 - i]);
        proof {
            assert(digits@.reverse()[i as int] == digits@[total - 1 - i]);
            assert(out@ =~= digits@.reverse().take(i + 1));
        }
        i = i + 1;
    }
    proof {
        assert(digits@.reverse().take(total as int) =~= digits@.reverse());
    }
    string_from_chars(&out)
}

// ---------------------------------------------------------------------------
// Unicode case folding, trimming and word splitting (trusted)
// ---------------------------------------------------------------------------
/// What `str::to_lowercase` returns: a function of the characters alone.
pub uninterp spec fn lower_of(s: Seq<char>) -> Seq<char>;

/// Lowercase a string.
///
/// Relies on `str::to_lowercase`: Unicode lowercasing, per the Unicode
/// Lowercase derived property; the result depends on the characters alone,
/// and an empty string stays empty.
#[verifier::external_body]
pub fn to_lowercase(s: &str) -> (r: String)
    ensures
        r@ == lower_of(s@),
        s@.len() == 0 ==> r@.len() == 0,
{
    s.to_lowercase()
}

/// What `str::trim` returns: a function of the characters alone.
pub uninterp spec fn trim_of(s: Seq<char>) -> Seq<char>;

/// Trim whitespace from both ends of a string.
///
/// Relies on `str::trim`: leading and trailing Unicode whitespace removed;
/// the result depends on the characters alone, is never longer than the
/// input, and an empty string stays empty.
#[verifier::external_body]
pub fn trim_str<'a>(s: &'a str) -> (r: &'a str)
    ensures
        r@ == trim_of(s@),
        r@.len() <= s@.len(),
        s@.len() == 0 ==> r@.len() == 0,
{
    s.trim()
}

/// What `str::split_whitespace` returns: a function of the characters alone.
pub uninterp spec fn words_of(s: Seq<char>) -> Seq<Seq<char>>;

/// The whitespace-separated words of a string, in order.
///
/// Relies on `str::split_whitespace`: the words separated by runs of Unicode
/// whitespace, in order; the result depends on the characters alone, and an
/// empty string yields no words.
#[verifier::external_body]
pub fn split_whitespace_words(s: &str) -> (r: Vec<String>)
    ensures
        r.deep_view() == words_of(s@),
        s@.len() == 0 ==> r@.len() == 0,
{
    s.split_whitespace().map(|w| w.to_string()).collect()
}

/// The character vectors of a list of strings.
pub fn strings_to_char_vecs(v: &Vec<String>) -> (r: Vec<Vec<char>>)
    ensures
        r@.len() == v@.len(),
        forall|i: int| 0 <= i < r@.len() ==> (#[trigger] r@[i])@ == v@[i]@,
{
    let mut r: Vec<Vec<char>> = Vec::new();
    let mut i: usize = 0;
    while i < v.len()
        invariant
            i <= v@.len(),
            r@.len() == i,
            forall|k: int| 0 <= k < i ==> (#[trigger] r@[k])@ == v@[k]@,
        decreases v@.len() - i,
    {
        r.push(chars_of(v[i].as_str()));
        i = i + 1;
    }
    r
}

// ---------------------------------------------------------------------------
// Strings and characters
// ---------------------------------------------------------------------------
/// Build a `String` from a character vector.
///
/// Relies on `String`'s `FromIterator<char>` implementation: the collected
/// string holds exactly the iterated characters, in order.
#[verifier::external_body]
pub fn string_from_chars(v: &Vec<char>) -> (r: String)
    ensures
        r@ == v@,
{
    v.iter().collect()
}

/// The characters of a string slice, as a vector.
pub fn chars_of(s: &str) -> (r: Vec<char>)
    ensures
        r@ == s@,
{
    let n = s.unicode_len();
    let mut r: Vec<char> = Vec::new();
    let mut i: usize = 0;
    while i < n
        invariant
            n == s@.len(),
            i <= n,
            r@ == s@.take(i as int),
        decreases n - i,
    {
        r.push(s.get_char(i));
        assert(r@ =~= s@.take(i + 1 as int));
        i = i + 1;
    }
    assert(r@ =~= s@);
    r
}

/// Whether two string slices hold the same characters.
pub fn str_eq(a: &str, b: &str) -> (r: bool)
    ensures
        r == (a@ == b@),
{
    let va = chars_of(a);
    let vb = chars_of(b);
    chars_eq(&va, &vb)
}

/// Copy a string slice into an owned `String`.
pub fn str_to_string(s: &str) -> (r: String)
    ensures
        r@ == s@,
{
    String::from_str(s)
}

} // verus!
