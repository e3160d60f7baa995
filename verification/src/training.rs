//! Training data support for the DRRP extraction model: article parsing,
//! longest-common-substring matching of a clause against its source text,
//! and qualifier detection.

use vstd::prelude::*;
use vstd::string::StrSliceExecFns;
use crate::rx::{find_iter, pieces_view, regex_find_iter, well_placed, MatchPieces};
use crate::text::from_chars;
use crate::text::{from_range, str_lowercase, to_chars, to_lowercase};

verus! {

/// A flat DRRP entry (one element of the `duties`/`rights`/... lists).
#[derive(Debug, Clone)]
pub struct FlatDrrpEntry {
    pub law_name: String,
    pub drrp_type: String,
    pub holder: String,
    pub clause: String,
    pub article: String,
}

/// A qualifying phrase found in source text (character offsets).
#[derive(Debug, Clone)]
pub struct QualifierMatch {
    pub start: usize,
    pub end: usize,
    pub text: String,
}

// ---------------------------------------------------------------------------
// Article parsing

pub open spec fn is_delim(c: char) -> bool {
    c == '-' || c == '/'
}

/// Index just past the last `-` or `/` of `s` (0 when there is none).
pub open spec fn segment_start(s: Seq<char>) -> int
    decreases s.len(),
{
    if s.len() == 0 {
        0
    } else if is_delim(s.last()) {
        s.len() as int
    } else {
        segment_start(s.drop_last())
    }
}

proof fn lemma_segment_start_range(s: Seq<char>)
    ensures
        0 <= segment_start(s) <= s.len(),
    decreases s.len(),
{
    if s.len() > 0 {
        lemma_segment_start_range(s.drop_last());
    }
}

/// The provision number of an article reference: its last segment after `-`
/// or `/`; none for an empty article or an empty last segment.
pub open spec fn provision_of(article: Seq<char>) -> Option<Seq<char>> {
    let seg = article.skip(segment_start(article));
    if article.len() == 0 || seg.len() == 0 { None } else { Some(seg) }
}

/// `section/2`, `section-2`, `regulation/4`, `rule-3` give the bare provision number.
pub fn parse_article_to_provision(article: &str) -> (r: Option<&str>)
    ensures
        match r {
            Some(p) => provision_of(article@) == Some(p@),
            None => provision_of(article@) is None,
        },
{
    let v = to_chars(article);
    let mut k = v.len();
    proof {
        assert(v@.take(v.len() as int) =~= v@);
    }
    while k > 0 && !(v[k - 1] == '-' || v[k - 1] == '/')
        invariant
            k <= v.len(),
            v@ == article@,
            segment_start(v@.take(k as int)) == segment_start(v@),
        decreases k,
    {
        proof {
            assert(v@.take(k as int).drop_last() =~= v@.take(k - 1));
        }
        k -= 1;
    }
    proof {
        if k == 0 {
            assert(v@.take(0).len() == 0);
        } else {
            assert(v@.take(k as int).last() == v@[k - 1]);
        }
        assert(segment_start(v@) == k);
        assert(v@.take(v.len() as int) =~= v@);
    }
    if v.len() == 0 || k == v.len() {
        return None;
    }
    let seg = article.substring_char(k, v.len());
    proof {
        assert(seg@ =~= article@.skip(k as int));
    }
    Some(seg)
}

// ---------------------------------------------------------------------------
// Longest common substring

/// Length of the longest common suffix of `a[..i]` and `b[..j]`.
pub open spec fn suffix_len(a: Seq<char>, b: Seq<char>, i: int, j: int) -> nat
    decreases i,
{
    if i <= 0 || j <= 0 || i > a.len() || j > b.len() {
        0
    } else if a[i - 1] == b[j - 1] {
        suffix_len(a, b, i - 1, j - 1) + 1
    } else {
        0
    }
}

/// `a[p..p+k]` and `b[q..q+k]` are the same, and in bounds.
pub open spec fn common(a: Seq<char>, b: Seq<char>, p: int, q: int, k: int) -> bool {
    0 <= p && 0 <= q && 0 <= k && p + k <= a.len() && q + k <= b.len() && a.subrange(p, p + k) == b.subrange(q, q + k)
}

/// `(i, j)` comes before `(x, y)` in row-major order.
pub open spec fn before(i: int, j: int, x: int, y: int) -> bool {
    i < x || (i == x && j < y)
}

proof fn lemma_suffix_common(a: Seq<char>, b: Seq<char>, i: int, j: int, k: int)
    requires
        0 <= k <= suffix_len(a, b, i, j),
        0 <= i <= a.len(),
        0 <= j <= b.len(),
    ensures
        common(a, b, i - k, j - k, k),
    decreases k,
{
    if k > 0 {
        lemma_suffix_common(a, b, i - 1, j - 1, k - 1);
        assert(a.subrange(i - k, i) =~= a.subrange(i - k, i - 1).push(a[i - 1]));
        assert(b.subrange(j - k, j) =~= b.subrange(j - k, j - 1).push(b[j - 1]));
    } else {
        assert(a.subrange(i, i) =~= b.subrange(j, j));
    }
}

proof fn lemma_common_suffix(a: Seq<char>, b: Seq<char>, p: int, q: int, k: int)
    requires
        common(a, b, p, q, k),
    ensures
        suffix_len(a, b, p + k, q + k) >= k,
    decreases k,
{
    if k > 0 {
        assert(a.subrange(p, p + k)[k - 1] == b.subrange(q, q + k)[k - 1]);
        assert(a.subrange(p, p + k - 1) =~= a.subrange(p, p + k).drop_last());
        assert(b.subrange(q, q + k - 1) =~= b.subrange(q, q + k).drop_last());
        lemma_common_suffix(a, b, p, q, k - 1);
    }
}

/// What [`longest_common_substring`] returns: a common substring of maximal
/// length, the first (by end positions in row-major order) of that length;
/// `(0, 0, 0)` when there is none.
pub open spec fn lcs_props(a: Seq<char>, b: Seq<char>, r: (int, int, int)) -> bool {
    &&& common(a, b, r.0, r.1, r.2)
    &&& forall|p: int, q: int, k: int| common(a, b, p, q, k) ==> k <= r.2
    &&& r.2 == 0 ==> r.0 == 0 && r.1 == 0
    &&& r.2 > 0 ==> forall|i: int, j: int|
        #![trigger suffix_len(a, b, i, j)]
        1 <= i <= a.len() && 1 <= j <= b.len() && before(i, j, r.0 + r.2, r.1 + r.2) ==> suffix_len(a, b, i, j) < r.2
}

pub open spec fn lcs_spec(a: Seq<char>, b: Seq<char>) -> (int, int, int) {
    choose|r: (int, int, int)| lcs_props(a, b, r)
}

/// Only one triple has those properties.
pub proof fn lemma_lcs_unique(a: Seq<char>, b: Seq<char>, r: (int, int, int), s: (int, int, int))
    requires
        lcs_props(a, b, r),
        lcs_props(a, b, s),
    ensures
        r == s,
{
    assert(r.2 <= s.2 && s.2 <= r.2);
    if r.2 > 0 {
        lemma_common_suffix(a, b, r.0, r.1, r.2);
        lemma_common_suffix(a, b, s.0, s.1, s.2);
        let x = r.0 + r.2;
        let y = r.1 + r.2;
        let u = s.0 + s.2;
        let v = s.1 + s.2;
        assert(suffix_len(a, b, x, y) >= r.2);
        assert(suffix_len(a, b, u, v) >= s.2);
        if before(x, y, u, v) {
            assert(suffix_len(a, b, x, y) < s.2);
        } else if before(u, v, x, y) {
            assert(suffix_len(a, b, u, v) < r.2);
        }
    }
}

/// Longest common substring of two character slices, as `(position in a,
/// position in b, length)`: the first one found scanning end positions in
/// row-major order; `(0, 0, 0)` when there is none.
pub fn longest_common_substring(a: &[char], b: &[char]) -> (r: (usize, usize, usize))
    ensures
        lcs_props(a@, b@, (r.0 as int, r.1 as int, r.2 as int)),
        (r.0 as int, r.1 as int, r.2 as int) == lcs_spec(a@, b@),
{
    let m = a.len();
    let n = b.len();
    if m == 0 || n == 0 {
        proof {
            assert forall|p: int, q: int, k: int| common(a@, b@, p, q, k) implies k <= 0 by {}
            assert(a@.subrange(0, 0) =~= b@.subrange(0, 0));
            assert(lcs_props(a@, b@, (0, 0, 0)));
            lemma_lcs_unique(a@, b@, (0, 0, 0), lcs_spec(a@, b@));
        }
        return (0, 0, 0);
    }
    // prev@[y - 1] holds the common suffix length for (i - 1, y), y in 1..=n
    let mut prev: Vec<usize> = Vec::new();
    let mut t: usize = 0;
    while t < n
        invariant
            t <= n,
            n == b@.len(),
            prev.len() == t,
            forall|x: int| 0 <= x < t ==> prev@[x] == 0,
        decreases n - t,
    {
        prev.push(0);
        t += 1;
    }
    let mut best_len: usize = 0;
    let mut best_end_a: usize = 0;
    let mut best_end_b: usize = 0;
    // rows done so far
    let mut ii: usize = 0;
    while ii < m
        invariant
            ii <= m,
            m == a@.len(),
            n == b@.len(),
            n >= 1,
            prev.len() == n,
            forall|x: int| 0 <= x < n ==> #[trigger] prev@[x] == suffix_len(a@, b@, ii as int, x + 1),
            best_len <= best_end_a,
            best_len <= best_end_b,
            best_end_a <= m,
            best_end_b <= n,
            best_len == 0 ==> best_end_a == 0 && best_end_b == 0,
            best_len > 0 ==> suffix_len(a@, b@, best_end_a as int, best_end_b as int) >= best_len,
            best_len > 0 ==> best_end_a <= ii,
            forall|x: int, y: int|
                #![trigger suffix_len(a@, b@, x, y)]
                1 <= x <= ii && 1 <= y <= n ==> suffix_len(a@, b@, x, y) <= best_len,
            best_len > 0 ==> forall|x: int, y: int|
                #![trigger suffix_len(a@, b@, x, y)]
                1 <= x <= ii && 1 <= y <= n && before(x, y, best_end_a as int, best_end_b as int)
                    ==> suffix_len(a@, b@, x, y) < best_len,
        decreases m - ii,
    {
        let i = ii + 1;
        let mut curr: Vec<usize> = Vec::new();
        // columns done so far in this row
        let mut jj: usize = 0;
        while jj < n
            invariant
                i == ii + 1,
                ii < m,
                jj <= n,
                m == a@.len(),
                n == b@.len(),
                prev.len() == n,
                curr.len() == jj,
                forall|x: int| 0 <= x < n ==> #[trigger] prev@[x] == suffix_len(a@, b@, ii as int, x + 1),
                forall|y: int| 0 <= y < jj ==> #[trigger] curr@[y] == suffix_len(a@, b@, i as int, y + 1),
                best_len <= best_end_a,
                best_len <= best_end_b,
                best_end_a <= m,
                best_end_b <= n,
                best_len == 0 ==> best_end_a == 0 && best_end_b == 0,
                best_len > 0 ==> suffix_len(a@, b@, best_end_a as int, best_end_b as int) >= best_len,
                best_len > 0 ==> before(best_end_a as int, best_end_b as int, i as int, jj + 1),
                forall|x: int, y: int|
                    #![trigger suffix_len(a@, b@, x, y)]
                    1 <= x <= m && 1 <= y <= n && (x < i || (x == i && y <= jj))
                        ==> suffix_len(a@, b@, x, y) <= best_len,
                best_len > 0 ==> forall|x: int, y: int|
                    #![trigger suffix_len(a@, b@, x, y)]
                    1 <= x <= m && 1 <= y <= n && (x < i || (x == i && y <= jj))
                        && before(x, y, best_end_a as int, best_end_b as int)
                        ==> suffix_len(a@, b@, x, y) < best_len,
            decreases n - jj,
        {
            let j = jj + 1;
            proof {
                lemma_suffix_bound(a@, b@, i - 1, j - 1);
                lemma_suffix_bound(a@, b@, i as int, j as int);
            }
            if a[i - 1] == b[j - 1] {
                let before_len: usize = if j == 1 { 0 } else { prev[j - 2] };
                let v = before_len + 1;
                curr.push(v);
                if v > best_len {
                    best_len = v;
                    best_end_a = i;
                    best_end_b = j;
                }
            } else {
                curr.push(0);
            }
            jj += 1;
        }
        prev = curr;
        ii += 1;
    }
    proof {
        lemma_suffix_common(a@, b@, best_end_a as int, best_end_b as int, best_len as int);
        assert forall|p: int, q: int, k: int| common(a@, b@, p, q, k) implies k <= best_len by {
            if k > 0 {
                lemma_common_suffix(a@, b@, p, q, k);
                assert(suffix_len(a@, b@, p + k, q + k) <= best_len);
            }
        }
        let r = ((best_end_a - best_len) as int, (best_end_b - best_len) as int, best_len as int);
        assert(lcs_props(a@, b@, r));
        lemma_lcs_unique(a@, b@, r, lcs_spec(a@, b@));
    }
    (best_end_a - best_len, best_end_b - best_len, best_len)
}

proof fn lemma_suffix_bound(a: Seq<char>, b: Seq<char>, i: int, j: int)
    ensures
        suffix_len(a, b, i, j) <= (if i < 0 { 0 } else { i }),
        suffix_len(a, b, i, j) <= (if j < 0 { 0 } else { j }),
    decreases i,
{
    if i > 0 && j > 0 && i <= a.len() && j <= b.len() && a[i - 1] == b[j - 1] {
        lemma_suffix_bound(a, b, i - 1, j - 1);
    }
}


// ---------------------------------------------------------------------------
// Clause matching

/// The minimum match length for a clause of `n` characters: the smaller of
/// 10 and a fifth of it.
pub open spec fn min_match_len(n: int) -> int {
    if 10 < n / 5 { 10 } else { n / 5 }
}

/// Where a clause matches its source text, case-insensitively, by longest
/// common substring: (start, end) in characters of the source, the matched
/// source text, and the clause's length in characters (lower-cased).  `None`
/// for an empty input or a match under [`min_match_len`].
pub open spec fn clause_span_spec(clause: Seq<char>, source: Seq<char>) -> Option<(int, int, Seq<char>, int)> {
    let cl = str_lowercase(clause);
    let sl = str_lowercase(source);
    let r = lcs_spec(cl, sl);
    let n = source.len() as int;
    let lo = if r.1 < n { r.1 } else { n };
    let hi = if r.1 + r.2 < n { r.1 + r.2 } else { n };
    if clause.len() == 0 || source.len() == 0 || r.2 == 0 || r.2 < min_match_len(cl.len() as int) {
        None
    } else {
        Some((r.1, r.1 + r.2, source.subrange(lo, hi), cl.len() as int))
    }
}

/// The integer part of clause matching: `(start, end, matched text, clause
/// length)`; the match ratio is `(end - start) / clause length`.
pub fn clause_span(clause: &str, source_text: &str) -> (r: Option<(usize, usize, String, usize)>)
    ensures
        match r {
            Some(x) => clause_span_spec(clause@, source_text@) == Some((x.0 as int, x.1 as int, x.2@, x.3 as int)),
            None => clause_span_spec(clause@, source_text@) is None,
        },
{
    let cv = to_chars(clause);
    let sv = to_chars(source_text);
    if cv.len() == 0 || sv.len() == 0 {
        return None;
    }
    let cl = to_lowercase(clause);
    let sl = to_lowercase(source_text);
    let clv = to_chars(cl.as_str());
    let slv = to_chars(sl.as_str());
    let (_pa, pos, len) = longest_common_substring(clv.as_slice(), slv.as_slice());
    if len == 0 {
        return None;
    }
    let fifth = clv.len() / 5;
    let min_len = if 10 < fifth { 10 } else { fifth };
    if len < min_len {
        return None;
    }
    proof {
        lemma_suffix_bound(clv@, slv@, 0, 0);
        assert(pos + len <= slv@.len());
        assert(slv@.len() == slv.len());
    }
    let n = sv.len();
    let lo = if pos < n { pos } else { n };
    let hi = if pos + len < n { pos + len } else { n };
    let matched = from_range(&sv, lo, hi);
    Some((pos, pos + len, matched, clv.len()))
}

// ---------------------------------------------------------------------------
// Qualifier detection

/// Known qualifier phrases, in search order.
pub open spec fn qualifier_patterns_spec() -> Seq<&'static str> {
    seq![
        r"(?i)\bso far as is reasonably practicable\b",
        r"(?i)\bso far as is practicable\b",
        r"(?i)\bwhere reasonably practicable\b",
        r"(?i)\bas far as possible\b",
        r"(?i)\bto the extent that\b",
        r"(?i)\bsubject to\b",
        r"(?i)\bprovided that\b",
        r"(?i)\bunless\b",
        r"(?i)\bexcept where\b",
        r"(?i)\bexcept in so far as\b",
    ]
}

fn qualifier_patterns() -> (r: Vec<&'static str>)
    ensures
        r@ == qualifier_patterns_spec(),
{
    vec![
        r"(?i)\bso far as is reasonably practicable\b",
        r"(?i)\bso far as is practicable\b",
        r"(?i)\bwhere reasonably practicable\b",
        r"(?i)\bas far as possible\b",
        r"(?i)\bto the extent that\b",
        r"(?i)\bsubject to\b",
        r"(?i)\bprovided that\b",
        r"(?i)\bunless\b",
        r"(?i)\bexcept where\b",
        r"(?i)\bexcept in so far as\b",
    ]
}

/// Distance of a span from the clause span (0 when they overlap).
pub open spec fn span_distance(start: int, end: int, cs: int, ce: int) -> int {
    if end <= cs {
        cs - end
    } else if start > ce {
        start - ce
    } else {
        0
    }
}

/// (distance, start, end, text) of the best qualifier so far.
pub type Best = Option<(int, int, int, Seq<char>)>;

/// A match replaces the best so far only when strictly nearer.
pub open spec fn qualifier_step(best: Best, m: MatchPieces, source: Seq<char>, cs: int, ce: int) -> Best {
    let start = m.0.len() as int;
    let end = start + m.1.len();
    let d = span_distance(start, end, cs, ce);
    if best is None || d < (best->0).0 {
        Some((d, start, end, source.subrange(start, end)))
    } else {
        best
    }
}

pub open spec fn qualifier_matches(best: Best, ms: Seq<MatchPieces>, source: Seq<char>, cs: int, ce: int) -> Best
    decreases ms.len(),
{
    if ms.len() == 0 {
        best
    } else {
        qualifier_step(qualifier_matches(best, ms.drop_last(), source, cs, ce), ms.last(), source, cs, ce)
    }
}

pub open spec fn qualifier_search(pats: Seq<&'static str>, source: Seq<char>, cs: int, ce: int) -> Best
    decreases pats.len(),
{
    if pats.len() == 0 {
        None
    } else {
        qualifier_matches(qualifier_search(pats.drop_last(), source, cs, ce), regex_find_iter(pats.last()@, source), source, cs, ce)
    }
}

/// Every match of every pattern, pattern by pattern.
pub open spec fn all_matches(pats: Seq<&'static str>, source: Seq<char>) -> Seq<MatchPieces>
    decreases pats.len(),
{
    if pats.len() == 0 {
        seq![]
    } else {
        all_matches(pats.drop_last(), source) + regex_find_iter(pats.last()@, source)
    }
}

/// A match as a candidate: (distance, start, end, text).
pub open spec fn candidate(m: MatchPieces, source: Seq<char>, cs: int, ce: int) -> (int, int, int, Seq<char>) {
    let start = m.0.len() as int;
    let end = start + m.1.len();
    (span_distance(start, end, cs, ce), start, end, source.subrange(start, end))
}

proof fn lemma_matches_concat(best: Best, a: Seq<MatchPieces>, b: Seq<MatchPieces>, source: Seq<char>, cs: int, ce: int)
    ensures
        qualifier_matches(best, a + b, source, cs, ce) == qualifier_matches(qualifier_matches(best, a, source, cs, ce), b, source, cs, ce),
    decreases b.len(),
{
    if b.len() == 0 {
        assert(a + b == a);
    } else {
        lemma_matches_concat(best, a, b.drop_last(), source, cs, ce);
        assert((a + b).drop_last() == a + b.drop_last());
        assert((a + b).last() == b.last());
    }
}

proof fn lemma_search_all(pats: Seq<&'static str>, source: Seq<char>, cs: int, ce: int)
    ensures
        qualifier_search(pats, source, cs, ce) == qualifier_matches(None, all_matches(pats, source), source, cs, ce),
    decreases pats.len(),
{
    if pats.len() > 0 {
        lemma_search_all(pats.drop_last(), source, cs, ce);
        lemma_matches_concat(None, all_matches(pats.drop_last(), source), regex_find_iter(pats.last()@, source), source, cs, ce);
    }
}

proof fn lemma_matches_min(best: Best, ms: Seq<MatchPieces>, source: Seq<char>, cs: int, ce: int)
    ensures
        qualifier_matches(best, ms, source, cs, ce) is None <==> (best is None && ms.len() == 0),
        qualifier_matches(best, ms, source, cs, ce) matches Some(b) ==> {
            &&& (best == Some(b) || exists|k: int| 0 <= k < ms.len() && b == candidate(#[trigger] ms[k], source, cs, ce))
            &&& (best matches Some(o) ==> b.0 <= o.0)
            &&& forall|k: int| 0 <= k < ms.len() ==> b.0 <= candidate(#[trigger] ms[k], source, cs, ce).0
        },
    decreases ms.len(),
{
    if ms.len() > 0 {
        let init = ms.drop_last();
        lemma_matches_min(best, init, source, cs, ce);
        let prev = qualifier_matches(best, init, source, cs, ce);
        let r = qualifier_matches(best, ms, source, cs, ce);
        let c = candidate(ms.last(), source, cs, ce);
        assert(ms[ms.len() - 1] == ms.last());
        if prev is None || c.0 < (prev->0).0 {
            assert(r == Some(c));
        } else {
            assert(r == prev);
        }
        match r {
            Some(b) => {
                assert forall|k: int| 0 <= k < ms.len() implies b.0 <= candidate(#[trigger] ms[k], source, cs, ce).0 by {
                    if k < init.len() {
                        assert(init[k] == ms[k]);
                    }
                }
                if r != prev {
                    assert(b == candidate(ms[ms.len() - 1], source, cs, ce));
                } else if best != Some(b) {
                    let k = choose|k: int| 0 <= k < init.len() && b == candidate(#[trigger] init[k], source, cs, ce);
                    assert(init[k] == ms[k]);
                }
            },
            None => {},
        }
    }
}

/// The qualifier found is the nearest of all the qualifier matches: there is
/// none exactly when no qualifier pattern matches; otherwise it is one of the
/// matches, with its text, and no match is nearer to the clause span.
pub proof fn lemma_qualifier_nearest(source: Seq<char>, cs: int, ce: int)
    ensures
        ({
            let ms = all_matches(qualifier_patterns_spec(), source);
            let r = qualifier_search(qualifier_patterns_spec(), source, cs, ce);
            &&& (r is None <==> ms.len() == 0)
            &&& (r matches Some(b) ==> {
                &&& exists|k: int| 0 <= k < ms.len() && b == candidate(#[trigger] ms[k], source, cs, ce)
                &&& forall|k: int| 0 <= k < ms.len() ==> b.0 <= candidate(#[trigger] ms[k], source, cs, ce).0
            })
        }),
{
    lemma_search_all(qualifier_patterns_spec(), source, cs, ce);
    lemma_matches_min(None, all_matches(qualifier_patterns_spec(), source), source, cs, ce);
}

/// The qualifying phrase nearest to the clause span `[clause_start,
/// clause_end)` (character offsets); the first found among equally near ones.
pub fn find_qualifier(source_text: &str, clause_start: usize, clause_end: usize) -> (r: Option<QualifierMatch>)
    ensures
        match qualifier_search(qualifier_patterns_spec(), source_text@, clause_start as int, clause_end as int) {
            Some(b) => r is Some && r->0.start == b.1 && r->0.end == b.2 && r->0.text@ == b.3,
            None => r is None,
        },
{
    let pats = qualifier_patterns();
    let sv = to_chars(source_text);
    let mut best: Option<(usize, usize, usize, String)> = None;
    let ghost cs = clause_start as int;
    let ghost ce = clause_end as int;
    let mut p: usize = 0;
    proof {
        assert(pats@.take(0) =~= seq![]);
    }
    while p < pats.len()
        invariant
            p <= pats.len(),
            pats@ == qualifier_patterns_spec(),
            sv@ == source_text@,
            cs == clause_start,
            ce == clause_end,
            match best {
                Some(b) => qualifier_search(pats@.take(p as int), source_text@, cs, ce)
                    == Some((b.0 as int, b.1 as int, b.2 as int, b.3@)),
                None => qualifier_search(pats@.take(p as int), source_text@, cs, ce) is None,
            },
        decreases pats.len() - p,
    {
        proof {
            assert(pats@.take(p + 1).drop_last() =~= pats@.take(p as int));
        }
        let ms = find_iter(pats[p], source_text);
        let ghost mv = ms@.map_values(|m: (String, String)| pieces_view(m));
        let ghost b0 = qualifier_search(pats@.take(p as int), source_text@, cs, ce);
        let mut k: usize = 0;
        proof {
            assert(mv.take(0) =~= seq![]);
        }
        while k < ms.len()
            invariant
                k <= ms.len(),
                sv@ == source_text@,
                cs == clause_start,
                ce == clause_end,
                mv == ms@.map_values(|m: (String, String)| pieces_view(m)),
                well_placed(mv, source_text@),
                match best {
                    Some(b) => qualifier_matches(b0, mv.take(k as int), source_text@, cs, ce)
                        == Some((b.0 as int, b.1 as int, b.2 as int, b.3@)),
                    None => qualifier_matches(b0, mv.take(k as int), source_text@, cs, ce) is None,
                },
            decreases ms.len() - k,
        {
            proof {
                assert(mv.take(k + 1).drop_last() =~= mv.take(k as int));
                assert(mv[k as int] == pieces_view(ms@[k as int]));
                assert(crate::rx::lies_in(mv[k as int], source_text@));
            }
            let pre = to_chars(ms[k].0.as_str());
            let mt = to_chars(ms[k].1.as_str());
            let start = pre.len();
            proof {
                assert((ms@[k as int].0@ + ms@[k as int].1@).len() <= source_text@.len());
                assert(start + mt@.len() <= sv.len());
            }
            let end = start + mt.len();
            let d = if end <= clause_start {
                clause_start - end
            } else if start > clause_end {
                start - clause_end
            } else {
                0
            };
            let better = match &best {
                None => true,
                Some(b) => d < b.0,
            };
            if better {
                let text = from_range(&sv, start, end);
                best = Some((d, start, end, text));
            }
            k += 1;
        }
        proof {
            assert(mv.take(ms.len() as int) =~= mv);
            assert(mv == regex_find_iter(pats@[p as int]@, source_text@));
        }
        p += 1;
    }
    proof {
        assert(pats@.take(pats.len() as int) =~= pats@);
    }
    match best {
        Some(b) => Some(QualifierMatch { start: b.1, end: b.2, text: b.3 }),
        None => None,
    }
}

} // verus!
