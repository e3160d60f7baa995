//! Parsing of a DRRP polisher prompt into the fields the polishing model
//! needs: the DRRP type, the holder, the article and the source text.
//!
//! Two layouts are read.  One names a single type and the holder
//! ("DRRP type: Duty", "- Holder: every employer", "Article reference: ...").
//! The other carries the classifier's context ("DRRP types: Duty, Right",
//! "Governed actors: ...", "Government actors: ...", "Provision: ...",
//! a "Regex-refined clause:" block).  Both end with "Full section text:"
//! followed by the text.

use vstd::prelude::*;
use crate::text::{from_chars, owned, trim, trim_bounds, to_chars};

verus! {

// ---------------------------------------------------------------------------
// Lines and pieces

/// The pieces of `s` between occurrences of `c` (`str::split` with a char):
/// always at least one piece.
pub open spec fn split_on(s: Seq<char>, c: char) -> Seq<Seq<char>>
    decreases s.len(),
{
    if s.len() == 0 {
        seq![seq![]]
    } else {
        let rest = split_on(s.drop_last(), c);
        if s.last() == c {
            rest.push(seq![])
        } else {
            rest.update(rest.len() - 1, rest.last().push(s.last()))
        }
    }
}

proof fn lemma_split_nonempty(s: Seq<char>, c: char)
    ensures
        split_on(s, c).len() >= 1,
    decreases s.len(),
{
    if s.len() > 0 {
        lemma_split_nonempty(s.drop_last(), c);
    }
}

/// A line without its "\r\n" or "\n" ending.
pub open spec fn strip_cr(l: Seq<char>) -> Seq<char> {
    if l.len() > 0 && l.last() == '\r' { l.drop_last() } else { l }
}

/// `str::lines`: split at "\n", a "\r" just before a "\n" dropped, and no
/// empty line after a final line ending.
pub open spec fn str_lines(s: Seq<char>) -> Seq<Seq<char>> {
    let pieces = split_on(s, '\n');
    let n = pieces.len();
    let kept = if pieces.last().len() == 0 { pieces.drop_last() } else { pieces };
    Seq::new(kept.len(), |i: int| if i < n - 1 { strip_cr(kept[i]) } else { kept[i] })
}

/// Lines joined with "\n".
pub open spec fn join_lines(ls: Seq<Seq<char>>) -> Seq<char>
    decreases ls.len(),
{
    if ls.len() == 0 {
        seq![]
    } else if ls.len() == 1 {
        ls[0]
    } else {
        join_lines(ls.drop_last()) + seq!['\n'] + ls.last()
    }
}

fn split_exec(v: &Vec<char>, lo: usize, hi: usize, c: char) -> (r: Vec<Vec<char>>)
    requires
        lo <= hi <= v.len(),
    ensures
        r@.map_values(|p: Vec<char>| p@) == split_on(v@.subrange(lo as int, hi as int), c),
{
    let mut out: Vec<Vec<char>> = Vec::new();
    let mut cur: Vec<char> = Vec::new();
    let mut i = lo;
    proof {
        assert(v@.subrange(lo as int, lo as int) =~= seq![]);
        assert(out@.map_values(|p: Vec<char>| p@).push(cur@) =~= seq![seq![]]);
    }
    while i < hi
        invariant
            lo <= i <= hi <= v.len(),
            out@.map_values(|p: Vec<char>| p@).push(cur@) == split_on(v@.subrange(lo as int, i as int), c),
        decreases hi - i,
    {
        let ghost prev = out@.map_values(|p: Vec<char>| p@).push(cur@);
        proof {
            assert(v@.subrange(lo as int, i + 1).drop_last() =~= v@.subrange(lo as int, i as int));
            assert(v@.subrange(lo as int, i + 1).last() == v@[i as int]);
        }
        if v[i] == c {
            let done = cur;
            out.push(done);
            cur = Vec::new();
            proof {
                assert(out@.map_values(|p: Vec<char>| p@).push(cur@) =~= prev.push(seq![]));
            }
        } else {
            cur.push(v[i]);
            proof {
                assert(out@.map_values(|p: Vec<char>| p@).push(cur@) =~= prev.update(prev.len() - 1, prev.last().push(v@[i as int])));
            }
        }
        i += 1;
    }
    out.push(cur);
    proof {
        assert(out@.map_values(|p: Vec<char>| p@) =~= split_on(v@.subrange(lo as int, hi as int), c));
    }
    out
}

fn lines_exec(s: &str) -> (r: Vec<Vec<char>>)
    ensures
        r@.map_values(|p: Vec<char>| p@) == str_lines(s@),
{
    let v = to_chars(s);
    let pieces = split_exec(&v, 0, v.len(), '\n');
    proof {
        assert(v@.subrange(0, v@.len() as int) =~= s@);
        lemma_split_nonempty(s@, '\n');
    }
    let ghost pv = pieces@.map_values(|p: Vec<char>| p@);
    let n = pieces.len();
    let kept = if pieces[n - 1].len() == 0 { n - 1 } else { n };
    let mut out: Vec<Vec<char>> = Vec::new();
    let mut i: usize = 0;
    while i < kept
        invariant
            i <= kept <= n == pieces.len(),
            n >= 1,
            pv == pieces@.map_values(|p: Vec<char>| p@),
            pv == split_on(s@, '\n'),
            kept == (if pv.last().len() == 0 { n - 1 } else { n as int }),
            out@.len() == i,
            forall|j: int| 0 <= j < i ==> (#[trigger] out@[j])@ == str_lines(s@)[j],
        decreases kept - i,
    {
        let p = &pieces[i];
        proof {
            assert(pv[i as int] == p@);
        }
        let mut line: Vec<char> = Vec::new();
        let m = if i + 1 < n && p.len() > 0 && p[p.len() - 1] == '\r' { p.len() - 1 } else { p.len() };
        let mut k: usize = 0;
        while k < m
            invariant
                k <= m <= p.len(),
                line@ == p@.take(k as int),
            decreases m - k,
        {
            line.push(p[k]);
            proof {
                assert(p@.take(k + 1) =~= p@.take(k as int).push(p@[k as int]));
            }
            k += 1;
        }
        proof {
            if m < p.len() {
                assert(p@.take(m as int) =~= p@.drop_last());
            } else {
                assert(p@.take(m as int) =~= p@);
            }
        }
        out.push(line);
        i += 1;
    }
    proof {
        assert(out@.map_values(|p: Vec<char>| p@) =~= str_lines(s@));
    }
    out
}

// ---------------------------------------------------------------------------
// The parser

/// What has been read so far: (DRRP types, holder, article, source text,
/// refined clause).
pub type PromptState = (Seq<Seq<char>>, Option<Seq<char>>, Option<Seq<char>>, Option<Seq<char>>, Option<Seq<char>>);

pub open spec fn after(l: Seq<char>, prefix: Seq<char>) -> Seq<char> {
    l.skip(prefix.len() as int)
}

/// The first line at or after `j` that opens the full text, or the end.
pub open spec fn full_text_from(ls: Seq<Seq<char>>, j: int) -> int
    decreases ls.len() - j,
{
    if j >= ls.len() || j < 0 {
        ls.len() as int
    } else if "Full section text:"@.is_prefix_of(ls[j]) {
        j
    } else {
        full_text_from(ls, j + 1)
    }
}

/// The full text opens at or after `j`, and no later than the end.
pub proof fn lemma_full_text_from(ls: Seq<Seq<char>>, j: int)
    requires
        0 <= j <= ls.len(),
    ensures
        j <= full_text_from(ls, j) <= ls.len(),
    decreases ls.len() - j,
{
    if j < ls.len() && !"Full section text:"@.is_prefix_of(ls[j]) {
        lemma_full_text_from(ls, j + 1);
    }
}

/// Read the lines from `i` on.
pub open spec fn read_from(ls: Seq<Seq<char>>, i: int, st: PromptState) -> PromptState
    decreases ls.len() - i,
{
    if i < 0 || i >= ls.len() {
        st
    } else {
        let l = ls[i];
        if "DRRP type: "@.is_prefix_of(l) {
            read_from(ls, i + 1, (st.0.push(after(l, "DRRP type: "@)), st.1, st.2, st.3, st.4))
        } else if "DRRP types: "@.is_prefix_of(l) {
            let pieces = split_on(after(l, "DRRP types: "@), ',');
            read_from(ls, i + 1, (st.0 + pieces.map_values(|p: Seq<char>| trim(p)), st.1, st.2, st.3, st.4))
        } else if "Article reference: "@.is_prefix_of(l) {
            read_from(ls, i + 1, (st.0, st.1, Some(after(l, "Article reference: "@)), st.3, st.4))
        } else if "Provision: "@.is_prefix_of(l) {
            read_from(ls, i + 1, (st.0, st.1, Some(after(l, "Provision: "@)), st.3, st.4))
        } else if "- Holder: "@.is_prefix_of(l) {
            read_from(ls, i + 1, (st.0, Some(after(l, "- Holder: "@)), st.2, st.3, st.4))
        } else if "Governed actors: "@.is_prefix_of(l) || "Government actors: "@.is_prefix_of(l) {
            let val = if "Governed actors: "@.is_prefix_of(l) {
                after(l, "Governed actors: "@)
            } else {
                after(l, "Government actors: "@)
            };
            let holder = if st.1 is None { Some(trim(split_on(val, ',')[0])) } else { st.1 };
            read_from(ls, i + 1, (st.0, holder, st.2, st.3, st.4))
        } else if "Regex-refined clause:"@.is_prefix_of(l) {
            let j = full_text_from(ls, i + 1);
            proof {
                lemma_full_text_from(ls, i + 1);
            }
            read_from(ls, j, (st.0, st.1, st.2, st.3, Some(trim(join_lines(ls.subrange(i + 1, j))))))
        } else if "Full section text:"@.is_prefix_of(l) {
            (st.0, st.1, st.2, Some(trim(join_lines(ls.skip(i + 1)))), st.4)
        } else {
            read_from(ls, i + 1, st)
        }
    }
}

/// The parsed prompt: the refined clause (else the full text) as source,
/// the first DRRP type, the holder, and the article ("unknown" when none);
/// none when the text, the type or the holder is missing.
pub open spec fn prompt_spec(prompt: Seq<char>) -> Option<(Seq<char>, Seq<char>, Seq<char>, Seq<char>)> {
    let st = read_from(str_lines(prompt), 0, (seq![], None, None, None, None));
    let text = if st.4 is Some { st.4 } else { st.3 };
    if text is None || st.0.len() == 0 || st.1 is None {
        None
    } else {
        Some((st.0[0], st.1->0, if st.2 is Some { st.2->0 } else { "unknown"@ }, text->0))
    }
}

pub open spec fn vopt(o: Option<Vec<char>>) -> Option<Seq<char>> {
    match o {
        Some(v) => Some(v@),
        None => None,
    }
}

/// Structured fields of a DRRP polisher prompt.
#[derive(Debug, Clone)]
pub struct ParsedDrrpPrompt {
    pub drrp_type: String,
    pub holder: String,
    pub article: String,
    pub source_text: String,
}

fn has_prefix(l: &Vec<char>, p: &str) -> (r: bool)
    ensures
        r == p@.is_prefix_of(l@),
{
    let pv = to_chars(p);
    if pv.len() > l.len() {
        return false;
    }
    let mut k: usize = 0;
    while k < pv.len()
        invariant
            k <= pv.len() <= l.len(),
            pv@ == p@,
            forall|j: int| 0 <= j < k ==> pv@[j] == l@[j],
        decreases pv.len() - k,
    {
        if pv[k] != l[k] {
            proof {
                if p@.is_prefix_of(l@) {
                    assert(l@.subrange(0, pv@.len() as int)[k as int] == l@[k as int]);
                }
            }
            return false;
        }
        k += 1;
    }
    proof {
        assert(l@.subrange(0, pv@.len() as int) =~= p@);
    }
    true
}

fn rest_after(l: &Vec<char>, p: &str) -> (r: Vec<char>)
    requires
        p@.is_prefix_of(l@),
    ensures
        r@ == after(l@, p@),
{
    let n = to_chars(p).len();
    let mut out: Vec<char> = Vec::new();
    let mut k = n;
    while k < l.len()
        invariant
            n <= k <= l.len(),
            n == p@.len(),
            out@ == l@.subrange(n as int, k as int),
        decreases l.len() - k,
    {
        out.push(l[k]);
        proof {
            assert(l@.subrange(n as int, k + 1) =~= l@.subrange(n as int, k as int).push(l@[k as int]));
        }
        k += 1;
    }
    proof {
        assert(l@.subrange(n as int, l@.len() as int) =~= l@.skip(n as int));
    }
    out
}

fn trimmed(v: &Vec<char>) -> (r: Vec<char>)
    ensures
        r@ == trim(v@),
{
    let (a, b) = trim_bounds(v, 0, v.len());
    proof {
        assert(v@.subrange(0, v@.len() as int) =~= v@);
    }
    let mut out: Vec<char> = Vec::new();
    let mut k = a;
    while k < b
        invariant
            a <= k <= b <= v.len(),
            out@ == v@.subrange(a as int, k as int),
        decreases b - k,
    {
        out.push(v[k]);
        proof {
            assert(v@.subrange(a as int, k + 1) =~= v@.subrange(a as int, k as int).push(v@[k as int]));
        }
        k += 1;
    }
    out
}

fn join_exec(ls: &Vec<Vec<char>>, lo: usize, hi: usize) -> (r: Vec<char>)
    requires
        lo <= hi <= ls.len(),
    ensures
        r@ == join_lines(ls@.map_values(|p: Vec<char>| p@).subrange(lo as int, hi as int)),
{
    let ghost lv = ls@.map_values(|p: Vec<char>| p@);
    let mut out: Vec<char> = Vec::new();
    let mut i = lo;
    proof {
        assert(lv.subrange(lo as int, lo as int) =~= seq![]);
    }
    while i < hi
        invariant
            lo <= i <= hi <= ls.len(),
            lv == ls@.map_values(|p: Vec<char>| p@),
            out@ == join_lines(lv.subrange(lo as int, i as int)),
        decreases hi - i,
    {
        let ghost prev = out@;
        if i > lo {
            out.push('\n');
        }
        let l = &ls[i];
        let mut k: usize = 0;
        let ghost base = out@;
        while k < l.len()
            invariant
                k <= l.len(),
                out@ == base + l@.take(k as int),
            decreases l.len() - k,
        {
            out.push(l[k]);
            proof {
                assert(base + l@.take(k + 1) =~= (base + l@.take(k as int)).push(l@[k as int]));
            }
            k += 1;
        }
        proof {
            assert(l@.take(l@.len() as int) =~= l@);
            assert(lv[i as int] == l@);
            let s = lv.subrange(lo as int, i + 1);
            assert(s.drop_last() =~= lv.subrange(lo as int, i as int));
            if i > lo {
                assert(out@ =~= prev + seq!['\n'] + l@);
            } else {
                assert(s.len() == 1);
                assert(out@ =~= l@);
            }
        }
        i += 1;
    }
    out
}

/// The index of the first line at or after `j` that opens the full text, or the end.
fn full_text_index(ls: &Vec<Vec<char>>, j: usize) -> (r: usize)
    requires
        j <= ls.len(),
    ensures
        r == full_text_from(ls@.map_values(|p: Vec<char>| p@), j as int),
        j <= r <= ls.len(),
{
    let ghost lv = ls@.map_values(|p: Vec<char>| p@);
    let mut k = j;
    while k < ls.len()
        invariant
            j <= k <= ls.len(),
            lv == ls@.map_values(|p: Vec<char>| p@),
            full_text_from(lv, j as int) == full_text_from(lv, k as int),
        decreases ls.len() - k,
    {
        proof {
            assert(lv[k as int] == ls@[k as int]@);
        }
        if has_prefix(&ls[k], "Full section text:") {
            return k;
        }
        k += 1;
    }
    k
}

/// Parse a DRRP polisher prompt; none when it lacks the text, a DRRP type
/// or a holder.
pub fn parse_drrp_prompt(user_prompt: &str) -> (r: Option<ParsedDrrpPrompt>)
    ensures
        match r {
            Some(p) => prompt_spec(user_prompt@) == Some((p.drrp_type@, p.holder@, p.article@, p.source_text@)),
            None => prompt_spec(user_prompt@) is None,
        },
{
    let ls = lines_exec(user_prompt);
    let ghost lv = ls@.map_values(|p: Vec<char>| p@);
    let mut types: Vec<Vec<char>> = Vec::new();
    let mut holder: Option<Vec<char>> = None;
    let mut article: Option<Vec<char>> = None;
    let mut source: Option<Vec<char>> = None;
    let mut refined: Option<Vec<char>> = None;
    let ghost init: PromptState = (seq![], None, None, None, None);
    let mut i: usize = 0;
    let mut done = false;
    proof {
        assert(types@.map_values(|p: Vec<char>| p@) =~= seq![]);
    }
    while i < ls.len()
        invariant
            i <= ls.len(),
            lv == ls@.map_values(|p: Vec<char>| p@),
            lv == str_lines(user_prompt@),
            !done ==> source is None && read_from(lv, 0, init) == read_from(
                lv,
                i as int,
                (types@.map_values(|p: Vec<char>| p@), vopt(holder), vopt(article), None::<Seq<char>>, vopt(refined)),
            ),
            done ==> i == ls.len() && read_from(lv, 0, init) == (
                types@.map_values(|p: Vec<char>| p@),
                vopt(holder),
                vopt(article),
                vopt(source),
                vopt(refined),
            ),
        decreases ls.len() - i,
    {
        let l = &ls[i];
        proof {
            assert(lv[i as int] == l@);
        }
        let ghost tv = types@.map_values(|p: Vec<char>| p@);
        if has_prefix(l, "DRRP type: ") {
            let v = rest_after(l, "DRRP type: ");
            types.push(v);
            proof {
                assert(types@.map_values(|p: Vec<char>| p@) =~= tv.push(after(l@, "DRRP type: "@)));
            }
            i += 1;
        } else if has_prefix(l, "DRRP types: ") {
            let v = rest_after(l, "DRRP types: ");
            let pieces = split_exec(&v, 0, v.len(), ',');
            proof {
                assert(v@.subrange(0, v@.len() as int) =~= v@);
            }
            let ghost pv = pieces@.map_values(|p: Vec<char>| p@);
            let mut k: usize = 0;
            while k < pieces.len()
                invariant
                    k <= pieces.len(),
                    pv == pieces@.map_values(|p: Vec<char>| p@),
                    types@.map_values(|p: Vec<char>| p@) == tv + pv.take(k as int).map_values(|p: Seq<char>| trim(p)),
                decreases pieces.len() - k,
            {
                let t = trimmed(&pieces[k]);
                proof {
                    assert(pv[k as int] == pieces@[k as int]@);
                }
                let ghost before = types@.map_values(|p: Vec<char>| p@);
                types.push(t);
                proof {
                    assert(types@.map_values(|p: Vec<char>| p@) =~= before.push(trim(pv[k as int])));
                    assert(pv.take(k + 1).map_values(|p: Seq<char>| trim(p)) =~= pv.take(k as int).map_values(
                        |p: Seq<char>| trim(p),
                    ).push(trim(pv[k as int])));
                }
                k += 1;
            }
            proof {
                assert(pv.take(pieces.len() as int) =~= pv);
            }
            i += 1;
        } else if has_prefix(l, "Article reference: ") {
            article = Some(rest_after(l, "Article reference: "));
            i += 1;
        } else if has_prefix(l, "Provision: ") {
            article = Some(rest_after(l, "Provision: "));
            i += 1;
        } else if has_prefix(l, "- Holder: ") {
            holder = Some(rest_after(l, "- Holder: "));
            i += 1;
        } else if has_prefix(l, "Governed actors: ") || has_prefix(l, "Government actors: ") {
            let val = if has_prefix(l, "Governed actors: ") {
                rest_after(l, "Governed actors: ")
            } else {
                rest_after(l, "Government actors: ")
            };
            if holder.is_none() {
                let pieces = split_exec(&val, 0, val.len(), ',');
                proof {
                    assert(val@.subrange(0, val@.len() as int) =~= val@);
                    lemma_split_nonempty(val@, ',');
                    assert(pieces@[0]@ == split_on(val@, ',')[0]);
                }
                holder = Some(trimmed(&pieces[0]));
            }
            i += 1;
        } else if has_prefix(l, "Regex-refined clause:") {
            let j = full_text_index(&ls, i + 1);
            let joined = join_exec(&ls, i + 1, j);
            refined = Some(trimmed(&joined));
            i = j;
        } else if has_prefix(l, "Full section text:") {
            let joined = join_exec(&ls, i + 1, ls.len());
            proof {
                assert(lv.subrange(i + 1, lv.len() as int) =~= lv.skip(i + 1));
            }
            source = Some(trimmed(&joined));
            done = true;
            i = ls.len();
        } else {
            i += 1;
        }
    }
    proof {
        if !done {
            assert(read_from(lv, ls.len() as int, (types@.map_values(|p: Vec<char>| p@), vopt(holder), vopt(article), None::<Seq<char>>, vopt(refined)))
                == (types@.map_values(|p: Vec<char>| p@), vopt(holder), vopt(article), None::<Seq<char>>, vopt(refined)));
        }
    }
    let text = match refined {
        Some(t) => t,
        None => match source {
            Some(t) => t,
            None => {
                return None;
            },
        },
    };
    if types.len() == 0 {
        return None;
    }
    let h = match holder {
        Some(h) => h,
        None => {
            return None;
        },
    };
    let a = match article {
        Some(a) => from_chars(&a),
        None => owned("unknown"),
    };
    Some(ParsedDrrpPrompt { drrp_type: from_chars(&types[0]), holder: from_chars(&h), article: a, source_text: from_chars(&text) })
}

} // verus!
