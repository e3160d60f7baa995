//! The SQL that the guest sends for the `legislation_text` table, read into
//! what the vector store is asked: a filter, a row window and the shape of the
//! answer for a query; the column assignments and filter of an `UPDATE`.
//!
//! Keywords are found in the upper-cased statement; their byte offsets there
//! are where the clauses are cut from the statement itself.

use vstd::prelude::*;
use crate::text::{
    to_chars, from_range, trim, trim_start, is_ws, is_ws_exec, occurs_at, contains_seq,
    str_uppercase, to_uppercase, trim_bounds, skip_ws_forward, contains_str, starts_with_str,
};
use crate::application::{first_occ, first_occ_exec, lemma_first_occ_range_pub};
use crate::applicability_compile::{char_utf8_len, utf8_len};

verus! {

/// Rows asked for when the statement names no usable `LIMIT`.
pub const DEFAULT_LIMIT: usize = 1000;

// ---------------------------------------------------------------------------
// Numbers and words

pub open spec fn is_digit(c: char) -> bool {
    '0' <= c && c <= '9'
}

pub open spec fn digit_val(c: char) -> int {
    (c as int) - 48
}

/// The number that the decimal digits `d` spell.
pub open spec fn decimal_value(d: Seq<char>) -> int
    decreases d.len(),
{
    if d.len() == 0 {
        0
    } else {
        10 * decimal_value(d.drop_last()) + digit_val(d.last())
    }
}

/// `d` without a leading `+`.
pub open spec fn unsigned_digits(s: Seq<char>) -> Seq<char> {
    if s.len() > 0 && s[0] == '+' { s.drop_first() } else { s }
}

/// What `str::parse::<usize>` gives: an optional `+`, then one or more ASCII
/// digits whose value fits in `usize`; anything else is no number.
pub open spec fn parse_usize_spec(s: Seq<char>) -> Option<usize> {
    let d = unsigned_digits(s);
    if d.len() > 0 && (forall|i: int| 0 <= i < d.len() ==> is_digit(#[trigger] d[i]))
        && decimal_value(d) <= usize::MAX {
        Some(decimal_value(d) as usize)
    } else {
        None
    }
}

proof fn lemma_decimal_nonneg(d: Seq<char>)
    requires
        forall|i: int| 0 <= i < d.len() ==> is_digit(#[trigger] d[i]),
    ensures
        decimal_value(d) >= 0,
    decreases d.len(),
{
    if d.len() > 0 {
        lemma_decimal_nonneg(d.drop_last());
        assert(is_digit(d[d.len() - 1]));
    }
}

/// `str::parse::<usize>` on the characters of `w`.
pub fn parse_usize(w: &Vec<char>) -> (r: Option<usize>)
    ensures
        r == parse_usize_spec(w@),
{
    let start: usize = if w.len() > 0 && w[0] == '+' { 1 } else { 0 };
    proof {
        if start == 1 {
            assert(unsigned_digits(w@) == w@.subrange(1, w@.len() as int));
        } else {
            assert(unsigned_digits(w@) == w@.subrange(0, w@.len() as int));
        }
    }
    if start == w.len() {
        return None;
    }
    let mut acc: usize = 0;
    let mut overflow = false;
    let mut i = start;
    while i < w.len()
        invariant
            start <= i <= w.len(),
            unsigned_digits(w@) == w@.subrange(start as int, w@.len() as int),
            forall|j: int| start <= j < i ==> is_digit(#[trigger] w@[j]),
            !overflow ==> acc == decimal_value(w@.subrange(start as int, i as int)),
            overflow ==> decimal_value(w@.subrange(start as int, i as int)) > usize::MAX,
        decreases w.len() - i,
    {
        let c = w[i];
        if !('0' <= c && c <= '9') {
            proof {
                let d = unsigned_digits(w@);
                assert(d[i - start] == c);
            }
            return None;
        }
        let ghost before = w@.subrange(start as int, i as int);
        let ghost after = w@.subrange(start as int, i + 1);
        proof {
            assert(after.drop_last() == before);
            assert(after.last() == c);
            assert forall|j: int| 0 <= j < before.len() implies is_digit(#[trigger] before[j]) by {
                assert(before[j] == w@[start + j]);
            }
            lemma_decimal_nonneg(before);
        }
        let dv: usize = (c as u32 - 48) as usize;
        if !overflow {
            match acc.checked_mul(10) {
                Some(m) => match m.checked_add(dv) {
                    Some(n) => {
                        acc = n;
                    },
                    None => {
                        overflow = true;
                    },
                },
                None => {
                    overflow = true;
                },
            }
        }
        i += 1;
    }
    proof {
        let d = unsigned_digits(w@);
        assert(d == w@.subrange(start as int, i as int));
        assert forall|j: int| 0 <= j < d.len() implies is_digit(#[trigger] d[j]) by {
            assert(d[j] == w@[start + j]);
        }
    }
    if overflow {
        None
    } else {
        Some(acc)
    }
}

/// Index of the first whitespace character of `s` at or after `i`, or `s.len()`.
pub open spec fn ws_end(s: Seq<char>, i: int) -> int
    decreases s.len() - i,
{
    if i < 0 || i >= s.len() {
        s.len() as int
    } else if is_ws(s[i]) {
        i
    } else {
        ws_end(s, i + 1)
    }
}

/// The first whitespace-separated word of `s` (`split_whitespace().next()`).
pub open spec fn first_word(s: Seq<char>) -> Option<Seq<char>> {
    let t = trim_start(s);
    if t.len() == 0 {
        None
    } else {
        Some(t.take(ws_end(t, 0)))
    }
}

fn first_word_exec(v: &Vec<char>, lo: usize) -> (r: Option<Vec<char>>)
    requires
        lo <= v.len(),
    ensures
        match r {
            Some(w) => first_word(v@.skip(lo as int)) == Some(w@),
            None => first_word(v@.skip(lo as int)) is None,
        },
{
    let a = skip_ws_forward(v, lo, v.len());
    let ghost t = v@.subrange(a as int, v@.len() as int);
    proof {
        assert(v@.skip(lo as int) == v@.subrange(lo as int, v@.len() as int));
    }
    if a == v.len() {
        return None;
    }
    let mut b = a;
    while b < v.len() && !is_ws_exec(v[b])
        invariant
            a <= b <= v.len(),
            t == v@.subrange(a as int, v@.len() as int),
            ws_end(t, 0) == ws_end(t, b - a),
        decreases v.len() - b,
    {
        b += 1;
    }
    proof {
        assert(ws_end(t, b - a) == b - a);
        assert(t.take(b - a) == v@.subrange(a as int, b as int));
    }
    let mut w: Vec<char> = Vec::new();
    let mut k = a;
    while k < b
        invariant
            a <= k <= b <= v.len(),
            w@ == v@.subrange(a as int, k as int),
        decreases b - k,
    {
        w.push(v[k]);
        k += 1;
    }
    Some(w)
}

// ---------------------------------------------------------------------------
// Byte positions

proof fn lemma_utf8_prefix_lt(s: Seq<char>, i: int, j: int)
    requires
        0 <= i < j <= s.len(),
    ensures
        utf8_len(s.take(i)) < utf8_len(s.take(j)),
    decreases j,
{
    assert(s.take(j).drop_last() =~= s.take(j - 1));
    if i < j - 1 {
        lemma_utf8_prefix_lt(s, i, j - 1);
    }
}

/// The character index at which the first `b` bytes (UTF-8) of `s` end, or
/// `None` where `b` falls inside a character or past the end: where slicing
/// the string at byte `b` panics.
pub open spec fn byte_cut(s: Seq<char>, b: int) -> Option<int> {
    if exists|i: int| 0 <= i <= s.len() && utf8_len(s.take(i)) == b {
        Some(choose|i: int| 0 <= i <= s.len() && utf8_len(s.take(i)) == b)
    } else {
        None
    }
}

/// `s` from byte `b` on (`&s[b..]`), where that is a character boundary.
pub open spec fn tail_at(s: Seq<char>, b: int) -> Option<Seq<char>> {
    match byte_cut(s, b) {
        Some(i) => Some(s.skip(i)),
        None => None,
    }
}

/// `s` up to byte `b` (`&s[..b]`), where that is a character boundary.
pub open spec fn head_at(s: Seq<char>, b: int) -> Option<Seq<char>> {
    match byte_cut(s, b) {
        Some(i) => Some(s.take(i)),
        None => None,
    }
}

/// The byte offset of the first `kw` in `up` (`str::find`), or -1.
pub open spec fn kw_byte(up: Seq<char>, kw: Seq<char>) -> int {
    let p = first_occ(up, kw, 0);
    if p == -1 { -1 } else { utf8_len(up.take(p)) as int }
}

fn char_width(c: char) -> (r: u128)
    ensures
        r == char_utf8_len(c),
        1 <= r <= 4,
{
    if (c as u32) < 0x80 {
        1
    } else if (c as u32) < 0x800 {
        2
    } else if (c as u32) < 0x10000 {
        3
    } else {
        4
    }
}

/// Bytes of the first `n` characters of `v`.
fn prefix_bytes(v: &Vec<char>, n: usize) -> (r: u128)
    requires
        n <= v.len(),
    ensures
        r == utf8_len(v@.take(n as int)),
        r <= 4 * n,
{
    let mut acc: u128 = 0;
    let mut i: usize = 0;
    proof {
        assert(v@.take(0) =~= Seq::<char>::empty());
    }
    while i < n
        invariant
            i <= n <= v.len(),
            acc == utf8_len(v@.take(i as int)),
            acc <= 4 * i,
        decreases n - i,
    {
        proof {
            assert(v@.take(i + 1).drop_last() =~= v@.take(i as int));
        }
        acc = acc + char_width(v[i]);
        i += 1;
    }
    acc
}

/// The character index of byte `b` of `v`, as [`byte_cut`] says.
fn cut_exec(v: &Vec<char>, b: u128) -> (r: Option<usize>)
    ensures
        match r {
            Some(i) => byte_cut(v@, b as int) == Some(i as int) && i <= v.len(),
            None => byte_cut(v@, b as int) is None,
        },
{
    let mut acc: u128 = 0;
    let mut j: usize = 0;
    proof {
        assert(v@.take(0) =~= Seq::<char>::empty());
    }
    while j < v.len() && acc < b
        invariant
            j <= v.len(),
            acc == utf8_len(v@.take(j as int)),
            acc <= 4 * j,
            forall|i: int| 0 <= i < j ==> utf8_len(v@.take(i)) < b,
        decreases v.len() - j,
    {
        proof {
            assert(v@.take(j + 1).drop_last() =~= v@.take(j as int));
        }
        acc = acc + char_width(v[j]);
        j += 1;
    }
    if acc == b {
        proof {
            let c = choose|i: int| 0 <= i <= v@.len() && utf8_len(v@.take(i)) == b;
            if c < j {
                lemma_utf8_prefix_lt(v@, c, j as int);
            } else if c > j {
                lemma_utf8_prefix_lt(v@, j as int, c);
            }
        }
        Some(j)
    } else {
        proof {
            assert forall|i: int| 0 <= i <= v@.len() implies utf8_len(v@.take(i)) != b by {
                if i < j {
                } else if i > j {
                    lemma_utf8_prefix_lt(v@, j as int, i);
                    if acc < b {
                        assert(j == v.len());
                    }
                }
            }
        }
        None
    }
}

// ---------------------------------------------------------------------------
// Query statements

/// The smaller of two keyword positions, `-1` standing for "absent".
pub open spec fn earlier(a: int, b: int) -> int {
    if a == -1 { b } else if b == -1 { a } else if a <= b { a } else { b }
}

/// The byte at which the `WHERE` clause that starts `after` ends: its first
/// `LIMIT `, `ORDER ` or `GROUP ` (in any case), or its end.
pub open spec fn where_end(after: Seq<char>) -> int {
    let up = str_uppercase(after);
    let e = earlier(kw_byte(up, "LIMIT "@), earlier(kw_byte(up, "ORDER "@), kw_byte(up, "GROUP "@)));
    if e == -1 { utf8_len(after) as int } else { e }
}

/// The trimmed text between the first `WHERE ` and the end of its clause,
/// empty where there is no `WHERE `; `None` where a cut falls inside a
/// character.
pub open spec fn where_clause(sql: Seq<char>) -> Option<Seq<char>> {
    let p = kw_byte(str_uppercase(sql), "WHERE "@);
    if p == -1 {
        Some(seq![])
    } else {
        match tail_at(sql, p + 6) {
            Some(after) => match head_at(after, where_end(after)) {
                Some(h) => Some(trim(h)),
                None => None,
            },
            None => None,
        }
    }
}

/// The number that follows the first `kw` of the statement (in any case), or
/// `default` where there is no such keyword or no number after it; `None`
/// where the cut after the keyword falls inside a character.
pub open spec fn number_after(sql: Seq<char>, kw: Seq<char>, default: usize) -> Option<usize> {
    let p = kw_byte(str_uppercase(sql), kw);
    if p == -1 {
        Some(default)
    } else {
        match tail_at(sql, p + kw.len()) {
            Some(t) => Some(match first_word(t) {
                Some(w) => match parse_usize_spec(w) {
                    Some(n) => n,
                    None => default,
                },
                None => default,
            }),
            None => None,
        }
    }
}

/// What the guest wants back from a query.
#[derive(Clone, Copy, Debug, PartialEq, Eq, Structural)]
pub enum Answer {
    /// One row serialised as a JSON string (`to_json(...)`).
    Json,
    /// The number of matching rows (`count(...)`).
    Count,
    /// The rows themselves.
    Rows,
}

/// A query on `legislation_text`, as the vector store is asked it.
pub struct QueryPlan {
    /// The filter expression; `true` where the statement has none.
    pub filter: String,
    pub limit: usize,
    pub offset: usize,
    pub answer: Answer,
}

pub open spec fn answer_spec(sql: Seq<char>) -> Answer {
    let up = str_uppercase(sql);
    if contains_seq(up, "TO_JSON("@) {
        Answer::Json
    } else if contains_seq(up, "COUNT("@) {
        Answer::Count
    } else {
        Answer::Rows
    }
}

/// (filter, limit, offset, answer) of a query, or `None` where one of its
/// cuts falls inside a character.
pub open spec fn query_spec(sql: Seq<char>) -> Option<(Seq<char>, usize, usize, Answer)> {
    match (where_clause(sql), number_after(sql, "LIMIT "@, DEFAULT_LIMIT), number_after(sql, "OFFSET "@, 0)) {
        (Some(w), Some(l), Some(o)) => Some((if w.len() == 0 { "true"@ } else { w }, l, o, answer_spec(sql))),
        _ => None,
    }
}

fn keyword_pos(up: &Vec<char>, kw: &str) -> (r: Option<usize>)
    ensures
        match r {
            Some(i) => i as int == first_occ(up@, kw@, 0) && occurs_at(up@, kw@, i as int),
            None => first_occ(up@, kw@, 0) == -1,
        },
{
    let k = to_chars(kw);
    let r = first_occ_exec(up, &k);
    proof {
        lemma_first_occ_range_pub(up@, kw@, 0);
    }
    r
}

/// The byte offset of the first `kw` in `up`.
fn keyword_byte(up: &Vec<char>, kw: &str) -> (r: Option<u128>)
    ensures
        match r {
            Some(b) => b as int == kw_byte(up@, kw@) && b as int >= 0 && b <= 4 * (usize::MAX as int),
            None => kw_byte(up@, kw@) == -1,
        },
{
    match keyword_pos(up, kw) {
        Some(p) => {
            let b = prefix_bytes(up, p);
            Some(b)
        },
        None => None,
    }
}

fn earlier_exec(a: Option<u128>, b: Option<u128>) -> (r: Option<u128>)
    ensures
        match r {
            Some(i) => earlier(
                match a { Some(x) => x as int, None => -1 },
                match b { Some(x) => x as int, None => -1 },
            ) == i as int,
            None => a is None && b is None,
        },
{
    match (a, b) {
        (None, _) => b,
        (_, None) => a,
        (Some(x), Some(y)) => if x <= y { a } else { b },
    }
}

fn where_clause_exec(sql: &str) -> (r: Option<String>)
    ensures
        match r {
            Some(w) => where_clause(sql@) == Some(w@),
            None => where_clause(sql@) is None,
        },
{
    let v = to_chars(sql);
    let up = to_chars(&to_uppercase(sql));
    match keyword_byte(&up, "WHERE ") {
        None => Some(String::new()),
        Some(p) => {
            match cut_exec(&v, p + 6) {
                None => None,
                Some(start) => {
                    let ghost after = sql@.skip(start as int);
                    let rest = from_range(&v, start, v.len());
                    proof {
                        assert(rest@ == after);
                    }
                    let av = to_chars(&rest);
                    let rup = to_chars(&to_uppercase(&rest));
                    let e = earlier_exec(keyword_byte(&rup, "LIMIT "), earlier_exec(keyword_byte(&rup, "ORDER "), keyword_byte(&rup, "GROUP ")));
                    let end: u128 = match e {
                        Some(x) => x,
                        None => {
                            proof {
                                assert(av@.take(av@.len() as int) =~= av@);
                            }
                            prefix_bytes(&av, av.len())
                        },
                    };
                    match cut_exec(&av, end) {
                        None => None,
                        Some(k) => {
                            let (a, b) = trim_bounds(&av, 0, k);
                            proof {
                                assert(av@.take(k as int) == av@.subrange(0, k as int));
                            }
                            Some(from_range(&av, a, b))
                        },
                    }
                },
            }
        },
    }
}

fn number_after_exec(sql: &str, kw: &str, default: usize) -> (r: Option<usize>)
    ensures
        r == number_after(sql@, kw@, default),
{
    let v = to_chars(sql);
    let up = to_chars(&to_uppercase(sql));
    let k = to_chars(kw);
    match keyword_byte(&up, kw) {
        None => Some(default),
        Some(p) => {
            let kl = k.len() as u128;
            match cut_exec(&v, p + kl) {
                None => None,
                Some(start) => match first_word_exec(&v, start) {
                    None => Some(default),
                    Some(w) => match parse_usize(&w) {
                        Some(n) => Some(n),
                        None => Some(default),
                    },
                },
            }
        },
    }
}

/// Reads a query on `legislation_text`: the trimmed `WHERE` clause (up to
/// `LIMIT`, `ORDER` or `GROUP`) as the filter, `true` where it is missing or
/// empty; the numbers after `LIMIT` and `OFFSET`, 1000 and 0 where missing or
/// unreadable; a JSON answer where the statement calls `to_json(`, else a count
/// where it calls `count(`, else the rows. Keyword positions are byte offsets
/// in the upper-cased statement, used on the statement itself; where such a
/// cut falls inside a character (a statement whose upper-casing changes byte
/// lengths), there is no plan.
pub fn query_plan(sql: &str) -> (r: Option<QueryPlan>)
    ensures
        match r {
            Some(q) => query_spec(sql@) == Some((q.filter@, q.limit, q.offset, q.answer)),
            None => query_spec(sql@) is None,
        },
{
    let w = match where_clause_exec(sql) {
        Some(w) => w,
        None => {
            return None;
        },
    };
    let filter = if to_chars(&w).len() == 0 { crate::text::owned("true") } else { w };
    let limit = match number_after_exec(sql, "LIMIT ", DEFAULT_LIMIT) {
        Some(n) => n,
        None => {
            return None;
        },
    };
    let offset = match number_after_exec(sql, "OFFSET ", 0) {
        Some(n) => n,
        None => {
            return None;
        },
    };
    let up = to_uppercase(sql);
    let answer = if contains_str(&up, "TO_JSON(") {
        Answer::Json
    } else if contains_str(&up, "COUNT(") {
        Answer::Count
    } else {
        Answer::Rows
    };
    Some(QueryPlan { filter, limit, offset, answer })
}

// ---------------------------------------------------------------------------
// Update statements

/// How the comma-separated assignments of a `SET` clause fall apart: the
/// pieces finished so far (trimmed), the piece being read, and whether a
/// single quote is open. A comma inside quotes belongs to the piece.
pub open spec fn split_state(s: Seq<char>) -> (Seq<Seq<char>>, Seq<char>, bool)
    decreases s.len(),
{
    if s.len() == 0 {
        (seq![], seq![], false)
    } else {
        let (done, cur, q) = split_state(s.drop_last());
        let c = s.last();
        if c == '\'' {
            (done, cur.push(c), !q)
        } else if c == ',' && !q {
            (done.push(trim(cur)), seq![], q)
        } else {
            (done, cur.push(c), q)
        }
    }
}

/// The trimmed assignments of a `SET` clause; a last piece that is only
/// whitespace is dropped.
pub open spec fn split_assignments(s: Seq<char>) -> Seq<Seq<char>> {
    let (done, cur, _) = split_state(s);
    if trim(cur).len() > 0 { done.push(trim(cur)) } else { done }
}

/// `(column, value)` for each assignment that holds an `=`: the trimmed text
/// before its first `=` and after it. Assignments without one are skipped.
pub open spec fn column_pairs(items: Seq<Seq<char>>) -> Seq<(Seq<char>, Seq<char>)>
    decreases items.len(),
{
    if items.len() == 0 {
        seq![]
    } else {
        let rest = column_pairs(items.drop_last());
        let a = items.last();
        let k = first_occ(a, seq!['='], 0);
        if k == -1 {
            rest
        } else {
            rest.push((trim(a.take(k)), trim(a.skip(k + 1))))
        }
    }
}

/// What an `UPDATE` on `legislation_text` comes to.
pub enum UpdatePlan {
    /// `CREATE` or `ALTER`: the table is there already; nothing to do.
    NoOp,
    /// Any other statement that is not an `UPDATE`; holds its first 80
    /// characters.
    Unsupported { head: String },
    /// An `UPDATE` without `SET `.
    MissingSet,
    /// The rows that match `filter` get each `(column, value)`.
    Update { filter: String, assignments: Vec<(String, String)> },
}

/// `UpdatePlan` over plain sequences.
pub enum UpdateView {
    NoOp,
    Unsupported { head: Seq<char> },
    MissingSet,
    Update { filter: Seq<char>, assignments: Seq<(Seq<char>, Seq<char>)> },
}

pub open spec fn pairs_view(v: Seq<(String, String)>) -> Seq<(Seq<char>, Seq<char>)> {
    v.map_values(|p: (String, String)| (p.0@, p.1@))
}

impl UpdatePlan {
    pub open spec fn view(&self) -> UpdateView {
        match self {
            UpdatePlan::NoOp => UpdateView::NoOp,
            UpdatePlan::Unsupported { head } => UpdateView::Unsupported { head: head@ },
            UpdatePlan::MissingSet => UpdateView::MissingSet,
            UpdatePlan::Update { filter, assignments } => UpdateView::Update {
                filter: filter@,
                assignments: pairs_view(assignments@),
            },
        }
    }
}

/// The `SET` part and the filter of what follows `SET `: split at the byte
/// of the first `WHERE ` (in any case), the filter trimmed; `true` where
/// there is none; `None` where a cut falls inside a character.
pub open spec fn set_and_filter(after: Seq<char>) -> Option<(Seq<char>, Seq<char>)> {
    let w = kw_byte(str_uppercase(after), "WHERE "@);
    if w == -1 {
        Some((after, "true"@))
    } else {
        match (head_at(after, w), tail_at(after, w + 6)) {
            (Some(h), Some(t)) => Some((h, trim(t))),
            _ => None,
        }
    }
}

/// What an update statement comes to, or `None` where one of its cuts falls
/// inside a character.
pub open spec fn update_plan_spec(sql: Seq<char>) -> Option<UpdateView> {
    let up = str_uppercase(sql);
    if !"UPDATE "@.is_prefix_of(up) {
        if "CREATE "@.is_prefix_of(up) || "ALTER "@.is_prefix_of(up) {
            Some(UpdateView::NoOp)
        } else {
            match head_at(sql, if utf8_len(sql) < 80 { utf8_len(sql) as int } else { 80 }) {
                Some(h) => Some(UpdateView::Unsupported { head: h }),
                None => None,
            }
        }
    } else {
        let sp = kw_byte(up, "SET "@);
        if sp == -1 {
            Some(UpdateView::MissingSet)
        } else {
            match tail_at(sql, sp + 4) {
                Some(after) => match set_and_filter(after) {
                    Some((set_part, filter)) => Some(UpdateView::Update {
                        filter,
                        assignments: column_pairs(split_assignments(set_part)),
                    }),
                    None => None,
                },
                None => None,
            }
        }
    }
}

fn trimmed(v: &Vec<char>) -> (r: String)
    ensures
        r@ == trim(v@),
{
    let (a, b) = trim_bounds(v, 0, v.len());
    proof {
        assert(v@.subrange(0, v@.len() as int) == v@);
    }
    from_range(v, a, b)
}

fn split_assignments_exec(v: &Vec<char>) -> (r: Vec<Vec<char>>)
    ensures
        r.len() == split_assignments(v@).len(),
        forall|j: int| 0 <= j < r.len() ==> (#[trigger] r[j])@ == split_assignments(v@)[j],
{
    let mut done: Vec<Vec<char>> = Vec::new();
    let mut cur: Vec<char> = Vec::new();
    let mut q = false;
    let mut i: usize = 0;
    while i < v.len()
        invariant
            i <= v.len(),
            ({
                let st = split_state(v@.take(i as int));
                &&& done.len() == st.0.len()
                &&& forall|j: int| 0 <= j < done.len() ==> (#[trigger] done[j])@ == st.0[j]
                &&& cur@ == st.1
                &&& q == st.2
            }),
        decreases v.len() - i,
    {
        let c = v[i];
        proof {
            assert(v@.take(i + 1).drop_last() == v@.take(i as int));
            assert(v@.take(i + 1).last() == c);
        }
        if c == '\'' {
            cur.push(c);
            q = !q;
        } else if c == ',' && !q {
            let t = to_chars(&trimmed(&cur));
            done.push(t);
            cur = Vec::new();
        } else {
            cur.push(c);
        }
        i += 1;
    }
    proof {
        assert(v@.take(v@.len() as int) == v@);
    }
    let t = to_chars(&trimmed(&cur));
    if t.len() > 0 {
        done.push(t);
    }
    done
}

fn column_pairs_exec(items: &Vec<Vec<char>>) -> (r: Vec<(String, String)>)
    ensures
        pairs_view(r@) == column_pairs(items@.map_values(|x: Vec<char>| x@)),
{
    let ghost its = items@.map_values(|x: Vec<char>| x@);
    let mut out: Vec<(String, String)> = Vec::new();
    let eq: Vec<char> = vec!['='];
    let mut i: usize = 0;
    while i < items.len()
        invariant
            i <= items.len(),
            its == items@.map_values(|x: Vec<char>| x@),
            eq@ == seq!['='],
            pairs_view(out@) == column_pairs(its.take(i as int)),
        decreases items.len() - i,
    {
        let a = &items[i];
        proof {
            assert(its.take(i + 1).drop_last() == its.take(i as int));
            assert(its.take(i + 1).last() == a@);
        }
        match first_occ_exec(a, &eq) {
            None => {},
            Some(k) => {
                proof {
                    lemma_first_occ_range_pub(a@, seq!['='], 0);
                    assert(seq!['='].len() == 1);
                    assert(k + 1 <= a@.len());
                }
                let (x0, x1) = trim_bounds(a, 0, k);
                let n = a.len();
                let (y0, y1) = trim_bounds(a, k + 1, n);
                let col = from_range(a, x0, x1);
                let val = from_range(a, y0, y1);
                proof {
                    assert(a@.take(k as int) == a@.subrange(0, k as int));
                    assert(a@.skip(k + 1) == a@.subrange(k + 1, a@.len() as int));
                }
                let ghost before = out@;
                out.push((col, val));
                proof {
                    assert(pairs_view(out@) =~= pairs_view(before).push((col@, val@)));
                }
            },
        }
        i += 1;
    }
    proof {
        assert(its.take(items@.len() as int) == its);
    }
    out
}

/// Reads a statement on `legislation_text` as an update. One that does not
/// start with `UPDATE ` (in any case) is nothing to do where it starts with
/// `CREATE ` or `ALTER `, else unsupported (with its first 80 bytes). An
/// `UPDATE` without `SET ` is refused. Otherwise what follows the first
/// `SET ` is cut at the first `WHERE `: before it the comma-separated
/// assignments (commas inside single quotes do not separate), after it the
/// trimmed filter, `true` where there is no `WHERE `. Cuts are at byte
/// offsets; where one falls inside a character there is no plan.
pub fn update_plan(sql: &str) -> (r: Option<UpdatePlan>)
    ensures
        match r {
            Some(u) => update_plan_spec(sql@) == Some(u@),
            None => update_plan_spec(sql@) is None,
        },
{
    let v = to_chars(sql);
    let ups = to_uppercase(sql);
    let up = to_chars(&ups);
    if !starts_with_str(&ups, "UPDATE ") {
        if starts_with_str(&ups, "CREATE ") || starts_with_str(&ups, "ALTER ") {
            return Some(UpdatePlan::NoOp);
        }
        proof {
            assert(v@.take(v@.len() as int) =~= v@);
        }
        let total = prefix_bytes(&v, v.len());
        let n: u128 = if total < 80 { total } else { 80 };
        return match cut_exec(&v, n) {
            Some(k) => {
                proof {
                    assert(sql@.take(k as int) == v@.subrange(0, k as int));
                }
                Some(UpdatePlan::Unsupported { head: from_range(&v, 0, k) })
            },
            None => None,
        };
    }
    match keyword_byte(&up, "SET ") {
        None => Some(UpdatePlan::MissingSet),
        Some(sp) => {
            let start = match cut_exec(&v, sp + 4) {
                Some(k) => k,
                None => {
                    return None;
                },
            };
            let after = from_range(&v, start, v.len());
            let av = to_chars(&after);
            proof {
                assert(av@ == sql@.skip(start as int));
            }
            let aup = to_chars(&to_uppercase(&after));
            let (set_end, filter) = match keyword_byte(&aup, "WHERE ") {
                None => (av.len(), crate::text::owned("true")),
                Some(w) => {
                    let e = match cut_exec(&av, w) {
                        Some(k) => k,
                        None => {
                            return None;
                        },
                    };
                    let s2 = match cut_exec(&av, w + 6) {
                        Some(k) => k,
                        None => {
                            return None;
                        },
                    };
                    let (a, b) = trim_bounds(&av, s2, av.len());
                    proof {
                        assert(av@.skip(s2 as int) == av@.subrange(s2 as int, av@.len() as int));
                    }
                    (e, from_range(&av, a, b))
                },
            };
            let set_part = to_chars(&from_range(&av, 0, set_end));
            proof {
                assert(av@.take(av@.len() as int) =~= av@);
                assert(set_and_filter(av@) == Some((set_part@, filter@)));
            }
            let items = split_assignments_exec(&set_part);
            proof {
                assert(items@.map_values(|x: Vec<char>| x@) =~= split_assignments(set_part@));
            }
            let assignments = column_pairs_exec(&items);
            Some(UpdatePlan::Update { filter, assignments })
        },
    }
}

} // verus!
