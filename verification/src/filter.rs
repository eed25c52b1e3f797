//! The issue list's search box: `is:open` / `is:closed`, `#N` / `N` and
//! title words, then sorting by creation or update time.
use vstd::prelude::*;

use crate::model::{IssueRow, IssueState};
use crate::text::{
    ascii_lower, chars_eq, chars_of, contains_run, has_run, lower_all, parse_u64,
    parse_u64_spec, split_words, words,
};

verus! {

/// Which timestamp orders the list.
#[derive(Clone, Copy, Debug, PartialEq, Eq, Structural)]
pub enum SortKey {
    Created,
    Updated,
}

/// Ascending or descending order.
#[derive(Clone, Copy, Debug, PartialEq, Eq, Structural)]
pub enum SortDir {
    Asc,
    Desc,
}

// ---------------------------------------------------------------------------
// Query specification
// ---------------------------------------------------------------------------

pub open spec fn is_open_word() -> Seq<char> {
    seq!['i', 's', ':', 'o', 'p', 'e', 'n']
}

pub open spec fn is_closed_word() -> Seq<char> {
    seq!['i', 's', ':', 'c', 'l', 'o', 's', 'e', 'd']
}

/// The words of `q`, each lower-cased (ASCII).
pub open spec fn lowered_words(q: Seq<char>) -> Seq<Seq<char>> {
    words(q).map_values(|w: Seq<char>| ascii_lower(w))
}

/// `ts` without the state words `is:open` and `is:closed`.
pub open spec fn drop_state_words(ts: Seq<Seq<char>>) -> Seq<Seq<char>>
    decreases ts.len(),
{
    if ts.len() == 0 {
        seq![]
    } else {
        let before = drop_state_words(ts.drop_last());
        if ts.last() == is_open_word() || ts.last() == is_closed_word() {
            before
        } else {
            before.push(ts.last())
        }
    }
}

/// The search terms of a query: its lower-cased words other than the state
/// words.
pub open spec fn query_terms(q: Seq<char>) -> Seq<Seq<char>> {
    drop_state_words(lowered_words(q))
}

/// Whether `row` matches one lower-cased search term: `#N` and `N` (decimal,
/// as `u64` parses it) match the issue number; any other term matches when
/// the lower-cased title contains it.
pub open spec fn term_matches(row: IssueRow, t: Seq<char>) -> bool {
    if t.len() > 0 && t[0] == '#' {
        parse_u64_spec(t.drop_first()) == Some(row.number)
    } else if parse_u64_spec(t) is Some {
        parse_u64_spec(t) == Some(row.number)
    } else {
        contains_run(ascii_lower(row.title@), t)
    }
}

/// `row` matches every search term of `q` (a query without terms matches
/// every row).
pub open spec fn query_matches(row: IssueRow, q: Seq<char>) -> bool {
    forall|i: int| 0 <= i < query_terms(q).len() ==> term_matches(row, #[trigger] query_terms(q)[i])
}

/// The state that the last state word of `ts` asks for: `Some(true)` for
/// `is:open`, `Some(false)` for `is:closed`, `None` without state word.
pub open spec fn last_state_word(ts: Seq<Seq<char>>) -> Option<bool>
    decreases ts.len(),
{
    if ts.len() == 0 {
        None
    } else if ts.last() == is_open_word() {
        Some(true)
    } else if ts.last() == is_closed_word() {
        Some(false)
    } else {
        last_state_word(ts.drop_last())
    }
}

/// Which states to show: the last state word of the query decides; without
/// one, the check boxes decide, and both unchecked shows both.
pub open spec fn state_flags_spec(q: Seq<char>, show_open: bool, show_closed: bool) -> (bool, bool) {
    match last_state_word(lowered_words(q)) {
        Some(true) => (true, false),
        Some(false) => (false, true),
        None => if !show_open && !show_closed {
            (true, true)
        } else {
            (show_open, show_closed)
        },
    }
}

/// Whether `row` passes the state flags and the query.
pub open spec fn row_kept(row: IssueRow, q: Seq<char>, show_open: bool, show_closed: bool) -> bool {
    let flags = state_flags_spec(q, show_open, show_closed);
    &&& match row.state {
        IssueState::Open => flags.0,
        IssueState::Closed => flags.1,
    }
    &&& query_matches(row, q)
}

/// The rows of `rs` that pass, in input order.
pub open spec fn kept_rows(rs: Seq<IssueRow>, q: Seq<char>, show_open: bool, show_closed: bool) -> Seq<IssueRow>
    decreases rs.len(),
{
    if rs.len() == 0 {
        seq![]
    } else {
        let before = kept_rows(rs.drop_last(), q, show_open, show_closed);
        if row_kept(rs.last(), q, show_open, show_closed) {
            before.push(rs.last())
        } else {
            before
        }
    }
}

// ---------------------------------------------------------------------------
// Order specification
// ---------------------------------------------------------------------------

/// Lexicographic comparison of two texts by code point: -1, 0 or 1. This is
/// the order of `String`'s `Ord`, since UTF-8 keeps code point order.
pub open spec fn lex_order(a: Seq<char>, b: Seq<char>) -> int
    decreases a.len(),
{
    if a.len() == 0 && b.len() == 0 {
        0
    } else if a.len() == 0 {
        -1
    } else if b.len() == 0 {
        1
    } else if a[0] < b[0] {
        -1
    } else if a[0] > b[0] {
        1
    } else {
        lex_order(a.drop_first(), b.drop_first())
    }
}

pub open spec fn sort_text(r: IssueRow, key: SortKey) -> Seq<char> {
    match key {
        SortKey::Created => r.created_at@,
        SortKey::Updated => r.updated_at@,
    }
}

pub open spec fn num_order(a: u64, b: u64) -> int {
    if a < b {
        -1
    } else if a > b {
        1
    } else {
        0
    }
}

/// The list order: by the chosen timestamp in the chosen direction, then by
/// number, ascending.
pub open spec fn row_order(a: IssueRow, b: IssueRow, key: SortKey, dir: SortDir) -> int {
    let k = lex_order(sort_text(a, key), sort_text(b, key));
    let k2 = match dir {
        SortDir::Asc => k,
        SortDir::Desc => -k,
    };
    if k2 != 0 {
        k2
    } else {
        num_order(a.number, b.number)
    }
}

pub open spec fn row_le(a: IssueRow, b: IssueRow, key: SortKey, dir: SortDir) -> bool {
    row_order(a, b, key, dir) <= 0
}

/// `s` with `x` placed after the last element that is not after `x` in the
/// list order.
pub open spec fn insert_sorted(s: Seq<IssueRow>, x: IssueRow, key: SortKey, dir: SortDir) -> Seq<IssueRow>
    decreases s.len(),
{
    if s.len() == 0 {
        seq![x]
    } else if row_le(s.last(), x, key, dir) {
        s.push(x)
    } else {
        insert_sorted(s.drop_last(), x, key, dir).push(s.last())
    }
}

/// The stable sort of `s` in the list order.
pub open spec fn sorted_rows(s: Seq<IssueRow>, key: SortKey, dir: SortDir) -> Seq<IssueRow>
    decreases s.len(),
{
    if s.len() == 0 {
        seq![]
    } else {
        insert_sorted(sorted_rows(s.drop_last(), key, dir), s.last(), key, dir)
    }
}

/// What `apply` returns.
pub open spec fn apply_spec(
    rows: Seq<IssueRow>,
    q: Seq<char>,
    show_open: bool,
    show_closed: bool,
    key: SortKey,
    dir: SortDir,
) -> Seq<IssueRow> {
    sorted_rows(kept_rows(rows, q, show_open, show_closed), key, dir)
}

// ---------------------------------------------------------------------------
// Executable functions
// ---------------------------------------------------------------------------

/// The words of `q`, lower-cased.
fn query_words(q: &str) -> (r: Vec<Vec<char>>)
    ensures
        r@.len() == lowered_words(q@).len(),
        forall|i: int| 0 <= i < r@.len() ==> (#[trigger] r@[i])@ == lowered_words(q@)[i],
{
    let cs = chars_of(q);
    let ws = split_words(cs.as_slice());
    let mut out: Vec<Vec<char>> = Vec::new();
    let mut i: usize = 0;
    while i < ws.len()
        invariant
            ws@.len() == words(q@).len(),
            forall|j: int| 0 <= j < ws@.len() ==> (#[trigger] ws@[j])@ == words(q@)[j],
            i <= ws@.len(),
            out@.len() == i,
            forall|j: int| 0 <= j < i ==> (#[trigger] out@[j])@ == lowered_words(q@)[j],
        decreases ws@.len() - i,
    {
        let l = lower_all(ws[i].as_slice());
        out.push(l);
        i += 1;
    }
    out
}

fn is_open_chars(t: &[char]) -> (r: bool)
    ensures
        r == (t@ == is_open_word()),
{
    let w = vec!['i', 's', ':', 'o', 'p', 'e', 'n'];
    assert(w@ =~= is_open_word());
    chars_eq(t, w.as_slice())
}

fn is_closed_chars(t: &[char]) -> (r: bool)
    ensures
        r == (t@ == is_closed_word()),
{
    let w = vec!['i', 's', ':', 'c', 'l', 'o', 's', 'e', 'd'];
    assert(w@ =~= is_closed_word());
    chars_eq(t, w.as_slice())
}

/// The search terms of `query`.
fn search_terms(query: &str) -> (r: Vec<Vec<char>>)
    ensures
        r@.len() == query_terms(query@).len(),
        forall|i: int| 0 <= i < r@.len() ==> (#[trigger] r@[i])@ == query_terms(query@)[i],
{
    let ws = query_words(query);
    let ghost lw = lowered_words(query@);
    let mut out: Vec<Vec<char>> = Vec::new();
    let mut i: usize = 0;
    while i < ws.len()
        invariant
            lw == lowered_words(query@),
            ws@.len() == lw.len(),
            forall|j: int| 0 <= j < ws@.len() ==> (#[trigger] ws@[j])@ == lw[j],
            i <= ws@.len(),
            out@.len() == drop_state_words(lw.take(i as int)).len(),
            forall|j: int|
                0 <= j < out@.len() ==> (#[trigger] out@[j])@ == drop_state_words(lw.take(i as int))[j],
        decreases ws@.len() - i,
    {
        assert(lw.take(i + 1).drop_last() =~= lw.take(i as int));
        if !is_open_chars(ws[i].as_slice()) && !is_closed_chars(ws[i].as_slice()) {
            let w = copy_chars(ws[i].as_slice());
            out.push(w);
        }
        i += 1;
    }
    assert(lw.take(ws@.len() as int) =~= lw);
    out
}

fn copy_chars(s: &[char]) -> (r: Vec<char>)
    ensures
        r@ == s@,
{
    let mut r: Vec<char> = Vec::new();
    let mut i: usize = 0;
    while i < s.len()
        invariant
            i <= s@.len(),
            r@ == s@.take(i as int),
        decreases s@.len() - i,
    {
        r.push(s[i]);
        assert(s@.take(i + 1) =~= s@.take(i as int).push(s@[i as int]));
        i += 1;
    }
    assert(s@.take(s@.len() as int) =~= s@);
    r
}

/// Whether `row` matches one lower-cased term; `title` is the lower-cased title.
fn term_matches_exec(row: &IssueRow, title: &[char], t: &[char]) -> (r: bool)
    requires
        title@ == ascii_lower(row.title@),
    ensures
        r == term_matches(*row, t@),
{
    if t.len() > 0 && t[0] == '#' {
        let mut rest: Vec<char> = Vec::new();
        let mut i: usize = 1;
        while i < t.len()
            invariant
                1 <= i <= t@.len(),
                rest@ == t@.subrange(1, i as int),
            decreases t@.len() - i,
        {
            rest.push(t[i]);
            assert(t@.subrange(1, i + 1) =~= t@.subrange(1, i as int).push(t@[i as int]));
            i += 1;
        }
        assert(rest@ =~= t@.drop_first());
        return parse_u64(rest.as_slice()) == Some(row.number);
    }
    match parse_u64(t) {
        Some(n) => n == row.number,
        None => has_run(title, t),
    }
}

/// Whether `row` matches every term of `terms`.
fn terms_match(row: &IssueRow, terms: &Vec<Vec<char>>, Ghost(q): Ghost<Seq<char>>) -> (r: bool)
    requires
        terms@.len() == query_terms(q).len(),
        forall|i: int| 0 <= i < terms@.len() ==> (#[trigger] terms@[i])@ == query_terms(q)[i],
    ensures
        r == query_matches(*row, q),
{
    let tc = chars_of(row.title.as_str());
    let title = lower_all(tc.as_slice());
    let mut i: usize = 0;
    while i < terms.len()
        invariant
            terms@.len() == query_terms(q).len(),
            forall|j: int| 0 <= j < terms@.len() ==> (#[trigger] terms@[j])@ == query_terms(q)[j],
            title@ == ascii_lower(row.title@),
            i <= terms@.len(),
            forall|j: int| 0 <= j < i ==> term_matches(*row, #[trigger] query_terms(q)[j]),
        decreases terms@.len() - i,
    {
        if !term_matches_exec(row, title.as_slice(), terms[i].as_slice()) {
            assert(!term_matches(*row, query_terms(q)[i as int]));
            return false;
        }
        i += 1;
    }
    true
}

/// Whether `row` matches every search term of `query`; the state words
/// `is:open` and `is:closed` are no search terms.
pub fn matches_query(row: &IssueRow, query: &str) -> (r: bool)
    ensures
        r == query_matches(*row, query@),
{
    let terms = search_terms(query);
    terms_match(row, &terms, Ghost(query@))
}

/// Which states to show, given the query and the two check boxes.
pub fn state_flags_from_query(query: &str, show_open: bool, show_closed: bool) -> (r: (bool, bool))
    ensures
        r == state_flags_spec(query@, show_open, show_closed),
{
    let ws = query_words(query);
    let ghost lw = lowered_words(query@);
    let mut choice: Option<bool> = None;
    let mut i: usize = 0;
    while i < ws.len()
        invariant
            lw == lowered_words(query@),
            ws@.len() == lw.len(),
            forall|j: int| 0 <= j < ws@.len() ==> (#[trigger] ws@[j])@ == lw[j],
            i <= ws@.len(),
            choice == last_state_word(lw.take(i as int)),
        decreases ws@.len() - i,
    {
        assert(lw.take(i + 1).drop_last() =~= lw.take(i as int));
        if is_open_chars(ws[i].as_slice()) {
            choice = Some(true);
        } else if is_closed_chars(ws[i].as_slice()) {
            choice = Some(false);
        }
        i += 1;
    }
    assert(lw.take(ws@.len() as int) =~= lw);
    match choice {
        Some(true) => (true, false),
        Some(false) => (false, true),
        None => if !show_open && !show_closed {
            (true, true)
        } else {
            (show_open, show_closed)
        },
    }
}

/// Lexicographic comparison of two character runs (see `lex_order`).
fn lex_order_exec(a: &[char], b: &[char]) -> (r: i8)
    ensures
        r as int == lex_order(a@, b@),
        -1 <= r <= 1,
{
    let mut i: usize = 0;
    assert(a@.skip(0) =~= a@);
    assert(b@.skip(0) =~= b@);
    while i < a.len() && i < b.len() && a[i] == b[i]
        invariant
            i <= a@.len(),
            i <= b@.len(),
            lex_order(a@, b@) == lex_order(a@.skip(i as int), b@.skip(i as int)),
        decreases a@.len() - i,
    {
        assert(a@.skip(i as int).drop_first() =~= a@.skip(i + 1));
        assert(b@.skip(i as int).drop_first() =~= b@.skip(i + 1));
        i += 1;
    }
    let ghost sa = a@.skip(i as int);
    let ghost sb = b@.skip(i as int);
    if i == a.len() && i == b.len() {
        assert(sa.len() == 0 && sb.len() == 0);
        0
    } else if i == a.len() {
        -1
    } else if i == b.len() {
        1
    } else {
        assert(sa[0] == a@[i as int] && sb[0] == b@[i as int]);
        if a[i] < b[i] {
            -1
        } else {
            1
        }
    }
}

/// Whether the row with timestamp `ka` and number `na` may stand before the
/// row with `kb` and `nb` (`row_le`).
fn le_exec(ka: &[char], na: u64, kb: &[char], nb: u64, dir: SortDir) -> (r: bool)
    ensures
        r == ({
            let k = lex_order(ka@, kb@);
            let k2 = match dir {
                SortDir::Asc => k,
                SortDir::Desc => -k,
            };
            (if k2 != 0 {
                k2
            } else {
                num_order(na, nb)
            }) <= 0
        }),
{
    let k = lex_order_exec(ka, kb);
    let k2: i8 = match dir {
        SortDir::Asc => k,
        SortDir::Desc => -k,
    };
    if k2 != 0 {
        k2 < 0
    } else {
        na <= nb
    }
}

fn sort_text_exec(r: &IssueRow, key: SortKey) -> (v: Vec<char>)
    ensures
        v@ == sort_text(*r, key),
{
    match key {
        SortKey::Created => chars_of(r.created_at.as_str()),
        SortKey::Updated => chars_of(r.updated_at.as_str()),
    }
}

proof fn lemma_insert_sorted_split(s: Seq<IssueRow>, x: IssueRow, key: SortKey, dir: SortDir, p: int)
    requires
        0 < p <= s.len(),
        !row_le(s[p - 1], x, key, dir),
    ensures
        insert_sorted(s.take(p), x, key, dir) + s.skip(p) == insert_sorted(s.take(p - 1), x, key, dir)
            + s.skip(p - 1),
{
    let t = s.take(p);
    assert(t.last() == s[p - 1]);
    assert(t.drop_last() =~= s.take(p - 1));
    let a = insert_sorted(s.take(p - 1), x, key, dir);
    assert(insert_sorted(t, x, key, dir) == a.push(s[p - 1]));
    assert(a.push(s[p - 1]) + s.skip(p) =~= a + s.skip(p - 1));
}

/// `s` with `x` inserted at its place in the list order; `keys` holds the
/// sort timestamps of `s` and gets that of `x`.
fn insert_row(s: &mut Vec<IssueRow>, keys: &mut Vec<Vec<char>>, x: IssueRow, key: SortKey, dir: SortDir)
    requires
        old(keys)@.len() == old(s)@.len(),
        forall|j: int| 0 <= j < old(s)@.len() ==> (#[trigger] old(keys)@[j])@ == sort_text(old(s)@[j], key),
    ensures
        final(s)@ == insert_sorted(old(s)@, x, key, dir),
        final(keys)@.len() == final(s)@.len(),
        forall|j: int| 0 <= j < final(s)@.len() ==> (#[trigger] final(keys)@[j])@ == sort_text(final(s)@[j], key),
{
    let kx = sort_text_exec(&x, key);
    let ghost s0 = s@;
    let mut p: usize = s.len();
    assert(s0.take(p as int) =~= s0);
    assert(s0.skip(p as int) =~= Seq::<IssueRow>::empty());
    while p > 0 && !le_exec(keys[p - 1].as_slice(), s[p - 1].number, kx.as_slice(), x.number, dir)
        invariant
            s@ == s0,
            keys@.len() == s0.len(),
            forall|j: int| 0 <= j < s0.len() ==> (#[trigger] keys@[j])@ == sort_text(s0[j], key),
            kx@ == sort_text(x, key),
            p <= s0.len(),
            insert_sorted(s0, x, key, dir) == insert_sorted(s0.take(p as int), x, key, dir) + s0.skip(p as int),
        decreases p,
    {
        proof {
            lemma_insert_sorted_split(s0, x, key, dir, p as int);
        }
        p -= 1;
    }
    proof {
        if p == 0 {
            assert(s0.take(0) =~= Seq::<IssueRow>::empty());
            assert(s0.skip(0) =~= s0);
            assert(insert_sorted(s0.take(0), x, key, dir) == seq![x]);
        } else {
            let t = s0.take(p as int);
            assert(t.last() == s0[p - 1]);
            assert(insert_sorted(t, x, key, dir) == t.push(x));
        }
        assert(insert_sorted(s0, x, key, dir) =~= s0.insert(p as int, x));
    }
    s.insert(p, x);
    keys.insert(p, kx);
    proof {
        assert forall|j: int| 0 <= j < s@.len() implies (#[trigger] keys@[j])@ == sort_text(s@[j], key) by {
            if j < p {
                assert(s@[j] == s0[j]);
            } else if j > p {
                assert(s@[j] == s0[j - 1]);
            }
        }
    }
}

/// The rows that the list shows: those in the states to show (see
/// `state_flags_from_query`) that match the query, sorted stably by the
/// chosen timestamp in the chosen direction, then by number.
pub fn apply(
    rows: &[IssueRow],
    query: &str,
    show_open: bool,
    show_closed: bool,
    sort: SortKey,
    dir: SortDir,
) -> (r: Vec<IssueRow>)
    ensures
        r@ == apply_spec(rows@, query@, show_open, show_closed, sort, dir),
{
    let flags = state_flags_from_query(query, show_open, show_closed);
    let terms = search_terms(query);
    let mut out: Vec<IssueRow> = Vec::new();
    let mut keys: Vec<Vec<char>> = Vec::new();
    let mut i: usize = 0;
    while i < rows.len()
        invariant
            flags == state_flags_spec(query@, show_open, show_closed),
            terms@.len() == query_terms(query@).len(),
            forall|j: int| 0 <= j < terms@.len() ==> (#[trigger] terms@[j])@ == query_terms(query@)[j],
            i <= rows@.len(),
            out@ == sorted_rows(kept_rows(rows@.take(i as int), query@, show_open, show_closed), sort, dir),
            keys@.len() == out@.len(),
            forall|j: int| 0 <= j < out@.len() ==> (#[trigger] keys@[j])@ == sort_text(out@[j], sort),
        decreases rows@.len() - i,
    {
        let r = &rows[i];
        let state_ok = match r.state {
            IssueState::Open => flags.0,
            IssueState::Closed => flags.1,
        };
        let ghost prefix = rows@.take(i + 1);
        let ghost before = kept_rows(rows@.take(i as int), query@, show_open, show_closed);
        assert(prefix.drop_last() =~= rows@.take(i as int));
        assert(prefix.last() == rows@[i as int]);
        if state_ok && terms_match(r, &terms, Ghost(query@)) {
            let x = r.duplicate();
            assert(kept_rows(prefix, query@, show_open, show_closed) == before.push(x));
            assert(before.push(x).drop_last() =~= before);
            insert_row(&mut out, &mut keys, x, sort, dir);
        } else {
            assert(kept_rows(prefix, query@, show_open, show_closed) == before);
        }
        i += 1;
    }
    assert(rows@.take(rows@.len() as int) =~= rows@);
    out
}

// ---------------------------------------------------------------------------
// Laws
// ---------------------------------------------------------------------------

proof fn lemma_lex_antisym(a: Seq<char>, b: Seq<char>)
    ensures
        lex_order(a, b) == -lex_order(b, a),
        -1 <= lex_order(a, b) <= 1,
        lex_order(a, b) == 0 <==> a == b,
    decreases a.len(),
{
    if a.len() > 0 && b.len() > 0 && a[0] == b[0] {
        lemma_lex_antisym(a.drop_first(), b.drop_first());
        if lex_order(a, b) == 0 {
            assert(a =~= seq![a[0]] + a.drop_first());
            assert(b =~= seq![b[0]] + b.drop_first());
        }
    } else if a.len() == 0 && b.len() == 0 {
        assert(a =~= b);
    }
}

proof fn lemma_lex_trans(a: Seq<char>, b: Seq<char>, c: Seq<char>)
    requires
        lex_order(a, b) <= 0,
        lex_order(b, c) <= 0,
    ensures
        lex_order(a, c) <= 0,
    decreases a.len(),
{
    if a.len() > 0 && b.len() > 0 && c.len() > 0 && a[0] == b[0] && b[0] == c[0] {
        lemma_lex_trans(a.drop_first(), b.drop_first(), c.drop_first());
    }
}

/// The timestamp order is `String`'s: texts that agree on their first `i`
/// characters are ordered by the character at `i` where they differ there; a
/// text that ends at `i` comes before a longer one; texts that both end at
/// `i` are equal in the order.
pub proof fn lemma_lex_order_is_string_order(a: Seq<char>, b: Seq<char>, i: int)
    requires
        0 <= i <= a.len(),
        i <= b.len(),
        a.take(i) == b.take(i),
    ensures
        i < a.len() && i < b.len() && a[i] != b[i] ==> lex_order(a, b) == (if a[i] < b[i] {
            -1int
        } else {
            1int
        }),
        i == a.len() && i < b.len() ==> lex_order(a, b) == -1 && lex_order(b, a) == 1,
        i == a.len() && i == b.len() ==> lex_order(a, b) == 0,
    decreases i,
{
    if i > 0 {
        assert(a[0] == a.take(i)[0]);
        assert(b[0] == b.take(i)[0]);
        let (a1, b1) = (a.drop_first(), b.drop_first());
        assert(a1.take(i - 1) =~= a.take(i).drop_first());
        assert(b1.take(i - 1) =~= b.take(i).drop_first());
        lemma_lex_order_is_string_order(a1, b1, i - 1);
        if i < a.len() {
            assert(a1[i - 1] == a[i]);
        }
        if i < b.len() {
            assert(b1[i - 1] == b[i]);
        }
    }
}

/// Matching ignores the ASCII case of the title: a row matches a query
/// exactly when the same row with its title upper-cased does.
pub proof fn lemma_match_ignores_title_case(row: IssueRow, upper: IssueRow, q: Seq<char>)
    requires
        upper.number == row.number,
        upper.title@ == crate::text::ascii_upper(row.title@),
    ensures
        query_matches(upper, q) == query_matches(row, q),
{
    crate::text::lemma_ascii_lower_case_blind(row.title@);
    assert forall|t: Seq<char>| term_matches(upper, t) == term_matches(row, t) by {}
    let ts = query_terms(q);
    if query_matches(row, q) {
        assert forall|i: int| 0 <= i < ts.len() implies term_matches(upper, #[trigger] ts[i]) by {
            assert(term_matches(row, ts[i]));
        }
    }
    if query_matches(upper, q) {
        assert forall|i: int| 0 <= i < ts.len() implies term_matches(row, #[trigger] ts[i]) by {
            assert(term_matches(upper, ts[i]));
        }
    }
}

proof fn lemma_row_order_antisym(a: IssueRow, b: IssueRow, key: SortKey, dir: SortDir)
    ensures
        row_order(a, b, key, dir) == -row_order(b, a, key, dir),
{
    lemma_lex_antisym(sort_text(a, key), sort_text(b, key));
}

proof fn lemma_row_le_total(a: IssueRow, b: IssueRow, key: SortKey, dir: SortDir)
    ensures
        row_le(a, b, key, dir) || row_le(b, a, key, dir),
{
    lemma_row_order_antisym(a, b, key, dir);
}

proof fn lemma_row_le_trans(a: IssueRow, b: IssueRow, c: IssueRow, key: SortKey, dir: SortDir)
    requires
        row_le(a, b, key, dir),
        row_le(b, c, key, dir),
    ensures
        row_le(a, c, key, dir),
{
    let (ta, tb, tc) = (sort_text(a, key), sort_text(b, key), sort_text(c, key));
    lemma_lex_antisym(ta, tb);
    lemma_lex_antisym(tb, tc);
    lemma_lex_antisym(ta, tc);
    match dir {
        SortDir::Asc => {
            if lex_order(ta, tb) <= 0 && lex_order(tb, tc) <= 0 {
                lemma_lex_trans(ta, tb, tc);
            }
        },
        SortDir::Desc => {
            if lex_order(tb, ta) <= 0 && lex_order(tc, tb) <= 0 {
                lemma_lex_trans(tc, tb, ta);
            }
        },
    }
}

/// Every element is ordered before every later one.
pub open spec fn in_list_order(s: Seq<IssueRow>, key: SortKey, dir: SortDir) -> bool {
    forall|i: int, j: int| 0 <= i < j < s.len() ==> row_le(#[trigger] s[i], #[trigger] s[j], key, dir)
}

proof fn lemma_insert_sorted_multiset(s: Seq<IssueRow>, x: IssueRow, key: SortKey, dir: SortDir)
    ensures
        insert_sorted(s, x, key, dir).to_multiset() == s.to_multiset().insert(x),
    decreases s.len(),
{
    broadcast use vstd::seq_lib::group_to_multiset_ensures;

    if s.len() == 0 {
        assert(seq![x] =~= Seq::<IssueRow>::empty().push(x));
    } else if !row_le(s.last(), x, key, dir) {
        lemma_insert_sorted_multiset(s.drop_last(), x, key, dir);
        assert(s.drop_last().push(s.last()) =~= s);
        assert(s.drop_last().to_multiset().insert(x).insert(s.last()) =~= s.drop_last().to_multiset().insert(
            s.last(),
        ).insert(x));
    }
}

proof fn lemma_insert_sorted_sorted(s: Seq<IssueRow>, x: IssueRow, key: SortKey, dir: SortDir)
    requires
        in_list_order(s, key, dir),
    ensures
        in_list_order(insert_sorted(s, x, key, dir), key, dir),
    decreases s.len(),
{
    broadcast use vstd::seq_lib::group_to_multiset_ensures;

    if s.len() == 0 {
    } else if row_le(s.last(), x, key, dir) {
        let r = s.push(x);
        assert forall|i: int, j: int| 0 <= i < j < r.len() implies row_le(#[trigger] r[i], #[trigger] r[j], key, dir) by {
            if j == s.len() {
                if i < s.len() - 1 {
                    lemma_row_le_trans(s[i], s.last(), x, key, dir);
                }
            }
        }
    } else {
        let t = s.drop_last();
        assert(in_list_order(t, key, dir));
        lemma_insert_sorted_sorted(t, x, key, dir);
        lemma_insert_sorted_multiset(t, x, key, dir);
        lemma_row_le_total(s.last(), x, key, dir);
        let u = insert_sorted(t, x, key, dir);
        let r = u.push(s.last());
        assert forall|i: int, j: int| 0 <= i < j < r.len() implies row_le(#[trigger] r[i], #[trigger] r[j], key, dir) by {
            if j == u.len() {
                let e = u[i];
                assert(u.to_multiset().count(e) > 0);
                if e != x {
                    assert(t.to_multiset().count(e) > 0);
                    assert(t.contains(e));
                    let k = choose|k: int| 0 <= k < t.len() && t[k] == e;
                    assert(s[k] == e);
                }
            }
        }
    }
}

proof fn lemma_sorted_rows(s: Seq<IssueRow>, key: SortKey, dir: SortDir)
    ensures
        in_list_order(sorted_rows(s, key, dir), key, dir),
        sorted_rows(s, key, dir).to_multiset() == s.to_multiset(),
    decreases s.len(),
{
    broadcast use vstd::seq_lib::group_to_multiset_ensures;

    if s.len() > 0 {
        lemma_sorted_rows(s.drop_last(), key, dir);
        lemma_insert_sorted_sorted(sorted_rows(s.drop_last(), key, dir), s.last(), key, dir);
        lemma_insert_sorted_multiset(sorted_rows(s.drop_last(), key, dir), s.last(), key, dir);
        assert(s.drop_last().push(s.last()) =~= s);
    }
}

proof fn lemma_kept_rows_members(rs: Seq<IssueRow>, q: Seq<char>, show_open: bool, show_closed: bool)
    ensures
        forall|k: int|
            0 <= k < kept_rows(rs, q, show_open, show_closed).len() ==> {
                &&& row_kept(#[trigger] kept_rows(rs, q, show_open, show_closed)[k], q, show_open, show_closed)
                &&& rs.contains(kept_rows(rs, q, show_open, show_closed)[k])
            },
    decreases rs.len(),
{
    if rs.len() > 0 {
        lemma_kept_rows_members(rs.drop_last(), q, show_open, show_closed);
        let before = kept_rows(rs.drop_last(), q, show_open, show_closed);
        assert forall|k: int| 0 <= k < kept_rows(rs, q, show_open, show_closed).len() implies {
            &&& row_kept(#[trigger] kept_rows(rs, q, show_open, show_closed)[k], q, show_open, show_closed)
            &&& rs.contains(kept_rows(rs, q, show_open, show_closed)[k])
        } by {
            if k < before.len() {
                let e = before[k];
                assert(kept_rows(rs, q, show_open, show_closed)[k] == e);
                assert(rs.drop_last().contains(e));
                let j = choose|j: int| 0 <= j < rs.drop_last().len() && rs.drop_last()[j] == e;
                assert(rs[j] == e);
            } else {
                assert(rs[rs.len() - 1] == rs.last());
            }
        }
    }
}

/// The rows that `apply` returns stand in list order: by the chosen
/// timestamp in the chosen direction, then by ascending number.
pub proof fn lemma_apply_sorted(
    rows: Seq<IssueRow>,
    q: Seq<char>,
    show_open: bool,
    show_closed: bool,
    key: SortKey,
    dir: SortDir,
)
    ensures
        in_list_order(apply_spec(rows, q, show_open, show_closed, key, dir), key, dir),
{
    lemma_sorted_rows(kept_rows(rows, q, show_open, show_closed), key, dir);
}

/// `apply` neither loses nor repeats a row: it returns the rows that pass the
/// state flags and the query, each as often as it occurs in the input.
pub proof fn lemma_apply_permutation(
    rows: Seq<IssueRow>,
    q: Seq<char>,
    show_open: bool,
    show_closed: bool,
    key: SortKey,
    dir: SortDir,
)
    ensures
        apply_spec(rows, q, show_open, show_closed, key, dir).to_multiset() == kept_rows(
            rows,
            q,
            show_open,
            show_closed,
        ).to_multiset(),
{
    lemma_sorted_rows(kept_rows(rows, q, show_open, show_closed), key, dir);
}

/// Every row that `apply` returns is a row of the input that is in a state to
/// show and matches the query.
pub proof fn lemma_apply_rows_kept(
    rows: Seq<IssueRow>,
    q: Seq<char>,
    show_open: bool,
    show_closed: bool,
    key: SortKey,
    dir: SortDir,
)
    ensures
        forall|k: int|
            0 <= k < apply_spec(rows, q, show_open, show_closed, key, dir).len() ==> {
                &&& row_kept(#[trigger] apply_spec(rows, q, show_open, show_closed, key, dir)[k], q, show_open, show_closed)
                &&& rows.contains(apply_spec(rows, q, show_open, show_closed, key, dir)[k])
            },
{
    broadcast use vstd::seq_lib::group_to_multiset_ensures;

    let kept = kept_rows(rows, q, show_open, show_closed);
    let out = apply_spec(rows, q, show_open, show_closed, key, dir);
    lemma_sorted_rows(kept, key, dir);
    lemma_kept_rows_members(rows, q, show_open, show_closed);
    assert forall|k: int| 0 <= k < out.len() implies {
        &&& row_kept(#[trigger] out[k], q, show_open, show_closed)
        &&& rows.contains(out[k])
    } by {
        assert(out.to_multiset().count(out[k]) > 0);
        assert(kept.contains(out[k]));
        let j = choose|j: int| 0 <= j < kept.len() && kept[j] == out[k];
    }
}

/// The rows of `s`, in order, that tie with `c` in the list order: same
/// timestamp and same number.
pub open spec fn ties_with(s: Seq<IssueRow>, c: IssueRow, key: SortKey, dir: SortDir) -> Seq<IssueRow>
    decreases s.len(),
{
    if s.len() == 0 {
        seq![]
    } else {
        let before = ties_with(s.drop_last(), c, key, dir);
        if row_order(s.last(), c, key, dir) == 0 {
            before.push(s.last())
        } else {
            before
        }
    }
}

proof fn lemma_tie_transitive(a: IssueRow, b: IssueRow, c: IssueRow, key: SortKey, dir: SortDir)
    requires
        row_order(a, c, key, dir) == 0,
        row_order(b, c, key, dir) == 0,
    ensures
        row_order(a, b, key, dir) == 0,
{
    lemma_lex_antisym(sort_text(a, key), sort_text(c, key));
    lemma_lex_antisym(sort_text(b, key), sort_text(c, key));
    lemma_lex_antisym(sort_text(a, key), sort_text(b, key));
}

proof fn lemma_insert_sorted_ties(s: Seq<IssueRow>, x: IssueRow, c: IssueRow, key: SortKey, dir: SortDir)
    ensures
        ties_with(insert_sorted(s, x, key, dir), c, key, dir) == if row_order(x, c, key, dir) == 0 {
            ties_with(s, c, key, dir).push(x)
        } else {
            ties_with(s, c, key, dir)
        },
    decreases s.len(),
{
    if s.len() == 0 {
        let one = seq![x];
        assert(one.drop_last() =~= Seq::<IssueRow>::empty());
        assert(one.last() == x);
        assert(insert_sorted(s, x, key, dir) == one);
        assert(ties_with(s, c, key, dir) == Seq::<IssueRow>::empty());
        assert(ties_with(one.drop_last(), c, key, dir) == Seq::<IssueRow>::empty());
        assert(Seq::<IssueRow>::empty().push(x) =~= one);
    } else if row_le(s.last(), x, key, dir) {
        assert(s.push(x).drop_last() =~= s);
    } else {
        let dl = s.drop_last();
        lemma_insert_sorted_ties(dl, x, c, key, dir);
        let u = insert_sorted(dl, x, key, dir);
        assert(u.push(s.last()).drop_last() =~= u);
        if row_order(x, c, key, dir) == 0 && row_order(s.last(), c, key, dir) == 0 {
            lemma_tie_transitive(s.last(), x, c, key, dir);
        }
        assert(s.drop_last() == dl);
        assert(ties_with(u.push(s.last()), c, key, dir) == if row_order(s.last(), c, key, dir) == 0 {
            ties_with(u, c, key, dir).push(s.last())
        } else {
            ties_with(u, c, key, dir)
        });
    }
}

proof fn lemma_sorted_rows_ties(s: Seq<IssueRow>, c: IssueRow, key: SortKey, dir: SortDir)
    ensures
        ties_with(sorted_rows(s, key, dir), c, key, dir) == ties_with(s, c, key, dir),
    decreases s.len(),
{
    if s.len() > 0 {
        lemma_sorted_rows_ties(s.drop_last(), c, key, dir);
        lemma_insert_sorted_ties(sorted_rows(s.drop_last(), key, dir), s.last(), c, key, dir);
    }
}

/// The sort is stable: rows that tie in the list order (same timestamp and
/// number) come out in the order in which they came in.
pub proof fn lemma_apply_stable(
    rows: Seq<IssueRow>,
    q: Seq<char>,
    show_open: bool,
    show_closed: bool,
    key: SortKey,
    dir: SortDir,
    c: IssueRow,
)
    ensures
        ties_with(apply_spec(rows, q, show_open, show_closed, key, dir), c, key, dir) == ties_with(
            kept_rows(rows, q, show_open, show_closed),
            c,
            key,
            dir,
        ),
{
    lemma_sorted_rows_ties(kept_rows(rows, q, show_open, show_closed), c, key, dir);
}


proof fn lemma_drop_state_words_append(a: Seq<Seq<char>>, b: Seq<Seq<char>>)
    ensures
        drop_state_words(a + b) == drop_state_words(a) + drop_state_words(b),
    decreases b.len(),
{
    if b.len() == 0 {
        assert(a + b =~= a);
        assert(drop_state_words(a) + drop_state_words(b) =~= drop_state_words(a));
    } else {
        lemma_drop_state_words_append(a, b.drop_last());
        assert((a + b).drop_last() =~= a + b.drop_last());
        assert((a + b).last() == b.last());
        let before = drop_state_words(b.drop_last());
        assert((drop_state_words(a) + before).push(b.last()) =~= drop_state_words(a) + before.push(
            b.last(),
        ));
    }
}

/// The search terms of two queries joined by a space are the terms of the
/// first and then those of the second.
proof fn lemma_query_terms_join(q1: Seq<char>, q2: Seq<char>)
    ensures
        query_terms(q1 + seq![' '] + q2) == query_terms(q1) + query_terms(q2),
{
    crate::text::lemma_words_join(q1, q2);
    let f = |w: Seq<char>| ascii_lower(w);
    assert((words(q1) + words(q2)).map_values(f) =~= words(q1).map_values(f) + words(q2).map_values(
        f,
    ));
    lemma_drop_state_words_append(lowered_words(q1), lowered_words(q2));
}

/// Search terms are joined by "and": a row matches two queries joined by a
/// space exactly when it matches each of them.
pub proof fn lemma_query_join_is_and(row: IssueRow, q1: Seq<char>, q2: Seq<char>)
    ensures
        query_matches(row, q1 + seq![' '] + q2) == (query_matches(row, q1) && query_matches(
            row,
            q2,
        )),
{
    lemma_query_terms_join(q1, q2);
    let t1 = query_terms(q1);
    let t2 = query_terms(q2);
    let t = query_terms(q1 + seq![' '] + q2);
    if query_matches(row, q1) && query_matches(row, q2) {
        assert forall|i: int| 0 <= i < t.len() implies term_matches(row, #[trigger] t[i]) by {
            if i < t1.len() {
                assert(t[i] == t1[i]);
            } else {
                assert(t[i] == t2[i - t1.len()]);
            }
        }
    }
    if query_matches(row, q1 + seq![' '] + q2) {
        assert forall|i: int| 0 <= i < t1.len() implies term_matches(row, #[trigger] t1[i]) by {
            assert(t[i] == t1[i]);
        }
        assert forall|i: int| 0 <= i < t2.len() implies term_matches(row, #[trigger] t2[i]) by {
            assert(t[i + t1.len()] == t2[i]);
        }
    }
}

/// No two rows of `s` share the chosen timestamp.
pub open spec fn keys_distinct(s: Seq<IssueRow>, key: SortKey) -> bool {
    forall|i: int, j: int|
        0 <= i < s.len() && 0 <= j < s.len() && i != j ==> sort_text(#[trigger] s[i], key)
            != sort_text(#[trigger] s[j], key)
}

/// The chosen timestamps of `s` do not go down.
spec fn keys_ascending(s: Seq<IssueRow>, key: SortKey) -> bool {
    forall|i: int, j: int|
        0 <= i < j < s.len() ==> lex_order(sort_text(#[trigger] s[i], key), sort_text(#[trigger] s[j], key))
            <= 0
}

/// Distinct timestamps stay distinct when the rows are reordered.
proof fn lemma_keys_distinct_permutation(k: Seq<IssueRow>, s: Seq<IssueRow>, key: SortKey)
    requires
        keys_distinct(k, key),
        s.to_multiset() == k.to_multiset(),
    ensures
        keys_distinct(s, key),
{
    broadcast use vstd::seq_lib::group_to_multiset_ensures;

    assert(k.no_duplicates()) by {
        assert forall|i: int, j: int| 0 <= i < k.len() && 0 <= j < k.len() && i != j implies k[i]
            != k[j] by {
            assert(sort_text(k[i], key) != sort_text(k[j], key));
        }
    }
    k.lemma_multiset_has_no_duplicates();
    s.lemma_multiset_has_no_duplicates_conv();
    assert forall|i: int, j: int| 0 <= i < s.len() && 0 <= j < s.len() && i != j implies sort_text(
        #[trigger] s[i],
        key,
    ) != sort_text(#[trigger] s[j], key) by {
        assert(s.contains(s[i]));
        assert(s.contains(s[j]));
        assert(s.to_multiset().count(s[i]) > 0);
        assert(s.to_multiset().count(s[j]) > 0);
        assert(k.to_multiset().count(s[i]) > 0);
        assert(k.to_multiset().count(s[j]) > 0);
        assert(k.contains(s[i]));
        assert(k.contains(s[j]));
        let a = choose|a: int| 0 <= a < k.len() && k[a] == s[i];
        let b = choose|b: int| 0 <= b < k.len() && k[b] == s[j];
        assert(s[i] != s[j]);
    }
}

/// Two orderings of the same rows whose timestamps are distinct and do not go
/// down are the same sequence.
proof fn lemma_ascending_unique(s: Seq<IssueRow>, t: Seq<IssueRow>, key: SortKey)
    requires
        s.to_multiset() == t.to_multiset(),
        keys_ascending(s, key),
        keys_ascending(t, key),
        keys_distinct(s, key),
    ensures
        s == t,
    decreases s.len(),
{
    broadcast use vstd::seq_lib::group_to_multiset_ensures;
    broadcast use vstd::multiset::group_multiset_axioms;

    assert(s.to_multiset().len() == s.len());
    assert(t.to_multiset().len() == t.len());
    assert(t.len() == s.len());
    if s.len() == 0 {
        assert(s =~= t);
    } else {
        let n = s.len() as int;
        let a = s.last();
        let b = t.last();
        assert(s.contains(a)) by {
            assert(s[n - 1] == a);
        }
        assert(t.contains(b)) by {
            assert(t[n - 1] == b);
        }
        assert(s.to_multiset().count(a) > 0);
        assert(t.to_multiset().count(a) > 0);
        assert(t.to_multiset().count(b) > 0);
        assert(s.to_multiset().count(b) > 0);
        assert(t.contains(a));
        assert(s.contains(b));
        let j = choose|j: int| 0 <= j < t.len() && t[j] == a;
        let i = choose|i: int| 0 <= i < s.len() && s[i] == b;
        lemma_lex_antisym(sort_text(a, key), sort_text(b, key));
        if j < n - 1 {
            assert(lex_order(sort_text(t[j], key), sort_text(t[n - 1], key)) <= 0);
        }
        if i < n - 1 {
            assert(lex_order(sort_text(s[i], key), sort_text(s[n - 1], key)) <= 0);
        }
        assert(sort_text(a, key) == sort_text(b, key));
        assert(i == n - 1);
        assert(a == b);
        let s1 = s.drop_last();
        let t1 = t.drop_last();
        assert(s1.push(a) =~= s);
        assert(t1.push(a) =~= t);
        assert(s1.push(a).to_multiset() =~= s1.to_multiset().insert(a));
        assert(t1.push(a).to_multiset() =~= t1.to_multiset().insert(a));
        assert(s1.to_multiset() =~= t1.to_multiset()) by {
            assert forall|v: IssueRow| s1.to_multiset().count(v) == t1.to_multiset().count(v) by {
                assert(s.to_multiset().count(v) == t.to_multiset().count(v));
                assert(s1.to_multiset().insert(a).count(v) == t1.to_multiset().insert(a).count(v));
            }
        }
        assert(keys_ascending(s1, key));
        assert(keys_ascending(t1, key));
        assert(keys_distinct(s1, key));
        lemma_ascending_unique(s1, t1, key);
    }
}

/// When the rows that `apply` keeps have pairwise distinct timestamps (of the
/// chosen kind), the descending list is the ascending list reversed. (Rows
/// with equal timestamps stand by ascending number in both directions.)
pub proof fn lemma_apply_desc_reverses_asc(
    rows: Seq<IssueRow>,
    q: Seq<char>,
    show_open: bool,
    show_closed: bool,
    key: SortKey,
)
    requires
        keys_distinct(kept_rows(rows, q, show_open, show_closed), key),
    ensures
        apply_spec(rows, q, show_open, show_closed, key, SortDir::Desc) == apply_spec(
            rows,
            q,
            show_open,
            show_closed,
            key,
            SortDir::Asc,
        ).reverse(),
{
    let k = kept_rows(rows, q, show_open, show_closed);
    let a = sorted_rows(k, key, SortDir::Asc);
    let d = sorted_rows(k, key, SortDir::Desc);
    let r = d.reverse();
    lemma_sorted_rows(k, key, SortDir::Asc);
    lemma_sorted_rows(k, key, SortDir::Desc);
    d.lemma_reverse_to_multiset();
    assert forall|i: int, j: int| 0 <= i < j < a.len() implies lex_order(
        sort_text(#[trigger] a[i], key),
        sort_text(#[trigger] a[j], key),
    ) <= 0 by {
        assert(row_le(a[i], a[j], key, SortDir::Asc));
    }
    assert forall|i: int, j: int| 0 <= i < j < r.len() implies lex_order(
        sort_text(#[trigger] r[i], key),
        sort_text(#[trigger] r[j], key),
    ) <= 0 by {
        let n = d.len() as int;
        assert(r[i] == d[n - 1 - i]);
        assert(r[j] == d[n - 1 - j]);
        assert(row_le(d[n - 1 - j], d[n - 1 - i], key, SortDir::Desc));
        lemma_lex_antisym(sort_text(r[i], key), sort_text(r[j], key));
    }
    lemma_keys_distinct_permutation(k, a, key);
    lemma_ascending_unique(a, r, key);
    assert(r.reverse() =~= d);
}

} // verus!
