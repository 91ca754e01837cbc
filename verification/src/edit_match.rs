//! Locating a SEARCH block in a file when it does not occur exactly: after
//! collapsing whitespace, then line by line by edit distance.

use vstd::prelude::*;

use crate::edit::{compute_byte_range, find_first, first_from, norm_total, orig_total, range_walk};
use crate::text::{chars_of, join_seq, join_strings, lines_of, lines_seq, string_from_chars, views, words_of, words_seq};

verus! {

/// A line with its whitespace collapsed: its whitespace-separated words
/// joined by single spaces.
pub open spec fn collapse_line(l: Seq<char>) -> Seq<char> {
    join_seq(words_seq(l), " "@)
}

/// The lines of `s` (as `str::lines` yields them), each collapsed.
pub open spec fn normalized_lines(s: Seq<char>) -> Seq<Seq<char>> {
    lines_seq(s).map_values(|l: Seq<char>| collapse_line(l))
}

/// `s` with its whitespace normalized line by line: each line collapsed,
/// the lines joined by newlines.
pub open spec fn spec_normalize_whitespace(s: Seq<char>) -> Seq<char> {
    join_seq(normalized_lines(s), "\n"@)
}

/// Collapses the whitespace of one line.
pub fn collapse_line_exec(cs: &[char]) -> (r: Vec<char>)
    ensures
        r@ == collapse_line(cs@),
{
    let words = words_of(cs);
    let mut parts: Vec<String> = Vec::new();
    let mut i: usize = 0;
    while i < words.len()
        invariant
            i <= words@.len(),
            words@.len() == words_seq(cs@).len(),
            forall|k: int| 0 <= k < words@.len() ==> #[trigger] words@[k]@ == words_seq(cs@)[k],
            views(parts@) == words_seq(cs@).take(i as int),
        decreases words.len() - i,
    {
        let ghost before = parts@;
        let w = string_from_chars(words[i].as_slice());
        parts.push(w);
        proof {
            assert(views(parts@) =~= views(before).push(w@));
            assert(words_seq(cs@).take(i + 1) =~= words_seq(cs@).take(i as int).push(words_seq(cs@)[i as int]));
        }
        i = i + 1;
    }
    proof {
        assert(words_seq(cs@).take(i as int) =~= words_seq(cs@));
    }
    let joined = join_strings(parts.as_slice(), " ");
    chars_of(joined.as_str())
}

/// The lines of `cs`, each collapsed.
pub fn normalized_lines_exec(cs: &[char]) -> (r: Vec<String>)
    ensures
        views(r@) == normalized_lines(cs@),
{
    let ls = lines_of(cs);
    let mut out: Vec<String> = Vec::new();
    let mut i: usize = 0;
    while i < ls.len()
        invariant
            i <= ls@.len(),
            ls@.len() == lines_seq(cs@).len(),
            forall|k: int| 0 <= k < ls@.len() ==> #[trigger] ls@[k]@ == lines_seq(cs@)[k],
            views(out@) == normalized_lines(cs@).take(i as int),
        decreases ls.len() - i,
    {
        let ghost before = out@;
        let c = collapse_line_exec(ls[i].as_slice());
        let s = string_from_chars(c.as_slice());
        out.push(s);
        proof {
            assert(views(out@) =~= views(before).push(s@));
            assert(normalized_lines(cs@).take(i + 1) =~= normalized_lines(cs@).take(i as int).push(
                normalized_lines(cs@)[i as int],
            ));
        }
        i = i + 1;
    }
    proof {
        assert(normalized_lines(cs@).take(i as int) =~= normalized_lines(cs@));
    }
    out
}

/// `cs` with its whitespace normalized line by line.
pub fn normalize_whitespace(cs: &[char]) -> (r: Vec<char>)
    ensures
        r@ == spec_normalize_whitespace(cs@),
{
    let ls = normalized_lines_exec(cs);
    let joined = join_strings(ls.as_slice(), "\n");
    chars_of(joined.as_str())
}

/// The smallest of three numbers.
pub open spec fn min3(x: nat, y: nat, z: nat) -> nat {
    if x <= y && x <= z {
        x
    } else if y <= z {
        y
    } else {
        z
    }
}

/// The edit distance of `a` and `b`: the fewest insertions, deletions and
/// substitutions of characters that turn one into the other.
pub open spec fn lev(a: Seq<char>, b: Seq<char>) -> nat
    decreases a.len() + b.len(),
{
    if a.len() == 0 {
        b.len()
    } else if b.len() == 0 {
        a.len()
    } else {
        min3(
            lev(a.drop_last(), b) + 1,
            lev(a, b.drop_last()) + 1,
            lev(a.drop_last(), b.drop_last()) + if a.last() == b.last() {
                0nat
            } else {
                1nat
            },
        )
    }
}

/// The edit distance is at most the longer length.
pub proof fn lemma_lev_bound(a: Seq<char>, b: Seq<char>)
    ensures
        lev(a, b) <= if a.len() >= b.len() {
            a.len()
        } else {
            b.len()
        },
    decreases a.len() + b.len(),
{
    if a.len() > 0 && b.len() > 0 {
        lemma_lev_bound(a.drop_last(), b.drop_last());
    }
}

/// The edit distance of `a` and `b`, row by row.
pub fn levenshtein(a: &[char], b: &[char]) -> (r: usize)
    ensures
        r == lev(a@, b@),
{
    let m = b.len();
    let mut prev: Vec<u128> = Vec::new();
    prev.push(0);
    let mut j: usize = 0;
    proof {
        assert(b@.take(0) =~= Seq::<char>::empty());
    }
    while j < m
        invariant
            m == b@.len(),
            j <= m,
            prev@.len() == j + 1,
            forall|k: int| 0 <= k <= j ==> #[trigger] prev@[k] == lev(Seq::<char>::empty(), b@.take(k)),
        decreases m - j,
    {
        j = j + 1;
        prev.push(j as u128);
    }
    let mut i: usize = 0;
    proof {
        assert(a@.take(0) =~= Seq::<char>::empty());
    }
    while i < a.len()
        invariant
            m == b@.len(),
            i <= a@.len(),
            prev@.len() == m + 1,
            forall|k: int| 0 <= k <= m ==> #[trigger] prev@[k] == lev(a@.take(i as int), b@.take(k)),
        decreases a.len() - i,
    {
        let ghost ai = a@.take(i as int);
        let ghost ai1 = a@.take(i + 1);
        proof {
            assert(ai1.drop_last() =~= ai);
            assert(ai1.last() == a@[i as int]);
            assert(b@.take(0) =~= Seq::<char>::empty());
        }
        let mut cur: Vec<u128> = Vec::new();
        cur.push((i as u128) + 1);
        let mut k: usize = 0;
        while k < m
            invariant
                m == b@.len(),
                i < a@.len(),
                ai == a@.take(i as int),
                ai1 == a@.take(i + 1),
                ai1.drop_last() == ai,
                ai1.last() == a@[i as int],
                k <= m,
                prev@.len() == m + 1,
                cur@.len() == k + 1,
                forall|q: int| 0 <= q <= m ==> #[trigger] prev@[q] == lev(ai, b@.take(q)),
                forall|q: int| 0 <= q <= k ==> #[trigger] cur@[q] == lev(ai1, b@.take(q)),
            decreases m - k,
        {
            k = k + 1;
            proof {
                let bk = b@.take(k as int);
                assert(bk.drop_last() =~= b@.take(k - 1));
                assert(bk.last() == b@[k - 1]);
                lemma_lev_bound(ai, bk);
                lemma_lev_bound(ai1, b@.take(k - 1));
                lemma_lev_bound(ai, b@.take(k - 1));
            }
            let del = prev[k] + 1;
            let ins = cur[k - 1] + 1;
            let sub = prev[k - 1] + if a[i] == b[k - 1] {
                0
            } else {
                1
            };
            let best = if del <= ins && del <= sub {
                del
            } else if ins <= sub {
                ins
            } else {
                sub
            };
            cur.push(best);
        }
        prev = cur;
        i = i + 1;
    }
    proof {
        assert(a@.take(a@.len() as int) =~= a@);
        assert(b@.take(m as int) =~= b@);
        lemma_lev_bound(a@, b@);
    }
    prev[m] as usize
}


/// How alike two texts are, as a fraction `(num, den)`: one less the edit
/// distance over the longer length, and whole for two empty texts.
pub open spec fn similarity(a: Seq<char>, b: Seq<char>) -> (int, int) {
    let m = if a.len() >= b.len() {
        a.len() as int
    } else {
        b.len() as int
    };
    if m == 0 {
        (1, 1)
    } else {
        (m - lev(a, b), m)
    }
}

/// How alike two texts are.
pub fn similarity_exec(a: &[char], b: &[char]) -> (r: (usize, usize))
    ensures
        (r.0 as int, r.1 as int) == similarity(a@, b@),
        r.1 > 0,
        r.0 <= r.1,
{
    let m = if a.len() >= b.len() {
        a.len()
    } else {
        b.len()
    };
    if m == 0 {
        (1, 1)
    } else {
        let d = levenshtein(a, b);
        proof {
            lemma_lev_bound(a@, b@);
        }
        (m - d, m)
    }
}

/// The `n` normalized lines from `s`, joined by newlines.
pub open spec fn window_text(lines: Seq<Seq<char>>, s: int, n: int) -> Seq<char> {
    join_seq(lines.subrange(s, s + n), "\n"@)
}

/// The most alike window of `n` lines, from window `s` on, given the best
/// so far `(bn / bd, at bs)`: a window replaces the best only when strictly
/// more alike, and a window at least 99.9% alike ends the search.
pub open spec fn best_window(
    search: Seq<char>,
    lines: Seq<Seq<char>>,
    n: int,
    s: int,
    bn: int,
    bd: int,
    bs: int,
) -> (int, int, int)
    decreases lines.len() - s,
{
    if s < 0 || n <= 0 || s + n > lines.len() {
        (bn, bd, bs)
    } else {
        let (num, den) = similarity(search, window_text(lines, s, n));
        let better = num * bd > bn * den;
        let nn = if better { num } else { bn };
        let nd = if better { den } else { bd };
        let ns = if better { s } else { bs };
        if 1000 * num >= 999 * den {
            (nn, nd, ns)
        } else {
            best_window(search, lines, n, s + 1, nn, nd, ns)
        }
    }
}

/// The best window found starts where `n` lines still fit.
proof fn lemma_best_window_fits(
    search: Seq<char>,
    lines: Seq<Seq<char>>,
    n: int,
    s: int,
    bn: int,
    bd: int,
    bs: int,
)
    requires
        0 <= bs,
        bs + n <= lines.len(),
    ensures
        0 <= best_window(search, lines, n, s, bn, bd, bs).2,
        best_window(search, lines, n, s, bn, bd, bs).2 + n <= lines.len(),
    decreases lines.len() - s,
{
    if s < 0 || n <= 0 || s + n > lines.len() {
    } else {
        let (num, den) = similarity(search, window_text(lines, s, n));
        let better = num * bd > bn * den;
        let nn = if better { num } else { bn };
        let nd = if better { den } else { bd };
        let ns = if better { s } else { bs };
        if 1000 * num < 999 * den {
            lemma_best_window_fits(search, lines, n, s + 1, nn, nd, ns);
        }
    }
}

/// The product of two machine words fits in 128 bits.
proof fn lemma_product_fits(x: usize, y: usize)
    ensures
        (x as int) * (y as int) <= u128::MAX,
{
    assert(usize::MAX <= 0xffff_ffff_ffff_ffff);
    assert((x as int) * (y as int) <= 0xffff_ffff_ffff_ffff * 0xffff_ffff_ffff_ffff) by (nonlinear_arith)
        requires
            0 <= x <= 0xffff_ffff_ffff_ffff,
            0 <= y <= 0xffff_ffff_ffff_ffff,
    ;
}

/// The most alike window of `n` lines of `lines` to `search`.
fn best_window_exec(search: &[char], lines: &[String], n: usize) -> (r: (usize, usize, usize))
    requires
        1 <= n <= lines@.len(),
    ensures
        (r.0 as int, r.1 as int, r.2 as int) == best_window(search@, views(lines@), n as int, 0, 0, 1, 0),
        r.1 > 0,
        r.2 + n <= lines@.len(),
{
    let ghost ls = views(lines@);
    proof {
        lemma_best_window_fits(search@, ls, n as int, 0, 0, 1, 0);
    }
    let len = lines.len();
    let last = len - n;
    let mut bn: usize = 0;
    let mut bd: usize = 1;
    let mut bs: usize = 0;
    let mut s: usize = 0;
    while s <= last
        invariant
            len == lines@.len(),
            last + n == len,
            1 <= n,
            ls == views(lines@),
            s <= last + 1,
            bd > 0,
            bs + n <= len,
            best_window(search@, ls, n as int, 0, 0, 1, 0) == best_window(
                search@,
                ls,
                n as int,
                s as int,
                bn as int,
                bd as int,
                bs as int,
            ),
        decreases last + 1 - s,
    {
        let part = vstd::slice::slice_subrange(lines, s, s + n);
        assert(views(part@) =~= ls.subrange(s as int, s + n));
        let w = join_strings(part, "\n");
        let wc = chars_of(w.as_str());
        let (num, den) = similarity_exec(search, wc.as_slice());
        proof {
            lemma_product_fits(num, bd);
            lemma_product_fits(bn, den);
        }
        let better = (num as u128) * (bd as u128) > (bn as u128) * (den as u128);
        if better {
            bn = num;
            bd = den;
            bs = s;
        }
        if 1000 * (num as u128) >= 999 * (den as u128) {
            return (bn, bd, bs);
        }
        s = s + 1;
    }
    (bn, bd, bs)
}

/// The length of lines laid end to end, each with its newline.
pub open spec fn span_len(ls: Seq<Seq<char>>) -> int
    decreases ls.len(),
{
    if ls.len() == 0 {
        0
    } else {
        span_len(ls.drop_last()) + ls.last().len() + 1
    }
}

/// Each line's length and the length of its collapsed form.
pub open spec fn line_lengths(content: Seq<char>) -> Seq<(usize, usize)> {
    lines_seq(content).map_values(|l: Seq<char>| (l.len() as usize, collapse_line(l).len() as usize))
}

/// Where a SEARCH block matches, as plain values.
pub enum SpecMatch {
    /// It occurs exactly, first at this position.
    Exact(int),
    /// It occurs once whitespace is normalized, over this range.
    Normalized(int, int),
    /// A window of lines is alike enough to apply over this range, with
    /// this similarity.
    FuzzyApply(int, int, int, int),
    /// The closest window, starting on this line (counted from one), with
    /// this similarity and the first lines of the search text.
    FuzzySuggest(int, int, int, Seq<char>),
    NotFound,
}

/// The most alike window, when the content has at least as many lines as
/// the search text: applied at 85% similarity or more, suggested at 60% or
/// more; otherwise not found.
pub open spec fn fuzzy_match(content: Seq<char>, search: Seq<char>) -> SpecMatch {
    let sl = lines_seq(search);
    let cl = lines_seq(content);
    if sl.len() == 0 || cl.len() < sl.len() {
        SpecMatch::NotFound
    } else {
        let (num, den, bs) = best_window(
            spec_normalize_whitespace(search),
            normalized_lines(content),
            sl.len() as int,
            0,
            0,
            1,
            0,
        );
        if 20 * num >= 17 * den {
            let st = span_len(cl.take(bs));
            let en = span_len(cl.take(bs + sl.len())) - 1;
            if en <= usize::MAX {
                SpecMatch::FuzzyApply(st, en, num, den)
            } else {
                SpecMatch::NotFound
            }
        } else if 5 * num >= 3 * den {
            SpecMatch::FuzzySuggest(
                bs + 1,
                num,
                den,
                join_seq(sl.take(if sl.len() < 3 { sl.len() as int } else { 3 }), "\n"@),
            )
        } else {
            SpecMatch::NotFound
        }
    }
}

/// Where a SEARCH block matches `content`: exactly, at its first
/// occurrence; else, once whitespace is normalized line by line, over the
/// lines the normalized occurrence comes from; else by the most alike
/// window of lines.
pub open spec fn spec_find_best_match(content: Seq<char>, search: Seq<char>) -> SpecMatch {
    match first_from(content, search, 0) {
        Some(p) => SpecMatch::Exact(p),
        None => {
            let cn = spec_normalize_whitespace(content);
            let sn = spec_normalize_whitespace(search);
            match first_from(cn, sn, 0) {
                Some(np) => {
                    let ll = line_lengths(content);
                    if orig_total(ll) <= usize::MAX && norm_total(ll) <= usize::MAX {
                        let (a, b) = range_walk(
                            ll,
                            0,
                            np,
                            if np + sn.len() <= cn.len() {
                                np + sn.len()
                            } else {
                                cn.len() as int
                            },
                            false,
                            0,
                            0,
                            0,
                            content.len() as int,
                        );
                        SpecMatch::Normalized(a, b)
                    } else {
                        SpecMatch::NotFound
                    }
                },
                None => fuzzy_match(content, search),
            }
        },
    }
}

/// Where a SEARCH block matches.
#[derive(Debug, Clone)]
pub enum MatchResult {
    Exact(usize),
    Normalized(usize, usize),
    FuzzyApply(usize, usize, usize, usize),
    FuzzySuggest(usize, usize, usize, String),
    NotFound,
}

/// A match as plain values.
pub open spec fn match_view(m: MatchResult) -> SpecMatch {
    match m {
        MatchResult::Exact(p) => SpecMatch::Exact(p as int),
        MatchResult::Normalized(a, b) => SpecMatch::Normalized(a as int, b as int),
        MatchResult::FuzzyApply(a, b, n, d) => SpecMatch::FuzzyApply(a as int, b as int, n as int, d as int),
        MatchResult::FuzzySuggest(l, n, d, p) => SpecMatch::FuzzySuggest(l as int, n as int, d as int, p@),
        MatchResult::NotFound => SpecMatch::NotFound,
    }
}

/// Each line's length and collapsed length, with their totals (each line
/// counted with its newline).
fn line_lengths_exec(content: &[char]) -> (r: (Vec<(usize, usize)>, u128, u128))
    ensures
        r.0@ == line_lengths(content@),
        r.1 as int == orig_total(r.0@),
        r.2 as int == norm_total(r.0@),
{
    let ls = lines_of(content);
    let ghost spec_ls = line_lengths(content@);
    let mut out: Vec<(usize, usize)> = Vec::new();
    let mut ot: u128 = 0;
    let mut nt: u128 = 0;
    let mut i: usize = 0;
    proof {
        assert(spec_ls.take(0) =~= Seq::<(usize, usize)>::empty());
    }
    while i < ls.len()
        invariant
            i <= ls@.len(),
            ls@.len() == lines_seq(content@).len(),
            spec_ls == line_lengths(content@),
            forall|k: int| 0 <= k < ls@.len() ==> #[trigger] ls@[k]@ == lines_seq(content@)[k],
            out@ == spec_ls.take(i as int),
            ot as int == orig_total(out@),
            nt as int == norm_total(out@),
            ot <= (i as int) * 0x1_0000_0000_0000_0000,
            nt <= (i as int) * 0x1_0000_0000_0000_0000,
        decreases ls.len() - i,
    {
        let c = collapse_line_exec(ls[i].as_slice());
        let pair = (ls[i].len(), c.len());
        assert(pair == spec_ls[i as int]);
        proof {
            assert(spec_ls.take(i + 1) =~= spec_ls.take(i as int).push(spec_ls[i as int]));
            assert(spec_ls.take(i + 1).drop_last() =~= spec_ls.take(i as int));
            assert(usize::MAX <= 0xffff_ffff_ffff_ffff);
            assert((i as int) * 0x1_0000_0000_0000_0000 + 0x1_0000_0000_0000_0000 <= u128::MAX) by (nonlinear_arith)
                requires
                    i < usize::MAX,
                    usize::MAX <= 0xffff_ffff_ffff_ffff,
            ;
            assert(((i + 1) as int) * 0x1_0000_0000_0000_0000 == (i as int) * 0x1_0000_0000_0000_0000
                + 0x1_0000_0000_0000_0000) by (nonlinear_arith);
        }
        ot = ot + (pair.0 as u128) + 1;
        nt = nt + (pair.1 as u128) + 1;
        out.push(pair);
        i = i + 1;
    }
    proof {
        assert(spec_ls.take(i as int) =~= spec_ls);
    }
    (out, ot, nt)
}

/// The spans of the first `k` lines, for every `k` up to `upto`, laid end
/// to end: the span before line `at` and the span through line `upto - 1`.
fn spans(content: &[char], at: usize, upto: usize) -> (r: (u128, u128))
    requires
        at < upto <= lines_seq(content@).len(),
    ensures
        r.0 as int == span_len(lines_seq(content@).take(at as int)),
        r.1 as int == span_len(lines_seq(content@).take(upto as int)),
        r.0 < r.1,
{
    let ls = lines_of(content);
    let ghost all = lines_seq(content@);
    let mut sum: u128 = 0;
    let mut before: u128 = 0;
    let mut i: usize = 0;
    proof {
        assert(all.take(0) =~= Seq::<Seq<char>>::empty());
    }
    while i < upto
        invariant
            at < upto <= all.len(),
            all == lines_seq(content@),
            ls@.len() == all.len(),
            forall|k: int| 0 <= k < ls@.len() ==> #[trigger] ls@[k]@ == all[k],
            i <= upto,
            sum as int == span_len(all.take(i as int)),
            sum <= (i as int) * 0x1_0000_0000_0000_0000,
            i > at ==> before as int == span_len(all.take(at as int)) && before < sum,
        decreases upto - i,
    {
        if i == at {
            before = sum;
        }
        proof {
            assert(all.take(i + 1).drop_last() =~= all.take(i as int));
            assert(usize::MAX <= 0xffff_ffff_ffff_ffff);
            assert((i as int) * 0x1_0000_0000_0000_0000 + 0x1_0000_0000_0000_0000 <= u128::MAX) by (nonlinear_arith)
                requires
                    i < usize::MAX,
                    usize::MAX <= 0xffff_ffff_ffff_ffff,
            ;
            assert(((i + 1) as int) * 0x1_0000_0000_0000_0000 == (i as int) * 0x1_0000_0000_0000_0000
                + 0x1_0000_0000_0000_0000) by (nonlinear_arith);
        }
        sum = sum + (ls[i].len() as u128) + 1;
        i = i + 1;
    }
    (before, sum)
}

/// Where a SEARCH block matches `content`: exactly; else after normalizing
/// whitespace; else by the most alike window of lines.
pub fn find_best_match(content: &[char], search: &[char]) -> (r: MatchResult)
    ensures
        match_view(r) == spec_find_best_match(content@, search@),
{
    if let Some(p) = find_first(content, search) {
        return MatchResult::Exact(p);
    }
    let cn = normalize_whitespace(content);
    let sn = normalize_whitespace(search);
    if let Some(np) = find_first(cn.as_slice(), sn.as_slice()) {
        let (ll, ot, nt) = line_lengths_exec(content);
        if ot <= usize::MAX as u128 && nt <= usize::MAX as u128 {
            let (a, b) = compute_byte_range(ll.as_slice(), content.len(), cn.len(), np, sn.len());
            return MatchResult::Normalized(a, b);
        } else {
            return MatchResult::NotFound;
        }
    }
    let sl = lines_of(search);
    let cl = lines_of(content);
    if sl.len() == 0 || cl.len() < sl.len() {
        return MatchResult::NotFound;
    }
    let ncl = normalized_lines_exec(content);
    let (num, den, bs) = best_window_exec(sn.as_slice(), ncl.as_slice(), sl.len());
    if 20 * (num as u128) >= 17 * (den as u128) {
        let (st, en1) = spans(content, bs, bs + sl.len());
        if en1 - 1 <= usize::MAX as u128 {
            MatchResult::FuzzyApply(st as usize, (en1 - 1) as usize, num, den)
        } else {
            MatchResult::NotFound
        }
    } else if 5 * (num as u128) >= 3 * (den as u128) {
        let k: usize = if sl.len() < 3 {
            sl.len()
        } else {
            3
        };
        let mut first: Vec<String> = Vec::new();
        let mut i: usize = 0;
        while i < k
            invariant
                k <= sl@.len(),
                sl@.len() == lines_seq(search@).len(),
                forall|q: int| 0 <= q < sl@.len() ==> #[trigger] sl@[q]@ == lines_seq(search@)[q],
                i <= k,
                views(first@) == lines_seq(search@).take(i as int),
            decreases k - i,
        {
            let ghost before = first@;
            let l = string_from_chars(sl[i].as_slice());
            first.push(l);
            proof {
                assert(views(first@) =~= views(before).push(l@));
                assert(lines_seq(search@).take(i + 1) =~= lines_seq(search@).take(i as int).push(
                    lines_seq(search@)[i as int],
                ));
            }
            i = i + 1;
        }
        let preview = join_strings(first.as_slice(), "\n");
        MatchResult::FuzzySuggest(bs + 1, num, den, preview)
    } else {
        MatchResult::NotFound
    }
}

/// The best similarity found is a fraction between nothing and whole.
proof fn lemma_best_window_fraction(
    search: Seq<char>,
    lines: Seq<Seq<char>>,
    n: int,
    s: int,
    bn: int,
    bd: int,
    bs: int,
)
    requires
        0 <= bn <= bd,
        bd > 0,
    ensures
        0 <= best_window(search, lines, n, s, bn, bd, bs).0 <= best_window(search, lines, n, s, bn, bd, bs).1,
        best_window(search, lines, n, s, bn, bd, bs).1 > 0,
    decreases lines.len() - s,
{
    if s < 0 || n <= 0 || s + n > lines.len() {
    } else {
        let w = window_text(lines, s, n);
        lemma_lev_bound(search, w);
        let (num, den) = similarity(search, w);
        let better = num * bd > bn * den;
        let nn = if better { num } else { bn };
        let nd = if better { den } else { bd };
        let ns = if better { s } else { bs };
        if 1000 * num < 999 * den {
            lemma_best_window_fraction(search, lines, n, s + 1, nn, nd, ns);
        }
    }
}

/// A fuzzy match's similarity is a fraction between nothing and whole.
pub proof fn lemma_fuzzy_fraction(content: Seq<char>, search: Seq<char>)
    ensures
        match spec_find_best_match(content, search) {
            SpecMatch::FuzzyApply(_, _, n, d) => 0 <= n <= d && d > 0,
            SpecMatch::FuzzySuggest(_, n, d, _) => 0 <= n <= d && d > 0,
            _ => true,
        },
{
    lemma_best_window_fraction(
        spec_normalize_whitespace(search),
        normalized_lines(content),
        lines_seq(search).len() as int,
        0,
        0,
        1,
        0,
    );
}

/// The span of the first `s + n` lines is that of the first `s` and that of
/// the `n` after them.
proof fn lemma_span_split(ls: Seq<Seq<char>>, s: int, n: int)
    requires
        0 <= s,
        0 <= n,
        s + n <= ls.len(),
    ensures
        span_len(ls.take(s + n)) == span_len(ls.take(s)) + span_len(ls.subrange(s, s + n)),
    decreases n,
{
    if n == 0 {
        assert(ls.subrange(s, s) =~= Seq::<Seq<char>>::empty());
    } else {
        lemma_span_split(ls, s, n - 1);
        assert(ls.take(s + n).drop_last() =~= ls.take(s + n - 1));
        assert(ls.subrange(s, s + n).drop_last() =~= ls.subrange(s, s + n - 1));
        assert(ls.take(s + n).last() == ls[s + n - 1]);
        assert(ls.subrange(s, s + n).last() == ls[s + n - 1]);
    }
}

/// A fuzzy match covers as many whole lines of the content as the search
/// text has: it starts where some line `s` starts, and runs over lines `s`
/// to `s + n - 1` with the newlines between them (but not the last one),
/// `n` being the number of lines of the search text.
pub proof fn lemma_fuzzy_covers_whole_lines(content: Seq<char>, search: Seq<char>)
    ensures
        spec_find_best_match(content, search) matches SpecMatch::FuzzyApply(a, b, _, _) ==> exists|s: int|
            0 <= s && s + lines_seq(search).len() <= lines_seq(content).len() && a == span_len(
                #[trigger] lines_seq(content).take(s),
            ) && b + 1 == a + span_len(lines_seq(content).subrange(s, s + lines_seq(search).len())),
{
    let sl = lines_seq(search);
    let cl = lines_seq(content);
    if spec_find_best_match(content, search) is FuzzyApply {
        if first_from(content, search, 0) is None && first_from(
            spec_normalize_whitespace(content),
            spec_normalize_whitespace(search),
            0,
        ) is None {
            let n = sl.len() as int;
            lemma_best_window_fits(spec_normalize_whitespace(search), normalized_lines(content), n, 0, 0, 1, 0);
            let bs = best_window(spec_normalize_whitespace(search), normalized_lines(content), n, 0, 0, 1, 0).2;
            assert(normalized_lines(content).len() == cl.len());
            lemma_span_split(cl, bs, n);
            assert(cl.take(bs) == cl.take(bs));
        }
    }
}

/// A fuzzy match is applied only at 85% similarity or more, and only
/// suggested at 60% or more but under 85%; the similarity is a fraction of
/// at most one.
pub proof fn lemma_fuzzy_thresholds(content: Seq<char>, search: Seq<char>)
    ensures
        spec_find_best_match(content, search) matches SpecMatch::FuzzyApply(_, _, n, d) ==> 20 * n >= 17 * d
            && 0 <= n <= d && d > 0,
        spec_find_best_match(content, search) matches SpecMatch::FuzzySuggest(_, n, d, _) ==> 5 * n >= 3 * d
            && 20 * n < 17 * d && 0 <= n <= d && d > 0,
{
    lemma_fuzzy_fraction(content, search);
}

} // verus!
