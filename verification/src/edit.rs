//! The edit tool: aider-style SEARCH/REPLACE blocks, located in the file by
//! exact match (or, failing that, after normalizing whitespace or by a
//! fuzzy match) and applied last to first.

use vstd::prelude::*;

use crate::text::{
    chars_equal, chars_of, join_seq, join_strings, lines_of, lines_seq, push_str, string_from_chars,
    trim_chars, trim_seq, views,
};

verus! {

/// One SEARCH/REPLACE block: the text to find and the text to put in its
/// place.
#[derive(Debug, Clone)]
pub struct EditBlock {
    pub search: String,
    pub replace: String,
}

/// Why the blocks of an edit could not be read.
#[derive(Debug, Clone, Copy, PartialEq, Eq, Structural)]
pub enum ParseError {
    /// A SEARCH marker inside a block that was not closed.
    Nested,
    /// The block with this number (counting from 1) has no search text.
    EmptySearch(usize),
    /// No complete block at all.
    NoBlocks,
}

/// The marker that opens a block.
pub open spec fn search_marker() -> Seq<char> {
    "<<<<<<< SEARCH"@
}

/// The marker between the search and the replacement text.
pub open spec fn divider_marker() -> Seq<char> {
    "======="@
}

/// The marker that closes a block.
pub open spec fn replace_marker() -> Seq<char> {
    ">>>>>>> REPLACE"@
}

/// Where a left-to-right scan of the lines stands: the blocks finished so
/// far, the phase (0 outside a block, 1 in its search part, 2 in its
/// replacement part), and the lines gathered for the open block.
pub struct ScanState {
    pub blocks: Seq<(Seq<char>, Seq<char>)>,
    pub phase: nat,
    pub search: Seq<Seq<char>>,
    pub replace: Seq<Seq<char>>,
}

/// The scan after one more line. A line is a marker when it is one once
/// trimmed; the divider counts only in the search part and the closing
/// marker only in the replacement part. Other lines are kept as they are in
/// the part they fall in, and ignored outside a block.
pub open spec fn scan_line(st: ScanState, line: Seq<char>) -> Result<ScanState, ParseError> {
    let t = trim_seq(line);
    if t == search_marker() {
        if st.phase != 0 {
            Err(ParseError::Nested)
        } else {
            Ok(ScanState { blocks: st.blocks, phase: 1, search: seq![], replace: seq![] })
        }
    } else if t == divider_marker() && st.phase == 1 {
        Ok(ScanState { phase: 2, ..st })
    } else if t == replace_marker() && st.phase == 2 {
        let search = join_seq(st.search, "\n"@);
        if search.len() == 0 {
            Err(ParseError::EmptySearch((st.blocks.len() + 1) as usize))
        } else {
            Ok(
                ScanState {
                    blocks: st.blocks.push((search, join_seq(st.replace, "\n"@))),
                    phase: 0,
                    search: st.search,
                    replace: st.replace,
                },
            )
        }
    } else if st.phase == 1 {
        Ok(ScanState { search: st.search.push(line), ..st })
    } else if st.phase == 2 {
        Ok(ScanState { replace: st.replace.push(line), ..st })
    } else {
        Ok(st)
    }
}

/// The scan over all of `lines`, stopping at the first error.
pub open spec fn scan_lines(lines: Seq<Seq<char>>) -> Result<ScanState, ParseError>
    decreases lines.len(),
{
    if lines.len() == 0 {
        Ok(ScanState { blocks: seq![], phase: 0, search: seq![], replace: seq![] })
    } else {
        match scan_lines(lines.drop_last()) {
            Ok(st) => scan_line(st, lines.last()),
            Err(e) => Err(e),
        }
    }
}

/// Once the scan fails on a prefix, it fails the same way on the whole.
proof fn lemma_scan_error_sticks(lines: Seq<Seq<char>>, j: int, e: ParseError)
    requires
        0 <= j <= lines.len(),
        scan_lines(lines.take(j)) == Err::<ScanState, ParseError>(e),
    ensures
        scan_lines(lines) == Err::<ScanState, ParseError>(e),
    decreases lines.len() - j,
{
    if j == lines.len() {
        assert(lines.take(j) =~= lines);
    } else {
        assert(lines.take(j + 1).drop_last() =~= lines.take(j));
        lemma_scan_error_sticks(lines, j + 1, e);
    }
}

/// The blocks of `raw`, or why there are none: the scan of its lines, with
/// an unclosed last block dropped, and an error when no block was closed.
pub open spec fn spec_parse_blocks(raw: Seq<char>) -> Result<Seq<(Seq<char>, Seq<char>)>, ParseError> {
    match scan_lines(lines_seq(raw)) {
        Ok(st) => if st.blocks.len() == 0 {
            Err(ParseError::NoBlocks)
        } else {
            Ok(st.blocks)
        },
        Err(e) => Err(e),
    }
}

/// The search and replacement texts of the blocks.
pub open spec fn block_views(v: Seq<EditBlock>) -> Seq<(Seq<char>, Seq<char>)> {
    v.map_values(|b: EditBlock| (b.search@, b.replace@))
}

/// The message reported for a block-reading error.
pub open spec fn parse_error_text(e: ParseError) -> Seq<char> {
    match e {
        ParseError::Nested => "Nested SEARCH/REPLACE block detected. Close each block with >>>>>>> REPLACE before starting a new one."@,
        ParseError::EmptySearch(n) => "Block "@ + crate::text::decimal(n as nat)
            + " has empty search text. Each block must have a non-empty SEARCH section."@,
        ParseError::NoBlocks => "No SEARCH/REPLACE blocks found. Use format:\n<<<<<<< SEARCH\nexisting code to find\n=======\nreplacement code\n>>>>>>> REPLACE\n\nMultiple blocks can be included for editing different parts of the same file."@,
    }
}

impl ParseError {
    /// The message the tool reports.
    pub fn message(&self) -> (r: String)
        ensures
            r@ == parse_error_text(*self),
            r@ == match self {
                ParseError::Nested => "Nested SEARCH/REPLACE block detected. Close each block with >>>>>>> REPLACE before starting a new one."@,
                ParseError::EmptySearch(n) => "Block "@ + crate::text::decimal(*n as nat)
                    + " has empty search text. Each block must have a non-empty SEARCH section."@,
                ParseError::NoBlocks => "No SEARCH/REPLACE blocks found. Use format:\n<<<<<<< SEARCH\nexisting code to find\n=======\nreplacement code\n>>>>>>> REPLACE\n\nMultiple blocks can be included for editing different parts of the same file."@,
            },
    {
        match self {
            ParseError::Nested => String::from_str(
                "Nested SEARCH/REPLACE block detected. Close each block with >>>>>>> REPLACE before starting a new one.",
            ),
            ParseError::EmptySearch(n) => {
                let mut s = String::from_str("Block ");
                let mut d: Vec<char> = Vec::new();
                crate::text::push_decimal(&mut d, *n as u64);
                crate::text::push_chars(&mut s, d.as_slice());
                push_str(
                    &mut s,
                    " has empty search text. Each block must have a non-empty SEARCH section.",
                );
                s
            },
            ParseError::NoBlocks => String::from_str(
                "No SEARCH/REPLACE blocks found. Use format:\n<<<<<<< SEARCH\nexisting code to find\n=======\nreplacement code\n>>>>>>> REPLACE\n\nMultiple blocks can be included for editing different parts of the same file.",
            ),
        }
    }
}

/// Reads the SEARCH/REPLACE blocks of `raw`.
pub fn parse_blocks(raw: &str) -> (r: Result<Vec<EditBlock>, ParseError>)
    ensures
        match r {
            Ok(v) => spec_parse_blocks(raw@) == Ok::<_, ParseError>(block_views(v@)),
            Err(e) => spec_parse_blocks(raw@) == Err::<Seq<(Seq<char>, Seq<char>)>, _>(e),
        },
{
    let cs = chars_of(raw);
    let lines = lines_of(cs.as_slice());
    let ghost ls = lines_seq(raw@);
    let open_m = chars_of("<<<<<<< SEARCH");
    let div_m = chars_of("=======");
    let close_m = chars_of(">>>>>>> REPLACE");
    let mut blocks: Vec<EditBlock> = Vec::new();
    let mut search_lines: Vec<String> = Vec::new();
    let mut replace_lines: Vec<String> = Vec::new();
    let mut phase: u8 = 0;
    let mut i: usize = 0;
    proof {
        assert(ls.take(0) =~= Seq::<Seq<char>>::empty());
        assert(block_views(blocks@) =~= Seq::<(Seq<char>, Seq<char>)>::empty());
        assert(views(search_lines@) =~= Seq::<Seq<char>>::empty());
        assert(views(replace_lines@) =~= Seq::<Seq<char>>::empty());
    }
    while i < lines.len()
        invariant
            0 <= i <= lines@.len(),
            ls == lines_seq(raw@),
            lines@.len() == ls.len(),
            forall|k: int| 0 <= k < lines@.len() ==> #[trigger] lines@[k]@ == ls[k],
            open_m@ == search_marker(),
            div_m@ == divider_marker(),
            close_m@ == replace_marker(),
            phase <= 2,
            blocks@.len() < i + 1,
            scan_lines(ls.take(i as int)) == Ok::<_, ParseError>(
                ScanState {
                    blocks: block_views(blocks@),
                    phase: phase as nat,
                    search: views(search_lines@),
                    replace: views(replace_lines@),
                },
            ),
        decreases lines@.len() - i,
    {
        proof {
            assert(ls.take(i + 1).drop_last() =~= ls.take(i as int));
            assert(ls.take(i + 1).last() == ls[i as int]);
        }
        let line = &lines[i];
        let t = trim_chars(line.as_slice());
        if chars_equal(t.as_slice(), open_m.as_slice()) {
            if phase != 0 {
                proof {
                    lemma_scan_error_sticks(ls, i + 1, ParseError::Nested);
                }
                return Err(ParseError::Nested);
            }
            search_lines = Vec::new();
            replace_lines = Vec::new();
            phase = 1;
            proof {
                assert(views(search_lines@) =~= Seq::<Seq<char>>::empty());
                assert(views(replace_lines@) =~= Seq::<Seq<char>>::empty());
            }
        } else if chars_equal(t.as_slice(), div_m.as_slice()) && phase == 1 {
            phase = 2;
        } else if chars_equal(t.as_slice(), close_m.as_slice()) && phase == 2 {
            let search = join_strings(search_lines.as_slice(), "\n");
            let sc = chars_of(search.as_str());
            if sc.len() == 0 {
                proof {
                    lemma_scan_error_sticks(ls, i + 1, ParseError::EmptySearch((blocks.len() + 1) as usize));
                }
                return Err(ParseError::EmptySearch(blocks.len() + 1));
            }
            let replace = join_strings(replace_lines.as_slice(), "\n");
            let ghost before = blocks@;
            blocks.push(EditBlock { search, replace });
            proof {
                assert(block_views(blocks@) =~= block_views(before).push(
                    (join_seq(views(search_lines@), "\n"@), join_seq(views(replace_lines@), "\n"@)),
                ));
            }
            phase = 0;
        } else if phase == 1 {
            let ghost before = search_lines@;
            search_lines.push(string_from_chars(line.as_slice()));
            proof {
                assert(views(search_lines@) =~= views(before).push(ls[i as int]));
            }
        } else if phase == 2 {
            let ghost before = replace_lines@;
            replace_lines.push(string_from_chars(line.as_slice()));
            proof {
                assert(views(replace_lines@) =~= views(before).push(ls[i as int]));
            }
        }
        i = i + 1;
    }
    proof {
        assert(ls.take(lines@.len() as int) =~= ls);
    }
    if blocks.len() == 0 {
        return Err(ParseError::NoBlocks);
    }
    Ok(blocks)
}


/// Whether `p` occurs in `s` at position `i`.
pub open spec fn occurs_at(s: Seq<char>, p: Seq<char>, i: int) -> bool {
    0 <= i && i + p.len() <= s.len() && s.subrange(i, i + p.len()) == p
}

/// The starting positions of the occurrences of `p` in `s` from position
/// `i` on, found left to right without overlap, as `str::match_indices`
/// finds them; an empty `p` occurs at every position up to the end.
pub open spec fn match_starts(s: Seq<char>, p: Seq<char>, i: int) -> Seq<int>
    decreases s.len() + 1 - i,
{
    if i < 0 || i > s.len() {
        seq![]
    } else if p.len() == 0 {
        seq![i] + match_starts(s, p, i + 1)
    } else if i + p.len() > s.len() {
        seq![]
    } else if occurs_at(s, p, i) {
        seq![i] + match_starts(s, p, i + p.len())
    } else {
        match_starts(s, p, i + 1)
    }
}

/// Whether `p` occurs in `cs` at position `i`.
fn occurs_at_exec(cs: &[char], p: &[char], i: usize) -> (r: bool)
    ensures
        r == occurs_at(cs@, p@, i as int),
{
    if p.len() > cs.len() || i > cs.len() - p.len() {
        return false;
    }
    let mut k: usize = 0;
    while k < p.len()
        invariant
            i + p.len() <= cs.len(),
            0 <= k <= p.len(),
            forall|j: int| 0 <= j < k ==> cs@[i + j] == p@[j],
        decreases p.len() - k,
    {
        if cs[i + k] != p[k] {
            assert(cs@.subrange(i as int, i + p.len())[k as int] != p@[k as int]);
            return false;
        }
        k = k + 1;
    }
    assert(cs@.subrange(i as int, i + p.len()) =~= p@);
    true
}

/// The positions of the occurrences of `ps` in `cs`, as
/// `match_indices` finds them.
pub fn match_positions(cs: &[char], ps: &[char]) -> (r: Vec<usize>)
    ensures
        r@.len() == match_starts(cs@, ps@, 0).len(),
        forall|k: int| 0 <= k < r@.len() ==> r@[k] as int == #[trigger] match_starts(cs@, ps@, 0)[k],
{
    let mut out: Vec<usize> = Vec::new();
    let mut i: usize = 0;
    if ps.len() == 0 {
        while i < cs.len()
            invariant
                ps@.len() == 0,
                0 <= i <= cs.len(),
                out@.len() + match_starts(cs@, ps@, i as int).len() == match_starts(cs@, ps@, 0).len(),
                forall|k: int| 0 <= k < out@.len() ==> out@[k] as int == #[trigger] match_starts(cs@, ps@, 0)[k],
                match_starts(cs@, ps@, 0) == out@.map_values(|x: usize| x as int) + match_starts(cs@, ps@, i as int),
            decreases cs@.len() - i,
        {
            let ghost before = out@;
            out.push(i);
            proof {
                assert(out@.map_values(|x: usize| x as int) =~= before.map_values(|x: usize| x as int).push(i as int));
            }
            i = i + 1;
        }
        let ghost before = out@;
        out.push(i);
        proof {
            assert(match_starts(cs@, ps@, (i + 1) as int) =~= Seq::<int>::empty());
            assert(out@.map_values(|x: usize| x as int) =~= before.map_values(|x: usize| x as int).push(i as int));
            assert(match_starts(cs@, ps@, 0) =~= out@.map_values(|x: usize| x as int));
            assert forall|k: int| 0 <= k < out@.len() implies out@[k] as int == #[trigger] match_starts(cs@, ps@, 0)[k] by {
                assert(out@.map_values(|x: usize| x as int)[k] == out@[k] as int);
            }
        }
        return out;
    }
    proof {
        assert(out@.map_values(|x: usize| x as int) =~= Seq::<int>::empty());
    }
    while i <= cs.len()
        invariant
            ps@.len() > 0,
            0 <= i <= cs.len(),
            match_starts(cs@, ps@, 0) == out@.map_values(|x: usize| x as int) + match_starts(cs@, ps@, i as int),
        ensures
            match_starts(cs@, ps@, 0) == out@.map_values(|x: usize| x as int) + match_starts(cs@, ps@, i as int),
            i > cs.len() || i + ps@.len() > cs.len(),
        decreases cs@.len() + 1 - i,
    {
        if ps.len() > cs.len() - i {
            break;
        } else if occurs_at_exec(cs, ps, i) {
            let ghost before = out@;
            out.push(i);
            proof {
                assert(out@.map_values(|x: usize| x as int) =~= before.map_values(|x: usize| x as int).push(i as int));
            }
            i = i + ps.len();
        } else {
            i = i + 1;
        }
    }
    proof {
        assert(match_starts(cs@, ps@, i as int) =~= Seq::<int>::empty());
        assert(match_starts(cs@, ps@, 0) =~= out@.map_values(|x: usize| x as int));
        assert forall|k: int| 0 <= k < out@.len() implies out@[k] as int == #[trigger] match_starts(cs@, ps@, 0)[k] by {
            assert(out@.map_values(|x: usize| x as int)[k] == out@[k] as int);
        }
    }
    out
}

/// The number of non-overlapping occurrences of `search` in `content`, as
/// `content.match_indices(search).count()` gives it.
pub fn count_exact_matches(content: &str, search: &str) -> (r: usize)
    ensures
        r == match_starts(content@, search@, 0).len(),
{
    let cs = chars_of(content);
    let ps = chars_of(search);
    match_positions(cs.as_slice(), ps.as_slice()).len()
}

/// The leftmost occurrence of `p` in `s` at or after `i`, as `str::find`
/// reports it.
pub open spec fn first_from(s: Seq<char>, p: Seq<char>, i: int) -> Option<int>
    decreases s.len() + 1 - i,
{
    if i < 0 || i + p.len() > s.len() {
        None
    } else if occurs_at(s, p, i) {
        Some(i)
    } else {
        first_from(s, p, i + 1)
    }
}

/// The leftmost occurrence lies within the text.
pub proof fn lemma_first_from_fits(s: Seq<char>, p: Seq<char>, i: int)
    ensures
        first_from(s, p, i) matches Some(k) ==> i <= k && k + p.len() <= s.len() && occurs_at(s, p, k),
    decreases s.len() + 1 - i,
{
    if i < 0 || i + p.len() > s.len() {
    } else if occurs_at(s, p, i) {
    } else {
        lemma_first_from_fits(s, p, i + 1);
    }
}

/// The position of the leftmost occurrence of `ps` in `cs`.
pub fn find_first(cs: &[char], ps: &[char]) -> (r: Option<usize>)
    ensures
        match r {
            Some(i) => first_from(cs@, ps@, 0) == Some(i as int) && i + ps@.len() <= cs@.len(),
            None => first_from(cs@, ps@, 0) is None,
        },
{
    if ps.len() > cs.len() {
        return None;
    }
    if ps.len() == 0 {
        assert(cs@.subrange(0, 0) =~= ps@);
        return Some(0);
    }
    let mut i: usize = 0;
    while i <= cs.len() - ps.len()
        invariant
            0 < ps.len() <= cs.len(),
            0 <= i <= cs.len() - ps.len() + 1,
            first_from(cs@, ps@, 0) == first_from(cs@, ps@, i as int),
        decreases cs@.len() - ps@.len() + 1 - i,
    {
        if occurs_at_exec(cs, ps, i) {
            return Some(i);
        }
        i = i + 1;
    }
    None
}

/// The number of newlines in `t`.
pub open spec fn count_newlines(t: Seq<char>) -> nat
    decreases t.len(),
{
    if t.len() == 0 {
        0
    } else {
        count_newlines(t.drop_last()) + if t.last() == '\n' {
            1nat
        } else {
            0nat
        }
    }
}

/// Where the line holding position `n` starts: just after the last newline
/// before `n`, or at 0.
pub open spec fn line_start(s: Seq<char>, n: int) -> int
    decreases n,
{
    if n <= 0 || n > s.len() {
        0
    } else if s[n - 1] == '\n' {
        n
    } else {
        line_start(s, n - 1)
    }
}

/// The first newline at or after `j`, or the end of `s`.
pub open spec fn line_end_from(s: Seq<char>, j: int) -> int
    decreases s.len() - j,
{
    if j < 0 || j >= s.len() {
        s.len() as int
    } else if s[j] == '\n' {
        j
    } else {
        line_end_from(s, j + 1)
    }
}

/// The first `k` characters of `t`, or all of it when shorter.
pub open spec fn first_chars(t: Seq<char>, k: nat) -> Seq<char> {
    if t.len() <= k {
        t
    } else {
        t.take(k as int)
    }
}

/// `  Line {n}: {text}` for an occurrence at `idx`: its line number,
/// counted from 1, and the first 100 characters of its line.
pub open spec fn match_line(s: Seq<char>, idx: int) -> Seq<char> {
    let ls = line_start(s, idx);
    "  Line "@ + crate::text::decimal(count_newlines(s.take(idx)) + 1) + ": "@ + first_chars(
        s.subrange(ls, line_end_from(s, ls)),
        100,
    )
}

/// The listing line for the occurrence at `idx`.
fn match_line_exec(cs: &[char], idx: usize) -> (r: Vec<char>)
    requires
        idx < cs@.len(),
    ensures
        r@ == match_line(cs@, idx as int),
{
    let mut n: usize = 0;
    let mut k: usize = 0;
    while k < idx
        invariant
            0 <= k <= idx < cs@.len(),
            n == count_newlines(cs@.take(k as int)),
            n <= k,
        decreases idx - k,
    {
        assert(cs@.take(k + 1).drop_last() =~= cs@.take(k as int));
        if cs[k] == '\n' {
            n = n + 1;
        }
        k = k + 1;
    }
    let mut ls: usize = idx;
    while ls > 0 && cs[ls - 1] != '\n'
        invariant
            0 <= ls <= idx < cs@.len(),
            line_start(cs@, idx as int) == line_start(cs@, ls as int),
        decreases ls,
    {
        ls = ls - 1;
    }
    let mut le: usize = ls;
    while le < cs.len() && cs[le] != '\n'
        invariant
            ls <= le <= cs@.len(),
            line_end_from(cs@, ls as int) == line_end_from(cs@, le as int),
        decreases cs@.len() - le,
    {
        le = le + 1;
    }
    let mut out: Vec<char> = Vec::new();
    let mut d: Vec<char> = Vec::new();
    crate::text::push_decimal(&mut d, (n + 1) as u64);
    let head = chars_of("  Line ");
    let colon = chars_of(": ");
    let mut j: usize = 0;
    while j < head.len()
        invariant
            0 <= j <= head@.len(),
            out@ == head@.take(j as int),
        decreases head@.len() - j,
    {
        out.push(head[j]);
        j = j + 1;
    }
    out.append(&mut d);
    let mut c = colon.clone();
    out.append(&mut c);
    let stop = if le - ls > 100 {
        ls + 100
    } else {
        le
    };
    let mut t = ls;
    let ghost pre = out@;
    while t < stop
        invariant
            ls <= t <= stop <= le <= cs@.len(),
            out@ == pre + cs@.subrange(ls as int, t as int),
        decreases stop - t,
    {
        out.push(cs[t]);
        t = t + 1;
    }
    proof {
        assert(head@.take(head@.len() as int) =~= head@);
        let line = cs@.subrange(ls as int, le as int);
        assert(cs@.subrange(ls as int, stop as int) =~= first_chars(line, 100));
    }
    out
}

/// `Block {i + 1}: ` when an edit has more than one block, else nothing.
pub open spec fn block_label(i: nat, n: nat) -> Seq<char> {
    if n > 1 {
        "Block "@ + crate::text::decimal(i + 1) + ": "@
    } else {
        Seq::empty()
    }
}

/// The label of block `i` of `n`.
pub fn block_label_exec(i: usize, n: usize) -> (r: String)
    requires
        i < n,
    ensures
        r@ == block_label(i as nat, n as nat),
{
    if n > 1 {
        let mut s = String::from_str("Block ");
        let mut d: Vec<char> = Vec::new();
        crate::text::push_decimal(&mut d, (i + 1) as u64);
        crate::text::push_chars(&mut s, d.as_slice());
        push_str(&mut s, ": ");
        s
    } else {
        String::new()
    }
}

/// The message for a search text that occurs more than once: how often, and
/// the line of each occurrence.
pub open spec fn ambiguous_message(
    label: Seq<char>,
    count: nat,
    path: Seq<char>,
    lines: Seq<Seq<char>>,
) -> Seq<char> {
    label + "search text matched "@ + crate::text::decimal(count) + " times in "@ + path + ":\n"@
        + join_seq(lines, "\n"@) + "\n\nAdd more surrounding context to the SEARCH block to make it unique."@
}

/// The message for a search text that does not occur.
pub open spec fn not_found_message(label: Seq<char>, path: Seq<char>) -> Seq<char> {
    label + "search text not found in '"@ + path
        + "'.\nRead the file and copy the exact text for the SEARCH block, ensuring whitespace and indentation match."@
}

/// Every position `match_starts` lists holds an occurrence.
proof fn lemma_match_starts_occur(s: Seq<char>, p: Seq<char>, i: int)
    requires
        p.len() > 0,
    ensures
        forall|k: int|
            0 <= k < match_starts(s, p, i).len() ==> occurs_at(s, p, #[trigger] match_starts(s, p, i)[k]),
    decreases s.len() + 1 - i,
{
    if i < 0 || i > s.len() || i + p.len() > s.len() {
    } else if occurs_at(s, p, i) {
        lemma_match_starts_occur(s, p, i + p.len());
        let rest = match_starts(s, p, i + p.len());
        assert(match_starts(s, p, i) == seq![i] + rest);
        assert forall|k: int| 0 <= k < match_starts(s, p, i).len() implies occurs_at(s, p, #[trigger] match_starts(s, p, i)[k]) by {
            if k > 0 {
                assert(match_starts(s, p, i)[k] == rest[k - 1]);
            }
        }
    } else {
        lemma_match_starts_occur(s, p, i + 1);
        assert(match_starts(s, p, i) == match_starts(s, p, i + 1));
    }
}

/// Where a block applies: the range `[start, end)` of the content it
/// replaces, its replacement, and a note for the report (empty for an exact
/// match).
#[derive(Debug, Clone)]
pub struct Resolved {
    pub start: usize,
    pub end: usize,
    pub replace: String,
    pub note: String,
}

/// A resolved block as plain values.
pub open spec fn resolved_view(r: Resolved) -> (int, int, Seq<char>, Seq<char>) {
    (r.start as int, r.end as int, r.replace@, r.note@)
}

/// The resolved blocks as plain values.
pub open spec fn resolved_views(v: Seq<Resolved>) -> Seq<(int, int, Seq<char>, Seq<char>)> {
    v.map_values(|r: Resolved| resolved_view(r))
}

/// A similarity as a whole percentage, rounded half up.
pub open spec fn percent(num: int, den: int) -> nat {
    ((200 * num + den) / (2 * den)) as nat
}

/// The note for a block applied after normalizing whitespace.
pub open spec fn normalized_note() -> Seq<char> {
    "matched after whitespace normalization"@
}

/// The note for a block applied by a fuzzy match.
pub open spec fn fuzzy_note(num: int, den: int) -> Seq<char> {
    "fuzzy match, "@ + crate::text::decimal(percent(num, den)) + "% similarity"@
}

/// The message for a block whose closest window is only suggested.
pub open spec fn suggest_message(
    label: Seq<char>,
    path: Seq<char>,
    line: int,
    num: int,
    den: int,
    preview: Seq<char>,
) -> Seq<char> {
    label + "search text not found in '"@ + path + "'. Closest match at line "@
        + crate::text::decimal(line as nat) + ", "@ + crate::text::decimal(percent(num, den))
        + "% similar:\n  "@ + preview
        + "\n\nRead the file around that area, copy the exact text, and retry the edit."@
}

/// Where a block applies in `content`, by [`spec_find_best_match`]: at its
/// exact occurrence, which must be the only one; over the lines it matches
/// after normalizing whitespace, or by a fuzzy match, each with its note; a
/// closest window that is only alike enough to suggest, or no match, is
/// reported.
pub open spec fn spec_resolve(
    content: Seq<char>,
    search: Seq<char>,
    replace: Seq<char>,
    label: Seq<char>,
    path: Seq<char>,
) -> Result<(int, int, Seq<char>, Seq<char>), Seq<char>> {
    match crate::edit_match::spec_find_best_match(content, search) {
        crate::edit_match::SpecMatch::Exact(pos) => {
            let starts = match_starts(content, search, 0);
            if starts.len() > 1 {
                Err(
                    ambiguous_message(
                        label,
                        starts.len(),
                        path,
                        starts.map_values(|i: int| match_line(content, i)),
                    ),
                )
            } else {
                Ok((pos, pos + search.len(), replace, Seq::empty()))
            }
        },
        crate::edit_match::SpecMatch::Normalized(a, b) => if a <= b {
            Ok((a, b, replace, normalized_note()))
        } else {
            Err(not_found_message(label, path))
        },
        crate::edit_match::SpecMatch::FuzzyApply(a, b, n, d) => if a <= b {
            Ok((a, b, replace, fuzzy_note(n, d)))
        } else {
            Err(not_found_message(label, path))
        },
        crate::edit_match::SpecMatch::FuzzySuggest(line, n, d, preview) => Err(
            suggest_message(label, path, line, n, d, preview),
        ),
        crate::edit_match::SpecMatch::NotFound => Err(not_found_message(label, path)),
    }
}

/// A similarity as a whole percentage, rounded half up.
fn percent_exec(num: usize, den: usize) -> (r: u64)
    requires
        0 < den,
        num <= den,
    ensures
        r as nat == percent(num as int, den as int),
{
    let n = num as u128;
    let d = den as u128;
    assert(200 * n + d <= 201 * d) by (nonlinear_arith)
        requires
            n <= d,
    ;
    assert(d <= 0xffff_ffff_ffff_ffff);
    let q = (200 * n + d) / (2 * d);
    assert(q <= 101) by (nonlinear_arith)
        requires
            q == (200 * n + d) / (2 * d),
            n <= d,
            d > 0,
    ;
    q as u64
}

/// Resolves one block whose search text is not empty.
pub fn resolve_block(cs: &[char], block: &EditBlock, label: &str, path: &str) -> (r: Result<
    Resolved,
    String,
>)
    requires
        block.search@.len() > 0,
    ensures
        match r {
            Ok(v) => spec_resolve(cs@, block.search@, block.replace@, label@, path@) == Ok::<
                _,
                Seq<char>,
            >(resolved_view(v)),
            Err(m) => spec_resolve(cs@, block.search@, block.replace@, label@, path@) == Err::<
                (int, int, Seq<char>, Seq<char>),
                _,
            >(m@),
        },
{
    let ps = chars_of(block.search.as_str());
    let n = cs.len();
    match crate::edit_match::find_best_match(cs, ps.as_slice()) {
        crate::edit_match::MatchResult::NotFound => {
            let mut m = String::from_str(label);
            push_str(&mut m, "search text not found in '");
            push_str(&mut m, path);
            push_str(
                &mut m,
                "'.\nRead the file and copy the exact text for the SEARCH block, ensuring whitespace and indentation match.",
            );
            Err(m)
        },
        crate::edit_match::MatchResult::Normalized(a, b) => {
            if a > b {
                let mut m = String::from_str(label);
                push_str(&mut m, "search text not found in '");
                push_str(&mut m, path);
                push_str(
                    &mut m,
                    "'.\nRead the file and copy the exact text for the SEARCH block, ensuring whitespace and indentation match.",
                );
                return Err(m);
            }
            let r = Resolved {
                start: a,
                end: b,
                replace: block.replace.clone(),
                note: String::from_str("matched after whitespace normalization"),
            };
            Ok(r)
        },
        crate::edit_match::MatchResult::FuzzyApply(a, b, num, den) => {
            if a > b {
                let mut m = String::from_str(label);
                push_str(&mut m, "search text not found in '");
                push_str(&mut m, path);
                push_str(
                    &mut m,
                    "'.\nRead the file and copy the exact text for the SEARCH block, ensuring whitespace and indentation match.",
                );
                return Err(m);
            }
            proof {
                crate::edit_match::lemma_fuzzy_fraction(cs@, ps@);
            }
            let mut note = String::from_str("fuzzy match, ");
            let mut d: Vec<char> = Vec::new();
            crate::text::push_decimal(&mut d, percent_exec(num, den));
            crate::text::push_chars(&mut note, d.as_slice());
            push_str(&mut note, "% similarity");
            Ok(Resolved { start: a, end: b, replace: block.replace.clone(), note })
        },
        crate::edit_match::MatchResult::FuzzySuggest(line, num, den, preview) => {
            proof {
                crate::edit_match::lemma_fuzzy_fraction(cs@, ps@);
            }
            let mut m = String::from_str(label);
            push_str(&mut m, "search text not found in '");
            push_str(&mut m, path);
            push_str(&mut m, "'. Closest match at line ");
            let mut d: Vec<char> = Vec::new();
            crate::text::push_decimal(&mut d, line as u64);
            crate::text::push_chars(&mut m, d.as_slice());
            push_str(&mut m, ", ");
            let mut e: Vec<char> = Vec::new();
            crate::text::push_decimal(&mut e, percent_exec(num, den));
            crate::text::push_chars(&mut m, e.as_slice());
            push_str(&mut m, "% similar:\n  ");
            push_str(&mut m, preview.as_str());
            push_str(&mut m, "\n\nRead the file around that area, copy the exact text, and retry the edit.");
            Err(m)
        },
        crate::edit_match::MatchResult::Exact(pos) => {
            proof {
                lemma_first_from_fits(cs@, ps@, 0);
            }
            let positions = match_positions(cs, ps.as_slice());
            if positions.len() > 1 {
                proof {
                    lemma_match_starts_occur(cs@, ps@, 0);
                }
                let ghost starts = match_starts(cs@, ps@, 0);
                let mut lines: Vec<String> = Vec::new();
                let mut k: usize = 0;
                while k < positions.len()
                    invariant
                        ps@.len() > 0,
                        positions@.len() == starts.len(),
                        forall|j: int| 0 <= j < positions@.len() ==> positions@[j] as int == #[trigger] starts[j],
                        forall|j: int| 0 <= j < starts.len() ==> occurs_at(cs@, ps@, #[trigger] starts[j]),
                        0 <= k <= positions@.len(),
                        views(lines@) =~= starts.take(k as int).map_values(|i: int| match_line(cs@, i)),
                    decreases positions@.len() - k,
                {
                    assert(occurs_at(cs@, ps@, starts[k as int]));
                    let l = match_line_exec(cs, positions[k]);
                    let ghost before = lines@;
                    lines.push(string_from_chars(l.as_slice()));
                    proof {
                        assert(starts.take(k + 1) =~= starts.take(k as int).push(starts[k as int]));
                        assert(views(lines@) =~= views(before).push(l@));
                    }
                    k = k + 1;
                }
                proof {
                    assert(starts.take(starts.len() as int) =~= starts);
                    assert(views(lines@) =~= starts.map_values(|i: int| match_line(cs@, i)));
                }
                let mut m = String::from_str(label);
                push_str(&mut m, "search text matched ");
                let mut d: Vec<char> = Vec::new();
                crate::text::push_decimal(&mut d, positions.len() as u64);
                crate::text::push_chars(&mut m, d.as_slice());
                push_str(&mut m, " times in ");
                push_str(&mut m, path);
                push_str(&mut m, ":\n");
                let joined = join_strings(lines.as_slice(), "\n");
                push_str(&mut m, joined.as_str());
                push_str(&mut m, "\n\nAdd more surrounding context to the SEARCH block to make it unique.");
                Err(m)
            } else {
                assert(pos + ps@.len() <= n);
                let r = Resolved {
                    start: pos,
                    end: pos + ps.len(),
                    replace: block.replace.clone(),
                    note: String::new(),
                };
                assert(r.note@ =~= Seq::<char>::empty());
                Ok(r)
            }
        },
    }
}

/// The first `k` blocks of `n` resolved in order, stopping at the first
/// that fails.
pub open spec fn spec_resolve_prefix(
    content: Seq<char>,
    blocks: Seq<(Seq<char>, Seq<char>)>,
    path: Seq<char>,
    k: nat,
) -> Result<Seq<(int, int, Seq<char>, Seq<char>)>, Seq<char>>
    decreases k,
{
    if k == 0 {
        Ok(Seq::empty())
    } else {
        match spec_resolve_prefix(content, blocks, path, (k - 1) as nat) {
            Err(m) => Err(m),
            Ok(rs) => match spec_resolve(
                content,
                blocks[k - 1].0,
                blocks[k - 1].1,
                block_label((k - 1) as nat, blocks.len()),
                path,
            ) {
                Ok(r) => Ok(rs.push(r)),
                Err(m) => Err(m),
            },
        }
    }
}

/// Every block has a search text.
pub open spec fn searches_nonempty(blocks: Seq<EditBlock>) -> bool {
    forall|i: int| 0 <= i < blocks.len() ==> (#[trigger] blocks[i]).search@.len() > 0
}

/// Resolves every block, in order; the first failure is the result.
pub fn resolve_all(cs: &[char], blocks: &Vec<EditBlock>, path: &str) -> (r: Result<Vec<Resolved>, String>)
    requires
        searches_nonempty(blocks@),
    ensures
        match r {
            Ok(v) => spec_resolve_prefix(cs@, block_views(blocks@), path@, blocks@.len()) == Ok::<
                _,
                Seq<char>,
            >(resolved_views(v@)),
            Err(m) => spec_resolve_prefix(cs@, block_views(blocks@), path@, blocks@.len())
                == Err::<Seq<(int, int, Seq<char>, Seq<char>)>, _>(m@),
        },
{
    let ghost bv = block_views(blocks@);
    let mut out: Vec<Resolved> = Vec::new();
    let mut i: usize = 0;
    proof {
        assert(resolved_views(out@) =~= Seq::<(int, int, Seq<char>, Seq<char>)>::empty());
    }
    while i < blocks.len()
        invariant
            bv == block_views(blocks@),
            searches_nonempty(blocks@),
            0 <= i <= blocks@.len(),
            spec_resolve_prefix(cs@, bv, path@, i as nat) == Ok::<_, Seq<char>>(resolved_views(out@)),
        decreases blocks@.len() - i,
    {
        let label = block_label_exec(i, blocks.len());
        assert(blocks@[i as int].search@.len() > 0);
        match resolve_block(cs, &blocks[i], label.as_str(), path) {
            Ok(r) => {
                let ghost before = out@;
                out.push(r);
                proof {
                    assert(resolved_views(out@) =~= resolved_views(before).push(resolved_view(r)));
                }
            },
            Err(m) => {
                proof {
                    lemma_resolve_error_sticks(cs@, bv, path@, (i + 1) as nat, m@);
                }
                return Err(m);
            },
        }
        i = i + 1;
    }
    Ok(out)
}

/// Once resolving fails on a prefix of the blocks, it fails the same way
/// on all of them.
proof fn lemma_resolve_error_sticks(
    content: Seq<char>,
    blocks: Seq<(Seq<char>, Seq<char>)>,
    path: Seq<char>,
    k: nat,
    m: Seq<char>,
)
    requires
        k <= blocks.len(),
        spec_resolve_prefix(content, blocks, path, k) == Err::<Seq<(int, int, Seq<char>, Seq<char>)>, Seq<char>>(m),
    ensures
        spec_resolve_prefix(content, blocks, path, blocks.len()) == Err::<Seq<(int, int, Seq<char>, Seq<char>)>, Seq<char>>(m),
    decreases blocks.len() - k,
{
    if k < blocks.len() {
        lemma_resolve_error_sticks(content, blocks, path, k + 1, m);
    }
}

/// Where an entry starting at `key` goes in a list already ordered from the
/// last start to the first: before the first entry that starts earlier, so
/// that entries with equal starts keep their order.
pub open spec fn insert_pos(sorted: Seq<(int, int, Seq<char>, Seq<char>)>, key: int, j: int) -> int
    decreases sorted.len() - j,
{
    if j < 0 || j >= sorted.len() {
        sorted.len() as int
    } else if sorted[j].0 < key {
        j
    } else {
        insert_pos(sorted, key, j + 1)
    }
}

/// The entries ordered from the last start to the first, entries with equal
/// starts in their original order: a stable sort by descending start.
pub open spec fn sort_by_start_desc(rs: Seq<(int, int, Seq<char>, Seq<char>)>) -> Seq<(int, int, Seq<char>, Seq<char>)>
    decreases rs.len(),
{
    if rs.len() == 0 {
        rs
    } else {
        let t = sort_by_start_desc(rs.drop_last());
        t.insert(insert_pos(t, rs.last().0, 0), rs.last())
    }
}

/// Entries before the insertion point start at `key` or later; the entry
/// at it, if any, starts earlier.
proof fn lemma_insert_pos_splits(sorted: Seq<(int, int, Seq<char>, Seq<char>)>, key: int, j: int)
    requires
        0 <= j <= sorted.len(),
    ensures
        j <= insert_pos(sorted, key, j) <= sorted.len(),
        forall|k: int| j <= k < insert_pos(sorted, key, j) ==> #[trigger] sorted[k].0 >= key,
        insert_pos(sorted, key, j) < sorted.len() ==> sorted[insert_pos(sorted, key, j)].0 < key,
    decreases sorted.len() - j,
{
    if j < sorted.len() && sorted[j].0 >= key {
        lemma_insert_pos_splits(sorted, key, j + 1);
    }
}

/// Whether entries run from the last start to the first.
pub open spec fn starts_descending(rs: Seq<(int, int, Seq<char>, Seq<char>)>) -> bool {
    forall|i: int, j: int| 0 <= i < j < rs.len() ==> rs[i].0 >= rs[j].0
}

/// [`sort_by_start_desc`] is a sort: its result holds the same entries and
/// runs from the last start to the first.
pub proof fn lemma_sort_by_start_desc_sorts(rs: Seq<(int, int, Seq<char>, Seq<char>)>)
    ensures
        sort_by_start_desc(rs).to_multiset() == rs.to_multiset(),
        starts_descending(sort_by_start_desc(rs)),
    decreases rs.len(),
{
    broadcast use vstd::seq_lib::to_multiset_insert, vstd::seq_lib::to_multiset_build;

    if rs.len() == 0 {
    } else {
        let init = rs.drop_last();
        let x = rs.last();
        lemma_sort_by_start_desc_sorts(init);
        let t = sort_by_start_desc(init);
        let p = insert_pos(t, x.0, 0);
        lemma_insert_pos_splits(t, x.0, 0);
        let u = t.insert(p, x);
        assert(rs =~= init.push(x));
        assert(u.to_multiset() == t.to_multiset().insert(x));
        assert(rs.to_multiset() == init.to_multiset().insert(x));
        assert forall|i: int, j: int| 0 <= i < j < u.len() implies u[i].0 >= u[j].0 by {
            if j < p {
            } else if j == p {
                assert(t[i].0 >= x.0);
            } else if i < p {
                assert(u[j] == t[j - 1]);
            } else if i == p {
                assert(u[j] == t[j - 1]);
                assert(t[p].0 < x.0);
                assert(t[p].0 >= t[j - 1].0);
            } else {
                assert(u[i] == t[i - 1] && u[j] == t[j - 1]);
            }
        }
    }
}

/// The insertion point lies between `j` and the end.
proof fn lemma_insert_pos_bounds(sorted: Seq<(int, int, Seq<char>, Seq<char>)>, key: int, j: int)
    requires
        0 <= j <= sorted.len(),
    ensures
        j <= insert_pos(sorted, key, j) <= sorted.len(),
    decreases sorted.len() - j,
{
    if j < sorted.len() && sorted[j].0 >= key {
        lemma_insert_pos_bounds(sorted, key, j + 1);
    }
}

/// Orders the resolved blocks from the last start to the first, keeping the
/// order of blocks that start at the same place.
pub fn sort_by_start_desc_exec(rs: Vec<Resolved>) -> (r: Vec<Resolved>)
    ensures
        resolved_views(r@) == sort_by_start_desc(resolved_views(rs@)),
{
    let ghost rv = resolved_views(rs@);
    let n: usize = rs.len();
    let mut rest = rs;
    let mut out: Vec<Resolved> = Vec::new();
    let mut i: usize = 0;
    proof {
        assert(rv.take(0) =~= Seq::<(int, int, Seq<char>, Seq<char>)>::empty());
        assert(resolved_views(out@) =~= Seq::<(int, int, Seq<char>, Seq<char>)>::empty());
        assert(resolved_views(rest@) =~= rv.skip(0));
    }
    while rest.len() > 0
        invariant
            rv.len() == n,
            0 <= i <= n,
            rest@.len() == n - i,
            resolved_views(rest@) =~= rv.skip(i as int),
            resolved_views(out@) == sort_by_start_desc(rv.take(i as int)),
        decreases rest@.len(),
    {
        let ghost old_rest = rest@;
        let x = rest.remove(0);
        proof {
            assert(resolved_view(x) == resolved_views(old_rest)[0]);
            assert forall|k: int| 0 <= k < rest@.len() implies #[trigger] resolved_views(rest@)[k] == rv.skip(i + 1)[k] by {
                assert(rest@[k] == old_rest[k + 1]);
                assert(resolved_views(old_rest)[k + 1] == rv.skip(i as int)[k + 1]);
            }
            assert(resolved_views(rest@) =~= rv.skip(i + 1));
        }
        let key = x.start;
        let mut j: usize = 0;
        while j < out.len() && out[j].start >= key
            invariant
                0 <= j <= out@.len(),
                insert_pos(resolved_views(out@), key as int, 0) == insert_pos(resolved_views(out@), key as int, j as int),
            decreases out@.len() - j,
        {
            j = j + 1;
        }
        proof {
            assert(rv.take(i + 1).drop_last() =~= rv.take(i as int));
            assert(rv.take(i + 1).last() == rv[i as int]);
        }
        let ghost before = out@;
        out.insert(j, x);
        proof {
            assert(resolved_views(out@) =~= resolved_views(before).insert(j as int, resolved_view(x)));
        }
        i = i + 1;
    }
    proof {
        assert(rv.take(n as int) =~= rv);
    }
    out
}

/// Every block the scan finished has a search text.
proof fn lemma_scan_searches_nonempty(lines: Seq<Seq<char>>)
    ensures
        scan_lines(lines) matches Ok(st) ==> forall|k: int|
            0 <= k < st.blocks.len() ==> (#[trigger] st.blocks[k]).0.len() > 0,
    decreases lines.len(),
{
    if lines.len() > 0 {
        lemma_scan_searches_nonempty(lines.drop_last());
        match scan_lines(lines.drop_last()) {
            Ok(st) => {
                match scan_line(st, lines.last()) {
                    Ok(st2) => {
                        assert forall|k: int| 0 <= k < st2.blocks.len() implies (#[trigger] st2.blocks[k]).0.len() > 0 by {
                            if k < st.blocks.len() {
                                assert(st2.blocks[k] == st.blocks[k]);
                            }
                        }
                    },
                    Err(_) => {},
                }
            },
            Err(_) => {},
        }
    }
}

/// The content after applying the resolved blocks in order, each replacing
/// its range of the content as it then stands, with the notes of those that
/// carry one; nothing when a range lies beyond the end.
pub open spec fn spec_apply(content: Seq<char>, rs: Seq<(int, int, Seq<char>, Seq<char>)>) -> Option<(Seq<char>, Seq<Seq<char>>)>
    decreases rs.len(),
{
    if rs.len() == 0 {
        Some((content, Seq::empty()))
    } else {
        match spec_apply(content, rs.drop_last()) {
            None => None,
            Some((c, notes)) => {
                let r = rs.last();
                if r.1 > c.len() || r.0 > c.len() {
                    None
                } else {
                    Some(
                        (
                            c.take(r.0) + r.2 + c.skip(r.1),
                            if r.3.len() > 0 {
                                notes.push(r.3)
                            } else {
                                notes
                            },
                        ),
                    )
                }
            },
        }
    }
}

/// Each range starts no later than it ends.
pub open spec fn ranges_ordered(rs: Seq<(int, int, Seq<char>, Seq<char>)>) -> bool {
    forall|i: int| 0 <= i < rs.len() ==> (#[trigger] rs[i]).0 <= rs[i].1
}

/// Once a range misses on a prefix, the whole application misses.
proof fn lemma_apply_ok_prefix(content: Seq<char>, rs: Seq<(int, int, Seq<char>, Seq<char>)>, k: int)
    requires
        0 <= k <= rs.len(),
        spec_apply(content, rs.take(k)) is None,
    ensures
        spec_apply(content, rs) is None,
    decreases rs.len() - k,
{
    if k == rs.len() {
        assert(rs.take(k) =~= rs);
    } else {
        assert(rs.take(k + 1).drop_last() =~= rs.take(k));
        lemma_apply_ok_prefix(content, rs, k + 1);
    }
}

/// Applies the resolved blocks in order. `None` when a range lies beyond the
/// content as it stands at that point.
pub fn apply_resolved(content: Vec<char>, rs: &Vec<Resolved>) -> (r: Option<(Vec<char>, Vec<String>)>)
    requires
        ranges_ordered(resolved_views(rs@)),
    ensures
        match r {
            Some((c, notes)) => spec_apply(content@, resolved_views(rs@)) == Some((c@, views(notes@))),
            None => spec_apply(content@, resolved_views(rs@)) is None,
        },
{
    let ghost rv = resolved_views(rs@);
    let mut cur = content;
    let mut notes: Vec<String> = Vec::new();
    let mut i: usize = 0;
    proof {
        assert(rv.take(0) =~= Seq::<(int, int, Seq<char>, Seq<char>)>::empty());
        assert(views(notes@) =~= Seq::<Seq<char>>::empty());
    }
    while i < rs.len()
        invariant
            rv == resolved_views(rs@),
            ranges_ordered(rv),
            0 <= i <= rs@.len(),
            spec_apply(content@, rv.take(i as int)) == Some((cur@, views(notes@))),
        decreases rs@.len() - i,
    {
        proof {
            assert(rv.take(i + 1).drop_last() =~= rv.take(i as int));
            assert(rv.take(i + 1).last() == rv[i as int]);
            assert(rv[i as int] == resolved_view(rs@[i as int]));
        }
        let start = rs[i].start;
        let end = rs[i].end;
        if end > cur.len() || start > cur.len() {
            proof {
                lemma_apply_ok_prefix(content@, rv, i + 1);
            }
            return None;
        }
        assert(start <= end);
        let mut next: Vec<char> = Vec::new();
        let mut k: usize = 0;
        while k < start
            invariant
                start <= end <= cur@.len(),
                0 <= k <= start,
                next@ == cur@.take(k as int),
            decreases start - k,
        {
            next.push(cur[k]);
            k = k + 1;
        }
        let rep = chars_of(rs[i].replace.as_str());
        let mut k2: usize = 0;
        while k2 < rep.len()
            invariant
                0 <= k2 <= rep@.len(),
                next@ == cur@.take(start as int) + rep@.take(k2 as int),
            decreases rep@.len() - k2,
        {
            next.push(rep[k2]);
            k2 = k2 + 1;
        }
        let mut k3: usize = end;
        while k3 < cur.len()
            invariant
                end <= k3 <= cur@.len(),
                next@ == cur@.take(start as int) + rep@ + cur@.subrange(end as int, k3 as int),
            decreases cur@.len() - k3,
        {
            proof {
                assert(rep@.take(rep@.len() as int) =~= rep@);
            }
            next.push(cur[k3]);
            k3 = k3 + 1;
        }
        proof {
            assert(rep@.take(rep@.len() as int) =~= rep@);
            assert(cur@.subrange(end as int, cur@.len() as int) =~= cur@.skip(end as int));
        }
        let note_cs = chars_of(rs[i].note.as_str());
        if note_cs.len() > 0 {
            let ghost before = notes@;
            notes.push(rs[i].note.clone());
            proof {
                assert(views(notes@) =~= views(before).push(rv[i as int].3));
            }
        }
        cur = next;
        i = i + 1;
    }
    proof {
        assert(rv.take(rs@.len() as int) =~= rv);
    }
    Some((cur, notes))
}

/// `s` with each `\r\n` turned into `\n`, as `str::replace("\r\n", "\n")`
/// gives it.
pub open spec fn crlf_to_lf(s: Seq<char>) -> Seq<char>
    decreases s.len(),
{
    if s.len() == 0 {
        s
    } else if s.len() >= 2 && s[0] == '\r' && s[1] == '\n' {
        seq!['\n'] + crlf_to_lf(s.skip(2))
    } else {
        seq![s[0]] + crlf_to_lf(s.skip(1))
    }
}

/// `s` with each `\n` turned into `\r\n`.
pub open spec fn lf_to_crlf(s: Seq<char>) -> Seq<char>
    decreases s.len(),
{
    if s.len() == 0 {
        s
    } else if s[0] == '\n' {
        seq!['\r', '\n'] + lf_to_crlf(s.skip(1))
    } else {
        seq![s[0]] + lf_to_crlf(s.skip(1))
    }
}

/// Turns each `\r\n` into `\n`.
pub fn crlf_to_lf_exec(cs: &[char]) -> (r: Vec<char>)
    ensures
        r@ == crlf_to_lf(cs@),
{
    let mut out: Vec<char> = Vec::new();
    let mut i: usize = 0;
    proof {
        assert(cs@.skip(0) =~= cs@);
    }
    while i < cs.len()
        invariant
            0 <= i <= cs@.len(),
            crlf_to_lf(cs@) == out@ + crlf_to_lf(cs@.skip(i as int)),
        decreases cs@.len() - i,
    {
        let ghost t = cs@.skip(i as int);
        if i + 1 < cs.len() && cs[i] == '\r' && cs[i + 1] == '\n' {
            proof {
                assert(t.skip(2) =~= cs@.skip(i + 2));
                assert(out@.push('\n') + crlf_to_lf(cs@.skip(i + 2)) =~= out@ + (seq!['\n'] + crlf_to_lf(t.skip(2))));
            }
            out.push('\n');
            i = i + 2;
        } else {
            proof {
                assert(t.skip(1) =~= cs@.skip(i + 1));
                assert(out@.push(cs@[i as int]) + crlf_to_lf(cs@.skip(i + 1)) =~= out@ + (seq![t[0]] + crlf_to_lf(t.skip(1))));
            }
            out.push(cs[i]);
            i = i + 1;
        }
    }
    proof {
        assert(cs@.skip(cs@.len() as int) =~= Seq::<char>::empty());
        assert(out@ + Seq::<char>::empty() =~= out@);
    }
    out
}

/// Turns each `\n` into `\r\n`.
pub fn lf_to_crlf_exec(cs: &[char]) -> (r: Vec<char>)
    ensures
        r@ == lf_to_crlf(cs@),
{
    let mut out: Vec<char> = Vec::new();
    let mut i: usize = 0;
    proof {
        assert(cs@.skip(0) =~= cs@);
    }
    while i < cs.len()
        invariant
            0 <= i <= cs@.len(),
            lf_to_crlf(cs@) == out@ + lf_to_crlf(cs@.skip(i as int)),
        decreases cs@.len() - i,
    {
        let ghost t = cs@.skip(i as int);
        proof {
            assert(t.skip(1) =~= cs@.skip(i + 1));
        }
        if cs[i] == '\n' {
            proof {
                assert(out@.push('\r').push('\n') + lf_to_crlf(cs@.skip(i + 1)) =~= out@ + (seq!['\r', '\n'] + lf_to_crlf(t.skip(1))));
            }
            out.push('\r');
            out.push('\n');
        } else {
            proof {
                assert(out@.push(cs@[i as int]) + lf_to_crlf(cs@.skip(i + 1)) =~= out@ + (seq![t[0]] + lf_to_crlf(t.skip(1))));
            }
            out.push(cs[i]);
        }
        i = i + 1;
    }
    proof {
        assert(cs@.skip(cs@.len() as int) =~= Seq::<char>::empty());
        assert(out@ + Seq::<char>::empty() =~= out@);
    }
    out
}

/// Whether the bytes hold a `\r\n` pair.
pub open spec fn has_crlf(bytes: Seq<u8>) -> bool {
    exists|i: int| 0 <= i && i + 1 < bytes.len() && bytes[i] == 13 && #[trigger] bytes[i + 1] == 10
}

/// Whether the bytes hold a `\r\n` pair.
pub fn has_crlf_exec(bytes: &[u8]) -> (r: bool)
    ensures
        r == has_crlf(bytes@),
{
    let mut i: usize = 0;
    while i < bytes.len()
        invariant
            0 <= i <= bytes@.len(),
            forall|j: int| 0 <= j < i && j + 1 < bytes@.len() ==> !(bytes@[j] == 13 && #[trigger] bytes@[j + 1] == 10),
        decreases bytes@.len() - i,
    {
        if i + 1 < bytes.len() && bytes[i] == 13 && bytes[i + 1] == 10 {
            return true;
        }
        i = i + 1;
    }
    false
}

/// Sorting keeps every range well formed and keeps the count.
proof fn lemma_sort_keeps_ranges_ordered(rs: Seq<(int, int, Seq<char>, Seq<char>)>)
    requires
        ranges_ordered(rs),
    ensures
        ranges_ordered(sort_by_start_desc(rs)),
        sort_by_start_desc(rs).len() == rs.len(),
    decreases rs.len(),
{
    if rs.len() > 0 {
        let t = sort_by_start_desc(rs.drop_last());
        assert(ranges_ordered(rs.drop_last())) by {
            assert forall|i: int| 0 <= i < rs.drop_last().len() implies (#[trigger] rs.drop_last()[i]).0 <= rs.drop_last()[i].1 by {
                assert(rs.drop_last()[i] == rs[i]);
            }
        }
        lemma_sort_keeps_ranges_ordered(rs.drop_last());
        let j = insert_pos(t, rs.last().0, 0);
        lemma_insert_pos_bounds(t, rs.last().0, 0);
        let u = t.insert(j, rs.last());
        assert forall|i: int| 0 <= i < u.len() implies (#[trigger] u[i]).0 <= u[i].1 by {
            if i < j {
                assert(u[i] == t[i]);
            } else if i == j {
                assert(u[i] == rs.last());
            } else {
                assert(u[i] == t[i - 1]);
            }
        }
    }
}

/// Resolved blocks have well-formed ranges.
proof fn lemma_resolved_ranges_ordered(
    content: Seq<char>,
    blocks: Seq<(Seq<char>, Seq<char>)>,
    path: Seq<char>,
    k: nat,
)
    ensures
        spec_resolve_prefix(content, blocks, path, k) matches Ok(rs) ==> ranges_ordered(rs),
    decreases k,
{
    if k > 0 {
        lemma_resolved_ranges_ordered(content, blocks, path, (k - 1) as nat);
        match spec_resolve_prefix(content, blocks, path, (k - 1) as nat) {
            Ok(rs) => {
                match spec_resolve(content, blocks[k - 1].0, blocks[k - 1].1, block_label((k - 1) as nat, blocks.len()), path) {
                    Ok(r) => {
                        let u = rs.push(r);
                        assert forall|i: int| 0 <= i < u.len() implies (#[trigger] u[i]).0 <= u[i].1 by {
                            if i < rs.len() {
                                assert(u[i] == rs[i]);
                            }
                        }
                    },
                    Err(_) => {},
                }
            },
            Err(_) => {},
        }
    }
}

/// The notes of an edit, each on a line of its own.
pub open spec fn notes_text(notes: Seq<Seq<char>>) -> Seq<char>
    decreases notes.len(),
{
    if notes.len() == 0 {
        Seq::empty()
    } else {
        notes_text(notes.drop_last()) + "\n  Note: "@ + notes.last()
    }
}

/// The report of a successful edit.
pub open spec fn applied_message(n: nat, path: Seq<char>, notes: Seq<Seq<char>>) -> Seq<char> {
    "Applied "@ + crate::text::decimal(n) + " edit(s) to "@ + path + notes_text(notes)
}

/// The message for a range that no longer fits the content.
pub open spec fn range_error_text() -> Seq<char> {
    "Internal error: search range exceeds file bounds. The file may have changed. Re-read and retry."@
}

/// What an edit of a file does: the blocks of `raw` are read; the file's
/// bytes are decoded (invalid UTF-8 replaced) with `\r\n` turned into `\n`;
/// every block is located; they are applied from the last start to the
/// first; a file that held a `\r\n` gets `\r\n` line ends back. The result is
/// the new text and the report, or the message of the first failure.
pub open spec fn spec_edit(raw: Seq<char>, path: Seq<char>, bytes: Seq<u8>) -> Result<(Seq<char>, Seq<char>), Seq<char>> {
    match spec_parse_blocks(raw) {
        Err(e) => Err(parse_error_text(e)),
        Ok(blocks) => {
            let content = crlf_to_lf(crate::oauth::utf8_lossy(bytes));
            match spec_resolve_prefix(content, blocks, path, blocks.len()) {
                Err(m) => Err(m),
                Ok(rs) => match spec_apply(content, sort_by_start_desc(rs)) {
                    None => Err(range_error_text()),
                    Some((modified, notes)) => Ok(
                        (
                            if has_crlf(bytes) {
                                lf_to_crlf(modified)
                            } else {
                                modified
                            },
                            applied_message(blocks.len(), path, notes),
                        ),
                    ),
                },
            }
        },
    }
}

/// The new text of an edited file and the report of the edit.
#[derive(Debug, Clone)]
pub struct EditOutcome {
    pub output: String,
    pub message: String,
}

/// Edits the file `path` whose bytes are `bytes` with the SEARCH/REPLACE
/// blocks of `raw`. A block must match its text exactly, once.
pub fn edit_content(raw: &str, path: &str, bytes: &[u8]) -> (r: Result<EditOutcome, String>)
    ensures
        match r {
            Ok(o) => spec_edit(raw@, path@, bytes@) == Ok::<_, Seq<char>>((o.output@, o.message@)),
            Err(m) => spec_edit(raw@, path@, bytes@) == Err::<(Seq<char>, Seq<char>), _>(m@),
        },
{
    let blocks = match parse_blocks(raw) {
        Ok(b) => b,
        Err(e) => {
            return Err(e.message());
        },
    };
    proof {
        lemma_scan_searches_nonempty(lines_seq(raw@));
        assert forall|i: int| 0 <= i < blocks@.len() implies (#[trigger] blocks@[i]).search@.len() > 0 by {
            assert(block_views(blocks@)[i].0 == blocks@[i].search@);
        }
    }
    let crlf = has_crlf_exec(bytes);
    let decoded = crate::oauth::from_utf8_lossy(bytes);
    let dcs = chars_of(decoded.as_str());
    let cs = crlf_to_lf_exec(dcs.as_slice());
    let resolved = match resolve_all(cs.as_slice(), &blocks, path) {
        Ok(v) => v,
        Err(m) => {
            return Err(m);
        },
    };
    proof {
        lemma_resolved_ranges_ordered(cs@, block_views(blocks@), path@, blocks@.len());
        lemma_sort_keeps_ranges_ordered(resolved_views(resolved@));
    }
    let sorted = sort_by_start_desc_exec(resolved);
    let (modified, notes) = match apply_resolved(cs, &sorted) {
        Some(x) => x,
        None => {
            return Err(
                String::from_str(
                    "Internal error: search range exceeds file bounds. The file may have changed. Re-read and retry.",
                ),
            );
        },
    };
    let out_cs = if crlf {
        lf_to_crlf_exec(modified.as_slice())
    } else {
        modified
    };
    let output = string_from_chars(out_cs.as_slice());
    let mut message = String::from_str("Applied ");
    let mut d: Vec<char> = Vec::new();
    crate::text::push_decimal(&mut d, blocks.len() as u64);
    crate::text::push_chars(&mut message, d.as_slice());
    push_str(&mut message, " edit(s) to ");
    push_str(&mut message, path);
    let ghost head = message@;
    let mut k: usize = 0;
    proof {
        assert(views(notes@).take(0) =~= Seq::<Seq<char>>::empty());
    }
    while k < notes.len()
        invariant
            0 <= k <= notes@.len(),
            message@ == head + notes_text(views(notes@).take(k as int)),
        decreases notes@.len() - k,
    {
        proof {
            assert(views(notes@).take(k + 1).drop_last() =~= views(notes@).take(k as int));
        }
        push_str(&mut message, "\n  Note: ");
        push_str(&mut message, notes[k].as_str());
        k = k + 1;
    }
    proof {
        assert(views(notes@).take(notes@.len() as int) =~= views(notes@));
    }
    Ok(EditOutcome { output, message })
}

/// Applying from the last range to the first keeps each range valid:
/// when the ranges lie within the content, each ending no later than the
/// previous one starts, every replacement finds its range in place and the
/// content before the first range is untouched.
pub proof fn lemma_descending_ranges_apply(content: Seq<char>, rs: Seq<(int, int, Seq<char>, Seq<char>)>)
    requires
        ranges_ordered(rs),
        forall|i: int| 0 <= i < rs.len() ==> 0 <= #[trigger] rs[i].0,
        rs.len() > 0 ==> rs[0].1 <= content.len(),
        forall|i: int| 0 <= i < rs.len() - 1 ==> #[trigger] rs[i + 1].1 <= rs[i].0,
    ensures
        spec_apply(content, rs) is Some,
        rs.len() > 0 ==> match spec_apply(content, rs) {
            Some((c, _)) => {
                let k = rs.last().0;
                0 <= k <= c.len() && k <= content.len() && c.take(k) == content.take(k)
            },
            None => false,
        },
    decreases rs.len(),
{
    if rs.len() > 0 {
        let t = rs.drop_last();
        assert(ranges_ordered(t)) by {
            assert forall|i: int| 0 <= i < t.len() implies (#[trigger] t[i]).0 <= t[i].1 by {
                assert(t[i] == rs[i]);
            }
        }
        assert forall|i: int| 0 <= i < t.len() - 1 implies #[trigger] t[i + 1].1 <= t[i].0 by {
            assert(t[i + 1] == rs[i + 1]);
            assert(t[i] == rs[i]);
        }
        assert forall|i: int| 0 <= i < t.len() implies 0 <= #[trigger] t[i].0 by {
            assert(t[i] == rs[i]);
        }
        lemma_descending_ranges_apply(content, t);
        let r = rs.last();
        assert(0 <= rs[rs.len() - 1].0);
        assert(r.0 <= r.1);
        if t.len() == 0 {
            assert(spec_apply(content, t) == Some((content, Seq::<Seq<char>>::empty())));
        } else {
            let i = rs.len() - 2;
            assert(rs[i + 1].1 <= rs[i].0);
            assert(t.last() == rs[i]);
        }
        let c = match spec_apply(content, t) {
            Some((c, _)) => c,
            None => content,
        };
        assert(r.1 <= c.len());
        let c2 = c.take(r.0) + r.2 + c.skip(r.1);
        assert(c2.take(r.0) =~= c.take(r.0));
        if t.len() > 0 {
            let k = t.last().0;
            assert(c.take(r.0) =~= c.take(k).take(r.0));
            assert(content.take(r.0) =~= content.take(k).take(r.0));
        }
    }
}

/// Turning `\r\n` into `\n` and back gives the text again, when every `\n`
/// of it comes right after a `\r`: a file with only `\r\n` line ends keeps
/// them through an edit that adds none.
pub proof fn lemma_crlf_round_trip(s: Seq<char>)
    requires
        forall|i: int| 0 <= i < s.len() && #[trigger] s[i] == '\n' ==> i > 0 && s[i - 1] == '\r',
    ensures
        lf_to_crlf(crlf_to_lf(s)) == s,
    decreases s.len(),
{
    if s.len() == 0 {
    } else if s.len() >= 2 && s[0] == '\r' && s[1] == '\n' {
        let t = s.skip(2);
        assert forall|i: int| 0 <= i < t.len() && #[trigger] t[i] == '\n' implies i > 0 && t[i - 1] == '\r' by {
            assert(t[i] == s[i + 2]);
            if i == 0 {
                assert(s[1] == '\n');
            } else {
                assert(t[i - 1] == s[i + 1]);
            }
        }
        lemma_crlf_round_trip(t);
        let c = crlf_to_lf(t);
        assert((seq!['\n'] + c)[0] == '\n');
        assert((seq!['\n'] + c).skip(1) =~= c);
        assert(s =~= seq!['\r', '\n'] + t);
    } else {
        let t = s.skip(1);
        assert(s[0] != '\n');
        assert forall|i: int| 0 <= i < t.len() && #[trigger] t[i] == '\n' implies i > 0 && t[i - 1] == '\r' by {
            assert(t[i] == s[i + 1]);
            if i == 0 {
                assert(s[0] == '\r' && s[1] == '\n');
            } else {
                assert(t[i - 1] == s[i]);
            }
        }
        lemma_crlf_round_trip(t);
        let c = crlf_to_lf(t);
        assert((seq![s[0]] + c)[0] == s[0]);
        assert((seq![s[0]] + c).skip(1) =~= c);
        assert(s =~= seq![s[0]] + t);
    }
}

/// The edit tool. The permission checker and the channel that asks the user
/// are the application's types, carried through unchanged.
pub struct EditTool<P, A> {
    pub permission: Option<P>,
    pub ask_tx: Option<A>,
}

impl<P, A> EditTool<P, A> {
    /// An edit tool with the given permission checker and ask channel.
    pub fn new(permission: Option<P>, ask_tx: Option<A>) -> (r: Self)
        ensures
            r.permission == permission,
            r.ask_tx == ask_tx,
    {
        EditTool { permission, ask_tx }
    }

    /// The tool's name, description and argument schema.
    pub fn definition(&self) -> (r: crate::schema::ToolSpec)
        ensures
            r.name@ == "edit"@,
            r.description@ == edit_description_text(),
            r.parameters@ == crate::schema::edit_parameters_schema(),
    {
        crate::schema::ToolSpec {
            name: String::from_str("edit"),
            description: String::from_str(
                "Edit a file using aider-style SEARCH/REPLACE blocks. Each block finds exact text and replaces it. Multiple blocks in one call are applied atomically. If the search text is not an exact match, whitespace normalization and fuzzy matching are attempted as fallbacks.",
            ),
            parameters: crate::schema::edit_parameters(),
        }
    }
}

/// What the edit tool says of itself.
pub open spec fn edit_description_text() -> Seq<char> {
    "Edit a file using aider-style SEARCH/REPLACE blocks. Each block finds exact text and replaces it. Multiple blocks in one call are applied atomically. If the search text is not an exact match, whitespace normalization and fuzzy matching are attempted as fallbacks."@
}

/// The walk that maps a range of the whitespace-normalized content back to
/// the original: line by line, with the length of each original line and
/// of its normalized form (each followed by a newline), the range starts
/// on the first line whose normalized end reaches the normalized start,
/// and ends at the end of the first line, from there, whose normalized end
/// (newline included) reaches the normalized end; without such a line it
/// runs to the end of the content.
pub open spec fn range_walk(
    lines: Seq<(usize, usize)>,
    i: int,
    norm_pos: int,
    norm_end: int,
    found: bool,
    start: int,
    orig_end: int,
    norm_byte: int,
    content_len: int,
) -> (int, int)
    decreases lines.len() - i,
{
    if i < 0 || i >= lines.len() {
        (start, content_len)
    } else {
        let ol = lines[i].0 as int;
        let nl = lines[i].1 as int;
        let starts_here = !found && norm_byte + nl >= norm_pos;
        let found2 = found || starts_here;
        let start2 = if starts_here {
            orig_end
        } else {
            start
        };
        if found2 && norm_byte + nl + 1 >= norm_end {
            (start2, orig_end + ol)
        } else {
            range_walk(
                lines,
                i + 1,
                norm_pos,
                norm_end,
                found2,
                start2,
                orig_end + ol + 1,
                norm_byte + nl + 1,
                content_len,
            )
        }
    }
}

/// The total of the original line lengths, each with its newline.
pub open spec fn orig_total(lines: Seq<(usize, usize)>) -> int
    decreases lines.len(),
{
    if lines.len() == 0 {
        0
    } else {
        orig_total(lines.drop_last()) + lines.last().0 + 1
    }
}

/// The total of the normalized line lengths, each with its newline.
pub open spec fn norm_total(lines: Seq<(usize, usize)>) -> int
    decreases lines.len(),
{
    if lines.len() == 0 {
        0
    } else {
        norm_total(lines.drop_last()) + lines.last().1 + 1
    }
}

/// The line totals grow line by line and stay within the whole.
pub(crate) proof fn lemma_totals_prefix(lines: Seq<(usize, usize)>, i: int)
    requires
        0 <= i < lines.len(),
    ensures
        orig_total(lines.take(i + 1)) == orig_total(lines.take(i)) + lines[i].0 + 1,
        norm_total(lines.take(i + 1)) == norm_total(lines.take(i)) + lines[i].1 + 1,
        orig_total(lines.take(i + 1)) <= orig_total(lines),
        norm_total(lines.take(i + 1)) <= norm_total(lines),
    decreases lines.len() - i,
{
    assert(lines.take(i + 1).drop_last() =~= lines.take(i));
    if i + 1 < lines.len() {
        lemma_totals_prefix(lines, i + 1);
    } else {
        assert(lines.take(i + 1) =~= lines);
    }
}

/// The range `[start, end)` of the original content that the range of
/// `norm_len` characters at `norm_pos` of the normalized content comes from.
/// `lines` gives, for each line of the content, its length and the length
/// of its normalized form; `content_norm_len` is the length of the whole
/// normalized content.
pub fn compute_byte_range(
    lines: &[(usize, usize)],
    content_len: usize,
    content_norm_len: usize,
    norm_pos: usize,
    norm_len: usize,
) -> (r: (usize, usize))
    requires
        norm_pos + norm_len <= usize::MAX,
        orig_total(lines@) <= usize::MAX,
        norm_total(lines@) <= usize::MAX,
    ensures
        (r.0 as int, r.1 as int) == range_walk(
            lines@,
            0,
            norm_pos as int,
            if norm_pos + norm_len <= content_norm_len {
                norm_pos + norm_len
            } else {
                content_norm_len as int
            },
            false,
            0,
            0,
            0,
            content_len as int,
        ),
{
    let norm_end = if norm_pos + norm_len <= content_norm_len {
        norm_pos + norm_len
    } else {
        content_norm_len
    };
    let mut orig_byte_start: usize = 0;
    let mut orig_byte_end: usize = 0;
    let mut norm_byte: usize = 0;
    let mut found_start = false;
    let mut i: usize = 0;
    proof {
        assert(lines@.take(0) =~= Seq::<(usize, usize)>::empty());
    }
    while i < lines.len()
        invariant
            0 <= i <= lines@.len(),
            orig_total(lines@) <= usize::MAX,
            norm_total(lines@) <= usize::MAX,
            orig_byte_end as int == orig_total(lines@.take(i as int)),
            norm_byte as int == norm_total(lines@.take(i as int)),
            norm_end as int == if norm_pos + norm_len <= content_norm_len {
                norm_pos + norm_len
            } else {
                content_norm_len as int
            },
            range_walk(lines@, 0, norm_pos as int, norm_end as int, false, 0, 0, 0, content_len as int)
                == range_walk(
                lines@,
                i as int,
                norm_pos as int,
                norm_end as int,
                found_start,
                orig_byte_start as int,
                orig_byte_end as int,
                norm_byte as int,
                content_len as int,
            ),
        decreases lines@.len() - i,
    {
        proof {
            lemma_totals_prefix(lines@, i as int);
        }
        let ol = lines[i].0;
        let nl = lines[i].1;
        if !found_start && norm_byte + nl >= norm_pos {
            found_start = true;
            orig_byte_start = orig_byte_end;
        }
        if found_start && norm_byte + nl + 1 >= norm_end {
            return (orig_byte_start, orig_byte_end + ol);
        }
        orig_byte_end = orig_byte_end + ol + 1;
        norm_byte = norm_byte + nl + 1;
        i = i + 1;
    }
    (orig_byte_start, content_len)
}

} // verus!
