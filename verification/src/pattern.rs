//! Permission patterns: shell-style globs over commands and paths, matched
//! through the `regex` crate.

use vstd::prelude::*;

use crate::fs::home_dir;
use crate::text::{chars_equal, chars_of, chars_start_with, push_chars, slice_range, starts_with};

verus! {

/// Whether `regex::Regex::new` accepts the pattern.
pub uninterp spec fn regex_valid(pattern: Seq<char>) -> bool;

/// Whether the regex compiled from `pattern` matches somewhere in
/// `haystack`.
pub uninterp spec fn regex_matches(pattern: Seq<char>, haystack: Seq<char>) -> bool;

/// Whether `regex::Regex::new` accepts `pattern` (it rejects invalid syntax
/// and patterns whose compiled form exceeds the size limit).
#[verifier::external_body]
fn regex_compiles(pattern: &str) -> (r: bool)
    ensures
        r == regex_valid(pattern@),
{
    regex::Regex::new(pattern).is_ok()
}

/// `regex::Regex::is_match` on the regex compiled from `pattern`: whether it
/// matches anywhere in `haystack`. Claimed to be a function of the two texts
/// alone; for a pattern that does not compile the result is `false`, which
/// nothing here relies on.
#[verifier::external_body]
fn regex_is_match(pattern: &str, haystack: &str) -> (r: bool)
    ensures
        r == regex_matches(pattern@, haystack@),
{
    regex::Regex::new(pattern).map(|re| re.is_match(haystack)).unwrap_or(false)
}

/// The regex for a glob that starts at position `i` of `p`: `**/` matches
/// any number of leading directories, `**` anything, `*` anything within one
/// path component, `?` one character; regex metacharacters stand for
/// themselves; everything else is copied.
pub open spec fn glob_from(p: Seq<char>, i: int) -> Seq<char>
    decreases p.len() - i,
{
    if i < 0 || i >= p.len() {
        seq![]
    } else {
        let c = p[i];
        if c == '*' {
            if i + 1 < p.len() && p[i + 1] == '*' {
                if i + 2 < p.len() && p[i + 2] == '/' {
                    seq!['(', '?', ':', '.', '*', '/', ')', '?'] + glob_from(p, i + 3)
                } else {
                    seq!['.', '*'] + glob_from(p, i + 2)
                }
            } else {
                seq!['[', '^', '/', ']', '*'] + glob_from(p, i + 1)
            }
        } else if c == '?' {
            seq!['.'] + glob_from(p, i + 1)
        } else if is_regex_special(c) {
            seq!['\\', c] + glob_from(p, i + 1)
        } else {
            seq![c] + glob_from(p, i + 1)
        }
    }
}

/// The characters a glob escapes because they mean something in a regex.
pub open spec fn is_regex_special(c: char) -> bool {
    c == '.' || c == '\\' || c == '(' || c == ')' || c == '[' || c == ']' || c == '{' || c
        == '}' || c == '+' || c == '^' || c == '$' || c == '|'
}

/// The anchored regex that matches exactly the texts the glob `p` matches.
pub open spec fn spec_glob_to_regex(p: Seq<char>) -> Seq<char> {
    seq!['^'] + glob_from(p, 0) + seq!['$']
}

/// What follows a prefix translates as it would alone.
proof fn lemma_glob_shift(x: Seq<char>, y: Seq<char>, j: int)
    requires
        0 <= j <= y.len(),
    ensures
        glob_from(x + y, x.len() + j) == glob_from(y, j),
    decreases y.len() - j,
{
    let z = x + y;
    if j < y.len() {
        assert(z[x.len() + j] == y[j]);
        if j + 1 < y.len() {
            assert(z[x.len() + j + 1] == y[j + 1]);
        }
        if j + 2 < y.len() {
            assert(z[x.len() + j + 2] == y[j + 2]);
        }
        if j + 3 <= y.len() {
            lemma_glob_shift(x, y, j + 3);
        }
        if j + 2 <= y.len() {
            lemma_glob_shift(x, y, j + 2);
        }
        lemma_glob_shift(x, y, j + 1);
    }
}

/// A glob without `*` translates character by character, so text after it
/// translates as it would alone.
proof fn lemma_glob_concat(a: Seq<char>, b: Seq<char>, i: int)
    requires
        0 <= i <= a.len(),
        forall|k: int| 0 <= k < a.len() ==> a[k] != '*',
    ensures
        glob_from(a + b, i) == glob_from(a, i) + glob_from(b, 0),
    decreases a.len() - i,
{
    if i == a.len() {
        lemma_glob_shift(a, b, 0);
        assert(glob_from(a, i) =~= Seq::<char>::empty());
        assert(glob_from(a + b, i) + Seq::<char>::empty() =~= glob_from(a + b, i));
    } else {
        assert((a + b)[i] == a[i]);
        lemma_glob_concat(a, b, i + 1);
        let c = a[i];
        if c == '?' {
            assert(glob_from(a + b, i) =~= seq!['.'] + (glob_from(a, i + 1) + glob_from(b, 0)));
        } else if is_regex_special(c) {
            assert(glob_from(a + b, i) =~= seq!['\\', c] + (glob_from(a, i + 1) + glob_from(b, 0)));
        } else {
            assert(glob_from(a + b, i) =~= seq![c] + (glob_from(a, i + 1) + glob_from(b, 0)));
        }
    }
}

/// `**` not followed by `/` matches any text, `/` included: after a plain
/// prefix `a`, it becomes `.*` between the translations of `a` and of what
/// follows. So `src/**` becomes `^src/.*$`, which matches every path under
/// `src/` however deep.
pub proof fn lemma_double_star_matches_anything(a: Seq<char>, b: Seq<char>)
    requires
        forall|k: int| 0 <= k < a.len() ==> a[k] != '*',
        b.len() == 0 || b[0] != '/',
    ensures
        spec_glob_to_regex(a + "**"@ + b) == seq!['^'] + glob_from(a, 0) + seq!['.', '*'] + glob_from(b, 0)
            + seq!['$'],
{
    reveal_strlit("**");
    let ds = seq!['*', '*'];
    assert("**"@ =~= ds);
    let rest = ds + b;
    assert(a + "**"@ + b =~= a + rest);
    lemma_glob_concat(a, rest, 0);
    assert(rest[0] == '*' && rest[1] == '*');
    lemma_glob_shift(ds, b, 0);
    if rest.len() > 2 {
        assert(rest[2] == b[0]);
    }
    assert(glob_from(rest, 0) == seq!['.', '*'] + glob_from(rest, 2));
    assert(ds.len() == 2);
    assert(glob_from(rest, 0) =~= seq!['.', '*'] + glob_from(b, 0));
    assert(spec_glob_to_regex(a + "**"@ + b) =~= seq!['^'] + glob_from(a, 0) + seq!['.', '*'] + glob_from(b, 0)
        + seq!['$']);
}

/// A single `*` stays within one path component (`[^/]*`), and `**/`
/// matches any number of leading directories (`(?:.*/)?`), after a plain
/// prefix `a` and before the rest `b`.
pub proof fn lemma_single_star_and_dir_star(a: Seq<char>, b: Seq<char>)
    requires
        forall|k: int| 0 <= k < a.len() ==> a[k] != '*',
    ensures
        (b.len() == 0 || b[0] != '*') ==> spec_glob_to_regex(a + seq!['*'] + b) == seq!['^'] + glob_from(a, 0)
            + seq!['[', '^', '/', ']', '*'] + glob_from(b, 0) + seq!['$'],
        spec_glob_to_regex(a + seq!['*', '*', '/'] + b) == seq!['^'] + glob_from(a, 0) + seq![
            '(',
            '?',
            ':',
            '.',
            '*',
            '/',
            ')',
            '?',
        ] + glob_from(b, 0) + seq!['$'],
{
    let one = seq!['*'];
    let r1 = one + b;
    assert(a + seq!['*'] + b =~= a + r1);
    lemma_glob_concat(a, r1, 0);
    lemma_glob_shift(one, b, 0);
    if b.len() == 0 || b[0] != '*' {
        if r1.len() > 1 {
            assert(r1[1] == b[0]);
        }
        assert(glob_from(r1, 0) == seq!['[', '^', '/', ']', '*'] + glob_from(r1, 1));
        assert(spec_glob_to_regex(a + seq!['*'] + b) =~= seq!['^'] + glob_from(a, 0) + seq![
            '[',
            '^',
            '/',
            ']',
            '*',
        ] + glob_from(b, 0) + seq!['$']);
    }
    let three = seq!['*', '*', '/'];
    let r3 = three + b;
    assert(a + seq!['*', '*', '/'] + b =~= a + r3);
    lemma_glob_concat(a, r3, 0);
    lemma_glob_shift(three, b, 0);
    assert(r3[0] == '*' && r3[1] == '*' && r3[2] == '/');
    assert(glob_from(r3, 0) == seq!['(', '?', ':', '.', '*', '/', ')', '?'] + glob_from(r3, 3));
    assert(spec_glob_to_regex(a + seq!['*', '*', '/'] + b) =~= seq!['^'] + glob_from(a, 0) + seq![
        '(',
        '?',
        ':',
        '.',
        '*',
        '/',
        ')',
        '?',
    ] + glob_from(b, 0) + seq!['$']);
}

/// Translates a glob into an anchored regex.
pub fn glob_to_regex(pattern: &str) -> (r: String)
    ensures
        r@ == spec_glob_to_regex(pattern@),
{
    let p = chars_of(pattern);
    let mut re: Vec<char> = vec!['^'];
    let mut i: usize = 0;
    assert(re@ =~= seq!['^']);
    while i < p.len()
        invariant
            p@ == pattern@,
            0 <= i <= p.len(),
            seq!['^'] + glob_from(p@, 0) == re@ + glob_from(p@, i as int),
        decreases p.len() - i,
    {
        let ghost before = re@;
        let c = p[i];
        let piece: Vec<char>;
        let step: usize;
        if c == '*' {
            if i + 1 < p.len() && p[i + 1] == '*' {
                if i + 2 < p.len() && p[i + 2] == '/' {
                    piece = vec!['(', '?', ':', '.', '*', '/', ')', '?'];
                    step = 3;
                } else {
                    piece = vec!['.', '*'];
                    step = 2;
                }
            } else {
                piece = vec!['[', '^', '/', ']', '*'];
                step = 1;
            }
        } else if c == '?' {
            piece = vec!['.'];
            step = 1;
        } else if c == '.' || c == '\\' || c == '(' || c == ')' || c == '[' || c == ']' || c
            == '{' || c == '}' || c == '+' || c == '^' || c == '$' || c == '|' {
            piece = vec!['\\', c];
            step = 1;
        } else {
            piece = vec![c];
            step = 1;
        }
        assert(glob_from(p@, i as int) == piece@ + glob_from(p@, i + step));
        let mut k: usize = 0;
        while k < piece.len()
            invariant
                0 <= k <= piece.len(),
                re@ == before + piece@.take(k as int),
            decreases piece.len() - k,
        {
            re.push(piece[k]);
            k = k + 1;
            assert(piece@.take(k as int) == piece@.take(k - 1).push(piece@[k - 1]));
        }
        assert(piece@.take(piece.len() as int) == piece@);
        assert(re@ + glob_from(p@, i + step) == before + glob_from(p@, i as int));
        i = i + step;
    }
    re.push('$');
    assert(glob_from(p@, i as int) =~= seq![]);
    let mut out = String::new();
    push_chars(&mut out, re.as_slice());
    out
}

/// `p` with a leading `~` or `$HOME` (alone, or followed by `/`) replaced by
/// the home directory, joined with a plain `/`; unchanged without such a
/// prefix or without a home directory.
pub open spec fn spec_expand_home(p: Seq<char>, home: Option<Seq<char>>) -> Seq<char> {
    if p == seq!['~'] || p == seq!['$', 'H', 'O', 'M', 'E'] {
        match home {
            Some(h) => h,
            None => p,
        }
    } else if starts_with(p, seq!['~', '/']) {
        match home {
            Some(h) => h.push('/') + p.skip(2),
            None => p,
        }
    } else if starts_with(p, seq!['$', 'H', 'O', 'M', 'E', '/']) {
        match home {
            Some(h) => h.push('/') + p.skip(6),
            None => p,
        }
    } else {
        p
    }
}

/// Expands `~` and `$HOME` at the start of a pattern against `home`.
pub fn expand_home(pattern: &str, home: Option<&str>) -> (r: String)
    ensures
        r@ == spec_expand_home(
            pattern@,
            match home {
                Some(h) => Some(h@),
                None => None,
            },
        ),
{
    let cs = chars_of(pattern);
    let tilde = vec!['~'];
    let dollar_home = vec!['$', 'H', 'O', 'M', 'E'];
    let tilde_slash = vec!['~', '/'];
    let dollar_home_slash = vec!['$', 'H', 'O', 'M', 'E', '/'];
    assert(tilde@ =~= seq!['~'] && dollar_home@ =~= seq!['$', 'H', 'O', 'M', 'E']);
    assert(tilde_slash@ =~= seq!['~', '/'] && dollar_home_slash@ =~= seq![
        '$',
        'H',
        'O',
        'M',
        'E',
        '/',
    ]);
    let mut out = String::new();
    if chars_equal(cs.as_slice(), tilde.as_slice()) || chars_equal(
        cs.as_slice(),
        dollar_home.as_slice(),
    ) {
        match home {
            Some(h) => push_chars(&mut out, chars_of(h).as_slice()),
            None => push_chars(&mut out, cs.as_slice()),
        }
        return out;
    }
    let skip: usize = if chars_start_with(cs.as_slice(), tilde_slash.as_slice()) {
        2
    } else if chars_start_with(cs.as_slice(), dollar_home_slash.as_slice()) {
        6
    } else {
        0
    };
    match home {
        Some(h) if skip > 0 => {
            push_chars(&mut out, chars_of(h).as_slice());
            crate::text::push_char(&mut out, '/');
            push_chars(&mut out, slice_range(cs.as_slice(), skip, cs.len()).as_slice());
        },
        _ => push_chars(&mut out, cs.as_slice()),
    }
    out
}

/// The regex a pattern is matched with once `~` expanded to `home`: the
/// translated glob when the regex crate accepts it, else `^$`, which
/// matches only the empty text.
pub open spec fn spec_pattern_regex(pattern: Seq<char>, home: Option<Seq<char>>) -> Seq<char> {
    let re = spec_glob_to_regex(spec_expand_home(pattern, home));
    if regex_valid(re) {
        re
    } else {
        seq!['^', '$']
    }
}

/// A permission pattern: a glob with `~`/`$HOME` expanded, kept as the
/// regex it translates to.
#[derive(Debug, Clone)]
pub struct Pattern {
    /// The regex the input is matched against.
    pub regex: String,
    pub original: String,
}

impl Pattern {
    /// The regex this pattern matches with.
    pub open spec fn regex_text(&self) -> Seq<char> {
        self.regex@
    }

    /// The pattern for `pattern` with `~` expanded against `home`.
    pub fn with_home(pattern: &str, home: Option<&str>) -> (r: Self)
        ensures
            r.regex_text() == spec_pattern_regex(
                pattern@,
                match home {
                    Some(h) => Some(h@),
                    None => None,
                },
            ),
            r.original@ == pattern@,
    {
        let expanded = expand_home(pattern, home);
        let re = glob_to_regex(expanded.as_str());
        let regex = if regex_compiles(re.as_str()) {
            re
        } else {
            String::from_str("^$")
        };
        proof {
            reveal_strlit("^$");
        }
        assert("^$"@ =~= seq!['^', '$']);
        Pattern { regex, original: String::from_str(pattern) }
    }

    /// The pattern for `pattern` with `~` expanded against the current
    /// user's home directory.
    pub fn new(pattern: &str) -> (r: Self)
        ensures
            exists|h: Option<Seq<char>>| r.regex_text() == spec_pattern_regex(pattern@, h),
            r.original@ == pattern@,
    {
        let home = home_dir();
        match &home {
            Some(h) => Self::with_home(pattern, Some(h.as_str())),
            None => Self::with_home(pattern, None),
        }
    }

    /// Whether `input` matches this pattern.
    pub fn matches(&self, input: &str) -> (r: bool)
        ensures
            r == regex_matches(self.regex_text(), input@),
    {
        regex_is_match(self.regex.as_str(), input)
    }
}

} // verus!
