//! Paths as text: joining, and expanding `~` and `$HOME` to the user's home
//! directory.

use vstd::prelude::*;

use crate::text::{chars_equal, chars_of, chars_start_with, push_chars, slice_range, starts_with};

verus! {

/// The user's home directory, as `dirs::home_dir` reports it for this
/// process; `None` when it cannot be determined.
///
/// What is returned depends on the environment (`$HOME`, the password
/// database), so nothing is stated of it.
#[verifier::external_body]
pub(crate) fn home_dir() -> Option<String> {
    dirs::home_dir().map(|p| p.to_string_lossy().to_string())
}

/// `base` joined with `rest` as `Path::join` does on Unix: an absolute
/// `rest` replaces `base`; otherwise a `/` is put between them unless `base`
/// is empty or already ends in `/`.
pub open spec fn spec_join_path(base: Seq<char>, rest: Seq<char>) -> Seq<char> {
    if rest.len() > 0 && rest[0] == '/' {
        rest
    } else if base.len() > 0 && base.last() != '/' {
        base.push('/') + rest
    } else {
        base + rest
    }
}

/// Joins two paths as `Path::join` does on Unix.
pub fn join_path(base: &str, rest: &str) -> (r: String)
    ensures
        r@ == spec_join_path(base@, rest@),
{
    let b = chars_of(base);
    let t = chars_of(rest);
    let mut out = String::new();
    if t.len() > 0 && t[0] == '/' {
        push_chars(&mut out, t.as_slice());
        return out;
    }
    push_chars(&mut out, b.as_slice());
    if b.len() > 0 && b[b.len() - 1] != '/' {
        crate::text::push_char(&mut out, '/');
    }
    push_chars(&mut out, t.as_slice());
    out
}

/// `s` with a leading `~` or `$HOME` (alone, or followed by `/`) replaced by
/// `home` through `Path::join`; `s` unchanged when it has no such prefix or
/// the home directory is unknown.
pub open spec fn spec_expand_tilde(s: Seq<char>, home: Option<Seq<char>>) -> Seq<char> {
    if s == seq!['~'] || s == seq!['$', 'H', 'O', 'M', 'E'] {
        match home {
            Some(h) => h,
            None => s,
        }
    } else if starts_with(s, seq!['~', '/']) {
        match home {
            Some(h) => spec_join_path(h, s.skip(2)),
            None => s,
        }
    } else if starts_with(s, seq!['$', 'H', 'O', 'M', 'E', '/']) {
        match home {
            Some(h) => spec_join_path(h, s.skip(6)),
            None => s,
        }
    } else {
        s
    }
}

/// Expands `~` and `$HOME` in `s` against the home directory `home`.
pub fn expand_tilde_with_home(s: &str, home: Option<&str>) -> (r: String)
    ensures
        r@ == spec_expand_tilde(
            s@,
            match home {
                Some(h) => Some(h@),
                None => None,
            },
        ),
{
    let cs = chars_of(s);
    let tilde = vec!['~'];
    let dollar_home = vec!['$', 'H', 'O', 'M', 'E'];
    let tilde_slash = vec!['~', '/'];
    let dollar_home_slash = vec!['$', 'H', 'O', 'M', 'E', '/'];
    assert(tilde@ =~= seq!['~'] && dollar_home@ =~= seq!['$', 'H', 'O', 'M', 'E']);
    assert(tilde_slash@ =~= seq!['~', '/'] && dollar_home_slash@ =~= seq![
        '$',
        'H',
        'O',
        'M',
        'E',
        '/',
    ]);
    let mut out = String::new();
    if chars_equal(cs.as_slice(), tilde.as_slice()) || chars_equal(
        cs.as_slice(),
        dollar_home.as_slice(),
    ) {
        match home {
            Some(h) => push_chars(&mut out, chars_of(h).as_slice()),
            None => push_chars(&mut out, cs.as_slice()),
        }
        return out;
    }
    let skip: usize = if chars_start_with(cs.as_slice(), tilde_slash.as_slice()) {
        2
    } else if chars_start_with(cs.as_slice(), dollar_home_slash.as_slice()) {
        6
    } else {
        0
    };
    if skip == 0 {
        push_chars(&mut out, cs.as_slice());
        return out;
    }
    match home {
        Some(h) => {
            let rest = crate::text::string_from_chars(
                slice_range(cs.as_slice(), skip, cs.len()).as_slice(),
            );
            join_path(h, rest.as_str())
        },
        None => {
            push_chars(&mut out, cs.as_slice());
            out
        },
    }
}

/// Expands `~` and `$HOME` in `s` against the current user's home
/// directory (see [`expand_tilde_with_home`]).
pub fn expand_tilde(s: &str) -> (r: String)
    ensures
        exists|h: Option<Seq<char>>| r@ == spec_expand_tilde(s@, h),
{
    let home = home_dir();
    let r = match &home {
        Some(h) => expand_tilde_with_home(s, Some(h.as_str())),
        None => expand_tilde_with_home(s, None),
    };
    assert(r@ == spec_expand_tilde(
        s@,
        match home {
            Some(h) => Some(h@),
            None => None,
        },
    ));
    r
}

} // verus!
