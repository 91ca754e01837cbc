//! Capping text at a byte budget without splitting a character.

use vstd::prelude::*;
use vstd::string::StringSliceAdditionalSpecFns;
use vstd::utf8::{encode_scalar, encode_utf8};

use crate::text::{chars_of, push_chars, push_str, slice_range};

verus! {

/// The number of bytes `cs` takes in UTF-8.
pub open spec fn utf8_len(cs: Seq<char>) -> nat {
    encode_utf8(cs).len()
}

/// The number of bytes `c` takes in UTF-8.
pub open spec fn char_utf8_len(c: char) -> nat {
    encode_scalar(c as u32).len()
}

/// How many leading characters of `cs` fit in `budget` bytes.
pub open spec fn fitting_chars(cs: Seq<char>, budget: int) -> nat
    decreases cs.len(),
{
    if cs.len() == 0 || char_utf8_len(cs[0]) > budget {
        0
    } else {
        1 + fitting_chars(cs.drop_first(), budget - char_utf8_len(cs[0]))
    }
}

/// `s` if it fits in `max` bytes; otherwise its longest character prefix
/// that fits, followed by `marker`.
pub open spec fn spec_truncate_cjk(s: Seq<char>, max: nat, marker: Seq<char>) -> Seq<char> {
    if utf8_len(s) <= max {
        s
    } else {
        s.take(fitting_chars(s, max as int) as int) + marker
    }
}

/// The UTF-8 width of `c`: 1 to 4 bytes by code point.
pub fn char_width(c: char) -> (w: usize)
    ensures
        w == char_utf8_len(c),
        1 <= w <= 4,
{
    proof {
        vstd::utf8::char_is_scalar(c);
    }
    let u = c as u32;
    if u <= 0x7f {
        1
    } else if u <= 0x7ff {
        2
    } else if u <= 0xffff {
        3
    } else {
        4
    }
}

/// The bytes of a prefix are the bytes of its characters, one at a time.
proof fn lemma_encode_take(s: Seq<char>, k: int)
    requires
        0 <= k < s.len(),
    ensures
        utf8_len(s.take(k + 1)) == utf8_len(s.take(k)) + char_utf8_len(s[k]),
    decreases k,
{
    let a = s.take(k + 1);
    let b = s.take(k);
    assert(encode_utf8(a) == encode_scalar(a[0] as u32) + encode_utf8(a.drop_first()));
    if k == 0 {
        assert(a.drop_first() =~= seq![]);
        assert(b =~= seq![]);
        assert(encode_utf8(b) == Seq::<u8>::empty());
        assert(encode_utf8(a.drop_first()) == Seq::<u8>::empty());
    } else {
        let t = s.drop_first();
        lemma_encode_take(t, k - 1);
        assert(encode_utf8(b) == encode_scalar(b[0] as u32) + encode_utf8(b.drop_first()));
        assert(a.drop_first() =~= t.take(k));
        assert(b.drop_first() =~= t.take(k - 1));
        assert(t[k - 1] == s[k]);
    }
}

/// A prefix takes no more bytes than the whole.
proof fn lemma_prefix_len_mono(s: Seq<char>, j: int)
    requires
        0 <= j <= s.len(),
    ensures
        utf8_len(s.take(j)) <= utf8_len(s.take(s.len() as int)),
    decreases s.len() - j,
{
    if j < s.len() {
        lemma_encode_take(s, j);
        lemma_prefix_len_mono(s, j + 1);
    }
}

/// Prefixes fill the budget in step with `fitting_chars`: after the first
/// `k` characters (which fit), the rest fits exactly as far.
proof fn lemma_fitting_step(s: Seq<char>, k: int, budget: int)
    requires
        0 <= k <= s.len(),
        utf8_len(s.take(k)) <= budget,
        fitting_chars(s, budget) == k + fitting_chars(s.skip(k), budget - utf8_len(s.take(k))),
    ensures
        k < s.len() && utf8_len(s.take(k)) + char_utf8_len(s[k]) <= budget ==> {
            &&& fitting_chars(s, budget) == (k + 1) + fitting_chars(
                s.skip(k + 1),
                budget - utf8_len(s.take(k + 1)),
            )
            &&& utf8_len(s.take(k + 1)) <= budget
            &&& utf8_len(s.take(k + 1)) == utf8_len(s.take(k)) + char_utf8_len(s[k])
        },
        k == s.len() || utf8_len(s.take(k)) + char_utf8_len(s[k]) > budget
            ==> fitting_chars(s, budget) == k,
{
    if k < s.len() {
        lemma_encode_take(s, k);
        assert(s.skip(k)[0] == s[k]);
        assert(s.skip(k).drop_first() =~= s.skip(k + 1));
    } else {
        assert(s.skip(k) =~= seq![]);
    }
}

/// A character takes at most four bytes, so text takes at most four bytes
/// per character.
pub proof fn lemma_utf8_len_bound(s: Seq<char>, k: int)
    requires
        0 <= k <= s.len(),
    ensures
        utf8_len(s.take(k)) <= 4 * k,
    decreases k,
{
    if k == 0 {
        assert(s.take(0) =~= seq![]);
    } else {
        lemma_utf8_len_bound(s, k - 1);
        lemma_encode_take(s, k - 1);
        assert(char_utf8_len(s[k - 1]) <= 4);
    }
}

/// The number of bytes `cs` takes in UTF-8.
pub fn utf8_len_exec(cs: &[char]) -> (r: usize)
    requires
        utf8_len(cs@) <= usize::MAX,
    ensures
        r == utf8_len(cs@),
{
    let mut n: usize = 0;
    let mut k: usize = 0;
    proof {
        assert(cs@.take(0) =~= seq![]);
        assert(cs@.take(cs@.len() as int) =~= cs@);
    }
    while k < cs.len()
        invariant
            0 <= k <= cs@.len(),
            n == utf8_len(cs@.take(k as int)),
            utf8_len(cs@.take(cs@.len() as int)) <= usize::MAX,
        decreases cs@.len() - k,
    {
        proof {
            lemma_encode_take(cs@, k as int);
            lemma_prefix_len_mono(cs@, k + 1);
        }
        n = n + char_width(cs[k]);
        k = k + 1;
    }
    proof {
        assert(cs@.take(cs@.len() as int) =~= cs@);
    }
    n
}

/// Truncates `s` to at most `max` bytes on a character boundary, appending
/// `marker` so callers know content was capped; `s` is returned whole when
/// it fits.
pub fn truncate_cjk(s: &str, max: usize, marker: &str) -> (r: String)
    ensures
        r@ == spec_truncate_cjk(s@, max as nat, marker@),
        utf8_len(s@) > max ==> utf8_len(s@.take(fitting_chars(s@, max as int) as int)) <= max,
{
    let cs = chars_of(s);
    let mut k: usize = 0;
    let mut used: usize = 0;
    proof {
        assert(s@.take(0) =~= seq![]);
        assert(s@.skip(0) =~= s@);
    }
    while k < cs.len() && char_width(cs[k]) <= max - used
        invariant
            cs@ == s@,
            0 <= k <= cs.len(),
            used == utf8_len(s@.take(k as int)),
            used <= max,
            fitting_chars(s@, max as int) == k + fitting_chars(s@.skip(k as int), max - used),
        decreases cs.len() - k,
    {
        proof {
            lemma_fitting_step(s@, k as int, max as int);
        }
        used = used + char_width(cs[k]);
        k = k + 1;
    }
    proof {
        lemma_fitting_step(s@, k as int, max as int);
    }
    if k == cs.len() {
        assert(s@.take(k as int) =~= s@);
        return String::from_str(s);
    }
    proof {
        lemma_encode_take(s@, k as int);
        lemma_prefix_len_mono(s@, k + 1);
        assert(s@.take(s@.len() as int) =~= s@);
    }
    let head = slice_range(cs.as_slice(), 0, k);
    assert(head@ =~= s@.take(k as int));
    let mut out = String::new();
    push_chars(&mut out, head.as_slice());
    push_str(&mut out, marker);
    out
}

} // verus!
