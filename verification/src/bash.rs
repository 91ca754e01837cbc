//! The bash tool: splitting a command line into the commands whose
//! permissions are checked, and assembling what a finished command reports.

use vstd::prelude::*;

use crate::sandbox::Sandbox;
use crate::text::{
    chars_of, decimal, is_ws, join_seq, join_strings, lines_of, lines_seq, push_chars, push_str,
    string_from_chars, trim_chars, trim_end_seq, trim_seq, trim_start_seq, views,
};

verus! {

/// Where a left-to-right scan of a command line stands.
pub struct SplitState {
    /// The commands found so far.
    pub done: Seq<Seq<char>>,
    /// The command being read.
    pub cur: Seq<char>,
    pub in_single: bool,
    pub in_double: bool,
}

/// The state after the command being read ends: its trimmed text is kept
/// unless it is empty.
pub open spec fn flush(st: SplitState) -> SplitState {
    let t = trim_seq(st.cur);
    SplitState {
        done: if t.len() > 0 {
            st.done.push(t)
        } else {
            st.done
        },
        cur: seq![],
        ..st
    }
}

/// The state after `c` is kept as part of the command being read.
pub open spec fn keep(st: SplitState, c: char) -> SplitState {
    SplitState { cur: st.cur.push(c), ..st }
}

/// Whether `c` at `i` is outside any quote.
pub open spec fn unquoted(st: SplitState) -> bool {
    !st.in_single && !st.in_double
}

/// The commands of `s` read from position `i` on, in state `st`:
/// a backslash keeps itself and the next character; `'` and `"` open and
/// close quotes (each inside the other is literal); outside quotes, `;`,
/// newline, `&&`, `||` and `>>` end a command, while a single `&`, `|` or
/// `>` is part of it.
pub open spec fn split_from(s: Seq<char>, i: int, st: SplitState) -> Seq<Seq<char>>
    decreases s.len() - i,
{
    if i < 0 || i >= s.len() {
        flush(st).done
    } else {
        let c = s[i];
        if c == '\\' {
            if i + 1 < s.len() {
                split_from(s, i + 2, keep(keep(st, c), s[i + 1]))
            } else {
                split_from(s, i + 1, keep(st, c))
            }
        } else if c == '\'' && !st.in_double {
            split_from(s, i + 1, keep(SplitState { in_single: !st.in_single, ..st }, c))
        } else if c == '"' && !st.in_single {
            split_from(s, i + 1, keep(SplitState { in_double: !st.in_double, ..st }, c))
        } else if (c == ';' || c == '\n') && unquoted(st) {
            split_from(s, i + 1, flush(st))
        } else if (c == '&' || c == '|' || c == '>') && unquoted(st) {
            if i + 1 < s.len() && s[i + 1] == c {
                split_from(s, i + 2, flush(st))
            } else {
                split_from(s, i + 1, keep(st, c))
            }
        } else {
            split_from(s, i + 1, keep(st, c))
        }
    }
}

/// The state a scan starts in.
pub open spec fn start_state() -> SplitState {
    SplitState { done: seq![], cur: seq![], in_single: false, in_double: false }
}

/// The commands of a command line, each trimmed, empty ones dropped.
pub open spec fn spec_split_bash_commands(s: Seq<char>) -> Seq<Seq<char>> {
    split_from(s, 0, start_state())
}

/// Characters that mean nothing to the splitter are kept, one by one.
proof fn lemma_split_plain_run(s: Seq<char>, i: int, j: int, st: SplitState)
    requires
        0 <= i <= j <= s.len(),
        forall|k: int|
            i <= k < j ==> {
                let c = #[trigger] s[k];
                c != '\\' && c != '\'' && c != '"' && c != ';' && c != '\n' && c != '&' && c != '|'
                    && c != '>'
            },
    ensures
        split_from(s, i, st) == split_from(s, j, SplitState { cur: st.cur + s.subrange(i, j), ..st }),
    decreases j - i,
{
    if i == j {
        assert(st.cur + s.subrange(i, j) =~= st.cur);
    } else {
        lemma_split_plain_run(s, i + 1, j, keep(st, s[i]));
        assert(keep(st, s[i]).cur + s.subrange(i + 1, j) =~= st.cur + s.subrange(i, j));
    }
}

/// Inside double quotes, every character but `"` and `\` is kept as it is:
/// a `'` there is literal and opens no quote, and `;`, newlines, `&`, `|`
/// and `>` split nothing.
proof fn lemma_split_double_run(s: Seq<char>, i: int, j: int, st: SplitState)
    requires
        0 <= i <= j <= s.len(),
        st.in_double,
        !st.in_single,
        forall|k: int| i <= k < j ==> #[trigger] s[k] != '"' && s[k] != '\\',
    ensures
        split_from(s, i, st) == split_from(s, j, SplitState { cur: st.cur + s.subrange(i, j), ..st }),
    decreases j - i,
{
    if i == j {
        assert(st.cur + s.subrange(i, j) =~= st.cur);
    } else {
        lemma_split_double_run(s, i + 1, j, keep(st, s[i]));
        assert(keep(st, s[i]).cur + s.subrange(i + 1, j) =~= st.cur + s.subrange(i, j));
    }
}

/// A quote of one kind is literal inside a quote of the other kind: in
/// `echo "t"; ls`, where `t` holds no `"` and no `\` (but may hold `'`,
/// `;` or anything else), the `;` after the closing `"` still separates two
/// commands, `echo "t"` and `ls`.
pub proof fn lemma_single_quote_literal_in_double(t: Seq<char>)
    requires
        forall|k: int| 0 <= k < t.len() ==> #[trigger] t[k] != '"' && t[k] != '\\',
    ensures
        spec_split_bash_commands(seq!['e', 'c', 'h', 'o', ' ', '"'] + t + seq!['"', ';', ' ', 'l', 's'])
            == seq![seq!['e', 'c', 'h', 'o', ' ', '"'] + t + seq!['"'], seq!['l', 's']],
{
    let pre = seq!['e', 'c', 'h', 'o', ' ', '"'];
    let post = seq!['"', ';', ' ', 'l', 's'];
    let s = pre + t + post;
    let n = t.len() as int;
    let st0 = start_state();
    lemma_split_plain_run(s, 0, 5, st0);
    let st1 = SplitState { cur: st0.cur + s.subrange(0, 5), ..st0 };
    assert(s[5] == '"');
    let st2 = keep(SplitState { in_double: true, ..st1 }, '"');
    assert(split_from(s, 5, st1) == split_from(s, 6, st2));
    assert forall|k: int| 6 <= k < 6 + n implies #[trigger] s[k] != '"' && s[k] != '\\' by {
        assert(s[k] == t[k - 6]);
    }
    lemma_split_double_run(s, 6, 6 + n, st2);
    let st3 = SplitState { cur: st2.cur + s.subrange(6, 6 + n), ..st2 };
    assert(s[6 + n] == '"');
    let st4 = keep(SplitState { in_double: false, ..st3 }, '"');
    assert(split_from(s, 6 + n, st3) == split_from(s, 7 + n, st4));
    assert(s[7 + n] == ';');
    assert(split_from(s, 7 + n, st4) == split_from(s, 8 + n, flush(st4)));
    let first = pre + t + seq!['"'];
    assert(st4.cur =~= first);
    assert(first[0] == 'e');
    assert(first.last() == '"');
    assert(trim_start_seq(first) == first);
    assert(trim_end_seq(first) == first);
    assert(trim_seq(first) == first);
    let st5 = flush(st4);
    assert(st5.done =~= seq![first]);
    assert(s[8 + n] == ' ' && s[9 + n] == 'l' && s[10 + n] == 's');
    assert(s.len() == 11 + n);
    lemma_split_plain_run(s, 8 + n, 11 + n, st5);
    let st6 = SplitState { cur: st5.cur + s.subrange(8 + n, 11 + n), ..st5 };
    assert(st6.cur =~= seq![' ', 'l', 's']);
    assert(split_from(s, 11 + n, st6) == flush(st6).done);
    let ls = seq!['l', 's'];
    assert(seq![' ', 'l', 's'].drop_first() =~= ls);
    assert(trim_start_seq(seq![' ', 'l', 's']) == trim_start_seq(ls));
    assert(trim_start_seq(ls) == ls);
    assert(trim_end_seq(ls) == ls);
    assert(flush(st6).done =~= seq![first, ls]);
}

/// Inside single quotes, every character but `'` and `\` is kept as it is:
/// a `"` there is literal and opens no quote.
proof fn lemma_split_single_run(s: Seq<char>, i: int, j: int, st: SplitState)
    requires
        0 <= i <= j <= s.len(),
        st.in_single,
        !st.in_double,
        forall|k: int| i <= k < j ==> #[trigger] s[k] != '\'' && s[k] != '\\',
    ensures
        split_from(s, i, st) == split_from(s, j, SplitState { cur: st.cur + s.subrange(i, j), ..st }),
    decreases j - i,
{
    if i == j {
        assert(st.cur + s.subrange(i, j) =~= st.cur);
    } else {
        lemma_split_single_run(s, i + 1, j, keep(st, s[i]));
        assert(keep(st, s[i]).cur + s.subrange(i + 1, j) =~= st.cur + s.subrange(i, j));
    }
}

/// The same with the quotes the other way round: in `echo 't'; ls`, where
/// `t` holds no `'` and no `\` (but may hold `"` or `;`), the commands are
/// `echo 't'` and `ls`.
pub proof fn lemma_double_quote_literal_in_single(t: Seq<char>)
    requires
        forall|k: int| 0 <= k < t.len() ==> #[trigger] t[k] != '\'' && t[k] != '\\',
    ensures
        spec_split_bash_commands(seq!['e', 'c', 'h', 'o', ' ', '\''] + t + seq!['\'', ';', ' ', 'l', 's'])
            == seq![seq!['e', 'c', 'h', 'o', ' ', '\''] + t + seq!['\''], seq!['l', 's']],
{
    let pre = seq!['e', 'c', 'h', 'o', ' ', '\''];
    let post = seq!['\'', ';', ' ', 'l', 's'];
    let s = pre + t + post;
    let n = t.len() as int;
    let st0 = start_state();
    lemma_split_plain_run(s, 0, 5, st0);
    let st1 = SplitState { cur: st0.cur + s.subrange(0, 5), ..st0 };
    assert(s[5] == '\'');
    let st2 = keep(SplitState { in_single: true, ..st1 }, '\'');
    assert(split_from(s, 5, st1) == split_from(s, 6, st2));
    assert forall|k: int| 6 <= k < 6 + n implies #[trigger] s[k] != '\'' && s[k] != '\\' by {
        assert(s[k] == t[k - 6]);
    }
    lemma_split_single_run(s, 6, 6 + n, st2);
    let st3 = SplitState { cur: st2.cur + s.subrange(6, 6 + n), ..st2 };
    assert(s[6 + n] == '\'');
    let st4 = keep(SplitState { in_single: false, ..st3 }, '\'');
    assert(split_from(s, 6 + n, st3) == split_from(s, 7 + n, st4));
    assert(s[7 + n] == ';');
    assert(split_from(s, 7 + n, st4) == split_from(s, 8 + n, flush(st4)));
    let first = pre + t + seq!['\''];
    assert(st4.cur =~= first);
    assert(first[0] == 'e');
    assert(first.last() == '\'');
    assert(trim_start_seq(first) == first);
    assert(trim_end_seq(first) == first);
    let st5 = flush(st4);
    assert(st5.done =~= seq![first]);
    assert(s[8 + n] == ' ' && s[9 + n] == 'l' && s[10 + n] == 's');
    assert(s.len() == 11 + n);
    lemma_split_plain_run(s, 8 + n, 11 + n, st5);
    let st6 = SplitState { cur: st5.cur + s.subrange(8 + n, 11 + n), ..st5 };
    assert(st6.cur =~= seq![' ', 'l', 's']);
    assert(split_from(s, 11 + n, st6) == flush(st6).done);
    let ls = seq!['l', 's'];
    assert(seq![' ', 'l', 's'].drop_first() =~= ls);
    assert(trim_start_seq(seq![' ', 'l', 's']) == trim_start_seq(ls));
    assert(trim_start_seq(ls) == ls);
    assert(trim_end_seq(ls) == ls);
    assert(flush(st6).done =~= seq![first, ls]);
}

/// Every element of `cmds` is non-empty and has no surrounding whitespace.
pub open spec fn all_trimmed_nonempty(cmds: Seq<Seq<char>>) -> bool {
    forall|k: int| 0 <= k < cmds.len() ==> #[trigger] cmds[k].len() > 0 && trim_seq(cmds[k])
        == cmds[k]
}

/// Trimming twice is trimming once.
pub proof fn lemma_trim_idempotent(s: Seq<char>)
    ensures
        trim_seq(trim_seq(s)) == trim_seq(s),
{
    let t = crate::text::trim_start_seq(s);
    lemma_trim_start_shape(s);
    lemma_trim_start_of_trimmed_end(t);
    lemma_trim_end_idempotent(t);
}

/// Trimming the end twice is trimming it once.
proof fn lemma_trim_end_idempotent(s: Seq<char>)
    ensures
        crate::text::trim_end_seq(crate::text::trim_end_seq(s)) == crate::text::trim_end_seq(s),
    decreases s.len(),
{
    if s.len() > 0 && is_ws(s.last()) {
        lemma_trim_end_idempotent(s.drop_last());
    }
}

/// What remains after trimming the start does not begin with whitespace.
proof fn lemma_trim_start_shape(s: Seq<char>)
    ensures
        crate::text::trim_start_seq(s).len() == 0 || !is_ws(crate::text::trim_start_seq(s)[0]),
    decreases s.len(),
{
    if s.len() > 0 && is_ws(s[0]) {
        lemma_trim_start_shape(s.drop_first());
    }
}

/// If `s` does not begin with whitespace, neither does its end-trimmed form.
proof fn lemma_trim_start_of_trimmed_end(s: Seq<char>)
    requires
        s.len() == 0 || !is_ws(s[0]),
    ensures
        crate::text::trim_start_seq(crate::text::trim_end_seq(s)) == crate::text::trim_end_seq(
            s,
        ),
    decreases s.len(),
{
    if s.len() > 0 && is_ws(s.last()) {
        assert(s.len() > 1);
        assert(s.drop_last()[0] == s[0]);
        lemma_trim_start_of_trimmed_end(s.drop_last());
    }
}

/// Trimming the start twice is trimming it once.
proof fn lemma_trim_start_idempotent(s: Seq<char>)
    ensures
        crate::text::trim_start_seq(crate::text::trim_start_seq(s))
            == crate::text::trim_start_seq(s),
    decreases s.len(),
{
    if s.len() > 0 && is_ws(s[0]) {
        lemma_trim_start_idempotent(s.drop_first());
    }
}

/// Ending a command keeps the commands found so far trimmed and non-empty.
proof fn lemma_flush_keeps(st: SplitState)
    requires
        all_trimmed_nonempty(st.done),
    ensures
        all_trimmed_nonempty(flush(st).done),
{
    lemma_trim_idempotent(st.cur);
    lemma_trim_start_idempotent(st.cur);
}

/// Every command `split_from` yields is trimmed and non-empty.
proof fn lemma_split_from_trimmed(s: Seq<char>, i: int, st: SplitState)
    requires
        all_trimmed_nonempty(st.done),
    ensures
        all_trimmed_nonempty(split_from(s, i, st)),
    decreases s.len() - i,
{
    lemma_flush_keeps(st);
    if i < 0 || i >= s.len() {
    } else {
        let c = s[i];
        if c == '\\' {
            if i + 1 < s.len() {
                lemma_split_from_trimmed(s, i + 2, keep(keep(st, c), s[i + 1]));
            } else {
                lemma_split_from_trimmed(s, i + 1, keep(st, c));
            }
        } else if c == '\'' && !st.in_double {
            lemma_split_from_trimmed(
                s,
                i + 1,
                keep(SplitState { in_single: !st.in_single, ..st }, c),
            );
        } else if c == '"' && !st.in_single {
            lemma_split_from_trimmed(
                s,
                i + 1,
                keep(SplitState { in_double: !st.in_double, ..st }, c),
            );
        } else if (c == ';' || c == '\n') && unquoted(st) {
            lemma_split_from_trimmed(s, i + 1, flush(st));
        } else if (c == '&' || c == '|' || c == '>') && unquoted(st) {
            if i + 1 < s.len() && s[i + 1] == c {
                lemma_split_from_trimmed(s, i + 2, flush(st));
            } else {
                lemma_split_from_trimmed(s, i + 1, keep(st, c));
            }
        } else {
            lemma_split_from_trimmed(s, i + 1, keep(st, c));
        }
    }
}

/// Ends the command being read: its trimmed text joins `done` unless empty.
fn flush_exec(done: &mut Vec<String>, cur: &mut Vec<char>, ghost_done: Ghost<Seq<Seq<char>>>)
    requires
        old(done)@.len() == ghost_done@.len(),
        forall|k: int| 0 <= k < old(done)@.len() ==> #[trigger] old(done)@[k]@ == ghost_done@[k],
    ensures
        final(done)@.len() == flush(
            SplitState { done: ghost_done@, cur: old(cur)@, in_single: false, in_double: false },
        ).done.len(),
        forall|k: int|
            0 <= k < final(done)@.len() ==> #[trigger] final(done)@[k]@ == flush(
                SplitState {
                    done: ghost_done@,
                    cur: old(cur)@,
                    in_single: false,
                    in_double: false,
                },
            ).done[k],
        final(cur)@ == Seq::<char>::empty(),
{
    let t = trim_chars(cur.as_slice());
    if t.len() > 0 {
        done.push(string_from_chars(t.as_slice()));
    }
    *cur = Vec::new();
}

/// Splits a command line into the commands that run, for permission
/// checking: at `;`, newlines, `&&`, `||` and `>>` outside quotes. Each
/// command is trimmed; empty ones are dropped.
pub fn split_bash_commands(input: &str) -> (r: Vec<String>)
    ensures
        r@.len() == spec_split_bash_commands(input@).len(),
        forall|k: int|
            0 <= k < r@.len() ==> #[trigger] r@[k]@ == spec_split_bash_commands(input@)[k],
        all_trimmed_nonempty(spec_split_bash_commands(input@)),
{
    proof {
        lemma_split_from_trimmed(input@, 0, start_state());
    }
    let s = chars_of(input);
    let mut done: Vec<String> = Vec::new();
    let mut cur: Vec<char> = Vec::new();
    let mut in_single = false;
    let mut in_double = false;
    let ghost mut gdone: Seq<Seq<char>> = seq![];
    let mut i: usize = 0;
    while i < s.len()
        invariant
            s@ == input@,
            i <= s.len(),
            done@.len() == gdone.len(),
            forall|k: int| 0 <= k < done@.len() ==> #[trigger] done@[k]@ == gdone[k],
            spec_split_bash_commands(input@) == split_from(
                s@,
                i as int,
                SplitState { done: gdone, cur: cur@, in_single, in_double },
            ),
        decreases s.len() - i,
    {
        let c = s[i];
        let ghost st = SplitState { done: gdone, cur: cur@, in_single, in_double };
        let unq = !in_single && !in_double;
        if c == '\\' {
            cur.push(c);
            if i + 1 < s.len() {
                cur.push(s[i + 1]);
                i = i + 2;
            } else {
                i = i + 1;
            }
        } else if c == '\'' && !in_double {
            in_single = !in_single;
            cur.push(c);
            i = i + 1;
        } else if c == '"' && !in_single {
            in_double = !in_double;
            cur.push(c);
            i = i + 1;
        } else if (c == ';' || c == '\n') && unq {
            flush_exec(&mut done, &mut cur, Ghost(gdone));
            proof {
                gdone = flush(st).done;
            }
            i = i + 1;
        } else if (c == '&' || c == '|' || c == '>') && unq {
            if i + 1 < s.len() && s[i + 1] == c {
                flush_exec(&mut done, &mut cur, Ghost(gdone));
                proof {
                    gdone = flush(st).done;
                }
                i = i + 2;
            } else {
                cur.push(c);
                i = i + 1;
            }
        } else {
            cur.push(c);
            i = i + 1;
        }
    }
    let ghost st = SplitState { done: gdone, cur: cur@, in_single, in_double };
    flush_exec(&mut done, &mut cur, Ghost(gdone));
    assert(flush(st).done == flush(
        SplitState { done: gdone, cur: st.cur, in_single: false, in_double: false },
    ).done);
    done
}

/// The decimal rendering of an integer with a leading `-` when negative,
/// as `{}` prints an `i32`.
pub open spec fn int_decimal(n: int) -> Seq<char> {
    if n < 0 {
        seq!['-'] + decimal((-n) as nat)
    } else {
        decimal(n as nat)
    }
}

/// What a finished command reports: stdout, then stderr (on a line of its
/// own when both are non-empty), then `Exit code: <n>` on a new line when
/// the exit code is not zero.
pub open spec fn spec_command_output(stdout: Seq<char>, stderr: Seq<char>, exit_code: i32) -> Seq<
    char,
> {
    let a = stdout;
    let b = if stderr.len() > 0 {
        if a.len() > 0 {
            a.push('\n') + stderr
        } else {
            a + stderr
        }
    } else {
        a
    };
    if exit_code != 0 {
        b + "\nExit code: "@ + int_decimal(exit_code as int)
    } else {
        b
    }
}

/// The text a finished command reports to the agent, before truncation and
/// hints.
pub fn command_output(stdout: &str, stderr: &str, exit_code: i32) -> (r: String)
    ensures
        r@ == spec_command_output(stdout@, stderr@, exit_code),
{
    let mut result = String::new();
    let so = chars_of(stdout);
    let se = chars_of(stderr);
    if so.len() > 0 {
        push_str(&mut result, stdout);
    }
    if se.len() > 0 {
        if so.len() > 0 {
            crate::text::push_char(&mut result, '\n');
        }
        push_str(&mut result, stderr);
    }
    assert(result@ == {
        let a = stdout@;
        if stderr@.len() > 0 {
            if a.len() > 0 {
                a.push('\n') + stderr@
            } else {
                a + stderr@
            }
        } else {
            a
        }
    }) by {
        if so.len() == 0 {
            assert(stdout@ =~= seq![]);
        }
    }
    if exit_code != 0 {
        push_str(&mut result, "\nExit code: ");
        let mut digits: Vec<char> = Vec::new();
        if exit_code < 0 {
            digits.push('-');
            let m: u64 = (-(exit_code as i64)) as u64;
            crate::text::push_decimal(&mut digits, m);
        } else {
            crate::text::push_decimal(&mut digits, exit_code as u64);
        }
        assert(digits@ =~= int_decimal(exit_code as int));
        push_chars(&mut result, digits.as_slice());
    }
    result
}

/// The result with the permission coaching message, if any, put in front
/// and separated by a blank line.
pub open spec fn spec_with_coaching(coaching: Option<Seq<char>>, result: Seq<char>) -> Seq<char> {
    match coaching {
        Some(msg) => msg + "\n\n"@ + result,
        None => result,
    }
}

/// Puts the permission coaching message, if any, in front of a tool result.
pub fn with_coaching(coaching: Option<&str>, result: String) -> (r: String)
    ensures
        r@ == spec_with_coaching(
            match coaching {
                Some(m) => Some(m@),
                None => None,
            },
            result@,
        ),
{
    match coaching {
        Some(msg) => {
            let mut out = String::new();
            push_str(&mut out, msg);
            push_str(&mut out, "\n\n");
            push_str(&mut out, result.as_str());
            out
        },
        None => result,
    }
}

/// The bash tool. The permission checker and the channel that asks the
/// user are the application's types, carried through unchanged.
pub struct BashTool<P, A> {
    pub permission: Option<P>,
    pub ask_tx: Option<A>,
    pub sandbox: Sandbox,
    /// `None` means no truncation; `Some(n)` keeps the first `n` lines.
    pub max_output_lines: Option<u64>,
}

impl<P, A> BashTool<P, A> {
    /// A bash tool with the given permission checker, ask channel, sandbox
    /// and output cap.
    pub fn new(
        permission: Option<P>,
        ask_tx: Option<A>,
        sandbox: Sandbox,
        max_output_lines: Option<u64>,
    ) -> (r: Self)
        ensures
            r.permission == permission,
            r.ask_tx == ask_tx,
            r.sandbox == sandbox,
            r.max_output_lines == max_output_lines,
    {
        BashTool { permission, ask_tx, sandbox, max_output_lines }
    }
}


/// What every bash tool says of itself.
pub open spec fn bash_description_text() -> Seq<char> {
    "Execute a bash command in the current working directory. Returns stdout and stderr."@
}

/// What a session whose sandbox cuts the network adds to the description.
pub open spec fn no_network_notice() -> Seq<char> {
    " This session's sandbox runs commands without network access, so the internet, the local network, and services listening on the host are unreachable; a server started and used within a single command still works on 127.0.0.1."@
}

impl<P, A> BashTool<P, A> {
    /// The tool description: the fixed text, and the no-network notice when
    /// the sandbox cuts the network.
    pub fn description(&self) -> (r: String)
        ensures
            r@ == if self.sandbox.network_unshared_spec() {
                bash_description_text() + no_network_notice()
            } else {
                bash_description_text()
            },
    {
        let mut d = String::from_str(
            "Execute a bash command in the current working directory. Returns stdout and stderr.",
        );
        if self.sandbox.network_unshared() {
            push_str(
                &mut d,
                " This session's sandbox runs commands without network access, so the internet, the local network, and services listening on the host are unreachable; a server started and used within a single command still works on 127.0.0.1.",
            );
        }
        d
    }

    /// The schema of the tool's arguments: a required `command` and an
    /// optional `timeout`.
    pub fn parameters(&self) -> (r: crate::json::Json)
        ensures
            r@ == crate::schema::bash_parameters_schema(),
    {
        crate::schema::bash_parameters()
    }
}

/// The no-network hint for a finished command: none when it succeeded or
/// when the sandbox leaves the network on; otherwise what `network_hint`
/// makes of its error output.
pub fn network_hint_for_exit<F: Fn(&str) -> Option<String>>(
    exit_code: i32,
    stderr: &str,
    sandbox: &Sandbox,
    network_hint: F,
) -> (r: Option<String>)
    requires
        network_hint.requires((stderr,)),
    ensures
        exit_code == 0 || !sandbox.network_unshared_spec() ==> r is None,
        exit_code != 0 && sandbox.network_unshared_spec() ==> network_hint.ensures((stderr,), r),
{
    if exit_code == 0 || !sandbox.network_unshared() {
        return None;
    }
    network_hint(stderr)
}

/// The output of a command cut after `cap` of its `total` lines, `head`
/// being those first lines: with a note of how many lines were left out and
/// how to see them.
pub open spec fn truncation_text(head: Seq<char>, cap: nat, total: nat) -> Seq<char> {
    head + "\n\n[truncated after "@ + decimal(cap) + " lines \u{2014} "@ + decimal((total - cap) as nat)
        + " more lines elided; re-run with a narrower invocation or pipe through `tail`/`grep` to see trailing output]"@
}

/// The output cut after `cap` lines: `head` is its first `cap` lines and
/// `total` the number of lines it had. Output no longer than the cap is
/// kept as it is.
pub fn cap_output(result: String, cap: u64, head: &str, total: u64) -> (r: String)
    ensures
        r@ == if total > cap {
            truncation_text(head@, cap as nat, total as nat)
        } else {
            result@
        },
{
    if total > cap {
        let mut out = String::new();
        push_str(&mut out, head);
        push_str(&mut out, "\n\n[truncated after ");
        let mut d: Vec<char> = Vec::new();
        crate::text::push_decimal(&mut d, cap);
        push_chars(&mut out, d.as_slice());
        push_str(&mut out, " lines \u{2014} ");
        let mut e: Vec<char> = Vec::new();
        crate::text::push_decimal(&mut e, total - cap);
        push_chars(&mut out, e.as_slice());
        push_str(
            &mut out,
            " more lines elided; re-run with a narrower invocation or pipe through `tail`/`grep` to see trailing output]",
        );
        out
    } else {
        result
    }
}

/// The result with each hint that is there appended on a line of its own.
pub open spec fn with_hints(result: Seq<char>, hints: Seq<Option<String>>) -> Seq<char>
    decreases hints.len(),
{
    if hints.len() == 0 {
        result
    } else {
        let r = with_hints(result, hints.drop_last());
        match hints.last() {
            Some(h) => r + "\n"@ + h@,
            None => r,
        }
    }
}

/// Appends the sandbox hints that are there, in order, after everything
/// else, so they end the result the model reads.
pub fn append_hints(result: String, hints: &[Option<String>]) -> (r: String)
    ensures
        r@ == with_hints(result@, hints@),
{
    let mut out = result;
    let ghost start = out@;
    let mut i: usize = 0;
    while i < hints.len()
        invariant
            0 <= i <= hints@.len(),
            out@ == with_hints(start, hints@.take(i as int)),
        decreases hints@.len() - i,
    {
        proof {
            assert(hints@.take(i + 1).drop_last() =~= hints@.take(i as int));
        }
        match &hints[i] {
            Some(h) => {
                push_str(&mut out, "\n");
                push_str(&mut out, h.as_str());
            },
            None => {},
        }
        i = i + 1;
    }
    proof {
        assert(hints@.take(hints@.len() as int) =~= hints@);
    }
    out
}


/// The output after the line cap, if any: cut to `head` with a note when it
/// had more than `cap` lines (`total` of them), kept otherwise.
pub open spec fn spec_capped(result: Seq<char>, cap: Option<u64>, head: Seq<char>, total: u64) -> Seq<
    char,
> {
    match cap {
        Some(c) => if total > c {
            truncation_text(head, c as nat, total as nat)
        } else {
            result
        },
        None => result,
    }
}

/// The first `cap` lines of `text`, as `str::lines` yields them, joined by
/// newlines.
pub open spec fn head_text(text: Seq<char>, cap: u64) -> Seq<char> {
    let ls = lines_seq(text);
    join_seq(if cap < ls.len() { ls.take(cap as int) } else { ls }, "\n"@)
}

/// The first `cap` lines of `text` and how many lines it has.
pub fn head_lines(text: &str, cap: u64) -> (r: (String, u64))
    ensures
        r.0@ == head_text(text@, cap),
        r.1 == lines_seq(text@).len(),
{
    let cs = chars_of(text);
    let ls = lines_of(cs.as_slice());
    let ghost all = lines_seq(text@);
    let k: usize = if (cap as u128) < (ls.len() as u128) {
        cap as usize
    } else {
        ls.len()
    };
    let mut parts: Vec<String> = Vec::new();
    let mut i: usize = 0;
    while i < k
        invariant
            k <= ls@.len(),
            ls@.len() == all.len(),
            forall|j: int| 0 <= j < ls@.len() ==> #[trigger] ls@[j]@ == all[j],
            i <= k,
            views(parts@) == all.take(i as int),
        decreases k - i,
    {
        let ghost old_parts = parts@;
        let line = string_from_chars(ls[i].as_slice());
        assert(line@ == all[i as int]);
        parts.push(line);
        proof {
            assert(views(parts@) =~= views(old_parts).push(line@));
            assert(all.take(i + 1) =~= all.take(i as int).push(all[i as int]));
        }
        i = i + 1;
    }
    let head = join_strings(parts.as_slice(), "\n");
    proof {
        if cap < all.len() {
            assert(k == cap);
        } else {
            assert(all.take(k as int) =~= all);
        }
    }
    (head, ls.len() as u64)
}

/// The whole result of a finished bash command, in the order the tool
/// builds it: the command's output, cut after `max_output_lines` lines
/// when it has more, the permission coaching put in front, and the
/// sandbox hints appended last.
pub fn bash_result(
    stdout: &str,
    stderr: &str,
    exit_code: i32,
    max_output_lines: Option<u64>,
    coaching: Option<&str>,
    hints: &[Option<String>],
) -> (r: String)
    ensures
        r@ == with_hints(
            spec_with_coaching(
                match coaching {
                    Some(m) => Some(m@),
                    None => None,
                },
                ({
                    let out = spec_command_output(stdout@, stderr@, exit_code);
                    match max_output_lines {
                        Some(c) => spec_capped(
                            out,
                            max_output_lines,
                            head_text(out, c),
                            lines_seq(out).len() as u64,
                        ),
                        None => out,
                    }
                }),
            ),
            hints@,
        ),
{
    let out = command_output(stdout, stderr, exit_code);
    let capped = match max_output_lines {
        Some(cap) => {
            let (head, total) = head_lines(out.as_str(), cap);
            cap_output(out, cap, head.as_str(), total)
        },
        None => out,
    };
    let coached = with_coaching(coaching, capped);
    append_hints(coached, hints)
}

/// Where a bash call stands: before the sandbox check, checking the
/// permission of one split command after another, waiting for rtk's
/// rewrite, or done.
#[derive(Debug, Clone, Copy, PartialEq, Eq, Structural)]
pub enum BashPhase {
    Start,
    Checking,
    Rewriting,
    Done,
}

/// What the shell reports back to a bash call.
#[derive(Debug)]
pub enum BashEvent {
    /// The call begins; `refusal` is why the sandbox refuses every command,
    /// if it does.
    Begin { refusal: Option<String> },
    /// The permission check of the command last asked about: allowed, with
    /// a coaching message or none, or refused with a message.
    Checked(Result<Option<String>, String>),
    /// What rtk rewrote the command to, if anything.
    Rewritten(Option<String>),
}

/// What a bash call asks the shell to do next.
#[derive(Debug, Clone)]
pub enum BashAction {
    /// End the call with this error.
    Fail(String),
    /// Check the permission of this command.
    Check(String),
    /// Ask rtk to rewrite this command.
    Rewrite(String),
    /// Run this command.
    Run(String),
}

/// The decisions of one bash call: the command, its split parts, how many
/// have passed their permission check, the coaching message of the last
/// check that gave one, and whether rtk rewrites the command.
pub struct BashCall {
    pub command: String,
    pub commands: Vec<String>,
    pub next: usize,
    pub coaching: Option<String>,
    pub use_rtk: bool,
    pub phase: BashPhase,
}

impl BashCall {
    /// A call of `command`, split as the tool splits it.
    pub fn new(command: &str, use_rtk: bool) -> (r: Self)
        ensures
            r.command@ == command@,
            r.commands@.len() == spec_split_bash_commands(command@).len(),
            forall|k: int|
                0 <= k < r.commands@.len() ==> #[trigger] r.commands@[k]@
                    == spec_split_bash_commands(command@)[k],
            r.next == 0,
            r.coaching is None,
            r.use_rtk == use_rtk,
            r.phase == BashPhase::Start,
    {
        BashCall {
            command: String::from_str(command),
            commands: split_bash_commands(command),
            next: 0,
            coaching: None,
            use_rtk,
            phase: BashPhase::Start,
        }
    }

    /// After the permission checks that passed: the next command to check,
    /// else rtk's rewrite when rtk is on, else running the command.
    fn advance(&mut self) -> (r: BashAction)
        requires
            old(self).next <= old(self).commands@.len(),
        ensures
            final(self).command == old(self).command,
            final(self).commands == old(self).commands,
            final(self).next == old(self).next,
            final(self).coaching == old(self).coaching,
            final(self).use_rtk == old(self).use_rtk,
            if old(self).next < old(self).commands@.len() {
                r matches BashAction::Check(c) && c@ == old(self).commands@[old(self).next as int]@
                    && final(self).phase == BashPhase::Checking
            } else if old(self).use_rtk {
                r matches BashAction::Rewrite(c) && c@ == old(self).command@ && final(self).phase
                    == BashPhase::Rewriting
            } else {
                r matches BashAction::Run(c) && c@ == old(self).command@ && final(self).phase
                    == BashPhase::Done
            },
    {
        if self.next < self.commands.len() {
            self.phase = BashPhase::Checking;
            BashAction::Check(self.commands[self.next].clone())
        } else if self.use_rtk {
            self.phase = BashPhase::Rewriting;
            BashAction::Rewrite(self.command.clone())
        } else {
            self.phase = BashPhase::Done;
            BashAction::Run(self.command.clone())
        }
    }

    /// Handles what the shell reports. A refusing sandbox ends the call
    /// before any permission is asked; then each split command is checked
    /// in order, the first refusal ending the call and the last coaching
    /// message kept; then, with rtk on, the command is rewritten; and the
    /// command, rewritten or not, is run.
    pub fn step(&mut self, event: BashEvent) -> (r: BashAction)
        requires
            old(self).next <= old(self).commands@.len(),
            old(self).phase == BashPhase::Start ==> event is Begin && old(self).next == 0,
            old(self).phase == BashPhase::Checking ==> event is Checked && old(self).next
                < old(self).commands@.len(),
            old(self).phase == BashPhase::Rewriting ==> event is Rewritten,
            old(self).phase != BashPhase::Done,
        ensures
            final(self).next <= final(self).commands@.len(),
            final(self).command == old(self).command,
            final(self).commands == old(self).commands,
            final(self).use_rtk == old(self).use_rtk,
            match event {
                BashEvent::Begin { refusal } => (match refusal {
                    Some(m) => r matches BashAction::Fail(x) && x@ == m@ && final(self).phase
                        == BashPhase::Done,
                    None => if old(self).commands@.len() > 0 {
                        r matches BashAction::Check(c) && c@ == old(self).commands@[0]@
                            && final(self).phase == BashPhase::Checking
                    } else if old(self).use_rtk {
                        r matches BashAction::Rewrite(c) && c@ == old(self).command@
                            && final(self).phase == BashPhase::Rewriting
                    } else {
                        r matches BashAction::Run(c) && c@ == old(self).command@
                            && final(self).phase == BashPhase::Done
                    },
                }) && final(self).next == 0 && final(self).coaching == old(self).coaching,
                BashEvent::Checked(Err(m)) => r matches BashAction::Fail(x) && x@ == m@
                    && final(self).phase == BashPhase::Done && final(self).next == old(self).next,
                BashEvent::Checked(Ok(c)) => {
                    let n = old(self).next + 1;
                    &&& final(self).next == n
                    &&& final(self).coaching == (if c is Some {
                        c
                    } else {
                        old(self).coaching
                    })
                    &&& if n < old(self).commands@.len() {
                        r matches BashAction::Check(x) && x@ == old(self).commands@[n]@
                            && final(self).phase == BashPhase::Checking
                    } else if old(self).use_rtk {
                        r matches BashAction::Rewrite(x) && x@ == old(self).command@
                            && final(self).phase == BashPhase::Rewriting
                    } else {
                        r matches BashAction::Run(x) && x@ == old(self).command@
                            && final(self).phase == BashPhase::Done
                    }
                },
                BashEvent::Rewritten(rw) => r matches BashAction::Run(x) && x@ == (match rw {
                    Some(w) => w@,
                    None => old(self).command@,
                }) && final(self).phase == BashPhase::Done && final(self).next == old(self).next
                    && final(self).coaching == old(self).coaching,
            },
    {
        match event {
            BashEvent::Begin { refusal } => match refusal {
                Some(m) => {
                    self.phase = BashPhase::Done;
                    BashAction::Fail(m)
                },
                None => self.advance(),
            },
            BashEvent::Checked(Err(m)) => {
                self.phase = BashPhase::Done;
                BashAction::Fail(m)
            },
            BashEvent::Checked(Ok(c)) => {
                assert(old(self).phase == BashPhase::Checking);
                let len = self.commands.len();
                assert(self.next < len);
                if c.is_some() {
                    self.coaching = c;
                }
                self.next = self.next + 1;
                self.advance()
            },
            BashEvent::Rewritten(rw) => {
                self.phase = BashPhase::Done;
                match rw {
                    Some(w) => BashAction::Run(w),
                    None => BashAction::Run(self.command.clone()),
                }
            },
        }
    }
}

} // verus!
