//! Reading JSON text, as `serde_json` writes it compactly, into [`Json`]
//! values; and the project-local configuration override, read from TOML.

use vstd::prelude::*;

use crate::json::{fields_view, items_view, merge_json, Json, SpecJson};

verus! {

/// Whether `c` may appear in a number: a sign, a digit, a point or an
/// exponent mark.
pub open spec fn is_num_char(c: char) -> bool {
    c == '-' || c == '+' || c == '.' || c == 'e' || c == 'E' || ('0' <= c && c <= '9')
}

/// Where the run of number characters from `i` ends.
pub open spec fn num_end(s: Seq<char>, i: int) -> int
    decreases s.len() - i,
{
    if i < 0 || i >= s.len() || !is_num_char(s[i]) {
        i
    } else {
        num_end(s, i + 1)
    }
}

/// The value of a hexadecimal digit.
pub open spec fn hex_of(c: char) -> Option<u8> {
    if '0' <= c && c <= '9' {
        Some((c as u32 - 48) as u8)
    } else if 'a' <= c && c <= 'f' {
        Some((c as u32 - 87) as u8)
    } else if 'A' <= c && c <= 'F' {
        Some((c as u32 - 55) as u8)
    } else {
        None
    }
}

/// The ASCII character a `\u00XX` escape at `i` (the position of the `u`)
/// stands for; the compact writer escapes only control characters so.
pub open spec fn unicode_escape(s: Seq<char>, i: int) -> Option<char> {
    if 0 <= i && i + 4 < s.len() && s[i + 1] == '0' && s[i + 2] == '0' {
        match (hex_of(s[i + 3]), hex_of(s[i + 4])) {
            (Some(h), Some(l)) => if h < 8 {
                Some(((h * 16 + l) as u8) as char)
            } else {
                None
            },
            _ => None,
        }
    } else {
        None
    }
}

/// The character a one-letter escape stands for.
pub open spec fn simple_escape(c: char) -> Option<char> {
    if c == '"' {
        Some('"')
    } else if c == '\\' {
        Some('\\')
    } else if c == '/' {
        Some('/')
    } else if c == 'b' {
        Some('\u{8}')
    } else if c == 'f' {
        Some('\u{c}')
    } else if c == 'n' {
        Some('\n')
    } else if c == 'r' {
        Some('\r')
    } else if c == 't' {
        Some('\t')
    } else {
        None
    }
}

/// The rest of a string from `i` (after its opening quote), `acc` read so
/// far: its text and the position after its closing quote.
pub open spec fn parse_str(s: Seq<char>, i: int, acc: Seq<char>) -> Option<(Seq<char>, int)>
    decreases s.len() - i,
{
    if i < 0 || i >= s.len() {
        None
    } else if s[i] == '"' {
        Some((acc, i + 1))
    } else if s[i] == '\\' {
        if i + 1 >= s.len() {
            None
        } else if s[i + 1] == 'u' {
            match unicode_escape(s, i + 1) {
                Some(c) => parse_str(s, i + 6, acc.push(c)),
                None => None,
            }
        } else {
            match simple_escape(s[i + 1]) {
                Some(c) => parse_str(s, i + 2, acc.push(c)),
                None => None,
            }
        }
    } else {
        parse_str(s, i + 1, acc.push(s[i]))
    }
}

/// Whether `lit` is written at `i`.
pub open spec fn lit_at(s: Seq<char>, i: int, lit: Seq<char>) -> bool {
    0 <= i && i + lit.len() <= s.len() && s.subrange(i, i + lit.len()) == lit
}

/// The value written at `i` and the position after it, reading at most
/// `fuel` levels deep.
pub open spec fn parse_value(s: Seq<char>, i: int, fuel: nat) -> Option<(SpecJson, int)>
    decreases fuel, 0int,
{
    if fuel == 0 || i < 0 || i >= s.len() {
        None
    } else if s[i] == 'n' {
        if lit_at(s, i, "null"@) { Some((SpecJson::Null, i + 4)) } else { None }
    } else if s[i] == 't' {
        if lit_at(s, i, "true"@) { Some((SpecJson::Bool(true), i + 4)) } else { None }
    } else if s[i] == 'f' {
        if lit_at(s, i, "false"@) { Some((SpecJson::Bool(false), i + 5)) } else { None }
    } else if s[i] == '"' {
        match parse_str(s, i + 1, Seq::empty()) {
            Some((t, j)) => Some((SpecJson::Str(t), j)),
            None => None,
        }
    } else if s[i] == '[' {
        if i + 1 < s.len() && s[i + 1] == ']' {
            Some((SpecJson::Array(Seq::empty()), i + 2))
        } else {
            parse_items(s, i + 1, Seq::empty(), (fuel - 1) as nat)
        }
    } else if s[i] == '{' {
        if i + 1 < s.len() && s[i + 1] == '}' {
            Some((SpecJson::Object(Seq::empty()), i + 2))
        } else {
            parse_fields(s, i + 1, Seq::empty(), (fuel - 1) as nat)
        }
    } else if is_num_char(s[i]) {
        Some((SpecJson::Number(s.subrange(i, num_end(s, i))), num_end(s, i)))
    } else {
        None
    }
}

/// The items of an array from `i`, `acc` read so far, to its closing `]`.
pub open spec fn parse_items(s: Seq<char>, i: int, acc: Seq<SpecJson>, fuel: nat) -> Option<
    (SpecJson, int),
>
    decreases fuel, 1int,
{
    if fuel == 0 {
        None
    } else {
        match parse_value(s, i, fuel) {
            None => None,
            Some((v, j)) => if 0 <= j < s.len() && s[j] == ',' {
                parse_items(s, j + 1, acc.push(v), (fuel - 1) as nat)
            } else if 0 <= j < s.len() && s[j] == ']' {
                Some((SpecJson::Array(acc.push(v)), j + 1))
            } else {
                None
            },
        }
    }
}

/// The fields of an object from `i`, `acc` read so far, to its closing `}`.
pub open spec fn parse_fields(
    s: Seq<char>,
    i: int,
    acc: Seq<(Seq<char>, SpecJson)>,
    fuel: nat,
) -> Option<(SpecJson, int)>
    decreases fuel, 1int,
{
    if fuel == 0 || i < 0 || i >= s.len() || s[i] != '"' {
        None
    } else {
        match parse_str(s, i + 1, Seq::empty()) {
            None => None,
            Some((k, j)) => if 0 <= j < s.len() && s[j] == ':' {
                match parse_value(s, j + 1, fuel) {
                    None => None,
                    Some((v, e)) => if 0 <= e < s.len() && s[e] == ',' {
                        parse_fields(s, e + 1, acc.push((k, v)), (fuel - 1) as nat)
                    } else if 0 <= e < s.len() && s[e] == '}' {
                        Some((SpecJson::Object(acc.push((k, v))), e + 1))
                    } else {
                        None
                    },
                }
            } else {
                None
            },
        }
    }
}

/// The value a whole JSON text holds, nesting at most as deep as the text
/// is long.
pub open spec fn spec_parse_json(s: Seq<char>) -> Option<SpecJson> {
    match parse_value(s, 0, s.len()) {
        Some((v, e)) => if e == s.len() { Some(v) } else { None },
        None => None,
    }
}

} // verus!

verus! {

fn hex_exec(c: char) -> (r: Option<u8>)
    ensures
        r == hex_of(c),
{
    if '0' <= c && c <= '9' {
        Some(((c as u32) - 48) as u8)
    } else if 'a' <= c && c <= 'f' {
        Some(((c as u32) - 87) as u8)
    } else if 'A' <= c && c <= 'F' {
        Some(((c as u32) - 55) as u8)
    } else {
        None
    }
}

fn unicode_escape_exec(cs: &[char], i: usize) -> (r: Option<char>)
    ensures
        r == unicode_escape(cs@, i as int),
{
    if i < cs.len() && cs.len() - i > 4 && cs[i + 1] == '0' && cs[i + 2] == '0' {
        match (hex_exec(cs[i + 3]), hex_exec(cs[i + 4])) {
            (Some(h), Some(l)) => if h < 8 {
                Some((h * 16 + l) as char)
            } else {
                None
            },
            _ => None,
        }
    } else {
        None
    }
}

fn simple_escape_exec(c: char) -> (r: Option<char>)
    ensures
        r == simple_escape(c),
{
    if c == '"' {
        Some('"')
    } else if c == '\\' {
        Some('\\')
    } else if c == '/' {
        Some('/')
    } else if c == 'b' {
        Some('\u{8}')
    } else if c == 'f' {
        Some('\u{c}')
    } else if c == 'n' {
        Some('\n')
    } else if c == 'r' {
        Some('\r')
    } else if c == 't' {
        Some('\t')
    } else {
        None
    }
}

/// Reads the rest of a string from `i`, after its opening quote.
fn parse_str_exec(cs: &[char], i: usize) -> (r: Option<(String, usize)>)
    ensures
        match r {
            Some((t, j)) => parse_str(cs@, i as int, Seq::empty()) == Some((t@, j as int)),
            None => parse_str(cs@, i as int, Seq::empty()) is None,
        },
{
    let mut acc: Vec<char> = Vec::new();
    let mut k: usize = i;
    while k < cs.len()
        invariant
            parse_str(cs@, i as int, Seq::empty()) == parse_str(cs@, k as int, acc@),
        decreases cs.len() - k,
    {
        let c = cs[k];
        if c == '"' {
            return Some((crate::text::string_from_chars(acc.as_slice()), k + 1));
        } else if c == '\\' {
            if cs.len() - k < 2 {
                return None;
            }
            if cs[k + 1] == 'u' {
                match unicode_escape_exec(cs, k + 1) {
                    Some(u) => {
                        acc.push(u);
                        k = k + 6;
                    },
                    None => {
                        return None;
                    },
                }
            } else {
                match simple_escape_exec(cs[k + 1]) {
                    Some(e) => {
                        acc.push(e);
                        k = k + 2;
                    },
                    None => {
                        return None;
                    },
                }
            }
        } else {
            acc.push(c);
            k = k + 1;
        }
    }
    None
}

fn num_end_exec(cs: &[char], i: usize) -> (r: usize)
    requires
        i <= cs.len(),
    ensures
        r == num_end(cs@, i as int),
        i <= r <= cs.len(),
{
    let mut k = i;
    while k < cs.len() && is_num_char_exec(cs[k])
        invariant
            i <= k <= cs.len(),
            num_end(cs@, i as int) == num_end(cs@, k as int),
        decreases cs.len() - k,
    {
        k = k + 1;
    }
    k
}

fn is_num_char_exec(c: char) -> (r: bool)
    ensures
        r == is_num_char(c),
{
    c == '-' || c == '+' || c == '.' || c == 'e' || c == 'E' || ('0' <= c && c <= '9')
}

fn lit_at_exec(cs: &[char], i: usize, lit: &[char]) -> (r: bool)
    ensures
        r == lit_at(cs@, i as int, lit@),
{
    if i > cs.len() || cs.len() - i < lit.len() {
        return false;
    }
    let n = cs.len();
    let mut k: usize = 0;
    while k < lit.len()
        invariant
            n == cs@.len(),
            i + lit@.len() <= cs@.len(),
            k <= lit@.len(),
            forall|m: int| 0 <= m < k ==> cs@[i + m] == lit@[m],
        decreases lit.len() - k,
    {
        if cs[i + k] != lit[k] {
            assert(cs@.subrange(i as int, i + lit@.len())[k as int] != lit@[k as int]);
            return false;
        }
        k = k + 1;
    }
    assert(cs@.subrange(i as int, i + lit@.len()) =~= lit@);
    true
}

/// The fields after one more, one by one.
proof fn lemma_fields_push(before: Seq<(String, Json)>, after: Seq<(String, Json)>)
    requires
        after.len() == before.len() + 1,
        forall|j: int| 0 <= j < before.len() ==> after[j] == before[j],
    ensures
        fields_view(after) == fields_view(before).push(
            (after[before.len() as int].0@, after[before.len() as int].1@),
        ),
{
    crate::json::lemma_fields_view(before);
    let s = fields_view(before).push((after[before.len() as int].0@, after[before.len() as int].1@));
    assert forall|i: int| 0 <= i < after.len() implies #[trigger] s[i] == (after[i].0@, after[i].1@) by {
        if i < before.len() {
            assert(after[i] == before[i]);
        }
    }
    crate::json::lemma_fields_view_ext(after, s);
}

/// Reads the value at `i`, at most `fuel` levels deep.
fn parse_value_exec(cs: &[char], i: usize, fuel: usize) -> (r: Option<(Json, usize)>)
    ensures
        match r {
            Some((v, e)) => parse_value(cs@, i as int, fuel as nat) == Some((v@, e as int)),
            None => parse_value(cs@, i as int, fuel as nat) is None,
        },
    decreases fuel, 0int,
{
    if fuel == 0 || i >= cs.len() {
        return None;
    }
    let c = cs[i];
    if c == 'n' {
        let lit = ['n', 'u', 'l', 'l'];
        assert(lit@ =~= "null"@) by { reveal_strlit("null"); }
        if lit_at_exec(cs, i, &lit) { Some((Json::Null, i + 4)) } else { None }
    } else if c == 't' {
        let lit = ['t', 'r', 'u', 'e'];
        assert(lit@ =~= "true"@) by { reveal_strlit("true"); }
        if lit_at_exec(cs, i, &lit) { Some((Json::Bool(true), i + 4)) } else { None }
    } else if c == 'f' {
        let lit = ['f', 'a', 'l', 's', 'e'];
        assert(lit@ =~= "false"@) by { reveal_strlit("false"); }
        if lit_at_exec(cs, i, &lit) { Some((Json::Bool(false), i + 5)) } else { None }
    } else if c == '"' {
        match parse_str_exec(cs, i + 1) {
            Some((t, j)) => Some((Json::Str(t), j)),
            None => None,
        }
    } else if c == '[' {
        if i + 1 < cs.len() && cs[i + 1] == ']' {
            let v = Json::Array(Vec::new());
            assert(v@ == SpecJson::Array(Seq::empty())) by {
                assert(crate::json::items_view(Seq::<Json>::empty(), 0) =~= Seq::empty());
            }
            Some((v, i + 2))
        } else {
            parse_items_exec(cs, i + 1, Vec::new(), fuel - 1)
        }
    } else if c == '{' {
        if i + 1 < cs.len() && cs[i + 1] == '}' {
            let v = Json::Object(Vec::new());
            assert(v@ == SpecJson::Object(Seq::empty())) by {
                assert(crate::json::fields_view_n(Seq::<(String, Json)>::empty(), 0) =~= Seq::empty());
            }
            Some((v, i + 2))
        } else {
            parse_fields_exec(cs, i + 1, Vec::new(), fuel - 1)
        }
    } else if is_num_char_exec(c) {
        let e = num_end_exec(cs, i);
        let t = crate::text::string_from_chars(crate::text::slice_range(cs, i, e).as_slice());
        Some((Json::Number(t), e))
    } else {
        None
    }
}

/// Reads the items of an array from `i`, `acc` read so far.
fn parse_items_exec(cs: &[char], i: usize, acc: Vec<Json>, fuel: usize) -> (r: Option<(Json, usize)>)
    ensures
        match r {
            Some((v, e)) => parse_items(cs@, i as int, items_view(acc@, acc@.len() as int), fuel as nat)
                == Some((v@, e as int)),
            None => parse_items(cs@, i as int, items_view(acc@, acc@.len() as int), fuel as nat) is None,
        },
    decreases fuel, 1int,
{
    if fuel == 0 {
        return None;
    }
    match parse_value_exec(cs, i, fuel) {
        None => None,
        Some((v, j)) => {
            let ghost before = acc@;
            let ghost vv = v@;
            let mut acc = acc;
            acc.push(v);
            proof {
                crate::schema::lemma_items_view_push(before, acc@);
                assert(items_view(acc@, acc@.len() as int) == items_view(before, before.len() as int).push(vv));
            }
            if j < cs.len() && cs[j] == ',' {
                parse_items_exec(cs, j + 1, acc, fuel - 1)
            } else if j < cs.len() && cs[j] == ']' {
                Some((Json::Array(acc), j + 1))
            } else {
                None
            }
        },
    }
}

/// Reads the fields of an object from `i`, `acc` read so far.
fn parse_fields_exec(cs: &[char], i: usize, acc: Vec<(String, Json)>, fuel: usize) -> (r: Option<
    (Json, usize),
>)
    ensures
        match r {
            Some((v, e)) => parse_fields(cs@, i as int, fields_view(acc@), fuel as nat) == Some(
                (v@, e as int),
            ),
            None => parse_fields(cs@, i as int, fields_view(acc@), fuel as nat) is None,
        },
    decreases fuel, 1int,
{
    if fuel == 0 || i >= cs.len() || cs[i] != '"' {
        return None;
    }
    match parse_str_exec(cs, i + 1) {
        None => None,
        Some((k, j)) => {
            if j < cs.len() && cs[j] == ':' {
                match parse_value_exec(cs, j + 1, fuel) {
                    None => None,
                    Some((v, e)) => {
                        let ghost before = acc@;
                        let ghost kv = (k@, v@);
                        let mut acc = acc;
                        acc.push((k, v));
                        proof {
                            lemma_fields_push(before, acc@);
                        }
                        if e < cs.len() && cs[e] == ',' {
                            parse_fields_exec(cs, e + 1, acc, fuel - 1)
                        } else if e < cs.len() && cs[e] == '}' {
                            Some((Json::Object(acc), e + 1))
                        } else {
                            None
                        }
                    },
                }
            } else {
                None
            }
        },
    }
}

/// Reads a whole JSON text, nesting no deeper than the text is long.
pub fn parse_json_text(text: &str) -> (r: Option<Json>)
    ensures
        match r {
            Some(j) => spec_parse_json(text@) == Some(j@),
            None => spec_parse_json(text@) is None,
        },
{
    let cs = crate::text::chars_of(text);
    match parse_value_exec(cs.as_slice(), 0, cs.len()) {
        Some((v, e)) => if e == cs.len() { Some(v) } else { None },
        None => None,
    }
}

} // verus!

verus! {

/// What `toml::from_str` reads `text` as, written by `serde_json::to_string`
/// as compact JSON text; `None` when `text` is not valid TOML (or the value
/// cannot be written as JSON).
pub uninterp spec fn toml_json_text(text: Seq<char>) -> Option<Seq<char>>;

/// `toml::from_str::<toml::Value>`, then `serde_json::to_string` of the
/// value read: the JSON text of a TOML document, or the error message when
/// either fails. Stated: success exactly when the name gives a text, and
/// the text it gives; the error message is not stated.
#[verifier::external_body]
fn toml_to_json_text(text: &str) -> (r: Result<String, String>)
    ensures
        match r {
            Ok(t) => toml_json_text(text@) == Some(t@),
            Err(_) => toml_json_text(text@) is None,
        },
{
    match toml::from_str::<toml::Value>(text) {
        Ok(v) => serde_json::to_string(&v).map_err(|e| e.to_string()),
        Err(e) => Err(e.to_string()),
    }
}

/// The JSON value a TOML document stands for, if it is valid TOML.
pub open spec fn toml_json(text: Seq<char>) -> Option<SpecJson> {
    match toml_json_text(text) {
        Some(t) => spec_parse_json(t),
        None => None,
    }
}

/// Merges a project-local TOML fragment over a configuration given as its
/// JSON form: keys the fragment sets win, tables merge per key, scalars and
/// arrays replace, and absent keys keep the base value. Invalid TOML is an
/// error.
pub fn merge_config_override(base: Json, local_toml: &str) -> (r: Result<Json, String>)
    ensures
        match toml_json(local_toml@) {
            None => r is Err,
            Some(l) => r matches Ok(m) && m@ == merge_json(base@, l),
        },
{
    match toml_to_json_text(local_toml) {
        Err(e) => Err(e),
        Ok(t) => match parse_json_text(t.as_str()) {
            None => Err(String::from_str("the TOML value could not be read back as JSON")),
            Some(local) => {
                let mut merged = base;
                crate::json::deep_merge_json(&mut merged, local);
                Ok(merged)
            },
        },
    }
}

} // verus!
