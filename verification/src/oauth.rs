//! The pure parts of the MCP OAuth flow: where tokens are stored, and how
//! the authorization redirect is read.

use vstd::prelude::*;
use vstd::string::StringSliceAdditionalSpecFns;
use vstd::utf8::{decode_utf8, encode_scalar, encode_utf8, valid_utf8};

use crate::fs::join_path;
use crate::text::{
    chars_equal, chars_of, find_char, first_index, push_chars, push_str, slice_range, split_chars,
    split_seq, string_from_chars, words_of, words_seq,
};

verus! {

/// What `String::from_utf8_lossy` makes of `bytes`.
pub uninterp spec fn utf8_lossy(bytes: Seq<u8>) -> Seq<char>;

/// `String::from_utf8_lossy(bytes).into_owned()`: decodes UTF-8, replacing
/// each invalid sequence by U+FFFD. Stated: the result is a function of the
/// bytes, and valid UTF-8 decodes to exactly its characters.
#[verifier::external_body]
pub(crate) fn from_utf8_lossy(bytes: &[u8]) -> (r: String)
    ensures
        r@ == utf8_lossy(bytes@),
        valid_utf8(bytes@) ==> r@ == decode_utf8(bytes@),
{
    String::from_utf8_lossy(bytes).into_owned()
}

/// The value of a hexadecimal digit byte.
pub open spec fn hex_val(b: u8) -> Option<u8> {
    if 48 <= b <= 57 {
        Some((b - 48) as u8)
    } else if 97 <= b <= 102 {
        Some((b - 87) as u8)
    } else if 65 <= b <= 70 {
        Some((b - 55) as u8)
    } else {
        None
    }
}

/// Percent-decoding of `b` from position `i`: `%XX` with two hex digits
/// becomes the byte `XX`, `+` becomes a space, every other byte (a `%`
/// without two following hex digits included) is kept.
pub open spec fn decode_from(b: Seq<u8>, i: int) -> Seq<u8>
    decreases b.len() - i,
{
    if i < 0 || i >= b.len() {
        seq![]
    } else if b[i] == 37 && i + 2 < b.len() && hex_val(b[i + 1]) is Some && hex_val(
        b[i + 2],
    ) is Some {
        seq![(hex_val(b[i + 1])->0 * 16 + hex_val(b[i + 2])->0) as u8] + decode_from(b, i + 3)
    } else if b[i] == 43 {
        seq![32u8] + decode_from(b, i + 1)
    } else {
        seq![b[i]] + decode_from(b, i + 1)
    }
}

/// The text a query value stands for: its decoded bytes read as UTF-8,
/// exactly when they are valid UTF-8, and as `String::from_utf8_lossy`
/// reads them otherwise.
pub open spec fn spec_percent_decode(s: Seq<char>) -> Seq<char> {
    let d = decode_from(encode_utf8(s), 0);
    if valid_utf8(d) {
        decode_utf8(d)
    } else {
        utf8_lossy(d)
    }
}

fn hex_digit(b: u8) -> (r: Option<u8>)
    ensures
        r == hex_val(b),
{
    if 48 <= b && b <= 57 {
        Some(b - 48)
    } else if 97 <= b && b <= 102 {
        Some(b - 87)
    } else if 65 <= b && b <= 70 {
        Some(b - 55)
    } else {
        None
    }
}

/// Whether `c` is a hexadecimal digit, in either case.
pub open spec fn is_hex_char(c: char) -> bool {
    ('0' <= c && c <= '9') || ('a' <= c && c <= 'f') || ('A' <= c && c <= 'F')
}

/// The upper-case form of a hexadecimal digit.
pub open spec fn hex_upper(c: char) -> char {
    if 'a' <= c && c <= 'f' {
        ((c as u32) - 32) as char
    } else {
        c
    }
}

/// The value a hexadecimal digit character stands for.
pub open spec fn hex_char_val(c: char) -> int {
    if '0' <= c && c <= '9' {
        (c as u32) - 48
    } else if 'a' <= c && c <= 'f' {
        (c as u32) - 87
    } else {
        (c as u32) - 55
    }
}

/// The bytes of `%`, `h`, `l` percent-decode to the one byte `h` and `l`
/// spell in hexadecimal, whatever their case.
proof fn lemma_decode_escape(h: char, l: char)
    requires
        is_hex_char(h),
        is_hex_char(l),
    ensures
        vstd::utf8::is_ascii_chars(seq!['%', h, l]),
        encode_utf8(seq!['%', h, l]) == seq![37u8, h as u8, l as u8],
        decode_from(encode_utf8(seq!['%', h, l]), 0) == seq![(hex_char_val(h) * 16 + hex_char_val(l)) as u8],
{
    let cs = seq!['%', h, l];
    assert(vstd::utf8::is_ascii_chars(cs));
    vstd::utf8::is_ascii_chars_encode_utf8(cs);
    let b = encode_utf8(cs);
    assert(b =~= seq![37u8, h as u8, l as u8]);
    assert(hex_val(h as u8) == Some(hex_char_val(h) as u8));
    assert(hex_val(l as u8) == Some(hex_char_val(l) as u8));
    assert(decode_from(b, 3) =~= Seq::<u8>::empty());
    assert(decode_from(b, 0) =~= seq![(hex_char_val(h) * 16 + hex_char_val(l)) as u8]);
}

/// Percent-decoding reads hexadecimal digits in either case: `%2f` and
/// `%2F` decode alike; and an escape of an ASCII byte decodes to the
/// character of that byte, so `%41` and `%2f` give `A` and `/`.
pub proof fn lemma_percent_decode_hex_case(h: char, l: char)
    requires
        is_hex_char(h),
        is_hex_char(l),
    ensures
        spec_percent_decode(seq!['%', h, l]) == spec_percent_decode(seq!['%', hex_upper(h), hex_upper(l)]),
        hex_char_val(h) < 8 ==> spec_percent_decode(seq!['%', h, l]) == seq![
            ((hex_char_val(h) * 16 + hex_char_val(l)) as u8) as char,
        ],
{
    lemma_decode_escape(h, l);
    assert(is_hex_char(hex_upper(h)) && is_hex_char(hex_upper(l)));
    assert(hex_char_val(hex_upper(h)) == hex_char_val(h));
    assert(hex_char_val(hex_upper(l)) == hex_char_val(l));
    lemma_decode_escape(hex_upper(h), hex_upper(l));
    if hex_char_val(h) < 8 {
        let v = (hex_char_val(h) * 16 + hex_char_val(l)) as u8;
        let c = v as char;
        let cs = seq![c];
        assert(vstd::utf8::is_ascii_chars(cs));
        vstd::utf8::is_ascii_chars_encode_utf8(cs);
        assert(encode_utf8(cs) =~= seq![v]);
        vstd::utf8::encode_utf8_valid_utf8(cs);
        vstd::utf8::encode_utf8_decode_utf8(cs);
    }
}

/// Minimal percent-decoding for query values (handles `%XX` and `+`);
/// byte sequences that are not UTF-8 come out as U+FFFD.
pub fn percent_decode(s: &str) -> (r: String)
    ensures
        r@ == spec_percent_decode(s@),
        no_escapes(s@) ==> r@ == s@,
{
    let bytes = s.as_bytes();
    let mut out: Vec<u8> = Vec::new();
    let mut i: usize = 0;
    while i < bytes.len()
        invariant
            bytes@ == encode_utf8(s@),
            0 <= i <= bytes.len(),
            decode_from(bytes@, 0) == out@ + decode_from(bytes@, i as int),
        decreases bytes.len() - i,
    {
        let ghost before = out@;
        let b = bytes[i];
        if b == 37 && bytes.len() - i > 2 {
            let hi = hex_digit(bytes[i + 1]);
            let lo = hex_digit(bytes[i + 2]);
            match (hi, lo) {
                (Some(h), Some(l)) => {
                    out.push(h * 16 + l);
                    i = i + 3;
                },
                _ => {
                    out.push(b);
                    i = i + 1;
                },
            }
        } else if b == 43 {
            out.push(32);
            i = i + 1;
        } else {
            out.push(b);
            i = i + 1;
        }
    }
    assert(decode_from(bytes@, i as int) =~= seq![]);
    assert(out@ =~= decode_from(bytes@, 0));
    proof {
        if no_escapes(s@) {
            lemma_encode_no_escape_bytes(s@);
            lemma_decode_plain(encode_utf8(s@), 0);
            assert(encode_utf8(s@).skip(0) =~= encode_utf8(s@));
            vstd::utf8::encode_utf8_valid_utf8(s@);
            vstd::utf8::encode_utf8_decode_utf8(s@);
        }
    }
    from_utf8_lossy(out.as_slice())
}

/// `s` holds neither `%` nor `+`.
pub open spec fn no_escapes(s: Seq<char>) -> bool {
    forall|k: int| 0 <= k < s.len() ==> s[k] != '%' && s[k] != '+'
}

/// No byte of the encoding of a character other than `%` or `+` is `%`
/// or `+`: ASCII bytes occur in UTF-8 only as themselves.
proof fn lemma_scalar_no_escape_bytes(c: char)
    requires
        c != '%' && c != '+',
    ensures
        forall|k: int|
            0 <= k < encode_scalar(c as u32).len() ==> #[trigger] encode_scalar(c as u32)[k]
                != 37 && encode_scalar(c as u32)[k] != 43,
{
    let v = c as u32;
    vstd::utf8::char_is_scalar(c);
    if vstd::utf8::has_width_1_encoding(v) {
        assert((v & 0x7f) as u8 == v as u8) by (bit_vector)
            requires
                v <= 0x7f,
        ;
        assert(v != 37 && v != 43);
    } else {
        assert(0xC0u8 | ((v >> 6) & 0x1F) as u8 >= 0x80) by (bit_vector);
        assert(0xE0u8 | ((v >> 12) & 0x0F) as u8 >= 0x80) by (bit_vector);
        assert(0xF0u8 | ((v >> 18) & 0x7) as u8 >= 0x80) by (bit_vector);
        assert(0x80u8 | (v & 0x3F) as u8 >= 0x80) by (bit_vector);
        assert(0x80u8 | ((v >> 6) & 0x3F) as u8 >= 0x80) by (bit_vector);
        assert(0x80u8 | ((v >> 12) & 0x3F) as u8 >= 0x80) by (bit_vector);
    }
}

/// The encoding of text without `%` and `+` holds neither byte.
proof fn lemma_encode_no_escape_bytes(s: Seq<char>)
    requires
        no_escapes(s),
    ensures
        forall|k: int|
            0 <= k < encode_utf8(s).len() ==> #[trigger] encode_utf8(s)[k] != 37
                && encode_utf8(s)[k] != 43,
    decreases s.len(),
{
    if s.len() > 0 {
        lemma_scalar_no_escape_bytes(s[0]);
        assert(no_escapes(s.drop_first()));
        lemma_encode_no_escape_bytes(s.drop_first());
        let a = encode_scalar(s[0] as u32);
        let b = encode_utf8(s.drop_first());
        assert(encode_utf8(s) == a + b);
        assert forall|k: int| 0 <= k < (a + b).len() implies #[trigger] (a + b)[k] != 37 && (a
            + b)[k] != 43 by {
            if k < a.len() {
                assert((a + b)[k] == a[k]);
            } else {
                assert((a + b)[k] == b[k - a.len()]);
            }
        }
    }
}

/// Bytes without `%` and `+` decode to themselves.
proof fn lemma_decode_plain(b: Seq<u8>, i: int)
    requires
        0 <= i <= b.len(),
        forall|k: int| 0 <= k < b.len() ==> #[trigger] b[k] != 37 && b[k] != 43,
    ensures
        decode_from(b, i) == b.skip(i),
    decreases b.len() - i,
{
    if i < b.len() {
        lemma_decode_plain(b, i + 1);
        assert(b.skip(i) =~= seq![b[i]] + b.skip(i + 1));
    } else {
        assert(b.skip(i) =~= seq![]);
    }
}

/// What the redirect's query supplied so far.
pub struct CallbackFields {
    pub code: Option<Seq<char>>,
    pub state: Option<Seq<char>>,
    pub error: Option<Seq<char>>,
}

/// The fields after one `key=value` pair: `code`, `state` and `error` take
/// the decoded value (a later pair wins); other keys, and pairs without `=`,
/// change nothing.
pub open spec fn apply_pair(f: CallbackFields, pair: Seq<char>) -> CallbackFields {
    match first_index(pair, '=') {
        None => f,
        Some(j) => {
            let k = pair.take(j);
            let v = spec_percent_decode(pair.skip(j + 1));
            if k == seq!['c', 'o', 'd', 'e'] {
                CallbackFields { code: Some(v), ..f }
            } else if k == seq!['s', 't', 'a', 't', 'e'] {
                CallbackFields { state: Some(v), ..f }
            } else if k == seq!['e', 'r', 'r', 'o', 'r'] {
                CallbackFields { error: Some(v), ..f }
            } else {
                f
            }
        },
    }
}

/// The fields after all of `pairs`, in order.
pub open spec fn fields_after(pairs: Seq<Seq<char>>) -> CallbackFields
    decreases pairs.len(),
{
    if pairs.len() == 0 {
        CallbackFields { code: None, state: None, error: None }
    } else {
        apply_pair(fields_after(pairs.drop_last()), pairs.last())
    }
}

/// Why a redirect request was not accepted.
#[derive(Debug, Clone, PartialEq, Eq)]
pub enum CallbackError {
    /// The request line has no target.
    MalformedRequestLine,
    /// The authorization server reported this error.
    ServerError(String),
    /// The redirect lacks `code` or `state`.
    MissingCodeOrState,
}

/// The mathematical form of a [`CallbackError`].
pub enum SpecCallbackError {
    MalformedRequestLine,
    ServerError(Seq<char>),
    MissingCodeOrState,
}

impl View for CallbackError {
    type V = SpecCallbackError;

    open spec fn view(&self) -> SpecCallbackError {
        match self {
            CallbackError::MalformedRequestLine => SpecCallbackError::MalformedRequestLine,
            CallbackError::ServerError(e) => SpecCallbackError::ServerError(e@),
            CallbackError::MissingCodeOrState => SpecCallbackError::MissingCodeOrState,
        }
    }
}

/// The message shown for a refused redirect.
pub open spec fn callback_error_text(e: SpecCallbackError) -> Seq<char> {
    match e {
        SpecCallbackError::MalformedRequestLine => "malformed redirect request line"@,
        SpecCallbackError::ServerError(m) => "authorization server returned an error: "@ + m,
        SpecCallbackError::MissingCodeOrState => "redirect missing code or state"@,
    }
}

impl CallbackError {
    /// The message shown to the user.
    pub fn message(&self) -> (r: String)
        ensures
            r@ == callback_error_text(self@),
    {
        match self {
            CallbackError::MalformedRequestLine => String::from_str(
                "malformed redirect request line",
            ),
            CallbackError::ServerError(e) => {
                let mut m = String::from_str("authorization server returned an error: ");
                push_str(&mut m, e.as_str());
                m
            },
            CallbackError::MissingCodeOrState => String::from_str(
                "redirect missing code or state",
            ),
        }
    }
}

/// The query part of a request target: what follows the first `?`, or
/// nothing.
pub open spec fn query_of(target: Seq<char>) -> Seq<char> {
    match first_index(target, '?') {
        Some(i) => target.skip(i + 1),
        None => seq![],
    }
}

/// What a request line `GET /callback?code=...&state=... HTTP/1.1` yields:
/// the target is its second whitespace-separated word; an `error` in the
/// query wins over everything; otherwise both `code` and `state` are needed.
pub open spec fn spec_parse_callback(line: Seq<char>) -> Result<
    (Seq<char>, Seq<char>),
    SpecCallbackError,
> {
    let words = words_seq(line);
    if words.len() < 2 {
        Err(SpecCallbackError::MalformedRequestLine)
    } else {
        let f = fields_after(split_seq(query_of(words[1]), '&'));
        match f.error {
            Some(e) => Err(SpecCallbackError::ServerError(e)),
            None => match (f.code, f.state) {
                (Some(c), Some(s)) => Ok((c, s)),
                _ => Err(SpecCallbackError::MissingCodeOrState),
            },
        }
    }
}

/// Reads the authorization code and state from the redirect's request line.
pub fn parse_callback(request_line: &str) -> (r: Result<(String, String), CallbackError>)
    ensures
        match r {
            Ok((c, s)) => spec_parse_callback(request_line@) == Ok::<
                (Seq<char>, Seq<char>),
                SpecCallbackError,
            >((c@, s@)),
            Err(e) => spec_parse_callback(request_line@) == Err::<
                (Seq<char>, Seq<char>),
                SpecCallbackError,
            >(e@),
        },
{
    let line = chars_of(request_line);
    let words = words_of(line.as_slice());
    if words.len() < 2 {
        return Err(CallbackError::MalformedRequestLine);
    }
    let target = &words[1];
    let query: Vec<char> = match find_char(target.as_slice(), '?') {
        Some(i) => slice_range(target.as_slice(), i + 1, target.len()),
        None => Vec::new(),
    };
    assert(query@ =~= query_of(words_seq(line@)[1]));
    let pairs = split_chars(query.as_slice(), '&');
    let code_key = vec!['c', 'o', 'd', 'e'];
    let state_key = vec!['s', 't', 'a', 't', 'e'];
    let error_key = vec!['e', 'r', 'r', 'o', 'r'];
    assert(code_key@ =~= seq!['c', 'o', 'd', 'e'] && state_key@ =~= seq!['s', 't', 'a', 't', 'e']
        && error_key@ =~= seq!['e', 'r', 'r', 'o', 'r']);
    let mut code: Option<String> = None;
    let mut state: Option<String> = None;
    let mut error: Option<String> = None;
    let mut i: usize = 0;
    while i < pairs.len()
        invariant
            0 <= i <= pairs.len(),
            pairs@.len() == split_seq(query@, '&').len(),
            forall|k: int| 0 <= k < pairs@.len() ==> #[trigger] pairs@[k]@ == split_seq(
                query@,
                '&',
            )[k],
            code_key@ == seq!['c', 'o', 'd', 'e'],
            state_key@ == seq!['s', 't', 'a', 't', 'e'],
            error_key@ == seq!['e', 'r', 'r', 'o', 'r'],
            ({
                let f = fields_after(split_seq(query@, '&').take(i as int));
                &&& f.code == (match code {
                    Some(c) => Some(c@),
                    None => None,
                })
                &&& f.state == (match state {
                    Some(c) => Some(c@),
                    None => None,
                })
                &&& f.error == (match error {
                    Some(c) => Some(c@),
                    None => None,
                })
            }),
        decreases pairs.len() - i,
    {
        let ghost all = split_seq(query@, '&');
        assert(all.take(i + 1).drop_last() =~= all.take(i as int));
        assert(all.take(i + 1).last() == all[i as int]);
        let pair = &pairs[i];
        match find_char(pair.as_slice(), '=') {
            None => {},
            Some(j) => {
                let key = slice_range(pair.as_slice(), 0, j);
                let raw = string_from_chars(slice_range(pair.as_slice(), j + 1, pair.len()).as_slice());
                assert(key@ =~= pair@.take(j as int));
                assert(raw@ =~= pair@.skip(j + 1));
                let v = percent_decode(raw.as_str());
                if chars_equal(key.as_slice(), code_key.as_slice()) {
                    code = Some(v);
                } else if chars_equal(key.as_slice(), state_key.as_slice()) {
                    state = Some(v);
                } else if chars_equal(key.as_slice(), error_key.as_slice()) {
                    error = Some(v);
                }
            },
        }
        i = i + 1;
    }
    assert(split_seq(query@, '&').take(pairs.len() as int) =~= split_seq(query@, '&'));
    if let Some(e) = error {
        return Err(CallbackError::ServerError(e));
    }
    match (code, state) {
        (Some(c), Some(s)) => Ok((c, s)),
        _ => Err(CallbackError::MissingCodeOrState),
    }
}

/// Whether `c` may stand in a token file name as it is.
pub open spec fn is_safe_name_char(c: char) -> bool {
    ('a' <= c <= 'z') || ('A' <= c <= 'Z') || ('0' <= c <= '9') || c == '-' || c == '_'
}

/// A server name made into one safe file name: every character other than
/// an ASCII letter, digit, `-` or `_` becomes `_`, and `.json` is appended.
pub open spec fn spec_token_filename(server_name: Seq<char>) -> Seq<char> {
    server_name.map_values(|c: char| if is_safe_name_char(c) { c } else { '_' }) + seq![
        '.',
        'j',
        's',
        'o',
        'n',
    ]
}

/// The token file name for an MCP server.
pub fn token_filename(server_name: &str) -> (r: String)
    ensures
        r@ == spec_token_filename(server_name@),
{
    let cs = chars_of(server_name);
    let mut out: Vec<char> = Vec::new();
    let mut i: usize = 0;
    while i < cs.len()
        invariant
            cs@ == server_name@,
            0 <= i <= cs.len(),
            out@ == cs@.take(i as int).map_values(
                |c: char| if is_safe_name_char(c) { c } else { '_' },
            ),
        decreases cs.len() - i,
    {
        let c = cs[i];
        let safe = ('a' <= c && c <= 'z') || ('A' <= c && c <= 'Z') || ('0' <= c && c <= '9')
            || c == '-' || c == '_';
        out.push(if safe { c } else { '_' });
        i = i + 1;
        assert(cs@.take(i as int).map_values(|c: char| if is_safe_name_char(c) { c } else { '_' })
            =~= cs@.take(i - 1).map_values(
            |c: char| if is_safe_name_char(c) { c } else { '_' },
        ).push(if is_safe_name_char(cs@[i - 1]) { cs@[i - 1] } else { '_' }));
    }
    assert(cs@.take(cs.len() as int) =~= cs@);
    out.push('.');
    out.push('j');
    out.push('s');
    out.push('o');
    out.push('n');
    string_from_chars(out.as_slice())
}

/// The directory OAuth tokens are kept in, under the data directory.
pub fn oauth_dir(data_dir: &str) -> (r: String)
    ensures
        r@ == crate::fs::spec_join_path(data_dir@, "mcp-oauth"@),
{
    join_path(data_dir, "mcp-oauth")
}

/// The token file of an MCP server.
pub fn token_path(data_dir: &str, server_name: &str) -> (r: String)
    ensures
        r@ == crate::fs::spec_join_path(
            crate::fs::spec_join_path(data_dir@, "mcp-oauth"@),
            spec_token_filename(server_name@),
        ),
{
    let dir = oauth_dir(data_dir);
    let name = token_filename(server_name);
    join_path(dir.as_str(), name.as_str())
}

/// The token file of one MCP server.
pub struct FileCredentialStore {
    pub path: String,
}

impl FileCredentialStore {
    /// The store of server `server_name`, under the data directory.
    pub fn new(data_dir: &str, server_name: &str) -> (r: Self)
        ensures
            r.path@ == crate::fs::spec_join_path(
                crate::fs::spec_join_path(data_dir@, "mcp-oauth"@),
                spec_token_filename(server_name@),
            ),
    {
        FileCredentialStore { path: token_path(data_dir, server_name) }
    }
}


/// The first line of the redirect request, as received.
pub open spec fn spec_request_line(bytes: Seq<u8>) -> Option<Seq<char>> {
    let ls = crate::text::lines_seq(utf8_lossy(bytes));
    if ls.len() == 0 {
        None
    } else {
        Some(ls[0])
    }
}

/// The request line of the redirect the browser sends: the first line of
/// what was read, or an error when there is none.
pub fn request_line(bytes: &[u8]) -> (r: Result<String, String>)
    ensures
        match r {
            Ok(l) => spec_request_line(bytes@) == Some(l@),
            Err(m) => spec_request_line(bytes@) is None && m@ == "empty redirect request"@,
        },
{
    let text = from_utf8_lossy(bytes);
    let cs = chars_of(text.as_str());
    let lines = crate::text::lines_of(cs.as_slice());
    if lines.len() == 0 {
        Err(String::from_str("empty redirect request"))
    } else {
        Ok(string_from_chars(lines[0].as_slice()))
    }
}

/// The page shown in the browser once the authorization came back.
pub const CALLBACK_PAGE: &'static str = "<html><body><h3>zerostack: authorization complete.</h3>You can close this tab and return to the terminal.</body></html>";

/// The HTTP response that carries the page.
pub open spec fn spec_callback_response() -> Seq<char> {
    "HTTP/1.1 200 OK\r\nContent-Type: text/html\r\nContent-Length: "@ + crate::text::decimal(
        crate::truncate::utf8_len(CALLBACK_PAGE@),
    ) + "\r\nConnection: close\r\n\r\n"@ + CALLBACK_PAGE@
}

/// The response sent to the browser after the redirect: the page, with its
/// length in bytes.
pub fn callback_response() -> (r: String)
    ensures
        r@ == spec_callback_response(),
{
    let page = chars_of(CALLBACK_PAGE);
    proof {
        reveal_strlit("<html><body><h3>zerostack: authorization complete.</h3>You can close this tab and return to the terminal.</body></html>");
        crate::truncate::lemma_utf8_len_bound(page@, page@.len() as int);
        assert(page@.take(page@.len() as int) =~= page@);
    }
    let n = crate::truncate::utf8_len_exec(page.as_slice());
    let mut s = String::from_str("HTTP/1.1 200 OK\r\nContent-Type: text/html\r\nContent-Length: ");
    let mut d: Vec<char> = Vec::new();
    crate::text::push_decimal(&mut d, n as u64);
    push_chars(&mut s, d.as_slice());
    push_str(&mut s, "\r\nConnection: close\r\n\r\n");
    push_str(&mut s, CALLBACK_PAGE);
    s
}

} // verus!
