//! The small wire formats spoken with the phone: the discovery hello, the
//! `/ping` probe, the `/submit` request, and their replies. No I/O here.

use vstd::prelude::*;
use vstd::string::StrSliceExecFns;
use vstd::string::StringExecFns;
use vstd::string::StringSliceAdditionalSpecFns;
use vstd::utf8::{decode_utf8, encode_utf8, valid_utf8};
use crate::config::PORT;
use crate::text::{
    append_all, chars_of, contains_seq, cut_at, decimal, decimal_string, eq_chars, find_chars,
    first_index, first_occurrence, lemma_first_index, occurs_at, string_of, subvec,
};

verus! {

/// The discovery message a phone broadcasts (`magic`=KFL, `action`=hello).
#[derive(Debug, Clone)]
pub struct BroadcastMsg {
    pub magic: String,
    pub action: String,
    pub port: Option<u16>,
    pub device: Option<String>,
}

pub open spec fn hello(magic: Seq<char>, action: Seq<char>) -> bool {
    magic == "KFL"@ && action == "hello"@
}

impl BroadcastMsg {
    /// Whether this is a KFL hello.
    pub fn is_valid_hello(&self) -> (b: bool)
        ensures
            b == hello(self.magic@, self.action@),
    {
        eq_chars(&chars_of(self.magic.as_str()), &chars_of("KFL")) && eq_chars(
            &chars_of(self.action.as_str()),
            &chars_of("hello"),
        )
    }

    /// The port the phone serves on: the announced one, else `PORT`.
    pub fn effective_port(&self) -> (p: u16)
        ensures
            p == match self.port {
                Some(q) => q,
                None => PORT,
            },
    {
        match self.port {
            Some(q) => q,
            None => PORT,
        }
    }
}

/// The end of HTTP headers, "\r\n\r\n".
pub const HEADER_END: [u8; 4] = [13, 10, 13, 10];

/// The JSON member name `"ok"`, quotes included.
pub const OK_MEMBER: [u8; 4] = [34, 111, 107, 34];

/// The HTTP status text "200 OK".
pub const STATUS_200_OK: [u8; 6] = [50, 48, 48, 32, 79, 75];

/// Whether `p` occurs in `s` at `i`.
fn occurs_at_bytes(s: &[u8], p: &[u8], i: usize) -> (b: bool)
    ensures
        b == occurs_at(s@, p@, i as int),
{
    if i > s.len() || p.len() > s.len() - i {
        return false;
    }
    let mut k: usize = 0;
    while k < p.len()
        invariant
            k <= p@.len(),
            i + p@.len() <= s@.len(),
            i + p.len() <= s.len(),
            forall|m: int| 0 <= m < k ==> s@[i + m] == p@[m],
        decreases p@.len() - k,
    {
        if s[i + k] != p[k] {
            assert(s@.subrange(i as int, i + p@.len())[k as int] != p@[k as int]);
            return false;
        }
        k += 1;
    }
    assert(s@.subrange(i as int, i + p@.len()) =~= p@);
    true
}

/// The first index at which `needle` occurs in `haystack`; `None` for an
/// empty needle.
pub fn find_subslice(haystack: &[u8], needle: &[u8]) -> (r: Option<usize>)
    ensures
        needle@.len() == 0 ==> r is None,
        needle@.len() > 0 ==> first_occurrence(haystack@, needle@, r),
{
    if needle.len() == 0 || haystack.len() < needle.len() {
        return None;
    }
    let n = haystack.len() - needle.len();
    let mut i: usize = 0;
    loop
        invariant
            needle@.len() <= haystack@.len(),
            needle@.len() > 0,
            n == haystack@.len() - needle@.len(),
            i <= n,
            forall|j: int| 0 <= j < i ==> !occurs_at(haystack@, needle@, j),
        decreases n - i,
    {
        if occurs_at_bytes(haystack, needle, i) {
            return Some(i);
        }
        if i == n {
            return None;
        }
        i += 1;
    }
}

/// Whether a reply carries an ok mark: the member `"ok"` or status "200 OK".
pub open spec fn reply_ok(data: Seq<u8>) -> bool {
    contains_seq(data, OK_MEMBER@) || contains_seq(data, STATUS_200_OK@)
}

/// Whether a reply carries an ok mark.
pub fn response_is_ok(data: &[u8]) -> (b: bool)
    ensures
        b == reply_ok(data@),
{
    let a = find_subslice(data, &OK_MEMBER);
    let b = find_subslice(data, &STATUS_200_OK);
    proof {
        if let Some(i) = a {
            lemma_first_index(data@, OK_MEMBER@, i);
        }
        if let Some(i) = b {
            lemma_first_index(data@, STATUS_200_OK@, i);
        }
    }
    a.is_some() || b.is_some()
}

/// The `/ping` request for `ip`.
pub open spec fn ping_request_text(ip: Seq<char>) -> Seq<char> {
    "GET /ping HTTP/1.0\r\nHost: "@ + ip + "\r\n\r\n"@
}

/// The `/ping` request for `ip`, as UTF-8 bytes.
pub fn ping_request(ip: &str) -> (r: Vec<u8>)
    ensures
        r@ == encode_utf8(ping_request_text(ip@)),
{
    let mut s = "GET /ping HTTP/1.0\r\nHost: ".to_string();
    s.append(ip);
    s.append("\r\n\r\n");
    s.as_str().as_bytes_vec()
}

/// Bytes `i..` of `s`.
fn bytes_from(s: &[u8], i: usize) -> (r: Vec<u8>)
    requires
        i <= s@.len(),
    ensures
        r@ == s@.skip(i as int),
{
    let mut r: Vec<u8> = Vec::new();
    let mut k = i;
    while k < s.len()
        invariant
            i <= k <= s@.len(),
            r@ == s@.subrange(i as int, k as int),
        decreases s@.len() - k,
    {
        r.push(s[k]);
        k += 1;
    }
    assert(r@ =~= s@.skip(i as int));
    r
}

/// The body of an HTTP message: what follows the first blank line.
pub open spec fn http_body(data: Seq<u8>) -> Option<Seq<u8>> {
    if contains_seq(data, HEADER_END@) {
        Some(data.skip(first_index(data, HEADER_END@) + 4))
    } else {
        None
    }
}

fn http_body_exec(data: &[u8]) -> (r: Option<Vec<u8>>)
    ensures
        r matches Some(b) ==> http_body(data@) == Some(b@),
        r is None ==> http_body(data@) is None,
{
    match find_subslice(data, &HEADER_END) {
        Some(pos) => {
            proof {
                lemma_first_index(data@, HEADER_END@, pos);
            }
            assert(occurs_at(data@, HEADER_END@, pos as int));
            let n = data.len();
            assert(pos + 4 <= n);
            Some(bytes_from(data, pos + 4))
        },
        None => None,
    }
}

/// A member of a JSON object, as far as the phone protocol reads it.
pub enum JsonMember {
    /// The text is not JSON.
    NotJson,
    /// The text is JSON but not an object with this member.
    Absent,
    Text(String),
    Flag(bool),
    /// Any other kind of value.
    Other,
}

pub enum JsonMemberView {
    NotJson,
    Absent,
    Text(Seq<char>),
    Flag(bool),
    Other,
}

impl View for JsonMember {
    type V = JsonMemberView;

    open spec fn view(&self) -> JsonMemberView {
        match self {
            JsonMember::NotJson => JsonMemberView::NotJson,
            JsonMember::Absent => JsonMemberView::Absent,
            JsonMember::Text(s) => JsonMemberView::Text(s@),
            JsonMember::Flag(b) => JsonMemberView::Flag(*b),
            JsonMember::Other => JsonMemberView::Other,
        }
    }
}

/// The member `key` of the JSON value in `body` (`serde_json::from_slice`,
/// then `Value::get`).
pub uninterp spec fn json_member_of_bytes(body: Seq<u8>, key: Seq<char>) -> JsonMemberView;

/// The member `key` of the JSON value in `text` (`serde_json::from_str`,
/// then `Value::get`).
pub uninterp spec fn json_member_of_text(text: Seq<char>, key: Seq<char>) -> JsonMemberView;

/// A hexadecimal digit, lower case, as serde_json writes them.
pub open spec fn hex_digit_char(n: u32) -> char {
    if n < 10 {
        (48 + n) as char
    } else {
        (87 + n) as char
    }
}

/// How serde_json writes one character inside a string literal: quote and
/// backslash escaped, the control characters with a short escape where JSON
/// has one and as `\u00XX` otherwise, everything else as it is.
pub open spec fn json_escape(c: char) -> Seq<char> {
    if c == '"' {
        seq!['\\', '"']
    } else if c == '\\' {
        seq!['\\', '\\']
    } else if c == '\u{8}' {
        seq!['\\', 'b']
    } else if c == '\t' {
        seq!['\\', 't']
    } else if c == '\n' {
        seq!['\\', 'n']
    } else if c == '\u{c}' {
        seq!['\\', 'f']
    } else if c == '\r' {
        seq!['\\', 'r']
    } else if (c as u32) < 0x20 {
        seq!['\\', 'u', '0', '0', hex_digit_char((c as u32) / 16), hex_digit_char((c as u32) % 16)]
    } else {
        seq![c]
    }
}

pub open spec fn json_escaped(text: Seq<char>) -> Seq<char>
    decreases text.len(),
{
    if text.len() == 0 {
        seq![]
    } else {
        json_escaped(text.drop_last()) + json_escape(text.last())
    }
}

/// `text` as a JSON string literal, as `serde_json::to_string` writes it.
pub open spec fn json_quoted(text: Seq<char>) -> Seq<char> {
    seq!['"'] + json_escaped(text) + seq!['"']
}

/// `String::from_utf8_lossy`: invalid sequences become U+FFFD.
pub uninterp spec fn utf8_lossy(bytes: Seq<u8>) -> Seq<char>;

/// Parses `body` with `serde_json::from_slice` into a `serde_json::Value`
/// and looks `key` up with `Value::get`; the result is named
/// `json_member_of_bytes`.
#[verifier::external_body]
fn json_member_in_bytes(body: &[u8], key: &str) -> (r: JsonMember)
    ensures
        r@ == json_member_of_bytes(body@, key@),
{
    match serde_json::from_slice::<serde_json::Value>(body) {
        Err(_) => JsonMember::NotJson,
        Ok(v) => match v.get(key) {
            None => JsonMember::Absent,
            Some(serde_json::Value::String(s)) => JsonMember::Text(s.clone()),
            Some(serde_json::Value::Bool(b)) => JsonMember::Flag(*b),
            Some(_) => JsonMember::Other,
        },
    }
}

/// Parses `text` with `serde_json::from_str` into a `serde_json::Value`
/// and looks `key` up with `Value::get`; the result is named
/// `json_member_of_text`.
#[verifier::external_body]
fn json_member_in_text(text: &Vec<char>, key: &str) -> (r: JsonMember)
    ensures
        r@ == json_member_of_text(text@, key@),
{
    let t: String = text.iter().collect();
    match serde_json::from_str::<serde_json::Value>(&t) {
        Err(_) => JsonMember::NotJson,
        Ok(v) => match v.get(key) {
            None => JsonMember::Absent,
            Some(serde_json::Value::String(s)) => JsonMember::Text(s.clone()),
            Some(serde_json::Value::Bool(b)) => JsonMember::Flag(*b),
            Some(_) => JsonMember::Other,
        },
    }
}

/// Serialises a string with `serde_json::to_string`, which writes it as
/// `json_quoted` says. Serialising a `str` does not fail; an error would
/// give the empty string.
#[verifier::external_body]
fn json_string(text: &str) -> (r: Vec<char>)
    ensures
        r@ == json_quoted(text@),
{
    match serde_json::to_string(text) {
        Ok(s) => s.chars().collect(),
        Err(_) => Vec::new(),
    }
}

/// Decodes with `String::from_utf8_lossy`; named `utf8_lossy`. Valid UTF-8
/// is decoded unchanged.
#[verifier::external_body]
fn decode_lossy(bytes: &[u8]) -> (r: Vec<char>)
    ensures
        r@ == utf8_lossy(bytes@),
        valid_utf8(bytes@) ==> r@ == decode_utf8(bytes@),
{
    String::from_utf8_lossy(bytes).chars().collect()
}

/// The device name in a `/ping` reply: the body's `device` member, or its
/// `model` member when there is no `device`; only a string counts.
pub open spec fn device_name(data: Seq<u8>) -> Option<Seq<char>> {
    match http_body(data) {
        None => None,
        Some(body) => match json_member_of_bytes(body, "device"@) {
            JsonMemberView::Text(s) => Some(s),
            JsonMemberView::Absent => match json_member_of_bytes(body, "model"@) {
                JsonMemberView::Text(s) => Some(s),
                _ => None,
            },
            _ => None,
        },
    }
}

/// The device name in a `/ping` reply.
#[verifier::rlimit(30)]
pub fn parse_device_name(data: &[u8]) -> (r: Option<String>)
    ensures
        r matches Some(s) ==> device_name(data@) == Some(s@),
        r is None ==> device_name(data@) is None,
{
    let body = match http_body_exec(data) {
        Some(b) => b,
        None => {
            return None;
        },
    };
    match json_member_in_bytes(body.as_slice(), "device") {
        JsonMember::Text(s) => Some(s),
        JsonMember::Absent => match json_member_in_bytes(body.as_slice(), "model") {
            JsonMember::Text(s) => Some(s),
            _ => None,
        },
        _ => None,
    }
}

/// The JSON body of a `/submit` request: `{"text":<text>}`.
pub open spec fn submit_body_text(text: Seq<char>) -> Seq<char> {
    "{\"text\":"@ + json_quoted(text) + "}"@
}

/// The JSON body of a `/submit` request, as UTF-8 bytes.
pub fn submit_body(text: &str) -> (r: Vec<u8>)
    ensures
        r@ == encode_utf8(submit_body_text(text@)),
        valid_utf8(r@),
        text_member(decode_utf8(r@)) == Some(text@),
{
    proof {
        vstd::utf8::encode_utf8_valid_utf8(submit_body_text(text@));
        vstd::utf8::encode_utf8_decode_utf8(submit_body_text(text@));
        lemma_submit_body_reads_back(text@);
    }
    let mut v = chars_of("{\"text\":");
    append_all(&mut v, &json_string(text));
    append_all(&mut v, &chars_of("}"));
    let s = string_of(&v);
    s.as_str().as_bytes_vec()
}

/// The value of one hexadecimal digit, either case.
pub open spec fn hex_value(c: char) -> Option<nat> {
    if '0' <= c && c <= '9' {
        Some(((c as u32) - 48) as nat)
    } else if 'a' <= c && c <= 'f' {
        Some(((c as u32) - 87) as nat)
    } else if 'A' <= c && c <= 'F' {
        Some(((c as u32) - 55) as nat)
    } else {
        None
    }
}

/// The value of four hexadecimal digits.
pub open spec fn hex4_value(s: Seq<char>) -> Option<nat> {
    match (hex_value(s[0]), hex_value(s[1]), hex_value(s[2]), hex_value(s[3])) {
        (Some(a), Some(b), Some(c), Some(d)) => Some(((a * 16 + b) * 16 + c) * 16 + d),
        _ => None,
    }
}

/// The character a one-letter JSON escape (`\` and the letter) stands for.
pub open spec fn short_unescape(e: char) -> Option<char> {
    if e == '"' {
        Some('"')
    } else if e == '\\' {
        Some('\\')
    } else if e == '/' {
        Some('/')
    } else if e == 'b' {
        Some('\u{8}')
    } else if e == 'f' {
        Some('\u{c}')
    } else if e == 'n' {
        Some('\n')
    } else if e == 'r' {
        Some('\r')
    } else if e == 't' {
        Some('\t')
    } else {
        None
    }
}

/// The character of a `\uXXXX` escape at the start of `s`, unless it
/// names a surrogate half.
pub open spec fn unicode_escape(s: Seq<char>) -> Option<char> {
    if s.len() >= 6 && s[0] == '\\' && s[1] == 'u' {
        match hex4_value(s.subrange(2, 6)) {
            Some(v) => if v < 0xD800 || 0xE000 <= v {
                Some((v as u32) as char)
            } else {
                None
            },
            None => None,
        }
    } else {
        None
    }
}

/// The text that the inside of a JSON string literal (what stands between
/// its quotes) stands for, by JSON's rules: characters as they are, save
/// that a quote or a control character may not stand bare, and escapes.
/// A `\u` escape of a surrogate half, which JSON pairs with another, is
/// not read here.
pub open spec fn json_unescaped(s: Seq<char>) -> Option<Seq<char>>
    decreases s.len(),
{
    if s.len() == 0 {
        Some(seq![])
    } else if s[0] == '"' || (s[0] as u32) < 0x20 {
        None
    } else if s[0] != '\\' {
        match json_unescaped(s.drop_first()) {
            Some(r) => Some(seq![s[0]] + r),
            None => None,
        }
    } else if s.len() >= 2 && short_unescape(s[1]) is Some {
        match json_unescaped(s.skip(2)) {
            Some(r) => Some(seq![short_unescape(s[1])->0] + r),
            None => None,
        }
    } else if unicode_escape(s) is Some {
        match json_unescaped(s.skip(6)) {
            Some(r) => Some(seq![unicode_escape(s)->0] + r),
            None => None,
        }
    } else {
        None
    }
}

/// The text of a body of the form `{"text":"..."}`: the JSON object with
/// the one member "text", written without white space.
pub open spec fn text_member(body: Seq<char>) -> Option<Seq<char>> {
    let open = "{\"text\":\""@;
    let close = "\"}"@;
    if body.len() >= open.len() + close.len() && body.take(open.len() as int) == open
        && body.skip(body.len() - close.len()) == close {
        json_unescaped(body.subrange(open.len() as int, body.len() - close.len()))
    } else {
        None
    }
}

proof fn lemma_json_escaped_concat(a: Seq<char>, b: Seq<char>)
    ensures
        json_escaped(a + b) == json_escaped(a) + json_escaped(b),
    decreases b.len(),
{
    if b.len() == 0 {
        assert(a + b =~= a);
        assert(json_escaped(b) =~= Seq::<char>::empty());
        assert(json_escaped(a) + json_escaped(b) =~= json_escaped(a));
    } else {
        lemma_json_escaped_concat(a, b.drop_last());
        assert((a + b).drop_last() =~= a + b.drop_last());
        assert((a + b).last() == b.last());
        assert(json_escaped(a) + json_escaped(b) =~= json_escaped(a) + json_escaped(b.drop_last())
            + json_escape(b.last()));
    }
}

proof fn lemma_hex_digit(n: u32)
    requires
        n < 16,
    ensures
        hex_value(hex_digit_char(n)) == Some(n as nat),
{
    if n < 10 {
        assert(((48 + n) as char) as u32 == 48 + n);
    } else {
        assert(((87 + n) as char) as u32 == 87 + n);
    }
}

/// Reading one written character back, ahead of any text.
proof fn lemma_unescape_one(c: char, rest: Seq<char>)
    ensures
        json_unescaped(json_escape(c) + rest) == match json_unescaped(rest) {
            Some(r) => Some(seq![c] + r),
            None => None::<Seq<char>>,
        },
{
    let s = json_escape(c) + rest;
    if c == '"' || c == '\\' || c == '\u{8}' || c == '\t' || c == '\n' || c == '\u{c}' || c == '\r' {
        assert(s.skip(2) =~= rest);
    } else if (c as u32) < 0x20 {
        let u = c as u32;
        lemma_hex_digit(u / 16);
        lemma_hex_digit(u % 16);
        assert(s.subrange(2, 6) =~= seq!['0', '0', hex_digit_char(u / 16), hex_digit_char(u % 16)]);
        assert(hex_value('0') == Some(0nat));
        assert(hex4_value(s.subrange(2, 6)) == Some(u as nat));
        assert(s.skip(6) =~= rest);
        assert((u as char) == c);
    } else {
        assert(s.drop_first() =~= rest);
    }
}

/// Reading back what was written gives the text.
proof fn lemma_unescape_escaped(t: Seq<char>)
    ensures
        json_unescaped(json_escaped(t)) == Some(t),
    decreases t.len(),
{
    if t.len() == 0 {
        assert(json_escaped(t) =~= Seq::<char>::empty());
    } else {
        let rest = t.drop_first();
        lemma_unescape_escaped(rest);
        assert(t =~= seq![t[0]] + rest);
        lemma_json_escaped_concat(seq![t[0]], rest);
        let one = seq![t[0]];
        assert(one.drop_last() =~= Seq::<char>::empty());
        assert(one.last() == t[0]);
        assert(json_escaped(one.drop_last()) =~= Seq::<char>::empty());
        assert(json_escaped(one) =~= json_escape(t[0]));
        lemma_unescape_one(t[0], json_escaped(rest));
        assert(seq![t[0]] + rest =~= t);
    }
}

/// A `/submit` body read as JSON is the object whose one member "text"
/// holds the text that was sent, unchanged.
pub proof fn lemma_submit_body_reads_back(text: Seq<char>)
    ensures
        text_member(submit_body_text(text)) == Some(text),
{
    let body = submit_body_text(text);
    let open = "{\"text\":\""@;
    let close = "\"}"@;
    reveal_strlit("{\"text\":");
    reveal_strlit("{\"text\":\"");
    reveal_strlit("}");
    reveal_strlit("\"}");
    let e = json_escaped(text);
    assert(body =~= open + e + close);
    assert(body.take(open.len() as int) =~= open);
    assert(body.skip(body.len() - close.len()) =~= close);
    assert(body.subrange(open.len() as int, body.len() - close.len()) =~= e);
    lemma_unescape_escaped(text);
}

/// The header of a `/submit` request for `ip` with a body of `len` bytes.
pub open spec fn submit_head_text(ip: Seq<char>, len: nat) -> Seq<char> {
    "POST /submit HTTP/1.1\r\nHost: "@ + ip
        + "\r\nContent-Type: application/json; charset=utf-8\r\nUser-Agent: KaiFanLe-Helper/1.0\r\nContent-Length: "@
        + decimal(len) + "\r\nConnection: close\r\n\r\n"@
}

/// The header of a `/submit` request, as UTF-8 bytes.
pub fn submit_request_head(ip: &str, body_len: usize) -> (r: Vec<u8>)
    ensures
        r@ == encode_utf8(submit_head_text(ip@, body_len as nat)),
{
    let mut s = "POST /submit HTTP/1.1\r\nHost: ".to_string();
    s.append(ip);
    s.append(
        "\r\nContent-Type: application/json; charset=utf-8\r\nUser-Agent: KaiFanLe-Helper/1.0\r\nContent-Length: ",
    );
    s.append(decimal_string(body_len as u64).as_str());
    s.append("\r\nConnection: close\r\n\r\n");
    s.as_str().as_bytes_vec()
}

/// What the phone answered to a `/submit`.
pub struct SendReply {
    pub ok: bool,
    pub message: String,
}

/// The JSON text of a reply: the piece after the first blank line, up to a
/// second blank line if any; the whole reply when there is no blank line.
pub open spec fn reply_json(text: Seq<char>) -> Seq<char> {
    if contains_seq(text, "\r\n\r\n"@) {
        cut_at(text.skip(first_index(text, "\r\n\r\n"@) + "\r\n\r\n"@.len()), "\r\n\r\n"@)
    } else {
        text
    }
}

/// The outcome read from a `/submit` reply: a reply that is not JSON is a
/// failure with message "invalid response"; otherwise `ok` is the boolean
/// member `ok` (false when missing) and the message the string member
/// `message` (empty when missing).
pub open spec fn send_reply(resp: Seq<u8>) -> (bool, Seq<char>) {
    let json = reply_json(utf8_lossy(resp));
    match json_member_of_text(json, "ok"@) {
        JsonMemberView::NotJson => (false, "invalid response"@),
        other => (
            other == JsonMemberView::Flag(true),
            match json_member_of_text(json, "message"@) {
                JsonMemberView::Text(m) => m,
                _ => seq![],
            },
        ),
    }
}

/// Reads the phone's reply to a `/submit`.
pub fn read_send_reply(resp: &[u8]) -> (r: SendReply)
    ensures
        (r.ok, r.message@) == send_reply(resp@),
{
    let text = decode_lossy(resp);
    let sep = chars_of("\r\n\r\n");
    let json = match find_chars(&text, &sep) {
        Some(i) => {
            proof {
                lemma_first_index(text@, sep@, i);
            }
            assert(occurs_at(text@, sep@, i as int));
            let tl = text.len();
            let sl = sep.len();
            assert(i + sl <= tl);
            let rest = subvec(&text, i + sl, tl);
            assert(rest@ =~= text@.skip(i + sep@.len()));
            match find_chars(&rest, &sep) {
                Some(j) => {
                    proof {
                        lemma_first_index(rest@, sep@, j);
                    }
                    subvec(&rest, 0, j)
                },
                None => rest,
            }
        },
        None => text,
    };
    match json_member_in_text(&json, "ok") {
        JsonMember::NotJson => SendReply { ok: false, message: "invalid response".to_string() },
        other => {
            let ok = match other {
                JsonMember::Flag(b) => b,
                _ => false,
            };
            let message = match json_member_in_text(&json, "message") {
                JsonMember::Text(m) => m,
                _ => String::new(),
            };
            SendReply { ok, message }
        },
    }
}

/// The name a `/ping` probe gives a device that does not name itself.
pub const DEFAULT_DEVICE_NAME: &'static str = "开饭了";

/// What a `/ping` probe of `ip` found: nothing unless the reply is ok; then
/// the address and the reply's device name, or `DEFAULT_DEVICE_NAME`.
pub fn probe_result(ip: &str, data: &[u8]) -> (r: Option<(String, String)>)
    ensures
        !reply_ok(data@) ==> r is None,
        reply_ok(data@) ==> (r matches Some(p) && p.0@ == ip@ && p.1@ == match device_name(data@) {
            Some(n) => n,
            None => DEFAULT_DEVICE_NAME@,
        }),
{
    if !response_is_ok(data) {
        return None;
    }
    let name = match parse_device_name(data) {
        Some(n) => n,
        None => DEFAULT_DEVICE_NAME.to_string(),
    };
    Some((ip.to_string(), name))
}

/// The payload of a handshake request: its body, or all of it when it has
/// no blank line.
pub fn handshake_payload(data: &[u8]) -> (r: Vec<u8>)
    ensures
        r@ == match http_body(data@) {
            Some(b) => b,
            None => data@,
        },
{
    match http_body_exec(data) {
        Some(b) => b,
        None => bytes_from(data, 0),
    }
}

/// The name given to a phone whose handshake does not name it.
pub const DEFAULT_PHONE_NAME: &'static str = "手机";

/// The body of the reply to an accepted handshake.
pub const HANDSHAKE_OK_BODY: &'static str = "{\"ok\":true}";

proof fn lemma_handshake_ok_len()
    ensures
        HANDSHAKE_OK_BODY.spec_bytes().len() == 11,
{
    broadcast use vstd::string::is_ascii_spec_bytes;

    reveal_strlit("{\"ok\":true}");
    assert(vstd::string::is_ascii(HANDSHAKE_OK_BODY));
}

/// The reply to an accepted handshake.
pub open spec fn handshake_ok_text() -> Seq<char> {
    "HTTP/1.1 200 OK\r\nContent-Type: application/json\r\nContent-Length: "@ + decimal(
        HANDSHAKE_OK_BODY.spec_bytes().len(),
    ) + "\r\nConnection: close\r\n\r\n"@ + HANDSHAKE_OK_BODY@
}

/// The reply to a rejected handshake.
pub open spec fn handshake_rejected_text() -> Seq<char> {
    "HTTP/1.1 400 Bad Request\r\nContent-Length: 0\r\nConnection: close\r\n\r\n"@
}

/// How to answer a handshake: the phone's name when it is accepted, and
/// the bytes to send back.
pub struct HandshakeAnswer {
    pub name: Option<String>,
    pub reply: Vec<u8>,
}

/// Answers a handshake: a KFL hello is accepted, named by its `device`
/// (or `DEFAULT_PHONE_NAME`) and answered 200 with `{"ok":true}`; anything
/// else is answered 400.
pub fn answer_handshake(msg: &BroadcastMsg) -> (r: HandshakeAnswer)
    ensures
        hello(msg.magic@, msg.action@) ==> (r.name matches Some(n) && n@ == match msg.device {
            Some(d) => d@,
            None => DEFAULT_PHONE_NAME@,
        } && r.reply@ == encode_utf8(handshake_ok_text())),
        !hello(msg.magic@, msg.action@) ==> r.name is None && r.reply@ == encode_utf8(
            handshake_rejected_text(),
        ),
{
    if msg.is_valid_hello() {
        let name = match &msg.device {
            Some(d) => d.clone(),
            None => DEFAULT_PHONE_NAME.to_string(),
        };
        let mut s = "HTTP/1.1 200 OK\r\nContent-Type: application/json\r\nContent-Length: ".to_string();
        proof {
            lemma_handshake_ok_len();
        }
        s.append(decimal_string(HANDSHAKE_OK_BODY.len() as u64).as_str());
        s.append("\r\nConnection: close\r\n\r\n");
        s.append(HANDSHAKE_OK_BODY);
        assert(s@ =~= handshake_ok_text());
        HandshakeAnswer { name: Some(name), reply: s.as_str().as_bytes_vec() }
    } else {
        let s = "HTTP/1.1 400 Bad Request\r\nContent-Length: 0\r\nConnection: close\r\n\r\n".to_string();
        HandshakeAnswer { name: None, reply: s.as_str().as_bytes_vec() }
    }
}

} // verus!
