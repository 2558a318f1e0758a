//! The calls into std and into outside crates that the library's logic makes,
//! each with the contract that Verus takes on trust.
use vstd::prelude::*;

use rand::Rng;

use crate::requests::{HeaderLine, JsonMember, JsonMemberView, QueryPair, RequestHead, RequestHeadView};

verus! {

/// Calls `rand::thread_rng().gen_range(0..=6)`. rand documents that an
/// inclusive range `low..=high` yields a value between `low` and `high`; the
/// contract claims that and nothing about which value comes back.
#[verifier::external_body]
pub(crate) fn random_index_up_to_six() -> (index: u32)
    ensures
        index <= 6,
{
    rand::thread_rng().gen_range(0..=6u32)
}

/// What `str::to_lowercase` returns for a string: its Unicode lowercase form.
pub uninterp spec fn lowercase(text: Seq<char>) -> Seq<char>;

/// Calls `str::to_lowercase`, whose result depends on the string alone; the
/// contract names that result and says nothing more about it.
#[verifier::external_body]
pub(crate) fn to_lowercase(text: &str) -> (lower: String)
    ensures
        lower@ == lowercase(text@),
{
    text.to_lowercase()
}

/// Whether a 128-bit identifier is marked as a random UUID: its version
/// field (bits 76 to 79) holds 4 and its variant field (bits 62 and 63)
/// holds the RFC variant.
pub open spec fn is_random_uuid(id: u128) -> bool {
    &&& (id >> 76u128) & 0xfu128 == 4
    &&& (id >> 62u128) & 3u128 == 2
}

/// Calls `uuid::Uuid::new_v4` and returns the identifier as its 128-bit value
/// (`Uuid::as_u128`). The value is random; the contract claims only what
/// `new_v4` sets in every identifier, by masking and setting those bits:
/// the version and the variant of a random UUID.
#[verifier::external_body]
pub(crate) fn new_uuid_v4() -> (id: u128)
    ensures
        is_random_uuid(id),
{
    uuid::Uuid::new_v4().as_u128()
}

/// What `uuid::Uuid::from_str` makes of a string: the identifier's 128-bit
/// value when the string is a UUID in one of the crate's formats, else nothing.
pub uninterp spec fn uuid_parse(text: Seq<char>) -> Option<u128>;

/// The lowercase hexadecimal digit for a value below sixteen.
pub open spec fn hex_digit(d: int) -> char {
    if d < 10 {
        (48 + d) as char
    } else {
        (87 + d) as char
    }
}

/// The value of the `k`-th of the 32 hexadecimal digits of `id`, the most
/// significant first.
pub open spec fn uuid_nibble(id: u128, k: int) -> int {
    (id as int / vstd::arithmetic::power2::pow2((4 * (31 - k)) as nat) as int) % 16
}

/// The text that `uuid::Uuid`'s `Display` gives for an identifier: its 32
/// lowercase hexadecimal digits, the most significant first, in groups of
/// 8, 4, 4, 4 and 12 joined by hyphens.
pub open spec fn uuid_text(id: u128) -> Seq<char> {
    Seq::new(
        36,
        |p: int|
            if p == 8 || p == 13 || p == 18 || p == 23 {
                '-'
            } else {
                let hyphens_before: int = if p > 23 {
                    4
                } else if p > 18 {
                    3
                } else if p > 13 {
                    2
                } else if p > 8 {
                    1
                } else {
                    0
                };
                hex_digit(uuid_nibble(id, p - hyphens_before))
            },
    )
}

/// Calls `uuid::Uuid::from_str` and returns the identifier's 128-bit value.
/// The contract names the result as a function of the string.
#[verifier::external_body]
pub(crate) fn parse_uuid(text: &str) -> (id: Option<u128>)
    ensures
        id == uuid_parse(text@),
{
    <uuid::Uuid as std::str::FromStr>::from_str(text).ok().map(|u| u.as_u128())
}

/// Calls `to_string` on `uuid::Uuid::from_u128(id)`, which takes the
/// identifier's bytes big-endian and prints them hyphenated in lowercase
/// hexadecimal. The contract states that text and claims what uuid documents
/// of its parser: it accepts every format that the crate prints, so the text
/// parses back to the same identifier.
#[verifier::external_body]
pub(crate) fn uuid_to_string(id: u128) -> (text: String)
    ensures
        text@ == uuid_text(id),
        uuid_parse(text@) == Some(id),
{
    uuid::Uuid::from_u128(id).to_string()
}

/// What `String::from_utf8_lossy` makes of bytes: the text they encode, with
/// each invalid sequence replaced by U+FFFD.
pub uninterp spec fn lossy_utf8(bytes: Seq<u8>) -> Seq<char>;

/// Calls `String::from_utf8_lossy`, whose result depends on the bytes alone;
/// the contract names that result and says nothing more about it.
#[verifier::external_body]
pub(crate) fn utf8_lossy(bytes: &[u8]) -> (text: String)
    ensures
        text@ == lossy_utf8(bytes@),
{
    String::from_utf8_lossy(bytes).into_owned()
}

/// Calls `std::str::from_utf8`. std documents that it succeeds exactly when
/// the bytes are valid UTF-8 and then gives the text they encode; the
/// contract states that with vstd's definitions of both.
#[verifier::external_body]
pub(crate) fn str_from_utf8(bytes: &[u8]) -> (text: Option<&str>)
    ensures
        text is Some <==> vstd::utf8::valid_utf8(bytes@),
        text matches Some(t) ==> t@ == vstd::utf8::decode_utf8(bytes@),
{
    std::str::from_utf8(bytes).ok()
}

/// Whether `c` has the Unicode property White_Space, by which `str::trim`
/// decides what to cut.
pub open spec fn is_white_space(c: char) -> bool {
    let n = c as u32;
    ||| 0x09 <= n <= 0x0D
    ||| n == 0x20
    ||| n == 0x85
    ||| n == 0xA0
    ||| n == 0x1680
    ||| 0x2000 <= n <= 0x200A
    ||| n == 0x2028
    ||| n == 0x2029
    ||| n == 0x202F
    ||| n == 0x205F
    ||| n == 0x3000
}

/// The text without its leading White_Space characters.
pub open spec fn trimmed_start(text: Seq<char>) -> Seq<char>
    decreases text.len(),
{
    if text.len() > 0 && is_white_space(text[0]) {
        trimmed_start(text.drop_first())
    } else {
        text
    }
}

/// The text without its trailing White_Space characters.
pub open spec fn trimmed_end(text: Seq<char>) -> Seq<char>
    decreases text.len(),
{
    if text.len() > 0 && is_white_space(text.last()) {
        trimmed_end(text.drop_last())
    } else {
        text
    }
}

/// What `str::trim` returns: the text without its leading and trailing
/// White_Space characters.
pub open spec fn trimmed(text: Seq<char>) -> Seq<char> {
    trimmed_end(trimmed_start(text))
}

/// Calls `str::trim`, which std documents as cutting the leading and
/// trailing characters with the Unicode property White_Space.
#[verifier::external_body]
pub(crate) fn trim(text: &str) -> (inner: &str)
    ensures
        inner@ == trimmed(text@),
{
    text.trim()
}

/// Whether `c` is an ASCII decimal digit.
pub open spec fn is_ascii_digit(c: char) -> bool {
    48 <= c as u32 <= 57
}

/// The number that the decimal digits `digits` write.
pub open spec fn digits_value(digits: Seq<char>) -> int
    decreases digits.len(),
{
    if digits.len() == 0 {
        0
    } else {
        10 * digits_value(digits.drop_last()) + (digits.last() as u32 - 48)
    }
}

/// What `str::parse::<usize>` returns for a text: an optional `+` followed
/// by at least one ASCII decimal digit and nothing else gives the number
/// the digits write, provided it fits a `usize`; anything else gives nothing.
pub open spec fn usize_parse(text: Seq<char>) -> Option<usize> {
    let digits = if text.len() > 0 && text[0] == '+' {
        text.drop_first()
    } else {
        text
    };
    if digits.len() > 0 && (forall|i: int| 0 <= i < digits.len() ==> #[trigger] is_ascii_digit(digits[i]))
        && digits_value(digits) <= usize::MAX {
        Some(digits_value(digits) as usize)
    } else {
        None
    }
}

/// Calls `str::parse::<usize>` and keeps the number, if any. std documents
/// that an unsigned integer is parsed from an optional `+` followed by
/// decimal digits only, and that an empty text, any other character or a
/// value that does not fit is an error; the contract states that.
#[verifier::external_body]
pub(crate) fn parse_usize(text: &str) -> (n: Option<usize>)
    ensures
        n == usize_parse(text@),
{
    text.parse::<usize>().ok()
}

/// Whether `name` equals the lowercase token `lower` when ASCII letters are
/// compared without regard to case, as http compares a string with a header name.
pub open spec fn header_name_is(name: Seq<char>, lower: Seq<char>) -> bool {
    &&& name.len() == lower.len()
    &&& forall|i: int| 0 <= i < name.len() ==> #[trigger] ascii_lower(name[i]) == lower[i]
}

/// The ASCII lowercase of a character; other characters are unchanged.
pub open spec fn ascii_lower(c: char) -> char {
    if 65 <= c as u32 <= 90 {
        ((c as u32) + 32) as char
    } else {
        c
    }
}

/// The name of the `Content-Length` header, in lowercase.
pub open spec fn content_length_name() -> Seq<char> {
    seq!['c', 'o', 'n', 't', 'e', 'n', 't', '-', 'l', 'e', 'n', 'g', 't', 'h']
}

/// The name of the `Host` header, in lowercase.
pub open spec fn host_name() -> Seq<char> {
    seq!['h', 'o', 's', 't']
}

/// Compares a string with `http::header::CONTENT_LENGTH` through http's
/// `PartialEq<HeaderName> for &str`, which compares the string's bytes with
/// the lowercase name, mapping each byte through http's table that lowers
/// ASCII letters and maps bytes that cannot occur in a name to zero. For a
/// name made of lowercase letters and `-`, that is what the contract states.
#[verifier::external_body]
pub(crate) fn is_content_length(name: &str) -> (same: bool)
    ensures
        same == header_name_is(name@, content_length_name()),
{
    name == http::header::CONTENT_LENGTH
}

/// Compares a string with `http::header::HOST` through http's
/// `PartialEq<HeaderName> for &str`; see `is_content_length`.
#[verifier::external_body]
pub(crate) fn is_host(name: &str) -> (same: bool)
    ensures
        same == header_name_is(name@, host_name()),
{
    name == http::header::HOST
}

/// What `httparse::Request::parse` makes of `bytes` with room for
/// `max_headers` headers: its status, and, when the request head is
/// complete, the method, path, headers and the offset at which the body starts.
pub uninterp spec fn http_request_head(bytes: Seq<u8>, max_headers: usize) -> RequestHeadView;

/// Calls `httparse::Request::parse` with room for `max_headers` headers and
/// copies out what it found. The result depends on the bytes and the room
/// alone; the contract names it and says nothing more about it.
#[verifier::external_body]
pub(crate) fn parse_request_head(bytes: &[u8], max_headers: usize) -> (head: RequestHead)
    ensures
        head@ == http_request_head(bytes@, max_headers),
{
    let mut headers = vec![httparse::EMPTY_HEADER; max_headers];
    let mut req = httparse::Request::new(&mut headers);
    match req.parse(bytes) {
        Ok(httparse::Status::Complete(body_start)) => RequestHead::Complete {
            method: req.method.map(|m| m.to_string()),
            path: req.path.map(|p| p.to_string()),
            headers: req.headers.iter().map(|h| HeaderLine { name: h.name.to_string(), value: h.value.to_vec() }).collect(),
            body_start,
        },
        Ok(httparse::Status::Partial) => RequestHead::Partial,
        Err(_) => RequestHead::Invalid,
    }
}

/// What `serde_json::from_slice::<serde_json::Value>` followed by indexing
/// the value with `key` gives: nothing when the bytes are not JSON, else the
/// kind of the member's value, with its text when it is a string and its
/// truth value when it is a boolean.
pub uninterp spec fn json_bytes_member(bytes: Seq<u8>, key: Seq<char>) -> JsonMemberView;

/// Parses `bytes` with `serde_json::from_slice` into a `serde_json::Value`
/// and reads its member `key` through serde_json's indexing (which gives
/// `Null` for a missing member or a value that is not an object), telling
/// the variants of `serde_json::Value` apart one for one. The result
/// depends on the arguments alone; the contract names it.
#[verifier::external_body]
pub(crate) fn json_member_of_bytes(bytes: &[u8], key: &str) -> (member: JsonMember)
    ensures
        member@ == json_bytes_member(bytes@, key@),
{
    match serde_json::from_slice::<serde_json::Value>(bytes) {
        Err(_) => JsonMember::Invalid,
        Ok(value) => match &value[key] {
            serde_json::Value::Null => JsonMember::Null,
            serde_json::Value::Bool(b) => JsonMember::Bool(*b),
            serde_json::Value::Number(_) => JsonMember::Number,
            serde_json::Value::String(text) => JsonMember::Text(text.clone()),
            serde_json::Value::Array(_) => JsonMember::Array,
            serde_json::Value::Object(_) => JsonMember::Object,
        },
    }
}

/// What `serde_json::from_str::<serde_json::Value>` followed by indexing the
/// value with `key` gives; see `json_bytes_member`.
pub uninterp spec fn json_text_member(text: Seq<char>, key: Seq<char>) -> JsonMemberView;

/// Parses `text` with `serde_json::from_str` into a `serde_json::Value` and
/// reads its member `key` through serde_json's indexing. The result depends
/// on the arguments alone; the contract names it.
#[verifier::external_body]
pub(crate) fn json_member_of_text(text: &str, key: &str) -> (member: JsonMember)
    ensures
        member@ == json_text_member(text@, key@),
{
    match serde_json::from_str::<serde_json::Value>(text) {
        Err(_) => JsonMember::Invalid,
        Ok(value) => match &value[key] {
            serde_json::Value::Null => JsonMember::Null,
            serde_json::Value::Bool(b) => JsonMember::Bool(*b),
            serde_json::Value::Number(_) => JsonMember::Number,
            serde_json::Value::String(found) => JsonMember::Text(found.clone()),
            serde_json::Value::Array(_) => JsonMember::Array,
            serde_json::Value::Object(_) => JsonMember::Object,
        },
    }
}

/// What `url::Url::parse` followed by `Url::query_pairs` gives for a text:
/// nothing when the text is not a URL, else the decoded query pairs in order.
pub uninterp spec fn url_query_pairs(url: Seq<char>) -> Option<Seq<(Seq<char>, Seq<char>)>>;

/// Parses `url` with `url::Url::parse` and collects its decoded query pairs
/// (`Url::query_pairs`) in order. The result depends on the text alone; the
/// contract names it.
#[verifier::external_body]
pub(crate) fn query_pairs(url: &str) -> (pairs: Option<Vec<QueryPair>>)
    ensures
        match pairs {
            None => url_query_pairs(url@) is None,
            Some(p) => url_query_pairs(url@) == Some(p@.map_values(|q: QueryPair| q@)),
        },
{
    url::Url::parse(url).ok().map(|u| u.query_pairs().map(|(k, v)| QueryPair { key: k.into_owned(), value: v.into_owned() }).collect())
}

} // verus!
