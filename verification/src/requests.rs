//! The requests that reach the server: the HTTP request that registers a
//! username, the HTTP request that opens a player's game connection, and the
//! JSON messages a connected player sends.
use vstd::prelude::*;

use vstd::string::*;
use vstd::utf8::{decode_utf8, encode_utf8, valid_utf8};

use crate::lobby::{lookup, name_key, AcceptOutcome, Lobby, MatchRequestOutcome, RegisterOutcome};
use crate::trusted::{
    content_length_name, header_name_is, host_name, http_request_head, is_content_length, is_host,
    json_bytes_member, json_member_of_bytes, json_member_of_text, json_text_member, lossy_utf8,
    parse_request_head, parse_usize, query_pairs, str_from_utf8, trim, trimmed, url_query_pairs,
    usize_parse, utf8_lossy, uuid_text, uuid_to_string,
};

verus! {

/// How many headers a request head may have.
pub const MAX_HEADERS: usize = 16;

/// A request header: its name and its raw value.
pub struct HeaderLine {
    pub name: String,
    pub value: Vec<u8>,
}

impl View for HeaderLine {
    type V = (Seq<char>, Seq<u8>);

    open spec fn view(&self) -> (Seq<char>, Seq<u8>) {
        (self.name@, self.value@)
    }
}

/// What parsing a request head found.
pub enum RequestHead {
    /// The bytes end before the head does.
    Partial,
    /// The bytes are not an HTTP request head.
    Invalid,
    /// The head is complete; the body starts at `body_start`.
    Complete {
        method: Option<String>,
        path: Option<String>,
        headers: Vec<HeaderLine>,
        body_start: usize,
    },
}

/// The abstract view of what parsing a request head found.
pub enum RequestHeadView {
    Partial,
    Invalid,
    Complete {
        method: Option<Seq<char>>,
        path: Option<Seq<char>>,
        headers: Seq<(Seq<char>, Seq<u8>)>,
        body_start: nat,
    },
}

/// The view of an optional text.
pub open spec fn text_view(text: Option<String>) -> Option<Seq<char>> {
    match text {
        Some(t) => Some(t@),
        None => None,
    }
}

impl View for RequestHead {
    type V = RequestHeadView;

    open spec fn view(&self) -> RequestHeadView {
        match self {
            RequestHead::Partial => RequestHeadView::Partial,
            RequestHead::Invalid => RequestHeadView::Invalid,
            RequestHead::Complete { method, path, headers, body_start } => RequestHeadView::Complete {
                method: text_view(*method),
                path: text_view(*path),
                headers: headers@.map_values(|h: HeaderLine| h@),
                body_start: *body_start as nat,
            },
        }
    }
}

/// A member of a JSON text: which kind of JSON value it is, with the text
/// when it is a string and the truth value when it is a boolean. A missing
/// member, or a member of a value that is not an object, reads as `null`.
pub enum JsonMember {
    /// The text is not JSON.
    Invalid,
    Null,
    Bool(bool),
    Number,
    Text(String),
    Array,
    Object,
}

/// The abstract view of a member of a JSON text.
pub enum JsonMemberView {
    Invalid,
    Null,
    Bool(bool),
    Number,
    Text(Seq<char>),
    Array,
    Object,
}

impl View for JsonMember {
    type V = JsonMemberView;

    open spec fn view(&self) -> JsonMemberView {
        match self {
            JsonMember::Invalid => JsonMemberView::Invalid,
            JsonMember::Null => JsonMemberView::Null,
            JsonMember::Bool(b) => JsonMemberView::Bool(*b),
            JsonMember::Number => JsonMemberView::Number,
            JsonMember::Text(t) => JsonMemberView::Text(t@),
            JsonMember::Array => JsonMemberView::Array,
            JsonMember::Object => JsonMemberView::Object,
        }
    }
}

/// A decoded pair of a URL's query.
pub struct QueryPair {
    pub key: String,
    pub value: String,
}

impl View for QueryPair {
    type V = (Seq<char>, Seq<char>);

    open spec fn view(&self) -> (Seq<char>, Seq<char>) {
        (self.key@, self.value@)
    }
}

/// The bytes the server parses for a raw request: the raw bytes read as
/// UTF-8, with invalid sequences replaced, and encoded again.
pub open spec fn request_bytes(raw: Seq<u8>) -> Seq<u8> {
    encode_utf8(lossy_utf8(raw))
}

/// The position of the first header at or after `i` whose name is `lower`,
/// up to ASCII case.
pub open spec fn first_header_from(headers: Seq<(Seq<char>, Seq<u8>)>, lower: Seq<char>, i: int) -> Option<int>
    decreases headers.len() - i,
{
    if i < 0 || i >= headers.len() {
        None
    } else if header_name_is(headers[i].0, lower) {
        Some(i)
    } else {
        first_header_from(headers, lower, i + 1)
    }
}

/// The value of the last of the first `n` pairs whose key is `key`.
pub open spec fn last_value(pairs: Seq<(Seq<char>, Seq<char>)>, key: Seq<char>, n: nat) -> Option<Seq<char>>
    decreases n,
{
    if n == 0 || n > pairs.len() {
        None
    } else if pairs[n - 1].0 == key {
        Some(pairs[n - 1].1)
    } else {
        last_value(pairs, key, (n - 1) as nat)
    }
}

/// The decimal digits of `n`, without leading zeros.
pub open spec fn decimal(n: nat) -> Seq<char>
    decreases n,
{
    if n < 10 {
        seq![(48 + n) as char]
    } else {
        decimal(n / 10).push((48 + n % 10) as char)
    }
}

/// A `200 OK` response whose body is `body`, with its length in bytes (as
/// `str::len` reports it).
pub open spec fn ok_response_text(body: Seq<char>) -> Seq<char> {
    seq!['H', 'T', 'T', 'P', '/', '1', '.', '1', ' ', '2', '0', '0', ' ', 'O', 'K', '\r', '\n']
        + seq!['C', 'o', 'n', 't', 'e', 'n', 't', '-', 'L', 'e', 'n', 'g', 't', 'h', ':', ' ']
        + decimal((encode_utf8(body).len() as usize) as nat) + seq!['\r', '\n', '\r', '\n'] + body
}

/// How far a request to register a username got before the registration
/// itself, abstractly.
pub enum RegistrationStepView {
    /// The request head is incomplete.
    Partial,
    /// The bytes are not a request head.
    Invalid,
    /// The head has no method or no path: the server stops accepting requests.
    StopAccepting,
    /// The request is not `POST /id`.
    OtherRoute,
    /// The request has no `Content-Length` header.
    NoContentLength,
    /// The `Content-Length` value is not UTF-8.
    ContentLengthNotUtf8,
    /// The trimmed `Content-Length` value is not a number that fits a `usize`.
    ContentLengthNotNumber,
    /// The body announced by `Content-Length` goes past the bytes read.
    BodyOutOfRange,
    /// The body is not JSON.
    BodyNotJson,
    /// The body's member `username` is missing or not a string.
    UsernameNotText,
    /// The body asks to register this username.
    Username(Seq<char>),
}

/// How far a request to register a username got before the registration itself.
pub enum RegistrationStep {
    Partial,
    Invalid,
    StopAccepting,
    OtherRoute,
    NoContentLength,
    ContentLengthNotUtf8,
    ContentLengthNotNumber,
    BodyOutOfRange,
    BodyNotJson,
    UsernameNotText,
    Username(String),
}

impl View for RegistrationStep {
    type V = RegistrationStepView;

    open spec fn view(&self) -> RegistrationStepView {
        match self {
            RegistrationStep::Partial => RegistrationStepView::Partial,
            RegistrationStep::Invalid => RegistrationStepView::Invalid,
            RegistrationStep::StopAccepting => RegistrationStepView::StopAccepting,
            RegistrationStep::OtherRoute => RegistrationStepView::OtherRoute,
            RegistrationStep::NoContentLength => RegistrationStepView::NoContentLength,
            RegistrationStep::ContentLengthNotUtf8 => RegistrationStepView::ContentLengthNotUtf8,
            RegistrationStep::ContentLengthNotNumber => RegistrationStepView::ContentLengthNotNumber,
            RegistrationStep::BodyOutOfRange => RegistrationStepView::BodyOutOfRange,
            RegistrationStep::BodyNotJson => RegistrationStepView::BodyNotJson,
            RegistrationStep::UsernameNotText => RegistrationStepView::UsernameNotText,
            RegistrationStep::Username(u) => RegistrationStepView::Username(u@),
        }
    }
}

/// The name of the member of a registration body that holds the username.
pub open spec fn username_member() -> Seq<char> {
    seq!['u', 's', 'e', 'r', 'n', 'a', 'm', 'e']
}

/// How far the request read as `raw` gets towards registering a username:
/// it must be a complete `POST /id` request whose first `Content-Length`
/// header holds, after trimming, the length of a body that lies within the
/// bytes read and whose JSON member `username` is a string.
pub open spec fn registration_step(raw: Seq<u8>) -> RegistrationStepView {
    let bytes = request_bytes(raw);
    match http_request_head(bytes, MAX_HEADERS) {
        RequestHeadView::Partial => RegistrationStepView::Partial,
        RequestHeadView::Invalid => RegistrationStepView::Invalid,
        RequestHeadView::Complete { method, path, headers, body_start } => {
            if method is None || path is None {
                RegistrationStepView::StopAccepting
            } else if method->0 != seq!['P', 'O', 'S', 'T'] || path->0 != seq!['/', 'i', 'd'] {
                RegistrationStepView::OtherRoute
            } else {
                match first_header_from(headers, content_length_name(), 0) {
                    None => RegistrationStepView::NoContentLength,
                    Some(i) => {
                        let value = headers[i].1;
                        if !valid_utf8(value) {
                            RegistrationStepView::ContentLengthNotUtf8
                        } else {
                            match usize_parse(trimmed(decode_utf8(value))) {
                                None => RegistrationStepView::ContentLengthNotNumber,
                                Some(len) => {
                                    if body_start + len > bytes.len() {
                                        RegistrationStepView::BodyOutOfRange
                                    } else {
                                        match json_bytes_member(
                                            bytes.subrange(body_start as int, body_start + len),
                                            username_member(),
                                        ) {
                                            JsonMemberView::Invalid => RegistrationStepView::BodyNotJson,
                                            JsonMemberView::Text(u) => RegistrationStepView::Username(u),
                                            _ => RegistrationStepView::UsernameNotText,
                                        }
                                    }
                                },
                            }
                        }
                    },
                }
            }
        },
    }
}

/// Whether two texts are equal.
pub fn str_eq(a: &str, b: &str) -> (same: bool)
    ensures
        same == (a@ == b@),
{
    let n = a.unicode_len();
    if n != b.unicode_len() {
        return false;
    }
    let mut i: usize = 0;
    while i < n
        invariant
            0 <= i <= n,
            n == a@.len(),
            n == b@.len(),
            forall|j: int| 0 <= j < i ==> a@[j] == b@[j],
        decreases n - i,
    {
        if a.get_char(i) != b.get_char(i) {
            return false;
        }
        i = i + 1;
    }
    assert(a@ =~= b@);
    true
}

/// The position of the first header whose name is `Content-Length` (when
/// `content_length`) or `Host` (otherwise), up to ASCII case.
fn find_header(headers: &Vec<HeaderLine>, content_length: bool) -> (found: Option<usize>)
    ensures
        match found {
            Some(i) => i < headers@.len() && Some(i as int) == first_header_from(
                headers@.map_values(|h: HeaderLine| h@),
                if content_length {
                    content_length_name()
                } else {
                    host_name()
                },
                0,
            ),
            None => first_header_from(
                headers@.map_values(|h: HeaderLine| h@),
                if content_length {
                    content_length_name()
                } else {
                    host_name()
                },
                0,
            ) is None,
        },
{
    let ghost views = headers@.map_values(|h: HeaderLine| h@);
    let ghost lower = if content_length {
        content_length_name()
    } else {
        host_name()
    };
    let mut i: usize = 0;
    while i < headers.len()
        invariant
            0 <= i <= headers@.len(),
            views == headers@.map_values(|h: HeaderLine| h@),
            lower == (if content_length {
                content_length_name()
            } else {
                host_name()
            }),
            first_header_from(views, lower, 0) == first_header_from(views, lower, i as int),
        decreases headers@.len() - i,
    {
        let name = headers[i].name.as_str();
        let matches = if content_length {
            is_content_length(name)
        } else {
            is_host(name)
        };
        assert(views[i as int] == headers@[i as int]@);
        if matches {
            return Some(i);
        }
        i = i + 1;
    }
    None
}

/// How far the request read as `raw` gets towards registering a username;
/// see `registration_step`.
pub fn registration_step_of(raw: &[u8]) -> (step: RegistrationStep)
    ensures
        step@ == registration_step(raw@),
{
    let request = utf8_lossy(raw);
    let bytes = request.as_str().as_bytes();
    assert(bytes@ == request_bytes(raw@));
    match parse_request_head(bytes, MAX_HEADERS) {
        RequestHead::Partial => RegistrationStep::Partial,
        RequestHead::Invalid => RegistrationStep::Invalid,
        RequestHead::Complete { method, path, headers, body_start } => {
            let method = match method {
                Some(m) => m,
                None => {
                    return RegistrationStep::StopAccepting;
                },
            };
            let path = match path {
                Some(p) => p,
                None => {
                    return RegistrationStep::StopAccepting;
                },
            };
            proof {
                reveal_strlit("POST");
                reveal_strlit("/id");
                assert("POST"@ =~= seq!['P', 'O', 'S', 'T']);
                assert("/id"@ =~= seq!['/', 'i', 'd']);
            }
            if !(str_eq(method.as_str(), "POST") && str_eq(path.as_str(), "/id")) {
                return RegistrationStep::OtherRoute;
            }
            let i = match find_header(&headers, true) {
                None => {
                    return RegistrationStep::NoContentLength;
                },
                Some(i) => i,
            };
            let value = headers[i].value.as_slice();
            assert(headers@.map_values(|h: HeaderLine| h@)[i as int] == headers@[i as int]@);
            let text = match str_from_utf8(value) {
                None => {
                    return RegistrationStep::ContentLengthNotUtf8;
                },
                Some(t) => t,
            };
            let len = match parse_usize(trim(text)) {
                None => {
                    return RegistrationStep::ContentLengthNotNumber;
                },
                Some(n) => n,
            };
            if len > bytes.len() || body_start > bytes.len() - len {
                return RegistrationStep::BodyOutOfRange;
            }
            let body = &bytes[body_start..body_start + len];
            proof {
                reveal_strlit("username");
                assert("username"@ =~= username_member());
            }
            match json_member_of_bytes(body, "username") {
                JsonMember::Invalid => RegistrationStep::BodyNotJson,
                JsonMember::Text(u) => RegistrationStep::Username(u),
                _ => RegistrationStep::UsernameNotText,
            }
        },
    }
}

/// The digit `d` as a one-character text.
fn digit_str(d: usize) -> (digit: &'static str)
    requires
        d < 10,
    ensures
        digit@ == seq![(48 + d) as char],
{
    proof {
        reveal_strlit("0");
        reveal_strlit("1");
        reveal_strlit("2");
        reveal_strlit("3");
        reveal_strlit("4");
        reveal_strlit("5");
        reveal_strlit("6");
        reveal_strlit("7");
        reveal_strlit("8");
        reveal_strlit("9");
    }
    if d == 0 {
        "0"
    } else if d == 1 {
        "1"
    } else if d == 2 {
        "2"
    } else if d == 3 {
        "3"
    } else if d == 4 {
        "4"
    } else if d == 5 {
        "5"
    } else if d == 6 {
        "6"
    } else if d == 7 {
        "7"
    } else if d == 8 {
        "8"
    } else {
        "9"
    }
}

/// `n` written in decimal.
pub fn decimal_string(n: usize) -> (text: String)
    ensures
        text@ == decimal(n as nat),
    decreases n,
{
    if n < 10 {
        digit_str(n).to_owned()
    } else {
        let mut text = decimal_string(n / 10);
        text.append(digit_str(n % 10));
        text
    }
}

/// A `200 OK` response whose body is `body`; see `ok_response_text`.
pub fn ok_response(body: &str) -> (response: String)
    ensures
        response@ == ok_response_text(body@),
{
    proof {
        reveal_strlit("HTTP/1.1 200 OK\r\n");
        reveal_strlit("Content-Length: ");
        reveal_strlit("\r\n\r\n");
        assert("HTTP/1.1 200 OK\r\n"@ =~= seq![
            'H', 'T', 'T', 'P', '/', '1', '.', '1', ' ', '2', '0', '0', ' ', 'O', 'K', '\r', '\n',
        ]);
        assert("Content-Length: "@ =~= seq![
            'C', 'o', 'n', 't', 'e', 'n', 't', '-', 'L', 'e', 'n', 'g', 't', 'h', ':', ' ',
        ]);
        assert("\r\n\r\n"@ =~= seq!['\r', '\n', '\r', '\n']);
    }
    let mut response = "HTTP/1.1 200 OK\r\n".to_owned();
    response.append("Content-Length: ");
    let n = body.len();
    let length = decimal_string(n);
    response.append(length.as_str());
    response.append("\r\n\r\n");
    response.append(body);
    assert(response@ =~= ok_response_text(body@));
    response
}

/// The response to a successful registration: its body is the new
/// identifier, in UUID text.
pub fn registration_response(id: u128) -> (response: String)
    ensures
        response@ == ok_response_text(uuid_text(id)),
{
    let text = uuid_to_string(id);
    ok_response(text.as_str())
}

/// What the server does with a request to register a username: how far the
/// request got, what became of the registration, if it was tried, and the
/// response to send, if any.
pub struct RegistrationReply {
    pub step: RegistrationStep,
    pub outcome: Option<RegisterOutcome>,
    pub response: Option<String>,
}

/// Handles the request read as `raw` at the registration endpoint. When the
/// request asks to register a username, the username is registered as
/// `Lobby::register_username` does; a successful registration is answered
/// with the new identifier. Any other request leaves the lobby unchanged and
/// is not answered.
pub fn handle_registration_request(lobby: &mut Lobby, raw: &[u8]) -> (reply: RegistrationReply)
    ensures
        final(lobby).clients() == old(lobby).clients(),
        reply.step@ == registration_step(raw@),
        match reply.step@ {
            RegistrationStepView::Username(username) => match reply.outcome {
                Some(outcome) => crate::lobby::registration_made(
                    old(lobby).usernames(),
                    username,
                    outcome,
                    final(lobby).usernames(),
                ),
                None => false,
            },
            _ => reply.outcome is None && final(lobby).usernames() == old(lobby).usernames(),
        },
        match reply.outcome {
            Some(RegisterOutcome::Registered(id)) => reply.response matches Some(r) && r@
                == ok_response_text(uuid_text(id)),
            _ => reply.response is None,
        },
{
    let step = registration_step_of(raw);
    match &step {
        RegistrationStep::Username(username) => {
            let outcome = lobby.register_username(username.as_str());
            let response = match outcome {
                RegisterOutcome::Registered(id) => Some(registration_response(id)),
                _ => None,
            };
            RegistrationReply { step, outcome: Some(outcome), response }
        },
        _ => RegistrationReply { step, outcome: None, response: None },
    }
}

/// The name of the query parameter that carries the username.
pub open spec fn username_param() -> Seq<char> {
    seq!['u', 's', 'e', 'r', 'n', 'a', 'm', 'e']
}

/// The name of the query parameter that carries the identifier.
pub open spec fn id_param() -> Seq<char> {
    seq!['i', 'd']
}

/// How far a request to open a game connection got, abstractly.
pub enum ConnectStepView {
    /// The request head is incomplete.
    Partial,
    /// The bytes are not a request head.
    Invalid,
    /// The head has no path.
    NoPath,
    /// The request has no `Host` header.
    NoHost,
    /// `ws://` followed by the host and the path is not a URL.
    BadUrl,
    /// The URL's query lacks a `username` or an `id` parameter.
    MissingParams,
    /// The connection asks to play under this username.
    Credentials(Seq<char>),
}

/// How far a request to open a game connection got.
pub enum ConnectStep {
    Partial,
    Invalid,
    NoPath,
    NoHost,
    BadUrl,
    MissingParams,
    Credentials(String),
}

impl View for ConnectStep {
    type V = ConnectStepView;

    open spec fn view(&self) -> ConnectStepView {
        match self {
            ConnectStep::Partial => ConnectStepView::Partial,
            ConnectStep::Invalid => ConnectStepView::Invalid,
            ConnectStep::NoPath => ConnectStepView::NoPath,
            ConnectStep::NoHost => ConnectStepView::NoHost,
            ConnectStep::BadUrl => ConnectStepView::BadUrl,
            ConnectStep::MissingParams => ConnectStepView::MissingParams,
            ConnectStep::Credentials(u) => ConnectStepView::Credentials(u@),
        }
    }
}

/// How far the request read as `raw` gets towards opening a game
/// connection: it must be a complete request head with a path and a `Host`
/// header such that `ws://`, the host and the path make a URL whose query
/// has both a `username` and an `id` parameter; the last `username` given
/// is the one that counts.
pub open spec fn connect_step(raw: Seq<u8>) -> ConnectStepView {
    let bytes = request_bytes(raw);
    match http_request_head(bytes, MAX_HEADERS) {
        RequestHeadView::Partial => ConnectStepView::Partial,
        RequestHeadView::Invalid => ConnectStepView::Invalid,
        RequestHeadView::Complete { method, path, headers, body_start } => {
            match path {
                None => ConnectStepView::NoPath,
                Some(p) => match first_header_from(headers, host_name(), 0) {
                    None => ConnectStepView::NoHost,
                    Some(i) => {
                        let url = seq!['w', 's', ':', '/', '/'] + lossy_utf8(headers[i].1) + p;
                        match url_query_pairs(url) {
                            None => ConnectStepView::BadUrl,
                            Some(pairs) => match (
                                last_value(pairs, username_param(), pairs.len()),
                                last_value(pairs, id_param(), pairs.len()),
                            ) {
                                (Some(username), Some(_)) => ConnectStepView::Credentials(username),
                                _ => ConnectStepView::MissingParams,
                            },
                        }
                    },
                },
            }
        },
    }
}

/// The values of the last `username` and the last `id` pair of `pairs`.
fn username_and_id(pairs: &Vec<QueryPair>) -> (found: (Option<String>, bool))
    ensures
        text_view(found.0) == last_value(
            pairs@.map_values(|q: QueryPair| q@),
            username_param(),
            pairs@.len(),
        ),
        found.1 == last_value(pairs@.map_values(|q: QueryPair| q@), id_param(), pairs@.len()) is Some,
{
    let ghost views = pairs@.map_values(|q: QueryPair| q@);
    proof {
        reveal_strlit("username");
        reveal_strlit("id");
        assert("username"@ =~= username_param());
        assert("id"@ =~= id_param());
    }
    let mut username: Option<String> = None;
    let mut has_id = false;
    let mut i: usize = 0;
    while i < pairs.len()
        invariant
            0 <= i <= pairs@.len(),
            views == pairs@.map_values(|q: QueryPair| q@),
            "username"@ == username_param(),
            "id"@ == id_param(),
            text_view(username) == last_value(views, username_param(), i as nat),
            has_id == last_value(views, id_param(), i as nat) is Some,
        decreases pairs@.len() - i,
    {
        let key = pairs[i].key.as_str();
        assert(views[i as int] == pairs@[i as int]@);
        if str_eq(key, "username") {
            username = Some(pairs[i].value.clone());
        } else if str_eq(key, "id") {
            has_id = true;
        }
        i = i + 1;
    }
    (username, has_id)
}

/// How far the request read as `raw` gets towards opening a game
/// connection; see `connect_step`.
pub fn connect_step_of(raw: &[u8]) -> (step: ConnectStep)
    ensures
        step@ == connect_step(raw@),
{
    let request = utf8_lossy(raw);
    let bytes = request.as_str().as_bytes();
    assert(bytes@ == request_bytes(raw@));
    match parse_request_head(bytes, MAX_HEADERS) {
        RequestHead::Partial => ConnectStep::Partial,
        RequestHead::Invalid => ConnectStep::Invalid,
        RequestHead::Complete { method, path, headers, body_start } => {
            let path = match path {
                Some(p) => p,
                None => {
                    return ConnectStep::NoPath;
                },
            };
            let i = match find_header(&headers, false) {
                None => {
                    return ConnectStep::NoHost;
                },
                Some(i) => i,
            };
            assert(headers@.map_values(|h: HeaderLine| h@)[i as int] == headers@[i as int]@);
            let host = utf8_lossy(headers[i].value.as_slice());
            proof {
                reveal_strlit("ws://");
            }
            let mut url = "ws://".to_owned();
            url.append(host.as_str());
            url.append(path.as_str());
            assert(url@ =~= seq!['w', 's', ':', '/', '/'] + host@ + path@);
            match query_pairs(url.as_str()) {
                None => ConnectStep::BadUrl,
                Some(pairs) => {
                    let (username, has_id) = username_and_id(&pairs);
                    match username {
                        Some(u) => {
                            if has_id {
                                ConnectStep::Credentials(u)
                            } else {
                                ConnectStep::MissingParams
                            }
                        },
                        None => ConnectStep::MissingParams,
                    }
                },
            }
        },
    }
}

/// What the server decides about a request to open a game connection: how
/// far the request got and, when it names a registered username, the
/// identifier under which the player connects.
pub struct ConnectDecision {
    pub step: ConnectStep,
    pub player: Option<u128>,
}

/// Decides about the request read as `raw` at the game endpoint: a request that
/// carries a username registered in `lobby`, up to case, connects the player
/// under that username's identifier; no other request connects anyone.
pub fn handle_connect_request(lobby: &Lobby, raw: &[u8]) -> (decision: ConnectDecision)
    ensures
        decision.step@ == connect_step(raw@),
        decision.player == match decision.step@ {
            ConnectStepView::Credentials(username) => lookup(lobby.usernames(), name_key(username)),
            _ => None,
        },
{
    let step = connect_step_of(raw);
    let player = match &step {
        ConnectStep::Credentials(username) => lobby.registered_id(username.as_str()),
        _ => None,
    };
    ConnectDecision { step, player }
}

/// A message from a connected player, as the server reads it, abstractly.
pub enum ClientMessageView {
    /// The text is not JSON.
    Malformed,
    /// A challenge to the player registered under this username.
    MatchRequest(Seq<char>),
    /// An acceptance of the challenge of the player with this identifier.
    MatchAccept(Seq<char>),
    /// Any other JSON: a chat message for everyone.
    Chat,
}

/// The name of the member that carries a challenge.
pub open spec fn match_request_member() -> Seq<char> {
    seq!['m', 'a', 't', 'c', 'h', 'R', 'e', 'q', 'u', 'e', 's', 't']
}

/// The name of the member that carries an acceptance.
pub open spec fn match_accept_member() -> Seq<char> {
    seq!['m', 'a', 't', 'c', 'h', 'A', 'c', 'c', 'e', 'p', 't']
}

/// How the server reads a message: a JSON text whose `matchRequest` member
/// is a string is a challenge; otherwise one whose `matchAccept` member is a
/// string is an acceptance; any other JSON is chat.
pub open spec fn client_message(text: Seq<char>) -> ClientMessageView {
    match json_text_member(text, match_request_member()) {
        JsonMemberView::Invalid => ClientMessageView::Malformed,
        JsonMemberView::Text(username) => ClientMessageView::MatchRequest(username),
        _ => match json_text_member(text, match_accept_member()) {
            JsonMemberView::Text(id) => ClientMessageView::MatchAccept(id),
            _ => ClientMessageView::Chat,
        },
    }
}

/// What the server does with a message from a connected player.
pub enum ClientAction {
    /// The message is not JSON; nothing happens.
    Malformed,
    /// The message is a challenge, with this outcome.
    Request(MatchRequestOutcome),
    /// The message is an acceptance, with this outcome.
    Accept(AcceptOutcome),
    /// The message is chat, to be passed on to every player.
    Chat,
}

/// Handles the text message `text` from the connected player `sender`: a
/// challenge or an acceptance is carried out as `Lobby::request_match` and
/// `Lobby::accept_match` do; other messages leave the lobby unchanged.
pub fn handle_client_message(lobby: &mut Lobby, sender: u128, text: &str) -> (action: ClientAction)
    ensures
        final(lobby).usernames() == old(lobby).usernames(),
        match client_message(text@) {
            ClientMessageView::Malformed => action is Malformed && final(lobby).clients() == old(
                lobby,
            ).clients(),
            ClientMessageView::Chat => action is Chat && final(lobby).clients() == old(
                lobby,
            ).clients(),
            ClientMessageView::MatchRequest(username) => {
                let outcome = crate::lobby::match_request_outcome(
                    old(lobby).usernames(),
                    old(lobby).clients(),
                    sender,
                    username,
                );
                &&& action == ClientAction::Request(outcome)
                &&& final(lobby).clients() == crate::lobby::clients_after_request(
                    old(lobby).clients(),
                    sender,
                    outcome,
                )
            },
            ClientMessageView::MatchAccept(id) => {
                let outcome = crate::lobby::accept_outcome(old(lobby).clients(), sender, id);
                &&& action == ClientAction::Accept(outcome)
                &&& final(lobby).clients() == crate::lobby::clients_after_accept(
                    old(lobby).clients(),
                    sender,
                    outcome,
                )
            },
        },
{
    proof {
        reveal_strlit("matchRequest");
        reveal_strlit("matchAccept");
        assert("matchRequest"@ =~= match_request_member());
        assert("matchAccept"@ =~= match_accept_member());
    }
    match json_member_of_text(text, "matchRequest") {
        JsonMember::Invalid => ClientAction::Malformed,
        JsonMember::Text(username) => ClientAction::Request(
            lobby.request_match(sender, username.as_str()),
        ),
        _ => match json_member_of_text(text, "matchAccept") {
            JsonMember::Text(id) => ClientAction::Accept(lobby.accept_match(sender, id.as_str())),
            _ => ClientAction::Chat,
        },
    }
}

} // verus!
