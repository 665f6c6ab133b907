//! The client of the store's HTTP interface: where each request goes, and
//! what each answer means.
//!
//! Sending a request and reading its answer is left to the caller; this
//! module forms the request's URL and turns the answer's status code and body
//! into the client's result.

use vstd::prelude::*;
use vstd::utf8::encode_utf8;

use crate::error::ClientError;
use crate::model::{BatchQueryResponse, HealthResponse, result_keys, result_views};
use crate::text::{
    decimal, decimal_string, filled_lines, filled_text_lines, join, join_strings, owned_strings,
    is_trimmed, lemma_split_join, lemma_trim_trimmed, split_on, split_text, str_views, trim,
    trim_each, views,
};

verus! {

broadcast use vstd::string::group_string_axioms;

// ---------------------------------------------------------------------------
// URLs, as the `url` crate forms them
// ---------------------------------------------------------------------------

/// What `url::Url::parse` gives for `input`: the serialization of the URL it
/// reads, or the error it reports.
pub uninterp spec fn parsed_url(input: Seq<char>) -> Result<Seq<char>, url::ParseError>;

/// What `url::Url::join` gives for the URL read from `base` and the
/// reference `input`: the serialization of the result, or the error that
/// reading `base` or the join reports.
pub uninterp spec fn joined_url(base: Seq<char>, input: Seq<char>) -> Result<
    Seq<char>,
    url::ParseError,
>;

/// What the URL read from `url` becomes after
/// `query_pairs_mut().append_pair(name, value)`: its serialization, or the
/// error that reading `url` reports.
pub uninterp spec fn url_with_pair(url: Seq<char>, name: Seq<char>, value: Seq<char>) -> Result<
    Seq<char>,
    url::ParseError,
>;

/// The character of a hexadecimal digit, upper case.
pub open spec fn hex_char(d: u8) -> char {
    if d < 10 {
        (0x30 + d) as char
    } else {
        (0x41 + d - 10) as char
    }
}

/// The value of a hexadecimal digit character.
pub open spec fn hex_value(c: char) -> int {
    let u = c as u32;
    if 0x30 <= u && u <= 0x39 {
        u - 0x30
    } else {
        u - 0x41 + 10
    }
}

/// A byte that `application/x-www-form-urlencoded` leaves as it is:
/// `*`, `-`, `.`, `_`, digits and ASCII letters.
pub open spec fn is_form_unchanged(b: u8) -> bool {
    b == 0x2A || b == 0x2D || b == 0x2E || b == 0x5F || (0x30 <= b <= 0x39) || (0x41 <= b <= 0x5A)
        || (0x61 <= b <= 0x7A)
}

/// One byte, `application/x-www-form-urlencoded`: kept, a space as `+`,
/// anything else as `%` and two upper-case hexadecimal digits.
pub open spec fn form_byte(b: u8) -> Seq<char> {
    if is_form_unchanged(b) {
        seq![b as char]
    } else if b == 0x20 {
        seq!['+']
    } else {
        seq!['%', hex_char(b / 16), hex_char(b % 16)]
    }
}

/// Bytes, `application/x-www-form-urlencoded`, as
/// `form_urlencoded::byte_serialize` writes them.
pub open spec fn form_urlencoded(bytes: Seq<u8>) -> Seq<char>
    decreases bytes.len(),
{
    if bytes.len() == 0 {
        Seq::empty()
    } else {
        form_byte(bytes[0]) + form_urlencoded(bytes.skip(1))
    }
}

/// The bytes that `application/x-www-form-urlencoded` text stands for:
/// `+` is a space, `%` and two hexadecimal digits a byte, anything else
/// the character's own code.
pub open spec fn form_urldecoded(text: Seq<char>) -> Seq<u8>
    decreases text.len(),
{
    if text.len() == 0 {
        Seq::empty()
    } else if text[0] == '%' && text.len() >= 3 {
        seq![(hex_value(text[1]) * 16 + hex_value(text[2])) as u8] + form_urldecoded(text.skip(3))
    } else if text[0] == '+' {
        seq![0x20u8] + form_urldecoded(text.skip(1))
    } else {
        seq![text[0] as u8] + form_urldecoded(text.skip(1))
    }
}

proof fn lemma_hex_digit(d: u8)
    requires
        d < 16,
    ensures
        hex_value(hex_char(d)) == d,
{
    if d < 10 {
        assert(((0x30 + d) as char) as u32 == 0x30 + d);
    } else {
        assert(((0x41 + d - 10) as char) as u32 == 0x41 + d - 10);
    }
}

proof fn lemma_hex_round_trip(b: u8)
    ensures
        (hex_value(hex_char(b / 16)) * 16 + hex_value(hex_char(b % 16))) as u8 == b,
{
    lemma_hex_digit(b / 16);
    lemma_hex_digit(b % 16);
    assert(b == (b / 16) * 16 + b % 16);
}

/// Law: the value of a query pair is read back from the URL unchanged:
/// what follows `<url>?<name>=` decodes to the value's UTF-8 text, so the
/// key that a key query asks is the key given, and two keys never share a
/// URL.
pub proof fn lemma_query_pair_value(url: Seq<char>, name: Seq<char>, value: Seq<char>)
    ensures
        ({
            let prefix = url + seq!['?'] + form_urlencoded(encode_utf8(name)) + seq!['='];
            &&& query_pair_url(url, name, value).subrange(0, prefix.len() as int) == prefix
            &&& vstd::utf8::decode_utf8(
                form_urldecoded(query_pair_url(url, name, value).skip(prefix.len() as int)),
            ) == value
        }),
{
    let prefix = url + seq!['?'] + form_urlencoded(encode_utf8(name)) + seq!['='];
    let whole = query_pair_url(url, name, value);
    assert(whole =~= prefix + form_urlencoded(encode_utf8(value)));
    assert(whole.subrange(0, prefix.len() as int) =~= prefix);
    assert(whole.skip(prefix.len() as int) =~= form_urlencoded(encode_utf8(value)));
    lemma_form_round_trip(encode_utf8(value));
    vstd::utf8::encode_utf8_decode_utf8(value);
}

/// Law: decoding form-urlencoded bytes gives the bytes back, so two
/// different values are never sent as the same text.
pub proof fn lemma_form_round_trip(bytes: Seq<u8>)
    ensures
        form_urldecoded(form_urlencoded(bytes)) == bytes,
    decreases bytes.len(),
{
    if bytes.len() > 0 {
        let b = bytes[0];
        let rest = bytes.skip(1);
        lemma_form_round_trip(rest);
        let head = form_byte(b);
        let text = head + form_urlencoded(rest);
        assert(text.skip(head.len() as int) =~= form_urlencoded(rest));
        if is_form_unchanged(b) {
            assert(text[0] == b as char);
            assert((b as char) as u8 == b);
        } else if b == 0x20 {
            assert(text[0] == '+');
        } else {
            assert(text[0] == '%');
            assert(text[1] == hex_char(b / 16));
            assert(text[2] == hex_char(b % 16));
            lemma_hex_round_trip(b);
        }
        assert(seq![b] + rest =~= bytes);
    }
}

/// The characters of `s` before its first `/`.
pub open spec fn until_slash(s: Seq<char>) -> Seq<char>
    decreases s.len(),
{
    if s.len() == 0 || s[0] == '/' {
        Seq::empty()
    } else {
        seq![s[0]] + until_slash(s.drop_first())
    }
}

/// The scheme, user, host and port of an `http` or `https` URL text: all
/// that comes before its path.
pub open spec fn http_origin(p: Seq<char>) -> Option<Seq<char>> {
    if p.len() >= 7 && p.subrange(0, 7) == "http://"@ {
        Some("http://"@ + until_slash(p.skip(7)))
    } else if p.len() >= 8 && p.subrange(0, 8) == "https://"@ {
        Some("https://"@ + until_slash(p.skip(8)))
    } else {
        None
    }
}

/// An absolute path of one segment of ASCII letters, digits, `_` and `-`,
/// such as `/health`.
pub open spec fn is_simple_path(input: Seq<char>) -> bool {
    &&& input.len() >= 2
    &&& input[0] == '/'
    &&& forall|i: int|
        1 <= i < input.len() ==> {
            let c = #[trigger] input[i];
            ||| ('a' <= c && c <= 'z')
            ||| ('A' <= c && c <= 'Z')
            ||| ('0' <= c && c <= '9')
            ||| c == '_'
            ||| c == '-'
        }
}

/// The characters before the first `/` begin the text.
pub proof fn lemma_until_slash_prefix(s: Seq<char>)
    ensures
        until_slash(s).len() <= s.len(),
        s.subrange(0, until_slash(s).len() as int) == until_slash(s),
        !until_slash(s).contains('/'),
    decreases s.len(),
{
    if s.len() > 0 && s[0] != '/' {
        let rest = s.drop_first();
        lemma_until_slash_prefix(rest);
        let u = until_slash(rest);
        assert(s.subrange(0, u.len() + 1 as int) =~= seq![s[0]] + rest.subrange(0, u.len() as int));
        assert(!(seq![s[0]] + u).contains('/')) by {
            if (seq![s[0]] + u).contains('/') {
                let i = choose|i: int| 0 <= i < u.len() + 1 && (seq![s[0]] + u)[i] == '/';
                if i > 0 {
                    assert(u[i - 1] == '/');
                }
            }
        }
    } else {
        assert(s.subrange(0, 0) =~= Seq::<char>::empty());
    }
}

/// Law: an endpoint of an `http` or `https` server keeps the server URL's
/// scheme, user, host and port: they begin both URLs, and the server URL
/// goes on with its path (or ends) right after them, while the endpoint goes
/// on with the endpoint's path.
pub proof fn lemma_endpoint_origin(p: Seq<char>, path: Seq<char>)
    requires
        http_origin(p) is Some,
        is_simple_path(path),
    ensures
        ({
            let o = http_origin(p)->0;
            &&& o.len() <= p.len()
            &&& p.subrange(0, o.len() as int) == o
            &&& (o.len() == p.len() || p[o.len() as int] == '/')
            &&& (o + path).subrange(0, o.len() as int) == o
            &&& (o + path).skip(o.len() as int) == path
            &&& (p.len() >= 8 && p.subrange(0, 8) == "https://"@) ==> (o.len() >= 8 && o.subrange(
                0,
                8,
            ) == "https://"@)
        }),
{
    reveal_strlit("http://");
    reveal_strlit("https://");
    let o = http_origin(p)->0;
    let k: int = if p.subrange(0, 7) == "http://"@ {
        7
    } else {
        8
    };
    let rest = p.skip(k);
    lemma_until_slash_prefix(rest);
    let u = until_slash(rest);
    assert(o == p.subrange(0, k) + u);
    assert(p.subrange(0, o.len() as int) =~= p.subrange(0, k) + rest.subrange(0, u.len() as int));
    if o.len() < p.len() {
        lemma_until_slash_stops(rest);
        assert(p[o.len() as int] == rest[u.len() as int]);
    }
    assert((o + path).subrange(0, o.len() as int) =~= o);
    assert((o + path).skip(o.len() as int) =~= path);
    if p.len() >= 8 && p.subrange(0, 8) == "https://"@ {
        assert(p.subrange(0, 8)[4] == 's');
        assert(p[4] == 's');
        assert(p.subrange(0, 7) != "http://"@) by {
            assert(p.subrange(0, 7)[4] == 's');
            assert("http://"@[4] == ':');
        }
        assert(o.subrange(0, 8) =~= p.subrange(0, 8));
    }
}

/// Where the characters before the first `/` are not the whole text, a `/`
/// follows them.
proof fn lemma_until_slash_stops(s: Seq<char>)
    requires
        until_slash(s).len() < s.len(),
    ensures
        s[until_slash(s).len() as int] == '/',
    decreases s.len(),
{
    if s.len() > 0 && s[0] != '/' {
        lemma_until_slash_stops(s.drop_first());
    }
}

/// A URL without query with the single query pair `name=value`, both
/// encoded as `application/x-www-form-urlencoded` from their UTF-8 bytes.
pub open spec fn query_pair_url(url: Seq<char>, name: Seq<char>, value: Seq<char>) -> Seq<char> {
    url + seq!['?'] + form_urlencoded(encode_utf8(name)) + seq!['='] + form_urlencoded(
        encode_utf8(value),
    )
}

/// The text of a URL read without error that has neither query nor
/// fragment.
pub open spec fn plain_url(r: Result<Seq<char>, url::ParseError>) -> Option<Seq<char>> {
    match r {
        Ok(p) => if !p.contains('?') && !p.contains('#') {
            Some(p)
        } else {
            None
        },
        Err(_) => None,
    }
}

/// A URL text result, by the view of its text.
pub open spec fn url_text(r: Result<String, url::ParseError>) -> Result<Seq<char>, url::ParseError> {
    match r {
        Ok(s) => Ok(s@),
        Err(e) => Err(e),
    }
}

/// Parses an absolute URL (`url::Url::parse`) and gives its serialization.
/// The contract claims only that the outcome is the one that `parsed_url`
/// names for this input.
#[verifier::external_body]
fn parse_url(input: &str) -> (r: Result<String, url::ParseError>)
    ensures
        url_text(r) == parsed_url(input@),
{
    url::Url::parse(input).map(String::from)
}

/// Reads the URL `base` and resolves `input` against it (`url::Url::join`),
/// giving the serialization of the result. The contract claims that the
/// outcome is the one that `joined_url` names for these arguments, and, where
/// the URL read is an `http` or `https` URL and `input` is a simple absolute
/// path, that the join succeeds and keeps the URL's scheme, user, host and
/// port and takes `input` as its whole path, without query or fragment (a
/// path-absolute reference, as `join("/v1/meta")` in the crate's examples).
#[verifier::external_body]
fn join_url(base: &str, input: &str) -> (r: Result<String, url::ParseError>)
    ensures
        url_text(r) == joined_url(base@, input@),
        r is Err ==> match parsed_url(base@) {
            Ok(p) => !(http_origin(p) is Some && is_simple_path(input@)),
            Err(_) => true,
        },
        r matches Ok(t) ==> match parsed_url(base@) {
            Ok(p) => match http_origin(p) {
                Some(o) => is_simple_path(input@) ==> t@ == o + input@,
                None => true,
            },
            Err(_) => true,
        },
{
    let base = url::Url::parse(base)?;
    base.join(input).map(String::from)
}

/// Reads the URL `url` and appends the query pair `name=value`, encoded as
/// `application/x-www-form-urlencoded` (`query_pairs_mut().append_pair`),
/// giving the serialization of the result. The contract claims that the
/// outcome is the one that `url_with_pair` names for these arguments, and,
/// where the URL read has neither query nor fragment, that the result is its
/// serialization, `?`, the UTF-8 bytes of `name` encoded, `=` and those of
/// `value` encoded: `query_pairs_mut` adds the `?`, and `append_pair` writes
/// no `&` into an empty query and encodes with `byte_serialize`.
#[verifier::external_body]
fn add_query_pair(url: &str, name: &str, value: &str) -> (r: Result<String, url::ParseError>)
    ensures
        url_text(r) == url_with_pair(url@, name@, value@),
        r is Ok == parsed_url(url@) is Ok,
        r matches Ok(t) ==> match plain_url(parsed_url(url@)) {
            Some(p) => t@ == query_pair_url(p, name@, value@),
            None => true,
        },
{
    let mut u = url::Url::parse(url)?;
    u.query_pairs_mut().append_pair(name, value);
    Ok(String::from(u))
}

/// A client result for a URL: the URL's text, or the URL error as a
/// `UrlParse` error.
pub open spec fn url_outcome(r: Result<String, ClientError>, expected: Result<
    Seq<char>,
    url::ParseError,
>) -> bool {
    match expected {
        Ok(s) => r matches Ok(t) && t@ == s,
        Err(pe) => r == Err::<String, ClientError>(ClientError::UrlParse(pe)),
    }
}

fn url_result(r: Result<String, url::ParseError>) -> (out: Result<String, ClientError>)
    ensures
        url_outcome(out, url_text(r)),
{
    match r {
        Ok(s) => Ok(s),
        Err(e) => Err(ClientError::UrlParse(e)),
    }
}

// ---------------------------------------------------------------------------
// Status codes
// ---------------------------------------------------------------------------

/// A 2xx status.
pub open spec fn is_success(status: u16) -> bool {
    200 <= status <= 299
}

/// A 4xx status.
pub open spec fn is_client_error(status: u16) -> bool {
    400 <= status <= 499
}

/// A 5xx status.
pub open spec fn is_server_error(status: u16) -> bool {
    500 <= status <= 599
}

/// Law: the successes are exactly the statuses 200 to 299; no client error
/// (4xx) and no server error (5xx) is one, and each status is of at most one
/// of the three kinds.
pub proof fn lemma_status_kinds(status: u16)
    ensures
        is_success(status) <==> (200 <= status && status < 300),
        is_client_error(status) ==> !is_success(status),
        is_server_error(status) ==> !is_success(status),
        !(is_client_error(status) && is_server_error(status)),
{
}

/// Whether `status` is a success (2xx).
pub fn success(status: u16) -> (b: bool)
    ensures
        b == is_success(status),
{
    200 <= status && status <= 299
}

// ---------------------------------------------------------------------------
// The client
// ---------------------------------------------------------------------------

/// Where each request for a key goes.
pub open spec fn key_query_target(base: Seq<char>, key: Seq<char>) -> Result<
    Seq<char>,
    url::ParseError,
> {
    match joined_url(base, "/query_key"@) {
        Ok(j) => url_with_pair(j, "key"@, key),
        Err(e) => Err(e),
    }
}

/// Where a batch query for `keys` goes: the keys, joined by commas and not
/// encoded, form the query of the batch endpoint.
pub open spec fn batch_query_target(base: Seq<char>, keys: Seq<Seq<char>>) -> Result<
    Seq<char>,
    url::ParseError,
> {
    match joined_url(base, "/batch_query_keys"@) {
        Ok(j) => parsed_url(j + "?keys="@ + join(keys, ","@)),
        Err(e) => Err(e),
    }
}

/// The body of a response, or nothing where it could not be read.
pub open spec fn body_or_empty(body: Result<String, ClientError>) -> Seq<char> {
    match body {
        Ok(b) => b@,
        Err(_) => Seq::empty(),
    }
}

/// The message of an unexpected status: "Unexpected status <code>: <body>".
pub open spec fn unexpected_status_message(status: u16, body: Seq<char>) -> Seq<char> {
    "Unexpected status "@ + decimal(status as nat) + ": "@ + body
}

/// HTTP client for interacting with Mooncake Store: the URL of the server.
#[derive(Debug, Clone)]
pub struct MooncakeClient {
    base_url: String,
}

impl MooncakeClient {
    /// The serialization of the server's URL.
    pub closed spec fn base(&self) -> Seq<char> {
        self.base_url@
    }

    /// A client of the server at `base_url`, which must parse as a URL; the
    /// URL's error otherwise.
    pub fn new(base_url: &str) -> (r: Result<MooncakeClient, ClientError>)
        ensures
            match parsed_url(base_url@) {
                Ok(s) => r matches Ok(c) && c.base() == s,
                Err(pe) => r matches Err(e) && e == ClientError::UrlParse(pe),
            },
    {
        match parse_url(base_url) {
            Ok(s) => Ok(MooncakeClient { base_url: s }),
            Err(e) => Err(ClientError::UrlParse(e)),
        }
    }

    /// The serialization of the server's URL.
    pub fn base_url(&self) -> (s: &str)
        ensures
            s@ == self.base(),
    {
        self.base_url.as_str()
    }

    /// The URL of an endpoint of the server: `path` resolved against the
    /// server's URL.
    pub fn endpoint_url(&self, path: &str) -> (r: Result<String, ClientError>)
        ensures
            url_outcome(r, joined_url(self.base(), path@)),
            match parsed_url(self.base()) {
                Ok(p) => match http_origin(p) {
                    Some(o) => is_simple_path(path@) ==> (r matches Ok(t) && t@ == o + path@),
                    None => true,
                },
                Err(_) => true,
            },
    {
        url_result(join_url(self.base_url.as_str(), path))
    }

    /// The URL that asks whether `key` exists: `/query_key` with the query
    /// pair `key=<key>`.
    pub fn key_query_url(&self, key: &str) -> (r: Result<String, ClientError>)
        ensures
            url_outcome(r, key_query_target(self.base(), key@)),
            match joined_url(self.base(), "/query_key"@) {
                Ok(j) => match plain_url(parsed_url(j)) {
                    Some(p) => r matches Ok(t) && t@ == query_pair_url(p, "key"@, key@),
                    None => true,
                },
                Err(_) => true,
            },
    {
        let endpoint = self.endpoint_url("/query_key")?;
        url_result(add_query_pair(endpoint.as_str(), "key", key))
    }

    /// The URL of a batch query for `keys`; `None` where there are no keys,
    /// for which nothing is asked of the server.
    pub fn batch_query_url(&self, keys: &[&str]) -> (r: Result<Option<String>, ClientError>)
        ensures
            keys@.len() == 0 ==> r matches Ok(None),
            keys@.len() > 0 ==> match batch_query_target(self.base(), str_views(keys@)) {
                Ok(s) => r matches Ok(Some(t)) && t@ == s,
                Err(pe) => r matches Err(e) && e == ClientError::UrlParse(pe),
            },
    {
        if keys.len() == 0 {
            return Ok(None);
        }
        let owned = owned_strings(keys);
        let keys_param = join_strings(&owned, ",");
        let mut url_text = self.endpoint_url("/batch_query_keys")?;
        url_text.append("?keys=");
        url_text.append(keys_param.as_str());
        match parse_url(url_text.as_str()) {
            Ok(s) => Ok(Some(s)),
            Err(e) => Err(ClientError::UrlParse(e)),
        }
    }
}

/// Whether the answer to a key query with this status needs its body: all
/// but 200 and 404 do.
pub fn key_query_needs_body(status: u16) -> (b: bool)
    ensures
        b == (status != 200 && status != 404),
{
    status != 200 && status != 404
}

/// What the answer to a key query means: 200 that the key exists, 404 that it
/// does not; any other status is an error that carries the status and body.
pub fn key_exists_outcome(status: u16, body: String) -> (r: Result<bool, ClientError>)
    ensures
        status == 200 ==> r matches Ok(true),
        status == 404 ==> r matches Ok(false),
        status != 200 && status != 404 && is_server_error(status) ==> (r matches Err(
            ClientError::ServerError { status: s, message: m },
        ) && s == status && m@ == body@),
        status != 404 && is_client_error(status) ==> (r matches Err(
            ClientError::ClientError { status: s, message: m },
        ) && s == status && m@ == body@),
        status != 200 && !is_server_error(status) && !is_client_error(status) ==> (r matches Err(
            ClientError::InvalidResponse(m),
        ) && m@ == unexpected_status_message(status, body@)),
{
    if status == 200 {
        Ok(true)
    } else if status == 404 {
        Ok(false)
    } else if 500 <= status && status <= 599 {
        Err(ClientError::ServerError { status, message: body })
    } else if 400 <= status && status <= 499 {
        Err(ClientError::ClientError { status, message: body })
    } else {
        let mut m = String::from_str("Unexpected status ");
        let code = decimal_string(status as u64);
        m.append(code.as_str());
        m.append(": ");
        m.append(body.as_str());
        Err(ClientError::InvalidResponse(m))
    }
}

/// What to read of the answer to a batch query.
#[derive(Debug, Clone, Copy, PartialEq, Eq, Structural)]
pub enum BatchReply {
    /// The status refuses the query: the body is read as the message of the
    /// error (see `status_error`).
    Refused,
    /// The status accepts the query: the body is read as the JSON answer.
    Accepted,
}

/// Whether a batch answer with this status is read as an answer: only a
/// success (2xx) is; any other status, client errors included, is refused.
pub fn batch_reply(status: u16) -> (r: BatchReply)
    ensures
        (r == BatchReply::Accepted) == is_success(status),
{
    if success(status) {
        BatchReply::Accepted
    } else {
        BatchReply::Refused
    }
}

/// The error for an answer whose status is not a success: a server error
/// that carries the status and the body.
pub fn status_error(status: u16, body: String) -> (e: ClientError)
    ensures
        e matches ClientError::ServerError { status: s, message: m } && s == status && m@ == body@,
{
    ClientError::ServerError { status, message: body }
}

/// What a batch answer means: the server's failure as a server error (500,
/// with its message or "Unknown error"), or else each reported key with
/// whether it exists.
pub fn batch_outcome(response: BatchQueryResponse) -> (r: Result<
    Vec<(String, crate::model::ExistenceResult)>,
    ClientError,
>)
    ensures
        !response.success ==> (r matches Err(ClientError::ServerError { status: s, message: m })
            && s == 500 && m@ == match response.error {
            Some(e) => e@,
            None => "Unknown error"@,
        }),
        response.success ==> (r matches Ok(v) && result_views(v@) == response.existence()),
        response.success && response.keys_unique() ==> (r matches Ok(v) && result_keys(
            v@,
        ).no_duplicates()),
{
    if !response.success {
        let message = match response.error {
            Some(e) => e,
            None => String::from_str("Unknown error"),
        };
        return Err(ClientError::ServerError { status: 500, message });
    }
    Ok(response.all_exists())
}

/// What an answer listing keys or segments means: a status that is not a
/// success is a server error with the body (empty where it could not be
/// read); otherwise the body's lines that are not empty, one item each.
pub fn listing_outcome(status: u16, body: Result<String, ClientError>) -> (r: Result<
    Vec<String>,
    ClientError,
>)
    ensures
        !is_success(status) ==> (r matches Err(ClientError::ServerError { status: s, message: m })
            && s == status && m@ == body_or_empty(body)),
        is_success(status) ==> match body {
            Ok(b) => r matches Ok(items) && views(items@) == filled_lines(b@),
            Err(e) => r == Err::<Vec<String>, ClientError>(e),
        },
{
    if !success(status) {
        let message = match body {
            Ok(b) => b,
            Err(_) => String::new(),
        };
        return Err(ClientError::ServerError { status, message });
    }
    let text = body?;
    Ok(filled_text_lines(text.as_str()))
}

/// What the answer to a health check means: healthy where the status is 200,
/// with the body as message.
pub fn health_outcome(status: u16, body: Result<String, ClientError>) -> (r: Result<
    HealthResponse,
    ClientError,
>)
    ensures
        match body {
            Ok(b) => r matches Ok(h) && h.healthy == (status == 200) && h.message@ == b@,
            Err(e) => r == Err::<HealthResponse, ClientError>(e),
        },
{
    let text = body?;
    Ok(HealthResponse { healthy: status == 200, message: text })
}


/// The keys of a comma-separated list, each trimmed; empty ones are kept.
pub open spec fn key_list(s: Seq<char>) -> Seq<Seq<char>> {
    split_on(s, ',').map_values(|k: Seq<char>| trim(k))
}

/// The keys of a comma-separated list (`s.split(',').map(str::trim)`).
pub fn parse_key_list(s: &str) -> (keys: Vec<String>)
    ensures
        views(keys@) == key_list(s@),
{
    let pieces = split_text(s, ',');
    trim_each(&pieces)
}


/// Law: the keys of a batch query's parameter, read back as a
/// comma-separated list, are the keys that formed it, where there is at
/// least one key and no key holds a comma or white space at either end.
pub proof fn lemma_key_list_of_joined(keys: Seq<Seq<char>>)
    requires
        keys.len() >= 1,
        forall|i: int|
            0 <= i < keys.len() ==> !(#[trigger] keys[i]).contains(',') && is_trimmed(keys[i]),
    ensures
        key_list(join(keys, ","@)) == keys,
{
    reveal_strlit(",");
    assert(","@ =~= seq![',']);
    lemma_split_join(keys, ',');
    assert forall|i: int| 0 <= i < keys.len() implies trim(#[trigger] keys[i]) == keys[i] by {
        lemma_trim_trimmed(keys[i]);
    }
    assert(keys.map_values(|k: Seq<char>| trim(k)) =~= keys);
}

} // verus!
