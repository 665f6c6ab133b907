//! The command-line key query tools: the URLs they ask, what the answers
//! mean, and how their results are counted.
//!
//! The tools talk either to the HTTP metadata server (`/metadata`) or to the
//! master's query endpoints (`/query_key`, `/batch_query_keys`).

use vstd::prelude::*;

use crate::client::BatchReply;
use crate::text::{
    decimal, decimal_string, is_filled, is_space, is_trimmed, join, join_strings, lemma_filter_all,
    lemma_split_join, lemma_trim_trimmed, split_on, strip_cr, text_lines, trim, views,
};

verus! {

broadcast use vstd::string::group_string_axioms;

/// A JSON value of `serde_json`; carried as it is.
#[verifier::external_type_specification]
#[verifier::external_body]
pub struct ExJsonValue(serde_json::Value);

/// What `serde_json::from_str::<serde_json::Value>` gives for `text`: the
/// JSON value it reads, or the error it reports.
pub uninterp spec fn json_of(text: Seq<char>) -> Result<serde_json::Value, serde_json::Error>;

/// The member `name` of a JSON value, as `serde_json::Value::get` gives it:
/// `None` where the value is no object or has no such member.
pub uninterp spec fn json_member_of(value: serde_json::Value, name: Seq<char>) -> Option<
    serde_json::Value,
>;

/// The boolean a JSON value holds, as `serde_json::Value::as_bool` gives it:
/// `None` where it is no boolean.
pub uninterp spec fn json_bool_of(value: serde_json::Value) -> Option<bool>;

/// Reads a JSON value (`serde_json::from_str`). The contract claims only that
/// the outcome is the one that `json_of` names for the text.
#[verifier::external_body]
fn parse_json(text: &str) -> (r: Result<serde_json::Value, serde_json::Error>)
    ensures
        r == json_of(text@),
{
    serde_json::from_str(text)
}

/// Whether `serde_json` reads `text` as the value `v`.
pub open spec fn reads_as(text: Seq<char>, v: serde_json::Value) -> bool {
    json_of(text) == Ok::<serde_json::Value, serde_json::Error>(v)
}

/// A member name that JSON writes between quotes as it is: no quote, no
/// backslash and no control character.
pub open spec fn is_plain_name(name: Seq<char>) -> bool {
    forall|i: int|
        0 <= i < name.len() ==> {
            let c = #[trigger] name[i];
            c != '"' && c != '\\' && (c as u32) >= 0x20
        }
}

/// The JSON text of an object with the single member `name`, whose value is
/// written `value`: `{"<name>":<value>}`.
pub open spec fn one_member_object(name: Seq<char>, value: Seq<char>) -> Seq<char> {
    seq!['{', '"'] + name + seq!['"', ':'] + value + seq!['}']
}

/// The member `name` of a JSON value (`serde_json::Value::get`). The
/// contract claims that the answer is the one that `json_member_of` names
/// for these arguments, and that an object read from `{"<k>":<w>}` has a
/// member under `name` exactly where `name` is `k`, whatever characters it
/// holds, and its value is the one read from `w`: `get` with a `&str` looks
/// the name up in the object's map and nowhere else.
#[verifier::external_body]
fn json_member<'a>(value: &'a serde_json::Value, name: &str) -> (r: Option<&'a serde_json::Value>)
    ensures
        match r {
            Some(m) => json_member_of(*value, name@) == Some(*m),
            None => json_member_of(*value, name@) is None,
        },
        r is None ==> forall|w: Seq<char>|
            #![trigger one_member_object(name@, w)]
            is_plain_name(name@) ==> !reads_as(one_member_object(name@, w), *value),
        r matches Some(m) ==> forall|w: Seq<char>|
            #![trigger one_member_object(name@, w)]
            is_plain_name(name@) && reads_as(one_member_object(name@, w), *value) ==> reads_as(
                w,
                *m,
            ),
        r matches Some(m) ==> forall|k: Seq<char>, w: Seq<char>|
            #![trigger one_member_object(k, w)]
            is_plain_name(k) && k != name@ ==> !reads_as(one_member_object(k, w), *value),
{
    value.get(name)
}

/// The boolean a JSON value holds (`serde_json::Value::as_bool`). The
/// contract claims that the answer is the one that `json_bool_of` names for
/// this value, and that it is `true` exactly for the value read from `true`
/// and `false` exactly for the one read from `false`.
#[verifier::external_body]
fn json_bool(value: &serde_json::Value) -> (r: Option<bool>)
    ensures
        r == json_bool_of(*value),
        (r == Some(true)) == reads_as("true"@, *value),
        (r == Some(false)) == reads_as("false"@, *value),
{
    value.as_bool()
}

/// The text of a status code as the HTTP client crate names it
/// (`StatusCode::canonical_reason`): `None` where the code is no status code
/// or has no name.
pub uninterp spec fn reason_phrase(code: u16) -> Option<Seq<char>>;

/// The name of a status code (`reqwest::StatusCode::from_u16`, then
/// `canonical_reason`). The contract claims only that the answer is the one
/// that `reason_phrase` names for this code.
#[verifier::external_body]
fn status_reason(code: u16) -> (r: Option<String>)
    ensures
        match r {
            Some(t) => reason_phrase(code) == Some(t@),
            None => reason_phrase(code) is None,
        },
{
    match reqwest::StatusCode::from_u16(code) {
        Ok(status) => status.canonical_reason().map(String::from),
        Err(_) => None,
    }
}

/// Why a query of the tools failed.
#[derive(Debug)]
pub enum QueryError {
    /// A key query was answered with neither 200 nor 404.
    UnexpectedStatus { status: u16, body: String },
    /// A batch query was answered with a status other than 200.
    BatchStatus { status: u16, body: String },
    /// The answer to a batch query is not JSON.
    InvalidJson(serde_json::Error),
    /// A key listing was answered with a status other than 200.
    ListStatus { status: u16 },
}

/// A status as the HTTP client shows it: "<code> <name>", such as
/// "404 Not Found", or "<code> <unknown status code>" for a code without a
/// name.
pub open spec fn status_line(code: u16) -> Seq<char> {
    decimal(code as nat) + " "@ + match reason_phrase(code) {
        Some(r) => r,
        None => "<unknown status code>"@,
    }
}

/// The text of a status as the HTTP client shows it.
pub fn status_text(code: u16) -> (s: String)
    ensures
        s@ == status_line(code),
{
    let mut s = decimal_string(code as u64);
    s.append(" ");
    match status_reason(code) {
        Some(r) => s.append(r.as_str()),
        None => s.append("<unknown status code>"),
    }
    s
}

impl QueryError {
    /// The message that tells the user why the query failed.
    pub open spec fn message_text(&self) -> Seq<char> {
        match self {
            QueryError::UnexpectedStatus { status, body } => "Unexpected response status: "@
                + status_line(*status) + " - "@ + body@,
            QueryError::BatchStatus { status, body } => "Batch query failed with status: "@
                + status_line(*status) + " - "@ + body@,
            QueryError::InvalidJson(_) => "Failed to parse JSON response"@,
            QueryError::ListStatus { status } => "get_all_keys failed with status: "@
                + status_line(*status),
        }
    }

    /// The message that tells the user why the query failed.
    pub fn message(&self) -> (m: String)
        ensures
            m@ == self.message_text(),
    {
        match self {
            QueryError::UnexpectedStatus { status, body } => {
                let mut m = String::from_str("Unexpected response status: ");
                let st = status_text(*status);
                m.append(st.as_str());
                m.append(" - ");
                m.append(body.as_str());
                m
            },
            QueryError::BatchStatus { status, body } => {
                let mut m = String::from_str("Batch query failed with status: ");
                let st = status_text(*status);
                m.append(st.as_str());
                m.append(" - ");
                m.append(body.as_str());
                m
            },
            QueryError::InvalidJson(_) => String::from_str("Failed to parse JSON response"),
            QueryError::ListStatus { status } => {
                let mut m = String::from_str("get_all_keys failed with status: ");
                let st = status_text(*status);
                m.append(st.as_str());
                m
            },
        }
    }
}

/// Whether one key was found.
#[derive(Debug, Clone)]
pub struct KeyResult {
    pub key: String,
    pub found: bool,
}

/// How many keys were asked, found and not found.
#[derive(Debug, Clone, Copy, PartialEq, Eq, Structural)]
pub struct Summary {
    pub total: usize,
    pub existing: usize,
    pub not_found: usize,
}

/// What the tool does with the keys it was given.
#[derive(Debug)]
pub enum QueryPlan {
    /// No key was given: the tool reports an error.
    NoKeys,
    /// One key: it is asked on its own.
    Single(String),
    /// More than one key: they are asked as a batch.
    Batch(Vec<String>),
}

/// The keys of a list of results.
pub open spec fn key_views(v: Seq<KeyResult>) -> Seq<Seq<char>> {
    v.map_values(|r: KeyResult| r.key@)
}

/// How many of the results were found.
pub open spec fn found_count(v: Seq<KeyResult>) -> nat
    decreases v.len(),
{
    if v.len() == 0 {
        0
    } else {
        found_count(v.drop_last()) + if v.last().found {
            1nat
        } else {
            0nat
        }
    }
}

/// The scheme of the server's URL.
pub open spec fn scheme(use_https: bool) -> Seq<char> {
    if use_https {
        "https"@
    } else {
        "http"@
    }
}

/// The endpoint that answers a key query.
pub open spec fn key_endpoint(use_metadata: bool) -> Seq<char> {
    if use_metadata {
        "metadata"@
    } else {
        "query_key"@
    }
}

/// The URL of a server: "<scheme>://<host>:<port>".
pub fn server_url(host: &str, port: u16, use_https: bool) -> (s: String)
    ensures
        s@ == scheme(use_https) + "://"@ + host@ + ":"@ + decimal(port as nat),
{
    let mut s = if use_https {
        String::from_str("https")
    } else {
        String::from_str("http")
    };
    s.append("://");
    s.append(host);
    s.append(":");
    let p = decimal_string(port as u64);
    s.append(p.as_str());
    s
}

/// The URL that asks for `key`: "<base>/<endpoint>?key=<key>", the key not
/// encoded.
pub fn key_query_url(base: &str, use_metadata: bool, key: &str) -> (s: String)
    ensures
        s@ == base@ + "/"@ + key_endpoint(use_metadata) + "?key="@ + key@,
{
    let mut s = String::from_str(base);
    s.append("/");
    if use_metadata {
        s.append("metadata");
    } else {
        s.append("query_key");
    }
    s.append("?key=");
    s.append(key);
    s
}

/// The URL of a batch query: "<base>/batch_query_keys?keys=<k1>,<k2>,...".
pub fn batch_query_url(base: &str, keys: &Vec<String>) -> (s: String)
    ensures
        s@ == base@ + "/batch_query_keys?keys="@ + join(views(keys@), ","@),
{
    let mut s = String::from_str(base);
    s.append("/batch_query_keys?keys=");
    let joined = join_strings(keys, ",");
    s.append(joined.as_str());
    s
}

/// The port of the server: the metadata server listens on 8090, the query
/// endpoints on the metrics port.
pub fn server_port(use_metadata: bool, metrics_port: u16) -> (p: u16)
    ensures
        p == if use_metadata {
            8090
        } else {
            metrics_port
        },
{
    if use_metadata {
        8090
    } else {
        metrics_port
    }
}

/// The name of the mode the tool runs in.
pub fn mode_label(use_metadata: bool) -> (s: String)
    ensures
        s@ == if use_metadata {
            "HTTP Metadata Store"@
        } else {
            "RPC Query (Store)"@
        },
{
    if use_metadata {
        String::from_str("HTTP Metadata Store")
    } else {
        String::from_str("RPC Query (Store)")
    }
}

/// Whether a batch is first asked of the batch endpoint (not in metadata
/// mode, where each key is asked on its own).
pub fn batch_endpoint_first(use_metadata: bool) -> (b: bool)
    ensures
        b == !use_metadata,
{
    !use_metadata
}

/// What the answer to a key query means: 200 that the key exists, 404 that it
/// does not; any other status is an error with the status and body.
pub fn key_check_outcome(status: u16, body: String) -> (r: Result<bool, QueryError>)
    ensures
        status == 200 ==> r matches Ok(true),
        status == 404 ==> r matches Ok(false),
        status != 200 && status != 404 ==> (r matches Err(
            QueryError::UnexpectedStatus { status: s, body: b },
        ) && s == status && b@ == body@),
{
    if status == 200 {
        Ok(true)
    } else if status == 404 {
        Ok(false)
    } else {
        Err(QueryError::UnexpectedStatus { status, body })
    }
}

/// Whether the server answered 200 (OK): a health check passed, or a batch
/// or listing answer can be read.
pub fn status_ok(status: u16) -> (b: bool)
    ensures
        b == (status == 200),
{
    status == 200
}

/// The URL of the health check: "<base>/health".
pub fn health_url(base: &str) -> (s: String)
    ensures
        s@ == base@ + "/health"@,
{
    let mut s = String::from_str(base);
    s.append("/health");
    s
}

/// The URL that lists all keys: "<base>/get_all_keys".
pub fn all_keys_url(base: &str) -> (s: String)
    ensures
        s@ == base@ + "/get_all_keys"@,
{
    let mut s = String::from_str(base);
    s.append("/get_all_keys");
    s
}

/// Whether a batch answer with this status is read as an answer: only 200
/// (OK) is; any other status, other successes included, is refused (see
/// `batch_status_error`).
pub fn batch_reply(status: u16) -> (r: BatchReply)
    ensures
        (r == BatchReply::Accepted) == (status == 200),
{
    if status == 200 {
        BatchReply::Accepted
    } else {
        BatchReply::Refused
    }
}

/// The error for a batch answer whose status is not 200 (OK): it carries
/// the status and the body.
pub fn batch_status_error(status: u16, body: String) -> (e: QueryError)
    ensures
        e matches QueryError::BatchStatus { status: s, body: b } && s == status && b@ == body@,
{
    QueryError::BatchStatus { status, body }
}

/// The error for a key listing whose status is not 200, or nothing.
pub fn listing_status_outcome(status: u16) -> (r: Result<(), QueryError>)
    ensures
        status == 200 ==> r is Ok,
        status != 200 ==> (r matches Err(QueryError::ListStatus { status: s }) && s == status),
{
    if status == 200 {
        Ok(())
    } else {
        Err(QueryError::ListStatus { status })
    }
}

/// The results for the keys, given for each key what was learnt of it
/// (`None` where nothing was): each key in order, found exactly where it was
/// learnt that it exists.
pub fn results_from_flags(keys: &Vec<String>, flags: Vec<Option<bool>>) -> (r: Vec<KeyResult>)
    requires
        flags@.len() == keys@.len(),
    ensures
        key_views(r@) == views(keys@),
        forall|i: int| 0 <= i < r@.len() ==> #[trigger] r@[i].found == (flags@[i] == Some(true)),
{
    let mut out: Vec<KeyResult> = Vec::new();
    let n = keys.len();
    let mut i: usize = 0;
    while i < n
        invariant
            n == keys@.len(),
            flags@.len() == n,
            0 <= i <= n,
            key_views(out@) == views(keys@).take(i as int),
            forall|j: int| 0 <= j < out@.len() ==> #[trigger] out@[j].found == (flags@[j] == Some(
                true,
            )),
        decreases n - i,
    {
        let found = match flags[i] {
            Some(b) => b,
            None => false,
        };
        let ghost old_out = out@;
        out.push(KeyResult { key: keys[i].clone(), found });
        assert(key_views(out@) =~= key_views(old_out).push(keys@[i as int]@));
        assert(views(keys@).take(i + 1) =~= views(keys@).take(i as int).push(keys@[i as int]@));
        i = i + 1;
    }
    assert(views(keys@).take(n as int) =~= views(keys@));
    out
}

/// What a batch answer says of `key`: the boolean at `data.<key>.ok`, if
/// there is one.
pub open spec fn ok_flag(data: Option<serde_json::Value>, key: Seq<char>) -> Option<bool> {
    match data {
        None => None,
        Some(d) => match json_member_of(d, key) {
            None => None,
            Some(entry) => match json_member_of(entry, "ok"@) {
                None => None,
                Some(ok) => json_bool_of(ok),
            },
        },
    }
}

/// A batch answer that reports on the one key `key`, with the `ok` member
/// written `ok`: `{"data":{"<key>":{"ok":<ok>}}}`.
pub open spec fn single_key_answer(key: Seq<char>, ok: Seq<char>) -> Seq<char> {
    one_member_object("data"@, one_member_object(key, one_member_object("ok"@, ok)))
}

/// A body that is the batch answer on the one key `key` with `ok` written
/// `true` or `false`.
pub open spec fn is_single_key_answer(body: Seq<char>, key: Seq<char>, ok: Seq<char>) -> bool {
    &&& is_plain_name(key)
    &&& (ok == "true"@ || ok == "false"@)
    &&& body == single_key_answer(key, ok)
}

/// The results of a batch answer. The body must be JSON (else the JSON
/// error); then there is one result for each key, in order, found exactly
/// where the answer's `data.<key>.ok` is `true`. A key the answer does not
/// report on, an `ok` that is no boolean, and an answer without `data`
/// count as not found.
pub fn batch_results(keys: &Vec<String>, body: &str) -> (r: Result<Vec<KeyResult>, QueryError>)
    ensures
        match json_of(body@) {
            Err(je) => r matches Err(e) && e == QueryError::InvalidJson(je),
            Ok(j) => r matches Ok(v) && key_views(v@) == views(keys@) && forall|i: int|
                0 <= i < v@.len() ==> #[trigger] v@[i].found == (ok_flag(
                    json_member_of(j, "data"@),
                    keys@[i]@,
                ) == Some(true)),
        },
        r matches Ok(v) ==> forall|k: Seq<char>, t: Seq<char>, i: int|
            #![trigger is_single_key_answer(body@, k, t), v@[i]]
            is_single_key_answer(body@, k, t) && 0 <= i < v@.len() ==> (v@[i].found == (keys@[i]@
                == k && t == "true"@)),
{
    let json = match parse_json(body) {
        Ok(v) => v,
        Err(e) => return Err(QueryError::InvalidJson(e)),
    };
    proof {
        reveal_strlit("data");
        reveal_strlit("ok");
        reveal_strlit("true");
        reveal_strlit("false");
        assert(is_plain_name("data"@));
        assert(is_plain_name("ok"@));
        assert("true"@ != "false"@) by {
            assert("true"@.len() != "false"@.len());
        }
    }
    let data = json_member(&json, "data");
    let ghost data_view: Option<serde_json::Value> = json_member_of(json, "data"@);
    proof {
        assert forall|k: Seq<char>, t: Seq<char>|
            #![trigger is_single_key_answer(body@, k, t)]
            is_single_key_answer(body@, k, t) implies (data matches Some(d) && reads_as(
            one_member_object(k, one_member_object("ok"@, t)),
            *d,
        )) by {
            let w = one_member_object(k, one_member_object("ok"@, t));
            assert(reads_as(one_member_object("data"@, w), json));
        }
    }
    let mut f: Vec<Option<bool>> = Vec::new();
    let n = keys.len();
    let mut i: usize = 0;
    while i < n
        invariant
            n == keys@.len(),
            0 <= i <= n,
            f@.len() == i,
            is_plain_name("ok"@),
            "true"@ != "false"@,
            match data {
                Some(d) => data_view == Some(*d),
                None => data_view is None,
            },
            forall|j: int| 0 <= j < i ==> #[trigger] f@[j] == ok_flag(data_view, keys@[j]@),
            forall|k: Seq<char>, t: Seq<char>|
                #![trigger is_single_key_answer(body@, k, t)]
                is_single_key_answer(body@, k, t) ==> (data matches Some(d) && reads_as(
                    one_member_object(k, one_member_object("ok"@, t)),
                    *d,
                )),
            forall|k: Seq<char>, t: Seq<char>, j: int|
                #![trigger is_single_key_answer(body@, k, t), f@[j]]
                is_single_key_answer(body@, k, t) && 0 <= j < i ==> ((f@[j] == Some(true)) == (
                keys@[j]@ == k && t == "true"@)),
        decreases n - i,
    {
        let ghost key = keys@[i as int]@;
        let flag: Option<bool> = match data {
            None => None,
            Some(d) => match json_member(d, keys[i].as_str()) {
                None => {
                    proof {
                        assert forall|k: Seq<char>, t: Seq<char>|
                            #![trigger is_single_key_answer(body@, k, t)]
                            is_single_key_answer(body@, k, t) implies key != k by {
                            if key == k {
                                assert(reads_as(
                                    one_member_object(key, one_member_object("ok"@, t)),
                                    *d,
                                ));
                            }
                        }
                    }
                    None
                },
                Some(entry) => {
                    proof {
                        assert forall|k: Seq<char>, t: Seq<char>|
                            #![trigger is_single_key_answer(body@, k, t)]
                            is_single_key_answer(body@, k, t) implies key == k && reads_as(
                            one_member_object("ok"@, t),
                            *entry,
                        ) by {
                            let w = one_member_object("ok"@, t);
                            assert(reads_as(one_member_object(k, w), *d));
                        }
                    }
                    match json_member(entry, "ok") {
                        None => {
                            proof {
                                assert forall|k: Seq<char>, t: Seq<char>|
                                    #![trigger is_single_key_answer(body@, k, t)]
                                    is_single_key_answer(body@, k, t) implies false by {
                                    assert(reads_as(one_member_object("ok"@, t), *entry));
                                }
                            }
                            None
                        },
                        Some(ok) => {
                            let b = json_bool(ok);
                            proof {
                                assert forall|k: Seq<char>, t: Seq<char>|
                                    #![trigger is_single_key_answer(body@, k, t)]
                                    is_single_key_answer(body@, k, t) implies (b == Some(true))
                                    == (t == "true"@) by {
                                    assert(reads_as(one_member_object("ok"@, t), *entry));
                                    assert(reads_as(t, *ok));
                                }
                            }
                            b
                        },
                    }
                },
            },
        };
        proof {
            assert forall|k: Seq<char>, t: Seq<char>|
                #![trigger is_single_key_answer(body@, k, t)]
                is_single_key_answer(body@, k, t) implies ((flag == Some(true)) == (key == k && t
                == "true"@)) by {
                assert(data is Some);
            }
        }
        let ghost old_f = f@;
        f.push(flag);
        proof {
            assert forall|k: Seq<char>, t: Seq<char>, j: int|
                #![trigger is_single_key_answer(body@, k, t), f@[j]]
                is_single_key_answer(body@, k, t) && 0 <= j < i + 1 implies ((f@[j] == Some(true))
                == (keys@[j]@ == k && t == "true"@)) by {
                if j < i {
                    assert(f@[j] == old_f[j]);
                }
            }
        }
        i = i + 1;
    }
    let results = results_from_flags(keys, f);
    proof {
        assert(results@.len() == key_views(results@).len());
        assert(keys@.len() == views(keys@).len());
        assert forall|k: int| 0 <= k < results@.len() implies #[trigger] results@[k].found == (
        ok_flag(json_member_of(json, "data"@), keys@[k]@) == Some(true)) by {
            assert(f@[k] == ok_flag(data_view, keys@[k]@));
        }
        assert forall|k: Seq<char>, t: Seq<char>, m: int|
            #![trigger is_single_key_answer(body@, k, t), results@[m]]
            is_single_key_answer(body@, k, t) && 0 <= m < results@.len() implies (results@[m].found
            == (keys@[m]@ == k && t == "true"@)) by {
            assert(results@[m].found == (f@[m] == Some(true)));
        }
    }
    Ok(results)
}

/// The keys of a text with one key on each line: each line trimmed, empty
/// ones dropped.
pub open spec fn keys_of_text(s: Seq<char>) -> Seq<Seq<char>> {
    crate::text::text_lines(s).map_values(|l: Seq<char>| trim(l)).filter(
        |l: Seq<char>| crate::text::is_filled(l),
    )
}

/// The keys of a text with one key on each line
/// (`s.lines().map(str::trim).filter(|l| !l.is_empty())`).
pub fn keys_from_text(s: &str) -> (keys: Vec<String>)
    ensures
        views(keys@) == keys_of_text(s@),
{
    let lines = crate::text::lines(s);
    let trimmed = crate::text::trim_each(&lines);
    crate::text::keep_filled(trimmed)
}

/// The keys given on the command line followed by those read from a file.
pub fn collect_keys(given: Vec<String>, from_file: Option<Vec<String>>) -> (all: Vec<String>)
    ensures
        views(all@) == match from_file {
            Some(f) => views(given@) + views(f@),
            None => views(given@),
        },
{
    let mut all = given;
    match from_file {
        None => {},
        Some(f) => {
            let ghost before = views(all@);
            let mut rest = f;
            let ghost extra = views(rest@);
            all.append(&mut rest);
            assert(views(all@) =~= before + extra);
        },
    }
    all
}

/// What to do with the keys: nothing to ask without keys, one key on its
/// own, more as a batch.
pub fn plan(keys: Vec<String>) -> (p: QueryPlan)
    ensures
        keys@.len() == 0 ==> p is NoKeys,
        keys@.len() == 1 ==> (p matches QueryPlan::Single(k) && k@ == keys@[0]@),
        keys@.len() > 1 ==> (p matches QueryPlan::Batch(v) && views(v@) == views(keys@)),
{
    let n = keys.len();
    if n == 0 {
        QueryPlan::NoKeys
    } else if n == 1 {
        let k = keys[0].clone();
        QueryPlan::Single(k)
    } else {
        QueryPlan::Batch(keys)
    }
}

/// The groups in which keys are asked, each at most `size` keys: the bounds
/// of `keys.chunks(size)`.
#[verifier::spinoff_prover]
pub fn chunk_ranges(len: usize, size: usize) -> (r: Vec<(usize, usize)>)
    requires
        size > 0,
    ensures
        r@.len() == (len + size - 1) / (size as int),
        forall|i: int| 0 <= i < r@.len() ==> {
            &&& #[trigger] r@[i].0 == i * size
            &&& r@[i].1 == if (i + 1) * size <= len {
                (i + 1) * size
            } else {
                len as int
            }
        },
{
    let mut out: Vec<(usize, usize)> = Vec::new();
    let mut start: usize = 0;
    let ghost mut k: int = 0;
    while start < len
        invariant
            size > 0,
            0 <= start <= len,
            k == out@.len(),
            start == k * size || (start == len && k * size >= len),
            start < len ==> start == k * size,
            k == 0 || (k - 1) * size < len,
            k == 0 ==> start == 0,
            forall|i: int| 0 <= i < out@.len() ==> {
                &&& #[trigger] out@[i].0 == i * size
                &&& out@[i].1 == if (i + 1) * size <= len {
                    (i + 1) * size
                } else {
                    len as int
                }
            },
        decreases len - start,
    {
        let end = if len - start > size {
            start + size
        } else {
            len
        };
        assert((k + 1) * size == k * size + size) by (nonlinear_arith);
        assert(k * size + size <= len ==> end == k * size + size);
        assert(k * size + size > len ==> end == len);
        let ghost old_out = out@;
        out.push((start, end));
        assert(out@ =~= old_out.push((start, end)));
        proof {
            k = k + 1;
        }
        start = end;
    }
    proof {
        lemma_chunk_count(len as int, size as int, k);
    }
    out
}

/// `k` groups of `size` cover `len` items, and `k - 1` do not, exactly where
/// `k` is `len / size` rounded up.
proof fn lemma_chunk_count(len: int, size: int, k: int)
    requires
        size > 0,
        len >= 0,
        k >= 0,
        k * size >= len,
        k == 0 || (k - 1) * size < len,
    ensures
        k == (len + size - 1) / size,
{
    assert(k == (len + size - 1) / size) by (nonlinear_arith)
        requires
            size > 0,
            len >= 0,
            k >= 0,
            k * size >= len,
            k == 0 || (k - 1) * size < len,
    {
        let q = (len + size - 1) / size;
        let r = (len + size - 1) % size;
        assert(len + size - 1 == q * size + r);
        assert(0 <= r < size);
        if k == 0 {
            assert(len == 0);
        } else {
            assert(k * size - size < len);
        }
    }
}

/// How many keys were asked, found and not found.
pub fn summarize(results: &Vec<KeyResult>) -> (s: Summary)
    ensures
        s.total == results@.len(),
        s.existing == found_count(results@),
        s.not_found == results@.len() - found_count(results@),
{
    let n = results.len();
    let mut existing: usize = 0;
    let mut i: usize = 0;
    while i < n
        invariant
            n == results@.len(),
            0 <= i <= n,
            existing == found_count(results@.take(i as int)),
            existing <= i,
        decreases n - i,
    {
        assert(results@.take(i + 1).drop_last() =~= results@.take(i as int));
        if results[i].found {
            existing = existing + 1;
        }
        i = i + 1;
    }
    assert(results@.take(n as int) =~= results@);
    Summary { total: n, existing, not_found: n - existing }
}

/// Whether every result was found.
pub open spec fn all_found(v: Seq<KeyResult>) -> bool {
    forall|i: int| 0 <= i < v.len() ==> (#[trigger] v[i]).found
}

/// Law: no more results are found than there are, and all of them are found
/// exactly where the found ones are as many as the results.
pub proof fn lemma_found_count(v: Seq<KeyResult>)
    ensures
        found_count(v) <= v.len(),
        (found_count(v) == v.len()) == all_found(v),
    decreases v.len(),
{
    if v.len() > 0 {
        let init = v.drop_last();
        lemma_found_count(init);
        assert forall|i: int| 0 <= i < init.len() implies init[i] == v[i] by {}
        if all_found(v) {
            assert(all_found(init)) by {
                assert forall|i: int| 0 <= i < init.len() implies (#[trigger] init[i]).found by {
                    assert(v[i].found);
                }
            }
            assert(v[v.len() - 1].found);
        }
        if found_count(v) == v.len() {
            assert(v.last().found);
            assert forall|i: int| 0 <= i < v.len() implies (#[trigger] v[i]).found by {
                if i < v.len() - 1 {
                    assert(init[i].found);
                }
            }
        }
    }
}

/// Law: of the keys asked, those found and those not found add up to all.
pub proof fn lemma_summary_adds_up(results: Seq<KeyResult>)
    ensures
        found_count(results) + (results.len() - found_count(results)) == results.len(),
        results.len() - found_count(results) >= 0,
{
    lemma_found_count(results);
}

/// The exit status of a batch: 0 where every key was found, 1 otherwise.
pub fn batch_exit_code(results: &Vec<KeyResult>) -> (code: i32)
    ensures
        code == if all_found(results@) {
            0i32
        } else {
            1i32
        },
{
    let s = summarize(results);
    proof {
        lemma_found_count(results@);
    }
    if s.not_found == 0 {
        0
    } else {
        1
    }
}

/// The exit status of a single key query, given what the answer said
/// (`None` where the query failed): 0 where the key was found, 1 where it was
/// not or the query failed.
pub fn single_exit_code(answer: Option<bool>) -> (code: i32)
    ensures
        code == if answer == Some(true) {
            0i32
        } else {
            1i32
        },
{
    match answer {
        Some(true) => 0,
        _ => 1,
    }
}

/// Law: a text made of keys, one on each line, gives those keys back, where
/// each key is not empty, holds no line feed and has no white space at
/// either end.
pub proof fn lemma_keys_of_joined(keys: Seq<Seq<char>>)
    requires
        forall|i: int|
            0 <= i < keys.len() ==> {
                &&& (#[trigger] keys[i]).len() > 0
                &&& !keys[i].contains('\n')
                &&& is_trimmed(keys[i])
            },
    ensures
        keys_of_text(join(keys, seq!['\n'])) == keys,
{
    let text = join(keys, seq!['\n']);
    if keys.len() == 0 {
        assert(text =~= Seq::<char>::empty());
        reveal(Seq::filter);
        assert(split_on(text, '\n') =~= seq![Seq::<char>::empty()]);
        assert(text_lines(text) =~= Seq::<Seq<char>>::empty());
        assert(text_lines(text).map_values(|l: Seq<char>| trim(l)) =~= Seq::<
            Seq<char>,
        >::empty());
    } else {
        assert forall|i: int| 0 <= i < keys.len() implies !(#[trigger] keys[i]).contains('\n') by {}
        lemma_split_join(keys, '\n');
        let pieces = split_on(text, '\n');
        assert forall|i: int| 0 <= i < keys.len() implies strip_cr(#[trigger] keys[i])
            == keys[i] by {
            assert(keys[i][keys[i].len() - 1] == keys[i].last());
            assert(!is_space(keys[i].last()));
        }
        assert(keys.last().len() > 0) by {
            assert(keys[keys.len() - 1] == keys.last());
        }
        let ended = pieces.drop_last().map_values(|l: Seq<char>| strip_cr(l));
        assert(ended.push(keys.last()) =~= keys);
        assert(text_lines(text) == keys);
        assert forall|i: int| 0 <= i < keys.len() implies trim(#[trigger] keys[i]) == keys[i] by {
            lemma_trim_trimmed(keys[i]);
        }
        assert(keys.map_values(|l: Seq<char>| trim(l)) =~= keys);
        assert forall|i: int| 0 <= i < keys.len() implies is_filled(#[trigger] keys[i]) by {}
        lemma_filter_all(keys);
    }
}


/// Law: results read from a batch answer are all found, so the batch exits
/// with status 0, exactly where the answer reports every requested key as
/// `ok`.
pub proof fn lemma_batch_all_found(
    keys: Seq<Seq<char>>,
    data: Option<serde_json::Value>,
    v: Seq<KeyResult>,
)
    requires
        key_views(v) == keys,
        forall|i: int| 0 <= i < v.len() ==> #[trigger] v[i].found == (ok_flag(data, keys[i]) == Some(
            true,
        )),
    ensures
        all_found(v) == (forall|i: int| 0 <= i < keys.len() ==> #[trigger] ok_flag(data, keys[i])
            == Some(true)),
{
    assert(v.len() == keys.len());
    if all_found(v) {
        assert forall|i: int| 0 <= i < keys.len() implies #[trigger] ok_flag(data, keys[i]) == Some(
            true,
        ) by {
            assert(v[i].found);
        }
    }
    if forall|i: int| 0 <= i < keys.len() ==> #[trigger] ok_flag(data, keys[i]) == Some(true) {
        assert forall|i: int| 0 <= i < v.len() implies (#[trigger] v[i]).found by {
            assert(ok_flag(data, keys[i]) == Some(true));
        }
    }
}

} // verus!
