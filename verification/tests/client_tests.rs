use mooncake_http_client::client::{
    batch_outcome, health_outcome, key_exists_outcome, key_query_needs_body, listing_outcome,
    parse_key_list, status_error, success, batch_reply, BatchReply, MooncakeClient,
};
use mooncake_http_client::error::ClientError;
use mooncake_http_client::model::{BatchQueryResponse, ExistenceResult, KeyInfo};
use mooncake_http_client::text::join_strings;

fn client() -> MooncakeClient {
    MooncakeClient::new("http://localhost:9003").unwrap()
}

fn strings(items: &[&str]) -> Vec<String> {
    items.iter().map(|s| s.to_string()).collect()
}

#[test]
fn new_parses_the_server_url() {
    let c = client();
    assert_eq!(c.base_url(), "http://localhost:9003/");
    let c = MooncakeClient::new("HTTP://Example.COM:80/a/b").unwrap();
    assert_eq!(c.base_url(), "http://example.com/a/b");
}

#[test]
fn new_rejects_what_is_no_url() {
    let r = MooncakeClient::new("not a url");
    assert_eq!(url::Url::parse("not a url").unwrap_err(), url::ParseError::RelativeUrlWithoutBase);
    assert!(matches!(r, Err(ClientError::UrlParse(url::ParseError::RelativeUrlWithoutBase))));
    let r = MooncakeClient::new("http://host:99999");
    assert!(matches!(r, Err(ClientError::UrlParse(url::ParseError::InvalidPort))));
}

#[test]
fn endpoints_replace_the_path() {
    let c = MooncakeClient::new("http://10.0.0.1:9003/api/v1?x=1#frag").unwrap();
    assert_eq!(c.endpoint_url("/health").unwrap(), "http://10.0.0.1:9003/health");
    assert_eq!(client().endpoint_url("/get_all_keys").unwrap(), "http://localhost:9003/get_all_keys");
}

#[test]
fn key_query_url_encodes_the_key() {
    let c = client();
    assert_eq!(c.key_query_url("my_key").unwrap(), "http://localhost:9003/query_key?key=my_key");
    assert_eq!(
        c.key_query_url("a b&c=d/é").unwrap(),
        "http://localhost:9003/query_key?key=a+b%26c%3Dd%2F%C3%A9"
    );
}

#[test]
fn batch_url_joins_keys_with_commas() {
    let c = client();
    assert_eq!(c.batch_query_url(&[]).unwrap(), None);
    assert_eq!(
        c.batch_query_url(&["key1", "key2", "key3"]).unwrap(),
        Some("http://localhost:9003/batch_query_keys?keys=key1,key2,key3".to_string())
    );
    assert_eq!(
        c.batch_query_url(&["a b"]).unwrap(),
        Some("http://localhost:9003/batch_query_keys?keys=a%20b".to_string())
    );
}

#[test]
fn key_status_200_and_404() {
    assert!(matches!(key_exists_outcome(200, String::new()), Ok(true)));
    assert!(matches!(key_exists_outcome(404, String::new()), Ok(false)));
    assert!(!key_query_needs_body(200));
    assert!(!key_query_needs_body(404));
    assert!(key_query_needs_body(500));
}

#[test]
fn key_status_errors() {
    match key_exists_outcome(503, "down".to_string()) {
        Err(ClientError::ServerError { status, message }) => {
            assert_eq!(status, 503);
            assert_eq!(message, "down");
        }
        other => panic!("unexpected {:?}", other),
    }
    match key_exists_outcome(400, "bad".to_string()) {
        Err(ClientError::ClientError { status, message }) => {
            assert_eq!(status, 400);
            assert_eq!(message, "bad");
        }
        other => panic!("unexpected {:?}", other),
    }
    match key_exists_outcome(302, "moved".to_string()) {
        Err(ClientError::InvalidResponse(m)) => assert_eq!(m, "Unexpected status 302: moved"),
        other => panic!("unexpected {:?}", other),
    }
    match key_exists_outcome(201, String::new()) {
        Err(ClientError::InvalidResponse(m)) => assert_eq!(m, "Unexpected status 201: "),
        other => panic!("unexpected {:?}", other),
    }
}

#[test]
fn batch_replies_accept_2xx() {
    assert_eq!(batch_reply(200), BatchReply::Accepted);
    assert_eq!(batch_reply(204), BatchReply::Accepted);
    assert_eq!(batch_reply(404), BatchReply::Refused);
    assert_eq!(batch_reply(503), BatchReply::Refused);
}

#[test]
fn success_is_2xx() {
    assert!(success(200));
    assert!(success(204));
    assert!(!success(199));
    assert!(!success(300));
    match status_error(502, "gateway".to_string()) {
        ClientError::ServerError { status, message } => {
            assert_eq!(status, 502);
            assert_eq!(message, "gateway");
        }
        other => panic!("unexpected {:?}", other),
    }
}

#[test]
fn batch_failure_is_server_error() {
    let r = batch_outcome(BatchQueryResponse { success: false, error: None, data: None });
    match r {
        Err(ClientError::ServerError { status, message }) => {
            assert_eq!(status, 500);
            assert_eq!(message, "Unknown error");
        }
        other => panic!("unexpected {:?}", other),
    }
    let r = batch_outcome(BatchQueryResponse {
        success: false,
        error: Some("master busy".to_string()),
        data: None,
    });
    assert!(matches!(r, Err(ClientError::ServerError { status: 500, ref message }) if message == "master busy"));
}

#[test]
fn batch_success_lists_keys() {
    let r = batch_outcome(BatchQueryResponse {
        success: true,
        error: None,
        data: Some(vec![
            ("k1".to_string(), KeyInfo { ok: true, error: None, values: Some(vec![]) }),
            ("k2".to_string(), KeyInfo { ok: false, error: Some("missing".to_string()), values: None }),
        ]),
    })
    .unwrap();
    assert_eq!(
        r,
        vec![("k1".to_string(), ExistenceResult::Exists), ("k2".to_string(), ExistenceResult::NotExists)]
    );
}

#[test]
fn listing_keeps_filled_lines() {
    let r = listing_outcome(200, Ok("k1\nk2\n\nk3\r\n".to_string())).unwrap();
    assert_eq!(r, strings(&["k1", "k2", "k3"]));
    assert!(listing_outcome(200, Ok(String::new())).unwrap().is_empty());
}

#[test]
fn listing_errors() {
    match listing_outcome(500, Ok("oops".to_string())) {
        Err(ClientError::ServerError { status, message }) => {
            assert_eq!(status, 500);
            assert_eq!(message, "oops");
        }
        other => panic!("unexpected {:?}", other),
    }
    match listing_outcome(404, Err(ClientError::Timeout)) {
        Err(ClientError::ServerError { status, message }) => {
            assert_eq!(status, 404);
            assert_eq!(message, "");
        }
        other => panic!("unexpected {:?}", other),
    }
    assert!(matches!(listing_outcome(200, Err(ClientError::Timeout)), Err(ClientError::Timeout)));
}

#[test]
fn health_follows_status() {
    let h = health_outcome(200, Ok("OK".to_string())).unwrap();
    assert!(h.healthy);
    assert_eq!(h.message, "OK");
    let h = health_outcome(503, Ok("starting".to_string())).unwrap();
    assert!(!h.healthy);
    assert_eq!(h.message, "starting");
    assert!(matches!(health_outcome(200, Err(ClientError::Timeout)), Err(ClientError::Timeout)));
}

#[test]
fn key_list_is_split_and_trimmed() {
    assert_eq!(parse_key_list("key1, key2 ,key3"), strings(&["key1", "key2", "key3"]));
    assert_eq!(parse_key_list("a,,b"), strings(&["a", "", "b"]));
    assert_eq!(parse_key_list(""), strings(&[""]));
}

#[test]
fn key_list_of_joined_keys() {
    let keys = strings(&["key1", "key 2", "k3"]);
    assert_eq!(parse_key_list(&join_strings(&keys, ",")), keys);
}

#[test]
fn transport_errors() {
    let err = reqwest::Client::new().get("not a url").build().unwrap_err();
    assert!(matches!(ClientError::from_http(err), ClientError::Http(_)));
    let err = reqwest::Client::new().get("not a url").build().unwrap_err();
    assert!(matches!(ClientError::from_transport(err, true), ClientError::Timeout));
    let err = reqwest::Client::new().get("not a url").build().unwrap_err();
    assert!(matches!(ClientError::from_transport(err, false), ClientError::Http(_)));
}

#[test]
fn conversions_from_parse_errors() {
    let e = ClientError::from(url::ParseError::EmptyHost);
    assert!(matches!(e, ClientError::UrlParse(url::ParseError::EmptyHost)));
    let json_err = serde_json::from_str::<serde_json::Value>("{").unwrap_err();
    assert!(matches!(ClientError::from(json_err), ClientError::JsonParse(_)));
}
