use mooncake_http_client::query::{
    all_keys_url, batch_endpoint_first, health_url, batch_exit_code, batch_query_url, batch_results, batch_status_error,
    chunk_ranges, collect_keys, status_ok, key_check_outcome, key_query_url, keys_from_text,
    listing_status_outcome, mode_label, plan, results_from_flags, batch_reply, status_text, server_port,
    server_url, single_exit_code, summarize, KeyResult, QueryError, QueryPlan, Summary,
};
use mooncake_http_client::text::join_strings;

fn strings(items: &[&str]) -> Vec<String> {
    items.iter().map(|s| s.to_string()).collect()
}

fn result(key: &str, found: bool) -> KeyResult {
    KeyResult { key: key.to_string(), found }
}

#[test]
fn server_urls() {
    assert_eq!(server_url("10.15.56.196", 8090, false), "http://10.15.56.196:8090");
    assert_eq!(server_url("host", 443, true), "https://host:443");
    assert_eq!(server_url("h", 0, false), "http://h:0");
}

#[test]
fn key_urls() {
    assert_eq!(key_query_url("http://h:8090", true, "k1"), "http://h:8090/metadata?key=k1");
    assert_eq!(key_query_url("http://h:9003", false, "a b"), "http://h:9003/query_key?key=a b");
    assert_eq!(
        batch_query_url("http://h:9003", &strings(&["k1", "k2"])),
        "http://h:9003/batch_query_keys?keys=k1,k2"
    );
}

#[test]
fn ports_and_modes() {
    assert_eq!(server_port(true, 9003), 8090);
    assert_eq!(server_port(false, 9003), 9003);
    assert_eq!(mode_label(true), "HTTP Metadata Store");
    assert_eq!(mode_label(false), "RPC Query (Store)");
    assert!(batch_endpoint_first(false));
    assert!(!batch_endpoint_first(true));
}

#[test]
fn key_check_statuses() {
    assert!(matches!(key_check_outcome(200, String::new()), Ok(true)));
    assert!(matches!(key_check_outcome(404, String::new()), Ok(false)));
    match key_check_outcome(500, "err".to_string()) {
        Err(QueryError::UnexpectedStatus { status, body }) => {
            assert_eq!(status, 500);
            assert_eq!(body, "err");
        }
        other => panic!("unexpected {:?}", other),
    }
    assert!(status_ok(200));
    assert!(!status_ok(204));
    assert_eq!(health_url("http://h:1"), "http://h:1/health");
    assert_eq!(all_keys_url("http://h:1"), "http://h:1/get_all_keys");
}

#[test]
fn batch_and_listing_statuses() {
    match batch_status_error(503, "busy".to_string()) {
        QueryError::BatchStatus { status, body } => {
            assert_eq!(status, 503);
            assert_eq!(body, "busy");
        }
        other => panic!("unexpected {:?}", other),
    }
    assert!(listing_status_outcome(200).is_ok());
    assert!(matches!(listing_status_outcome(401), Err(QueryError::ListStatus { status: 401 })));
}

#[test]
fn batch_results_read_ok_flags() {
    let keys = strings(&["key1", "key2", "key3", "key4"]);
    let body = r#"{"success":true,"data":{"key1":{"ok":true,"values":[]},"key2":{"ok":false,"error":"x"},"key4":{"ok":"yes"}}}"#;
    let r = batch_results(&keys, body).unwrap();
    let found: Vec<(String, bool)> = r.into_iter().map(|k| (k.key, k.found)).collect();
    assert_eq!(
        found,
        vec![
            ("key1".to_string(), true),
            ("key2".to_string(), false),
            ("key3".to_string(), false),
            ("key4".to_string(), false)
        ]
    );
}

#[test]
fn batch_results_without_data_find_nothing() {
    let keys = strings(&["key1", "key2"]);
    let r = batch_results(&keys, r#"{"success":false}"#).unwrap();
    assert_eq!(r.len(), 2);
    assert!(r.iter().all(|k| !k.found));
    assert_eq!(r[1].key, "key2");
    assert_eq!(batch_exit_code(&r), 1);
    let r = batch_results(&keys, "[1,2]").unwrap();
    assert_eq!(r.len(), 2);
    let r = batch_results(&strings(&["key1"]), r#"{"data":[true]}"#).unwrap();
    assert_eq!(r.len(), 1);
    assert!(!r[0].found);
}

#[test]
fn batch_results_in_requested_order() {
    let keys = strings(&["k1", "k2", "k3"]);
    let body = r#"{"success":true,"data":{"k2":{"ok":false,"error":"not found"},"k1":{"ok":true,"values":[]}}}"#;
    let found: Vec<(String, bool)> =
        batch_results(&keys, body).unwrap().into_iter().map(|k| (k.key, k.found)).collect();
    assert_eq!(
        found,
        vec![("k1".to_string(), true), ("k2".to_string(), false), ("k3".to_string(), false)]
    );
}

#[test]
fn batch_results_need_json() {
    assert!(matches!(batch_results(&strings(&["k"]), "not json"), Err(QueryError::InvalidJson(_))));
}

#[test]
fn flags_become_results() {
    let keys = strings(&["a", "b", "c"]);
    let r = results_from_flags(&keys, vec![Some(true), Some(false), None]);
    let found: Vec<(String, bool)> = r.into_iter().map(|k| (k.key, k.found)).collect();
    assert_eq!(
        found,
        vec![("a".to_string(), true), ("b".to_string(), false), ("c".to_string(), false)]
    );
    assert!(results_from_flags(&vec![], vec![]).is_empty());
}

#[test]
fn single_exit_codes() {
    assert_eq!(single_exit_code(Some(true)), 0);
    assert_eq!(single_exit_code(Some(false)), 1);
    assert_eq!(single_exit_code(None), 1);
}

#[test]
fn batch_replies_accept_only_200() {
    assert!(matches!(batch_reply(200), mooncake_http_client::client::BatchReply::Accepted));
    assert!(matches!(batch_reply(204), mooncake_http_client::client::BatchReply::Refused));
    assert!(matches!(batch_reply(500), mooncake_http_client::client::BatchReply::Refused));
}

#[test]
fn status_texts() {
    assert_eq!(status_text(404), "404 Not Found");
    assert_eq!(status_text(500), "500 Internal Server Error");
    assert_eq!(status_text(599), "599 <unknown status code>");
    assert_eq!(status_text(42), "42 <unknown status code>");
    assert_eq!(status_text(204), reqwest::StatusCode::NO_CONTENT.to_string());
}

#[test]
fn query_error_messages() {
    let e = QueryError::UnexpectedStatus { status: 500, body: "boom".to_string() };
    assert_eq!(e.message(), "Unexpected response status: 500 Internal Server Error - boom");
    let e = QueryError::BatchStatus { status: 204, body: String::new() };
    assert_eq!(e.message(), "Batch query failed with status: 204 No Content - ");
    let e = QueryError::ListStatus { status: 401 };
    assert_eq!(e.message(), "get_all_keys failed with status: 401 Unauthorized");
    let json_err = serde_json::from_str::<serde_json::Value>("OK").unwrap_err();
    assert_eq!(QueryError::InvalidJson(json_err).message(), "Failed to parse JSON response");
}

#[test]
fn keys_from_file_text() {
    assert_eq!(keys_from_text(" a \n\n  b\r\n\t\nc"), strings(&["a", "b", "c"]));
    assert_eq!(keys_from_text(""), Vec::<String>::new());
}

#[test]
fn keys_written_one_per_line_read_back() {
    let keys = strings(&["key1", "key 2", "k3"]);
    assert_eq!(keys_from_text(&join_strings(&keys, "\n")), keys);
}

#[test]
fn collecting_and_planning() {
    let all = collect_keys(strings(&["a"]), Some(strings(&["b", "c"])));
    assert_eq!(all, strings(&["a", "b", "c"]));
    assert_eq!(collect_keys(strings(&["a"]), None), strings(&["a"]));
    assert!(matches!(plan(vec![]), QueryPlan::NoKeys));
    assert!(matches!(plan(strings(&["x"])), QueryPlan::Single(ref k) if k == "x"));
    assert!(matches!(plan(strings(&["x", "y"])), QueryPlan::Batch(ref v) if v.len() == 2));
}

#[test]
fn chunks_of_keys() {
    assert_eq!(chunk_ranges(10, 3), vec![(0, 3), (3, 6), (6, 9), (9, 10)]);
    assert_eq!(chunk_ranges(6, 3), vec![(0, 3), (3, 6)]);
    assert_eq!(chunk_ranges(0, 3), vec![]);
    assert_eq!(chunk_ranges(2, 10), vec![(0, 2)]);
}

#[test]
fn chunks_match_slice_chunks() {
    let keys: Vec<u32> = (0..23).collect();
    for size in 1..8usize {
        let expected: Vec<(usize, usize)> = {
            let mut start = 0;
            keys.chunks(size)
                .map(|c| {
                    let r = (start, start + c.len());
                    start += c.len();
                    r
                })
                .collect()
        };
        assert_eq!(chunk_ranges(keys.len(), size), expected);
    }
}

#[test]
fn summaries_add_up() {
    let results = vec![result("a", true), result("b", false), result("c", true)];
    let s = summarize(&results);
    assert_eq!(s, Summary { total: 3, existing: 2, not_found: 1 });
    assert_eq!(s.existing + s.not_found, s.total);
    assert_eq!(batch_exit_code(&results), 1);
    let all = vec![result("a", true), result("b", true)];
    assert_eq!(batch_exit_code(&all), 0);
    assert_eq!(summarize(&vec![]), Summary { total: 0, existing: 0, not_found: 0 });
    assert_eq!(batch_exit_code(&vec![]), 0);
}
