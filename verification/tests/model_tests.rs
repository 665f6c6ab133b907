use mooncake_http_client::model::{BatchQueryResponse, ExistenceResult, KeyInfo};

fn info(ok: bool) -> KeyInfo {
    KeyInfo { ok, error: None, values: None }
}

#[test]
fn existence_tells_whether_key_exists() {
    assert!(ExistenceResult::Exists.does_exist());
    assert!(!ExistenceResult::NotExists.does_exist());
    assert_eq!(ExistenceResult::from(true), ExistenceResult::Exists);
    assert_eq!(ExistenceResult::from(false), ExistenceResult::NotExists);
}

#[test]
fn existence_labels() {
    assert_eq!(ExistenceResult::Exists.label(), "EXISTS");
    assert_eq!(ExistenceResult::NotExists.label(), "NOT FOUND");
}

#[test]
fn existence_round_trip() {
    for b in [true, false] {
        assert_eq!(ExistenceResult::from(b).does_exist(), b);
    }
    for r in [ExistenceResult::Exists, ExistenceResult::NotExists] {
        assert_eq!(ExistenceResult::from(r.does_exist()), r);
        assert_eq!(r.label() == "EXISTS", r.does_exist());
    }
}

#[test]
fn all_exists_follows_ok_flags() {
    let response = BatchQueryResponse {
        success: true,
        error: None,
        data: Some(vec![
            ("key1".to_string(), info(true)),
            ("key2".to_string(), info(false)),
            ("key3".to_string(), info(true)),
        ]),
    };
    let results = response.all_exists();
    assert_eq!(
        results,
        vec![
            ("key1".to_string(), ExistenceResult::Exists),
            ("key2".to_string(), ExistenceResult::NotExists),
            ("key3".to_string(), ExistenceResult::Exists),
        ]
    );
}

#[test]
fn all_exists_without_data_is_empty() {
    let response = BatchQueryResponse { success: true, error: None, data: None };
    assert!(response.all_exists().is_empty());
    let response = BatchQueryResponse { success: false, error: None, data: Some(vec![]) };
    assert!(response.all_exists().is_empty());
}
