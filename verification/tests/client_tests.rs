use arka_sdk::client::{decimal_text, is_ready_status, is_success_status, join_strings, list_events_path, normalize_base_url, request_headers, request_url};

#[test]
fn base_url_loses_trailing_slashes() {
    assert_eq!(normalize_base_url("http://localhost:8080/"), "http://localhost:8080");
    assert_eq!(normalize_base_url("http://localhost:8080///"), "http://localhost:8080");
    assert_eq!(normalize_base_url("http://localhost:8080"), "http://localhost:8080");
    assert_eq!(normalize_base_url("///"), "");
    assert_eq!(normalize_base_url(""), "");
}

#[test]
fn list_events_path_without_filters() {
    assert_eq!(list_events_path(None, None, None, None), "/api/v1/events");
}

#[test]
fn list_events_path_with_all_filters() {
    assert_eq!(
        list_events_path(Some("ent_1"), Some("TRANSFER"), Some(50), Some(100)),
        "/api/v1/events?entity_id=ent_1&type=TRANSFER&limit=50&offset=100"
    );
}

#[test]
fn list_events_path_with_some_filters() {
    assert_eq!(list_events_path(None, Some("X"), None, Some(0)), "/api/v1/events?type=X&offset=0");
    assert_eq!(list_events_path(None, None, Some(7), None), "/api/v1/events?limit=7");
}

#[test]
fn decimal_text_of_numbers() {
    assert_eq!(decimal_text(0), "0");
    assert_eq!(decimal_text(9), "9");
    assert_eq!(decimal_text(10), "10");
    assert_eq!(decimal_text(4294967295), "4294967295");
}

#[test]
fn join_strings_with_separator() {
    assert_eq!(join_strings(&vec![], ","), "");
    assert_eq!(join_strings(&vec!["a".to_string()], ","), "a");
    assert_eq!(join_strings(&vec!["a".to_string(), "b".to_string(), "c".to_string()], "&"), "a&b&c");
}

#[test]
fn request_url_appends_path() {
    assert_eq!(request_url("http://h", "/health"), "http://h/health");
}

#[test]
fn headers_carry_bearer_token_when_key_set() {
    let h = request_headers(Some("k123"));
    assert_eq!(
        h,
        vec![
            ("Content-Type".to_string(), "application/json".to_string()),
            ("Accept".to_string(), "application/json".to_string()),
            ("Authorization".to_string(), "Bearer k123".to_string()),
        ]
    );
    assert_eq!(request_headers(None).len(), 2);
}

#[test]
fn success_statuses_are_2xx() {
    assert!(is_success_status(200));
    assert!(is_success_status(204));
    assert!(is_success_status(299));
    assert!(!is_success_status(199));
    assert!(!is_success_status(300));
    assert!(!is_success_status(404));
    assert!(!is_success_status(500));
}

#[test]
fn only_200_means_ready() {
    assert!(is_ready_status(200));
    assert!(!is_ready_status(204));
    assert!(!is_ready_status(503));
}
