use graphql_field_timer::engine::{classify, default_port, split_header, trim_str, Timer, TimerError};
use graphql_field_timer::rank::{rank, QueryResult, Status};

fn record(status: Status, duration_nanos: u64, query: &str) -> QueryResult {
    QueryResult {
        duration_nanos,
        query: query.to_string(),
        response: String::new(),
        status,
    }
}

#[test]
fn split_header_on_first_colon_trims_both_parts() {
    let (k, v) = split_header("Authorization: Bearer abc").unwrap();
    assert_eq!(k, "Authorization");
    assert_eq!(v, "Bearer abc");

    let (k, v) = split_header("  X-Key :  a:b:c  ").unwrap();
    assert_eq!(k, "X-Key");
    assert_eq!(v, "a:b:c");

    assert!(split_header("no colon here").is_none());
}

#[test]
fn trim_removes_surrounding_whitespace_only() {
    assert_eq!(trim_str("  a b  "), "a b");
    assert_eq!(trim_str("\t x \n"), "x");
    assert_eq!(trim_str(""), "");
    assert_eq!(trim_str("   "), "");
}

#[test]
fn default_ports_follow_the_scheme() {
    assert_eq!(default_port(false, None), 80);
    assert_eq!(default_port(true, None), 443);
    assert_eq!(default_port(true, Some(8443)), 8443);
    assert_eq!(default_port(false, Some(8080)), 8080);
}

#[test]
fn timer_new_reads_the_uri() {
    let t = Timer::new("http://example.com/graphql", vec![], None).unwrap();
    assert_eq!(t.host, "example.com");
    assert!(!t.https);
    assert_eq!(t.port, 80);
    assert_eq!(t.variables, "{}");
    assert!(t.results.is_empty());

    let t = Timer::new("https://example.com:8443/graphql", vec![], None).unwrap();
    assert!(t.https);
    assert_eq!(t.port, 8443);
}

#[test]
fn timer_new_parses_headers() {
    let t = Timer::new(
        "https://example.com/",
        vec!["X-A: 1".to_string(), "X-B:2".to_string()],
        None,
    )
    .unwrap();
    assert_eq!(
        t.headers,
        vec![
            ("X-A".to_string(), "1".to_string()),
            ("X-B".to_string(), "2".to_string())
        ]
    );
}

#[test]
fn timer_new_rejects_bad_input() {
    match Timer::new("https://example.com/", vec!["nocolon".to_string()], None) {
        Err(TimerError::InvalidHeader(h)) => assert_eq!(h, "nocolon"),
        _ => panic!("expected an invalid-header error"),
    }
    match Timer::new("https://example.com/", vec![], Some("[1, 2]".to_string())) {
        Err(TimerError::InvalidVariables(v)) => assert_eq!(v, "[1, 2]"),
        _ => panic!("expected an invalid-variables error"),
    }
    match Timer::new("/relative/only", vec![], None) {
        Err(TimerError::NoHost) => {}
        _ => panic!("expected a no-host error"),
    }
    assert!(matches!(
        Timer::new("http://ex ample/", vec![], None),
        Err(TimerError::InvalidUri)
    ));
}

#[test]
fn request_body_embeds_query_and_variables() {
    let t = Timer::new(
        "https://example.com/",
        vec![],
        Some("{\"a\": 1}".to_string()),
    )
    .unwrap();
    let body = t.request_body("query { x }").unwrap();
    assert_eq!(
        body,
        "{\"query\": \"query { x }\", \"variables\": {\"a\": 1}}"
    );
    // The body is well-formed JSON with the two expected keys.
    let v: serde_json::Value = serde_json::from_str(&body).unwrap();
    assert_eq!(v["query"], serde_json::Value::String("query { x }".to_string()));
    assert!(v.get("variables").is_some());
}

#[test]
fn request_body_escapes_the_query() {
    let t = Timer::new("https://example.com/", vec![], None).unwrap();
    let body = t.request_body("query { f(s: \"a\\nb\") }").unwrap();
    let v: serde_json::Value = serde_json::from_str(&body).unwrap();
    assert_eq!(
        v["query"],
        serde_json::Value::String("query { f(s: \"a\\nb\") }".to_string())
    );
}

#[test]
fn classification_follows_the_keys() {
    assert_eq!(classify(true, false), Some(Status::Success));
    assert_eq!(classify(true, true), Some(Status::Success));
    assert_eq!(classify(false, true), Some(Status::Failure));
    assert_eq!(classify(false, false), None);
}

#[test]
fn response_with_data_records_success() {
    let mut t = Timer::new("https://example.com/", vec![], None).unwrap();
    t.record_response("q", 7, "{\"data\": {\"field\": 1}}").unwrap();
    assert_eq!(t.results.len(), 1);
    assert_eq!(t.results[0].status, Status::Success);
    assert_eq!(t.results[0].query, "q");
    assert_eq!(t.results[0].duration_nanos, 7);
    assert_eq!(t.results[0].response, "{\"data\": {\"field\": 1}}");
}

#[test]
fn null_data_with_errors_records_failure() {
    let mut t = Timer::new("https://example.com/", vec![], None).unwrap();
    t.record_response("q", 5, "{\"data\": null, \"errors\": [{\"message\": \"boom\"}]}")
        .unwrap();
    assert_eq!(t.results.len(), 1);
    assert_eq!(t.results[0].status, Status::Failure);
    assert_eq!(t.results[0].dump_response(), "{\"data\": null, \"errors\": [{\"message\": \"boom\"}]}");
}

#[test]
fn response_without_either_key_is_a_protocol_violation() {
    let mut t = Timer::new("https://example.com/", vec![], None).unwrap();
    match t.record_response("q", 5, "{\"other\": 1}") {
        Err(TimerError::UnknownResponse(b)) => assert_eq!(b, "{\"other\": 1}"),
        _ => panic!("expected an unknown-response error"),
    }
    match t.record_response("q", 5, "it's not json") {
        Err(TimerError::ResponseNotJson(b)) => assert_eq!(b, "it's not json"),
        _ => panic!("expected a response-not-json error"),
    }
    assert!(t.results.is_empty());
}

#[test]
fn ranking_puts_successes_first_then_by_duration() {
    let input = vec![
        record(Status::Success, 2_000_000_000, "a"),
        record(Status::Failure, 1_000_000_000, "b"),
        record(Status::Success, 1_000_000_000, "c"),
    ];
    let ranked = rank(input);
    let summary: Vec<(Status, u64, &str)> = ranked
        .iter()
        .map(|r| (r.status, r.duration_nanos, r.query.as_str()))
        .collect();
    assert_eq!(
        summary,
        vec![
            (Status::Success, 1_000_000_000, "c"),
            (Status::Success, 2_000_000_000, "a"),
            (Status::Failure, 1_000_000_000, "b"),
        ]
    );
}

#[test]
fn ranking_is_stable_for_equal_keys() {
    let input = vec![
        record(Status::Success, 5, "first"),
        record(Status::Failure, 5, "third"),
        record(Status::Success, 5, "second"),
        record(Status::Failure, 5, "fourth"),
    ];
    let ranked = rank(input);
    let queries: Vec<&str> = ranked.iter().map(|r| r.query.as_str()).collect();
    assert_eq!(queries, vec!["first", "second", "third", "fourth"]);
}

#[test]
fn ranked_results_come_from_the_timer() {
    let mut t = Timer::new("https://example.com/", vec![], None).unwrap();
    t.record_response("slow", 9, "{\"data\": {}}").unwrap();
    t.record_response("bad", 1, "{\"errors\": []}").unwrap();
    t.record_response("fast", 2, "{\"data\": {}}").unwrap();
    let ranked = t.results();
    let queries: Vec<&str> = ranked.iter().map(|r| r.query.as_str()).collect();
    assert_eq!(queries, vec!["fast", "slow", "bad"]);
}

#[test]
fn status_labels() {
    assert_eq!(Status::Success.label(), "OK");
    assert_eq!(Status::Failure.label(), "ERR");
}

#[test]
fn from_parts_pins_every_field() {
    let t = Timer::from_parts(
        "https://h:9/x".to_string(),
        Some("https".to_string()),
        Some("h".to_string()),
        Some(9),
        vec!["K: v".to_string()],
        Some("{}".to_string()),
    )
    .unwrap();
    assert_eq!(t.uri, "https://h:9/x");
    assert!(t.https);
    assert_eq!(t.host, "h");
    assert_eq!(t.port, 9);
    assert_eq!(t.headers, vec![("K".to_string(), "v".to_string())]);
    assert_eq!(t.variables, "{}");

    // A scheme other than plain `http` selects the secure transport.
    let t = Timer::from_parts(
        "ws://h/".to_string(),
        Some("ws".to_string()),
        Some("h".to_string()),
        None,
        vec![],
        None,
    )
    .unwrap();
    assert!(t.https);
    assert_eq!(t.port, 443);

    match Timer::from_parts(
        "x".to_string(),
        None,
        None,
        None,
        vec![],
        None,
    ) {
        Err(TimerError::NoHost) => {}
        _ => panic!("expected a no-host error"),
    }
}

#[test]
fn data_takes_precedence_over_errors() {
    let mut t = Timer::new("https://example.com/", vec![], None).unwrap();
    t.record_response("q", 3, "{\"data\": {\"x\": 1}, \"errors\": [1]}").unwrap();
    assert_eq!(t.results[0].status, Status::Success);
}

#[test]
fn null_keys_count_as_absent() {
    let mut t = Timer::new("https://example.com/", vec![], None).unwrap();
    match t.record_response("q", 3, "{\"data\": null, \"errors\": null}") {
        Err(TimerError::UnknownResponse(b)) => assert_eq!(b, "{\"data\": null, \"errors\": null}"),
        _ => panic!("expected an unknown-response error"),
    }
    assert!(t.results.is_empty());
}
