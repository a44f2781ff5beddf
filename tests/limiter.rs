use limitador_filter::counters::{counter_key, Counter};
use limitador_filter::engine::{counter_value, decide, is_rate_limited};
use limitador_filter::filter::{new_limiter, Limiter, Outcome};
use limitador_filter::keys::{extract_keys, header_attribute, headers_key, key_vals_for_authorizing};
use limitador_filter::kv::lookup;
use limitador_filter::limits::{configured_limits, limit_applies, Condition, Limit};
use limitador_filter::snapshot::SnapshotError;

fn h(name: &str, value: &str) -> (String, String) {
    (name.to_string(), value.to_string())
}

fn get(ctx: &Vec<(String, String)>, key: &str) -> Option<String> {
    lookup(ctx, &key.to_string())
}

fn request(method: &str, user: &str) -> Vec<(String, String)> {
    vec![h(":method", method), h(":path", "/"), h("user-id", user)]
}

fn value_for(limiter: &Limiter, limit: usize, headers: &[(String, String)], table: &Vec<Counter>, now: u64) -> u64 {
    let ctx = key_vals_for_authorizing(headers);
    let key = counter_key(&limiter.limits[limit], &ctx);
    counter_value(table, &key, now)
}

fn single_limit(max: u64, window: u64) -> Limiter {
    Limiter::new(vec![Limit::new(
        "proxy_wasm",
        max,
        window,
        vec![Condition::new("req.method", "GET")],
        vec!["req.headers.user-id".to_string()],
    )])
}

#[test]
fn pseudo_headers_are_filtered() {
    let headers = vec![h(":authority", "h"), h(":path", "/x"), h(":method", "GET")];
    let ctx = key_vals_for_authorizing(&headers);
    assert_eq!(
        ctx,
        vec![h("req.path", "/x"), h("req.method", "GET"), h("namespace", "proxy_wasm")]
    );
}

#[test]
fn header_names_are_case_insensitive() {
    let a = key_vals_for_authorizing(&[h("X-User-Id", "a")]);
    let b = key_vals_for_authorizing(&[h("x-user-id", "a")]);
    assert_eq!(a, b);
    assert_eq!(get(&a, "req.headers.x-user-id"), Some("a".to_string()));
    assert_eq!(header_attribute(&"Content-TYPE".to_string()), Some("req.headers.content-type".to_string()));
}

#[test]
fn extraction_is_idempotent() {
    let headers = vec![h(":method", "POST"), h("User-Id", "bob"), h(":scheme", "https")];
    assert_eq!(key_vals_for_authorizing(&headers), key_vals_for_authorizing(&headers));
}

#[test]
fn duplicate_headers_last_wins_and_values_kept_verbatim() {
    let ctx = extract_keys(&[h("A", "One"), h("a", "Two")], "ns");
    assert_eq!(get(&ctx, "req.headers.a"), Some("Two".to_string()));
    assert_eq!(get(&ctx, "namespace"), Some("ns".to_string()));
    assert_eq!(get(&ctx, "req.path"), None);
    let empty = key_vals_for_authorizing(&[]);
    assert_eq!(empty, vec![h("namespace", "proxy_wasm")]);
}

#[test]
fn missing_attribute_means_limit_does_not_apply() {
    let limits = configured_limits();
    let ctx = key_vals_for_authorizing(&[h("user-id", "alice")]);
    assert!(!limit_applies(&limits[0], &ctx));
    let ctx = key_vals_for_authorizing(&request("GET", "alice"));
    assert!(limit_applies(&limits[0], &ctx));
    assert!(!limit_applies(&limits[1], &ctx));
}

#[test]
fn window_boundary_is_expired() {
    let limiter = single_limit(10, 60);
    let headers = request("GET", "alice");
    let ctx = key_vals_for_authorizing(&headers);
    let key = counter_key(&limiter.limits[0], &ctx);
    let mut table = vec![Counter { key, current_value: 10, expires_at: 1000 }];
    assert_eq!(value_for(&limiter, 0, &headers, &table, 999), 10);
    assert!(is_rate_limited(&limiter.limits, &ctx, &table, 999));
    assert_eq!(value_for(&limiter, 0, &headers, &table, 1000), 0);
    assert!(limiter.admit_request(&headers, &mut table, 1000));
    assert_eq!(table.len(), 1);
    assert_eq!(table[0].current_value, 1);
    assert_eq!(table[0].expires_at, 1060);
}

#[test]
fn capacity_boundary() {
    let limiter = single_limit(10, 60);
    let headers = request("GET", "carol");
    let mut table: Vec<Counter> = Vec::new();
    for i in 0..10u64 {
        assert!(limiter.admit_request(&headers, &mut table, 500 + i));
    }
    assert_eq!(value_for(&limiter, 0, &headers, &table, 509), 10);
    assert!(!limiter.admit_request(&headers, &mut table, 510));
    assert_eq!(value_for(&limiter, 0, &headers, &table, 510), 10);
    assert_eq!(table[0].expires_at, 560);
}

#[test]
fn denied_request_changes_no_counter() {
    let limiter = Limiter::new(vec![
        Limit::new("proxy_wasm", 1, 60, vec![Condition::new("req.method", "GET")], vec![]),
        Limit::new("proxy_wasm", 5, 60, vec![], vec!["req.headers.user-id".to_string()]),
    ]);
    let headers = request("GET", "dave");
    let mut table: Vec<Counter> = Vec::new();
    assert!(limiter.admit_request(&headers, &mut table, 0));
    assert_eq!(value_for(&limiter, 0, &headers, &table, 1), 1);
    assert_eq!(value_for(&limiter, 1, &headers, &table, 1), 1);
    assert!(!limiter.admit_request(&headers, &mut table, 1));
    assert_eq!(value_for(&limiter, 0, &headers, &table, 1), 1);
    assert_eq!(value_for(&limiter, 1, &headers, &table, 1), 1);
}

#[test]
fn snapshot_round_trip() {
    let limiter = new_limiter();
    let mut table: Vec<Counter> = Vec::new();
    assert!(limiter.admit_request(&request("GET", "alice"), &mut table, 100));
    assert!(limiter.admit_request(&request("POST", "alice"), &mut table, 101));
    assert!(limiter.admit_request(&request("GET", "bob"), &mut table, 102));
    assert!(limiter.admit_request(&request("GET", "alice"), &mut table, 103));
    let entries: Vec<(String, Vec<Option<String>>, u64, u64)> = table
        .iter()
        .map(|c| (c.key.namespace.clone(), c.key.values.clone(), c.current_value, c.expires_at))
        .collect();
    assert_eq!(entries.len(), 3);
    let count = table.len();
    let bytes = limiter.store_counters(table);
    assert!(!bytes.is_empty());
    let restored = match limiter.get_stored_counters(Some(&bytes)) {
        Ok(t) => t,
        Err(_) => panic!("decoding failed"),
    };
    assert_eq!(restored.len(), count);
    let back: Vec<(String, Vec<Option<String>>, u64, u64)> = restored
        .iter()
        .map(|c| (c.key.namespace.clone(), c.key.values.clone(), c.current_value, c.expires_at))
        .collect();
    assert_eq!(back, entries);
    assert_eq!(back[0].2, 2);
    assert_eq!(back[0].3, 160);
}

#[test]
fn nothing_stored_restores_empty_table() {
    let limiter = new_limiter();
    match limiter.get_stored_counters(None) {
        Ok(t) => assert!(t.is_empty()),
        Err(_) => panic!("absent snapshot is not an error"),
    }
}

#[test]
fn corrupt_snapshot_is_forbidden() {
    let limiter = new_limiter();
    let bytes: Vec<u8> = vec![0xff, 0xff, 0xff, 0xff, 0xff, 0xff, 0xff, 0xff, 1];
    assert!(matches!(limiter.get_stored_counters(Some(&bytes)), Err(SnapshotError::Corrupt)));
    let outcome = limiter.on_http_request_headers(&request("GET", "alice"), Some(&bytes), 0);
    assert!(matches!(outcome, Outcome::Forbidden));
}

#[test]
fn get_and_post_scenario() {
    let limiter = new_limiter();
    let mut stored: Option<Vec<u8>> = None;
    let mut run = |method: &str, now: u64| -> bool {
        match limiter.on_http_request_headers(&request(method, "alice"), stored.as_deref(), now) {
            Outcome::Admitted(b) => {
                stored = Some(b);
                true
            }
            Outcome::RateLimited => false,
            Outcome::Forbidden => panic!("storage failure"),
        }
    };
    for t in 0..5u64 {
        assert!(run("GET", t));
    }
    assert!(run("POST", 5));
    for t in 6..10u64 {
        assert!(run("POST", t));
    }
    assert!(!run("POST", 10));
    let table = limiter.get_stored_counters(stored.as_deref()).ok().unwrap();
    assert_eq!(value_for(&limiter, 0, &request("GET", "alice"), &table, 11), 5);
    assert_eq!(value_for(&limiter, 1, &request("POST", "alice"), &table, 11), 5);
}

#[test]
fn concurrent_invocations_lose_one_update() {
    let limiter = new_limiter();
    let headers = request("GET", "erin");
    let ctx = key_vals_for_authorizing(&headers);
    let key = counter_key(&limiter.limits[0], &ctx);
    let snapshot = limiter.store_counters(vec![Counter { key, current_value: 9, expires_at: 100 }]);
    let first = limiter.on_http_request_headers(&headers, Some(&snapshot), 10);
    let second = limiter.on_http_request_headers(&headers, Some(&snapshot), 11);
    let (a, b) = match (first, second) {
        (Outcome::Admitted(a), Outcome::Admitted(b)) => (a, b),
        _ => panic!("both invocations read 9 of 10 and are admitted"),
    };
    for bytes in [a, b] {
        let table = limiter.get_stored_counters(Some(&bytes)).ok().unwrap();
        assert_eq!(value_for(&limiter, 0, &headers, &table, 12), 10);
    }
}

#[test]
fn decide_reports_admission() {
    let limits = configured_limits();
    let ctx = key_vals_for_authorizing(&request("GET", "frank"));
    let mut table: Vec<Counter> = Vec::new();
    assert!(decide(&limits, &ctx, &mut table, 0));
    assert_eq!(table.len(), 1);
    assert_eq!(table[0].current_value, 1);
    assert_eq!(table[0].expires_at, 60);
    let other = key_vals_for_authorizing(&[h(":method", "DELETE")]);
    assert!(decide(&limits, &other, &mut table, 0));
    assert_eq!(table.len(), 1);
}

#[test]
fn empty_table_is_stored_and_restored_empty() {
    let limiter = new_limiter();
    let bytes = limiter.store_counters(Vec::new());
    assert_eq!(bytes, vec![0u8; 8]);
    match limiter.get_stored_counters(Some(&bytes)) {
        Ok(t) => assert!(t.is_empty()),
        Err(_) => panic!("an empty snapshot is a snapshot"),
    }
    let short: Vec<u8> = vec![0u8; 7];
    assert!(matches!(limiter.get_stored_counters(Some(&short)), Err(SnapshotError::Corrupt)));
}

#[test]
fn ordinary_header_key_is_prefixed() {
    assert_eq!(headers_key("user-id"), "req.headers.user-id".to_string());
    assert_eq!(headers_key(""), "req.headers.".to_string());
}

#[test]
fn other_user_is_counted_apart() {
    let limiter = single_limit(1, 60);
    let mut stored: Option<Vec<u8>> = None;
    for user in ["alice", "bob"] {
        match limiter.on_http_request_headers(&request("GET", user), stored.as_deref(), 5) {
            Outcome::Admitted(b) => stored = Some(b),
            _ => panic!("first request of each user is admitted"),
        }
    }
    let outcome = limiter.on_http_request_headers(&request("GET", "alice"), stored.as_deref(), 6);
    assert!(matches!(outcome, Outcome::RateLimited));
}
