use astral_watch::clock::{Duration, Instant};
use astral_watch::decode::{Pin, Reading};
use astral_watch::exporter::{
    accepted, answer, next, route, route_text, timed_out, too_large, Accepted, Next, Route,
    MAX_REQUEST,
};
use astral_watch::metrics::Metrics;

/// What a client that asks for `path` is sent.
fn get(m: &Metrics, path: &str) -> String {
    let request = format!("GET {path} HTTP/1.1\r\nhost: test\r\n\r\n").into_bytes();
    assert_eq!(
        next(&request, Duration::from_secs(0), Duration::from_secs(5)),
        Next::Answer
    );
    answer(route(&request), m, Instant::at(Duration::from_secs(1))).to_wire()
}

#[test]
fn serves_metrics_and_404s() {
    let mut metrics = Metrics::new();
    metrics.on_good_sample(
        &Reading {
            pins: [Pin {
                millivolts: 12_000,
                milliamps: 8_000,
            }; 6],
        },
        Instant::at(Duration::from_secs(1)),
    );

    let response = get(&metrics, "/metrics");
    assert!(response.starts_with("HTTP/1.1 200 OK"), "{response}");
    assert!(response.contains("text/plain; version=0.0.4"), "{response}");
    assert!(
        response.contains("astral_watch_total_watts 576"),
        "{response}"
    );

    // Prometheus scrape_config `params:` / cache busters must still hit /metrics
    let response = get(&metrics, "/metrics?debug=1");
    assert!(response.starts_with("HTTP/1.1 200 OK"), "{response}");

    let response = get(&metrics, "/nope");
    assert!(response.starts_with("HTTP/1.1 404"), "{response}");

    let response = get(&metrics, "/");
    assert!(response.contains("/metrics"), "{response}");
}

#[test]
fn drip_feeding_client_hits_the_request_deadline() {
    // a client sending one byte at a time must be cut off at the overall deadline,
    // not granted a fresh timeout per byte (it would hold the sequential accept
    // loop — and every real scrape — hostage)
    let deadline = Duration::from_millis(400);
    let mut buf: Vec<u8> = Vec::new();
    let mut elapsed_ms = 0u64;
    let response = loop {
        match next(&buf, Duration::from_millis(elapsed_ms), deadline) {
            Next::Read(wait) => {
                assert!(wait.nanos <= Duration::from_millis(400 - elapsed_ms).nanos);
                buf.push(b'G');
                elapsed_ms += 100;
            }
            Next::TimedOut => break timed_out().to_wire(),
            other => panic!("unexpected {other:?}"),
        }
        assert!(elapsed_ms < 4_000, "drip client held the handler");
    };
    assert_eq!(elapsed_ms, 400);
    assert!(response.contains("408"), "{response}");
}

#[test]
fn oversized_heads_are_refused() {
    let buf = vec![b'a'; MAX_REQUEST];
    let far = Duration::from_secs(5);
    assert_eq!(
        next(&buf, Duration::from_secs(0), far),
        Next::Read(Duration::from_secs(2))
    );
    let buf = vec![b'a'; MAX_REQUEST + 1];
    assert_eq!(next(&buf, Duration::from_secs(0), far), Next::TooLarge);
    assert_eq!(
        too_large().to_wire(),
        "HTTP/1.1 431 Request Header Fields Too Large\r\ncontent-type: text/plain\r\ncontent-length: 0\r\nconnection: close\r\n\r\n"
    );
}

#[test]
fn only_get_is_allowed() {
    assert_eq!(route_text("POST /metrics HTTP/1.1\r\n\r\n"), Route::NotAllowed);
    assert_eq!(route_text("  GET   /metrics#x  HTTP/1.1\r\n"), Route::Metrics);
    assert_eq!(route_text("GET\r\n\r\n"), Route::NotFound);
    assert_eq!(route_text(""), Route::NotAllowed);
}

#[test]
fn bytes_that_are_no_text_are_replaced() {
    // the broken byte becomes a replacement character, so the path is another one
    assert_eq!(route(&b"GET /metrics\xff HTTP/1.1\r\n\r\n".to_vec()), Route::NotFound);
    assert_eq!(
        route(&"GET\u{a0}/metrics HTTP/1.1\r\n\r\n".as_bytes().to_vec()),
        Route::Metrics
    );
}

#[test]
fn the_length_counts_bytes() {
    let page = answer(Route::Index, &Metrics::new(), Instant::at(Duration::from_secs(0)));
    let wire = page.to_wire();
    let body = &wire[wire.find("\r\n\r\n").unwrap() + 4..];
    assert!(wire.contains(&format!("content-length: {}\r\n", body.len())));
    assert!(body.len() > body.chars().count());
}

#[test]
fn accept_failures_warn_once_per_streak() {
    assert_eq!(accepted(false, false), (Accepted::WarnAndBackOff, true));
    assert_eq!(accepted(false, true), (Accepted::BackOff, true));
    assert_eq!(accepted(true, true), (Accepted::Serve, false));
}
