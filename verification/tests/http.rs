use neb_offload::http::{is_metrics_line, is_whitespace, needs_more, respond, wants_metrics};
use neb_offload::metrics::{Metrics, OP_COUNT};

/// The decision in terms of the standard library.
fn expected(head: &[u8]) -> bool {
    let line = head
        .split(|&b| b == b'\n')
        .next()
        .map(|l| String::from_utf8_lossy(l).trim().to_string())
        .unwrap_or_default();
    let path = line.split_whitespace().nth(1).unwrap_or("");
    line.starts_with("GET ") && path == "/metrics"
}

#[test]
fn only_one_route_is_served() {
    let heads: [&[u8]; 20] = [
        b"GET /metrics HTTP/1.1\r\nHost: x\r\n\r\n",
        b"GET /metrics",
        b"GET /metrics\n",
        b"  GET   /metrics  HTTP/1.0\r\n\r\n",
        b"GET \t/metrics HTTP/1.1\r\n",
        b"GET /metric HTTP/1.1\r\n",
        b"GET /metrics/ HTTP/1.1\r\n",
        b"GET /metrics?x=1 HTTP/1.1\r\n",
        b"POST /metrics HTTP/1.1\r\n",
        b"get /metrics HTTP/1.1\r\n",
        b"GET\t/metrics HTTP/1.1\r\n",
        b"GET  HTTP/1.1\r\n",
        b"GET",
        b"GET ",
        b"",
        b"\n",
        b"\nGET /metrics HTTP/1.1\r\n",
        b"\r\nGET /metrics HTTP/1.1\r\n",
        b"GET /metrics \xFF\xFE\r\n",
        b"\xFF GET /metrics\r\n",
    ];
    for head in heads {
        assert_eq!(wants_metrics(head), expected(head), "{head:?}");
    }
    assert!(wants_metrics(heads[0]));
    assert!(wants_metrics(heads[18]));
    assert!(!wants_metrics(heads[19]));
    assert!(is_metrics_line("GET /metrics HTTP/1.1"));
    assert!(is_metrics_line("\u{3000}GET \u{2003}/metrics\u{a0}HTTP/1.1"));
    assert!(!is_metrics_line("GET /metrics\u{fffd}"));
}

#[test]
fn invalid_utf8_is_replaced_before_the_path_is_read() {
    // The replacement character takes the place of the bad byte in the path.
    assert!(!wants_metrics(b"GET /met\xFFrics HTTP/1.1\r\n"));
    assert!(!expected(b"GET /met\xFFrics HTTP/1.1\r\n"));
    // A two-byte non-breaking space separates words; its halves do not.
    assert!(wants_metrics(b"GET \xC2\xA0/metrics"));
    assert!(!wants_metrics(b"GET \xC2/metrics"));
}

#[test]
fn whitespace_is_what_the_language_calls_whitespace() {
    for code in 0..=0x10FFFFu32 {
        if let Some(c) = char::from_u32(code) {
            assert_eq!(is_whitespace(c), c.is_whitespace(), "{code:x}");
        }
    }
}

#[test]
fn heads_are_read_until_complete_or_long_enough() {
    assert!(needs_more(b""));
    assert!(needs_more(b"GET /metrics HTTP/1.1\r\n"));
    assert!(needs_more(b"GET /metrics HTTP/1.1\r\n\r"));
    assert!(!needs_more(b"GET /metrics HTTP/1.1\r\n\r\n"));
    assert!(!needs_more(b"\r\n\r\nrest"));
    assert!(needs_more(b"\n\n\r\n\n"));
    assert!(needs_more(&[b'a'; 8191]));
    assert!(!needs_more(&[b'a'; 8192]));
}

#[test]
fn responses_are_as_expected() {
    let mut m = Metrics::new();
    m.endpoint_accepted();
    let sums: Vec<String> = (0..OP_COUNT).map(|_| "0".to_string()).collect();
    let body = m.render(&sums);
    assert_eq!(
        respond(b"GET /metrics HTTP/1.1\r\n\r\n", &m, &sums),
        format!(
            "HTTP/1.1 200 OK\r\ncontent-type: text/plain; version=0.0.4; charset=utf-8\r\ncontent-length: {}\r\nconnection: close\r\n\r\n{}",
            body.len(),
            body
        )
    );
    assert_eq!(
        respond(b"GET / HTTP/1.1\r\n\r\n", &m, &sums),
        "HTTP/1.1 404 Not Found\r\ncontent-type: text/plain; charset=utf-8\r\ncontent-length: 10\r\nconnection: close\r\n\r\nnot found\n"
    );
}

#[test]
fn content_length_counts_bytes() {
    // Sums are printed as given; here they hold characters of several bytes.
    let m = Metrics::new();
    let sums: Vec<String> = (0..OP_COUNT).map(|_| "äö\u{1F600}".to_string()).collect();
    let body = m.render(&sums);
    let text = respond(b"GET /metrics\r\n\r\n", &m, &sums);
    assert!(body.len() > body.chars().count());
    assert!(text.contains(&format!("content-length: {}\r\n", body.len())));
}
