use std::time::Duration;

use neb_offload::metrics::{
    Metrics, OP_COMPRESS_IDX, OP_COUNT, OP_DECOMPRESS_IDX, OP_INVALID_IDX, STATUS_BAD_REQUEST_IDX,
    STATUS_OK_IDX, STATUS_ZSTD_ERROR_IDX, VALUE_COUNT,
};

fn sums(m: &Metrics) -> Vec<String> {
    (0..OP_COUNT)
        .map(|op| format!("{}", m.duration_sum_nanos(op) as f64 / 1e9))
        .collect()
}

#[test]
fn render_contains_all_families() {
    let mut m = Metrics::new();
    m.endpoint_accepted();
    m.endpoint_dropped(0);
    m.contexts_added(3);
    m.contexts_evicted(0, 1);
    m.request(
        OP_COMPRESS_IDX,
        STATUS_OK_IDX,
        1000,
        100,
        Duration::from_micros(300).as_nanos(),
    );
    m.request(
        OP_COMPRESS_IDX,
        STATUS_ZSTD_ERROR_IDX,
        10,
        0,
        Duration::from_millis(10).as_nanos(),
    );
    let text = m.render(&sums(&m));
    assert!(text.contains("neb_zstd_endpoints 0"));
    assert!(text.contains("neb_zstd_contexts 2"));
    assert!(text.contains("neb_zstd_connections_accepted_total 1"));
    assert!(text.contains("neb_zstd_connections_dropped_total{reason=\"transport\"} 1"));
    assert!(text.contains("neb_zstd_contexts_evicted_total{reason=\"gc\"} 1"));
    assert!(text.contains("neb_zstd_requests_total{op=\"compress\",status=\"ok\"} 1"));
    assert!(text.contains("neb_zstd_requests_total{op=\"compress\",status=\"zstd_error\"} 1"));
    assert!(text.contains("neb_zstd_request_bytes_total{op=\"compress\",direction=\"in\"} 1010"));
    assert!(text.contains("neb_zstd_request_bytes_total{op=\"compress\",direction=\"out\"} 100"));
    // 300us falls into le=0.0005 and above only; cumulative semantics.
    assert!(
        text.contains("neb_zstd_request_duration_seconds_bucket{op=\"compress\",le=\"0.0001\"} 0")
    );
    assert!(
        text.contains("neb_zstd_request_duration_seconds_bucket{op=\"compress\",le=\"0.0005\"} 1")
    );
    assert!(
        text.contains("neb_zstd_request_duration_seconds_bucket{op=\"compress\",le=\"+Inf\"} 2")
    );
    assert!(text.contains("neb_zstd_request_duration_seconds_count{op=\"compress\"} 2"));
}

const OPS: [&str; 5] = ["compress", "decompress", "oneshot", "reset", "invalid"];
const STATUSES: [&str; 4] = ["ok", "bad_request", "zstd_error", "too_large"];
const BOUNDS: [f64; 10] = [
    0.00005, 0.0001, 0.00025, 0.0005, 0.001, 0.0025, 0.005, 0.01, 0.025, 0.05,
];

/// What the counters of the test below are expected to be, by operation.
struct Expected {
    outcomes: [u64; 4],
    bytes_in: u64,
    bytes_out: u64,
    buckets: [u64; 10],
    nanos: u64,
    count: u64,
}

#[test]
fn whole_text_is_as_expected() {
    let mut m = Metrics::new();
    m.endpoint_accepted();
    m.endpoint_accepted();
    m.endpoint_accepted();
    m.endpoint_dropped(1);
    m.connection_failed_before_accept(3);
    m.contexts_added(-2);
    m.contexts_evicted(1, 0);
    m.contexts_evicted(1, 5);
    m.request(OP_DECOMPRESS_IDX, STATUS_OK_IDX, 7, 70, 1_500_000_000);
    m.request(OP_DECOMPRESS_IDX, STATUS_OK_IDX, 1, 2, 25_000_000);
    m.request(OP_INVALID_IDX, STATUS_BAD_REQUEST_IDX, 11, 0, 0);

    let mut want = String::new();
    want += "# HELP neb_zstd_endpoints Live UCX endpoints (client slots).\n";
    want += "# TYPE neb_zstd_endpoints gauge\n";
    want += "neb_zstd_endpoints 2\n";
    want += "# HELP neb_zstd_contexts Live per-connection zstd contexts.\n";
    want += "# TYPE neb_zstd_contexts gauge\n";
    want += "neb_zstd_contexts -7\n";
    want += "# HELP neb_zstd_connections_accepted_total Endpoints accepted and announced.\n";
    want += "# TYPE neb_zstd_connections_accepted_total counter\n";
    want += "neb_zstd_connections_accepted_total 3\n";
    want += "# HELP neb_zstd_connections_dropped_total Endpoints dropped, by reason.\n";
    want += "# TYPE neb_zstd_connections_dropped_total counter\n";
    want += "neb_zstd_connections_dropped_total{reason=\"transport\"} 0\n";
    want += "neb_zstd_connections_dropped_total{reason=\"hard_cap\"} 1\n";
    want += "neb_zstd_connections_dropped_total{reason=\"wrap\"} 0\n";
    want += "neb_zstd_connections_dropped_total{reason=\"hello\"} 1\n";
    want += "# HELP neb_zstd_contexts_evicted_total Connection contexts evicted, by reason.\n";
    want += "# TYPE neb_zstd_contexts_evicted_total counter\n";
    want += "neb_zstd_contexts_evicted_total{reason=\"gc\"} 0\n";
    want += "neb_zstd_contexts_evicted_total{reason=\"endpoint\"} 5\n";
    let expected = [
        Expected {
            outcomes: [0; 4],
            bytes_in: 0,
            bytes_out: 0,
            buckets: [0; 10],
            nanos: 0,
            count: 0,
        },
        Expected {
            outcomes: [2, 0, 0, 0],
            bytes_in: 8,
            bytes_out: 72,
            buckets: [0, 0, 0, 0, 0, 0, 0, 0, 1, 1],
            nanos: 1_525_000_000,
            count: 2,
        },
        Expected {
            outcomes: [0; 4],
            bytes_in: 0,
            bytes_out: 0,
            buckets: [0; 10],
            nanos: 0,
            count: 0,
        },
        Expected {
            outcomes: [0; 4],
            bytes_in: 0,
            bytes_out: 0,
            buckets: [0; 10],
            nanos: 0,
            count: 0,
        },
        Expected {
            outcomes: [0, 1, 0, 0],
            bytes_in: 11,
            bytes_out: 0,
            buckets: [1; 10],
            nanos: 0,
            count: 1,
        },
    ];
    want += "# HELP neb_zstd_requests_total Requests answered, by op and status.\n";
    want += "# TYPE neb_zstd_requests_total counter\n";
    for (op, e) in OPS.iter().zip(&expected) {
        for (status, n) in STATUSES.iter().zip(&e.outcomes) {
            want +=
                &format!("neb_zstd_requests_total{{op=\"{op}\",status=\"{status}\"}} {n}\n");
        }
    }
    want += "# HELP neb_zstd_request_bytes_total Payload bytes processed. Compression ratio = out/in of op=\"compress\".\n";
    want += "# TYPE neb_zstd_request_bytes_total counter\n";
    for (op, e) in OPS.iter().zip(&expected) {
        want += &format!(
            "neb_zstd_request_bytes_total{{op=\"{op}\",direction=\"in\"}} {}\n",
            e.bytes_in
        );
        want += &format!(
            "neb_zstd_request_bytes_total{{op=\"{op}\",direction=\"out\"}} {}\n",
            e.bytes_out
        );
    }
    want +=
        "# HELP neb_zstd_request_duration_seconds Time spent on the actual zstd work, by op.\n";
    want += "# TYPE neb_zstd_request_duration_seconds histogram\n";
    for (op, e) in OPS.iter().zip(&expected) {
        for (bound, n) in BOUNDS.iter().zip(&e.buckets) {
            want += &format!(
                "neb_zstd_request_duration_seconds_bucket{{op=\"{op}\",le=\"{bound}\"}} {n}\n"
            );
        }
        want += &format!(
            "neb_zstd_request_duration_seconds_bucket{{op=\"{op}\",le=\"+Inf\"}} {}\n",
            e.count
        );
        want += &format!(
            "neb_zstd_request_duration_seconds_sum{{op=\"{op}\"}} {}\n",
            e.nanos as f64 / 1e9
        );
        want += &format!(
            "neb_zstd_request_duration_seconds_count{{op=\"{op}\"}} {}\n",
            e.count
        );
    }
    assert_eq!(m.render(&sums(&m)), want);
}

#[test]
fn bucket_bounds_agree_with_seconds() {
    // A request exactly as long as a bound counts, one nanosecond more does not.
    for bound in BOUNDS {
        let nanos = (bound * 1e9_f64).round() as u64;
        for (offset, n) in [(0, 1), (1, 0)] {
            let d = Duration::from_nanos(nanos + offset);
            assert_eq!(d.as_secs_f64() <= bound, n == 1);
            let mut m = Metrics::new();
            m.request(OP_COMPRESS_IDX, STATUS_OK_IDX, 0, 0, d.as_nanos());
            let line = format!(
                "neb_zstd_request_duration_seconds_bucket{{op=\"compress\",le=\"{bound}\"}} {n}\n"
            );
            assert!(m.render(&sums(&m)).contains(&line));
        }
    }
}

#[test]
fn counters_wrap_around() {
    let mut m = Metrics::new();
    m.contexts_added(i64::MAX);
    m.contexts_added(1);
    assert!(m
        .render(&sums(&m))
        .contains("neb_zstd_contexts -9223372036854775808\n"));
    m.contexts_evicted(0, u64::MAX);
    let text = m.render(&sums(&m));
    assert!(text.contains("neb_zstd_contexts -9223372036854775807\n"));
    assert!(text.contains("neb_zstd_contexts_evicted_total{reason=\"gc\"} 18446744073709551615\n"));
    m.contexts_evicted(0, 2);
    assert!(m
        .render(&sums(&m))
        .contains("neb_zstd_contexts_evicted_total{reason=\"gc\"} 1\n"));
    m.request(OP_COMPRESS_IDX, STATUS_OK_IDX, 0, 0, u64::MAX as u128 + 6);
    assert_eq!(m.duration_sum_nanos(OP_COMPRESS_IDX), 5);
}

#[test]
fn text_has_every_line_once() {
    let mut m = Metrics::new();
    for busy in [false, true] {
        if busy {
            m.endpoint_accepted();
            m.contexts_added(i64::MAX);
            m.request(OP_COMPRESS_IDX, STATUS_OK_IDX, 1, 2, u128::MAX);
        }
        let text = m.render(&sums(&m));
        assert!(text.ends_with('\n'));
        let lines: Vec<&str> = text.lines().collect();
        assert_eq!(lines.len(), 120);
        for word in ["# HELP ", "# TYPE "] {
            let mut heads: Vec<&str> = lines
                .iter()
                .filter_map(|line| line.strip_prefix(word))
                .map(|line| line.split(' ').next().unwrap())
                .collect();
            assert_eq!(heads.len(), 8);
            heads.sort();
            heads.dedup();
            assert_eq!(heads.len(), 8);
        }
        let mut series: Vec<&str> = lines
            .iter()
            .filter(|line| !line.starts_with('#'))
            .map(|line| line.split(' ').next().unwrap())
            .collect();
        assert_eq!(series.len(), 104);
        series.sort();
        series.dedup();
        assert_eq!(series.len(), 104);
    }
}

#[test]
fn evicting_no_contexts_changes_nothing() {
    let mut m = Metrics::new();
    m.contexts_added(4);
    let before = m.render(&sums(&m));
    m.contexts_evicted(0, 0);
    m.contexts_evicted(1, 0);
    m.contexts_evicted(2, 0);
    m.contexts_evicted(usize::MAX, 0);
    assert_eq!(m.render(&sums(&m)), before);
}

/// What two have counted, added up value by value.
fn added(a: &Metrics, b: &Metrics) -> Metrics {
    let values: Vec<u64> = a
        .values()
        .iter()
        .zip(b.values())
        .map(|(x, y)| x.wrapping_add(y))
        .collect();
    Metrics::from_values(&values)
}

#[test]
fn values_say_everything_and_add_up() {
    fn first(m: &mut Metrics) {
        m.endpoint_accepted();
        m.contexts_added(3);
        m.request(OP_COMPRESS_IDX, STATUS_OK_IDX, 1000, 100, 300_000);
    }
    fn second(m: &mut Metrics) {
        m.endpoint_dropped(2);
        m.connection_failed_before_accept(3);
        m.contexts_evicted(1, 2);
        m.request(OP_COMPRESS_IDX, STATUS_ZSTD_ERROR_IDX, 10, 0, 2_000_000);
        m.request(OP_INVALID_IDX, STATUS_BAD_REQUEST_IDX, 5, 0, 0);
    }
    let mut shared = Metrics::new();
    first(&mut shared);
    second(&mut shared);
    assert_eq!(shared.values().len(), VALUE_COUNT);
    let same = Metrics::from_values(&shared.values());
    assert_eq!(same.render(&sums(&same)), shared.render(&sums(&shared)));
    assert_eq!(Metrics::new().values(), vec![0u64; VALUE_COUNT]);

    let (mut a, mut b) = (Metrics::new(), Metrics::new());
    first(&mut a);
    second(&mut b);
    assert_eq!(b.values()[..3], [u64::MAX, u64::MAX - 1, 0]);
    for total in [added(&a, &b), added(&b, &a)] {
        assert_eq!(total.render(&sums(&total)), shared.render(&sums(&shared)));
        assert_eq!(total.duration_sum_nanos(OP_COMPRESS_IDX), 2_300_000);
    }

    // Counters and gauges wrap around.
    let mut big = Metrics::new();
    big.request(OP_DECOMPRESS_IDX, STATUS_OK_IDX, 0, 0, u64::MAX as u128);
    big.contexts_added(i64::MAX);
    let mut one = Metrics::new();
    one.request(OP_DECOMPRESS_IDX, STATUS_OK_IDX, 0, 0, 3);
    one.contexts_added(1);
    let big = added(&big, &one);
    assert_eq!(big.duration_sum_nanos(OP_DECOMPRESS_IDX), 2);
    assert!(big.render(&sums(&big)).contains("neb_zstd_contexts -9223372036854775808\n"));
}
