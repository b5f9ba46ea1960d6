use neb_offload::answer::{status_idx, Dispatched};
use neb_offload::config::{parse_args, Config, HARD_CAP};
use neb_offload::metrics::{
    Metrics, OP_COMPRESS_IDX, OP_COUNT, OP_DECOMPRESS_IDX, OP_INVALID_IDX, OP_ONESHOT_IDX,
    OP_RESET_IDX, STATUS_BAD_REQUEST_IDX, STATUS_OK_IDX, STATUS_TOO_LARGE_IDX,
    STATUS_ZSTD_ERROR_IDX,
};
use neb_offload::protocol::{
    hello_tag, make_request_tag, request_message, Hello, RequestHeader, OP_COMPRESS,
    OP_COMPRESS_ONESHOT, OP_DECOMPRESS, OP_HELLO, OP_RESET, REQUEST_HEADER_LEN,
    STATUS_BAD_REQUEST, STATUS_INTERNAL_ERROR, STATUS_MESSAGE_TOO_LARGE, STATUS_OK,
    STATUS_PARAM_MISMATCH, STATUS_ZSTD_ERROR,
};
use neb_offload::worker::{
    AcceptEvent, AcceptStep, Failure, MessageEvent, MessageStep, WorkerState,
};
use neb_offload::zstream::DecompressStream;

const SECOND: u128 = 1_000_000_000;

fn config(extra: &[&str]) -> Config {
    let args: Vec<String> = extra.iter().map(|a| a.to_string()).collect();
    let is_addr = vec![false; args.len()];
    parse_args(&args, &is_addr, 1).ok().unwrap()
}

/// A worker with one live endpoint of id 0.
fn worker(extra: &[&str], metrics: &mut Metrics) -> WorkerState<&'static str> {
    let mut w = WorkerState::new(config(extra), 0);
    accept(&mut w, metrics, "first");
    w
}

fn accept(
    w: &mut WorkerState<&'static str>,
    metrics: &mut Metrics,
    name: &'static str,
) -> u16 {
    let hello = w.begin_accept(metrics);
    w.finish_accept(metrics, hello.ep_id, name, true);
    hello.ep_id
}

fn sample(n: usize) -> Vec<u8> {
    (0..n).map(|i| (i * i % 251) as u8).collect()
}

/// Sends one request to a live endpoint.
fn ask(
    w: &mut WorkerState<&'static str>,
    ep_id: u16,
    conn_id: u32,
    op: u8,
    raw_size: usize,
    payload: &[u8],
    now: u128,
) -> Dispatched {
    let message = request_message(op, raw_size as u32, payload);
    w.handle_message(make_request_tag(ep_id, conn_id), &message, now)
        .unwrap()
}

fn text(metrics: &Metrics) -> String {
    let sums: Vec<String> = (0..OP_COUNT).map(|_| String::from("0")).collect();
    metrics.render(&sums)
}

#[test]
fn compressed_messages_come_back() {
    let mut m = Metrics::new();
    let mut a = worker(&[], &mut m);
    let mut b = worker(&[], &mut m);
    for i in 1..6 {
        let raw = sample(i * 1000);
        let c = ask(&mut a, 0, 7, OP_COMPRESS, 0, &raw, 0);
        assert_eq!(c.status, STATUS_OK);
        assert_eq!(c.op_idx, OP_COMPRESS_IDX);
        assert_eq!(c.status_idx, STATUS_OK_IDX);
        assert_eq!(c.bytes_in, raw.len());
        assert_eq!(c.contexts_added, if i == 1 { 1 } else { 0 });
        assert!(c.timed);
        let d = ask(&mut b, 0, 9, OP_DECOMPRESS, raw.len(), &c.payload, 0);
        assert_eq!(d.status, STATUS_OK);
        assert_eq!(d.op_idx, OP_DECOMPRESS_IDX);
        assert_eq!(d.payload, raw);
    }
}

#[test]
fn connections_do_not_share_their_history() {
    let mut m = Metrics::new();
    let mut w = worker(&[], &mut m);
    let raw = sample(5000);
    let first = ask(&mut w, 0, 1, OP_COMPRESS, 0, &raw, 0);
    let again = ask(&mut w, 0, 1, OP_COMPRESS, 0, &raw, 0);
    let other = ask(&mut w, 0, 2, OP_COMPRESS, 0, &raw, 0);
    assert!(again.payload.len() < first.payload.len());
    assert_eq!(other.payload, first.payload);
    assert_eq!(w.context_count(), 2);
    // The same connection id on another endpoint is another connection.
    let second = accept(&mut w, &mut m, "second");
    assert_eq!(second, 1);
    let elsewhere = ask(&mut w, second, 1, OP_COMPRESS, 0, &raw, 0);
    assert_eq!(elsewhere.payload, first.payload);
    assert_eq!(elsewhere.contexts_added, 1);
}

#[test]
fn one_shot_frames_need_no_context() {
    let mut m = Metrics::new();
    let mut w = worker(&[], &mut m);
    let mut decoder = DecompressStream::new().unwrap();
    for i in 0..3 {
        let raw = sample(100 + i);
        let c = ask(&mut w, 0, 1, OP_COMPRESS_ONESHOT, 0, &raw, 0);
        assert_eq!(c.status, STATUS_OK);
        assert_eq!(c.op_idx, OP_ONESHOT_IDX);
        assert_eq!(c.contexts_added, 0);
        let mut out = vec![0u8; raw.len()];
        decoder.decompress_exact(&c.payload, &mut out).unwrap();
        assert_eq!(out, raw);
        let d = ask(&mut w, 0, 5, OP_DECOMPRESS, raw.len(), &c.payload, 0);
        assert_eq!(d.payload, raw);
    }
    assert_eq!(w.context_count(), 1);
}

#[test]
fn a_reset_starts_over_and_can_be_repeated() {
    let mut m = Metrics::new();
    let mut w = worker(&[], &mut m);
    let raw = sample(3000);
    let first = ask(&mut w, 0, 1, OP_COMPRESS, 0, &raw, 0);
    let r = ask(&mut w, 0, 1, OP_RESET, 0, &[], 0);
    assert_eq!(
        (r.status, r.op_idx, r.contexts_added),
        (STATUS_OK, OP_RESET_IDX, -1)
    );
    assert!(r.payload.is_empty());
    assert_eq!(w.context_count(), 0);
    let r = ask(&mut w, 0, 1, OP_RESET, 0, b"ignored", 0);
    assert_eq!((r.status, r.contexts_added, r.bytes_in), (STATUS_OK, 0, 7));
    let again = ask(&mut w, 0, 1, OP_COMPRESS, 0, &raw, 0);
    assert_eq!(again.payload, first.payload);
}

#[test]
fn malformed_requests_are_refused() {
    let mut m = Metrics::new();
    let mut w = worker(&["--max-payload", "100"], &mut m);
    let tag = make_request_tag(0, 1);

    let d = w.handle_message(tag, &[0u8; 11], 0).unwrap();
    assert_eq!(
        (d.status, d.op_idx, d.status_idx),
        (STATUS_BAD_REQUEST, OP_INVALID_IDX, STATUS_BAD_REQUEST_IDX)
    );
    assert_eq!((d.bytes_in, d.timed), (0, false));

    let d = w.handle_message(tag, &[0u8; 113], 0).unwrap();
    assert_eq!(
        (d.status, d.op_idx, d.status_idx),
        (
            STATUS_MESSAGE_TOO_LARGE,
            OP_INVALID_IDX,
            STATUS_TOO_LARGE_IDX
        )
    );
    assert_eq!((d.bytes_in, d.timed), (101, false));

    // Just within the limit.
    let d = ask(&mut w, 0, 1, OP_COMPRESS, 0, &sample(100), 0);
    assert_eq!(d.status, STATUS_OK);

    // The length field does not match.
    let mut message = RequestHeader {
        op: OP_COMPRESS,
        raw_size: 0,
        payload_len: 3,
    }
    .encode()
    .to_vec();
    message.extend_from_slice(&[1, 2]);
    let d = w.handle_message(tag, &message, 0).unwrap();
    assert_eq!(
        (d.status, d.op_idx, d.bytes_in, d.timed),
        (STATUS_BAD_REQUEST, OP_INVALID_IDX, 2, true)
    );

    // Unknown operations.
    for op in [OP_HELLO, 5, 255] {
        let d = ask(&mut w, 0, 1, op, 0, &[1, 2, 3], 0);
        assert_eq!(
            (d.status, d.op_idx, d.bytes_in),
            (STATUS_BAD_REQUEST, OP_INVALID_IDX, 3)
        );
        assert!(d.payload.is_empty());
    }
    assert_eq!(w.context_count(), 1);
}

#[test]
fn absurd_sizes_are_refused_before_they_are_trusted() {
    let mut m = Metrics::new();
    let mut w = worker(&[], &mut m);
    let d = ask(&mut w, 0, 1, OP_DECOMPRESS, HARD_CAP + 1, &[1, 2], 0);
    assert_eq!(
        (d.status, d.op_idx, d.status_idx, d.bytes_in),
        (
            STATUS_MESSAGE_TOO_LARGE,
            OP_DECOMPRESS_IDX,
            STATUS_TOO_LARGE_IDX,
            2
        )
    );
    assert_eq!(w.context_count(), 0);
}

#[test]
fn rubbish_to_decompress_is_a_zstd_error() {
    let mut m = Metrics::new();
    let mut w = worker(&[], &mut m);
    let d = ask(&mut w, 0, 1, OP_DECOMPRESS, 10, &[0xFF; 30], 0);
    assert_eq!(
        (d.status, d.op_idx, d.status_idx, d.contexts_added),
        (
            STATUS_ZSTD_ERROR,
            OP_DECOMPRESS_IDX,
            STATUS_ZSTD_ERROR_IDX,
            1
        )
    );
    assert!(d.payload.is_empty());
    // A wrong size is one too.
    let raw = sample(50);
    let c = ask(&mut w, 0, 2, OP_COMPRESS, 0, &raw, 0);
    let d = ask(&mut w, 0, 3, OP_DECOMPRESS, 51, &c.payload, 0);
    assert_eq!(d.status, STATUS_ZSTD_ERROR);
}

#[test]
fn requests_of_unknown_endpoints_are_not_answered() {
    let mut m = Metrics::new();
    let mut w = worker(&[], &mut m);
    let message = request_message(OP_COMPRESS, 0, b"hello");
    assert!(w
        .handle_message(make_request_tag(1, 1), &message, 0)
        .is_none());
    assert_eq!(w.context_count(), 0);
    assert_eq!(w.endpoint(0), Some(&"first"));
    assert_eq!(w.endpoint(1), None);
}

#[test]
fn a_failing_endpoint_takes_its_contexts_along() {
    let mut m = Metrics::new();
    let mut w = worker(&[], &mut m);
    let second = accept(&mut w, &mut m, "second");
    for conn in 0..3 {
        let d = ask(&mut w, 0, conn, OP_COMPRESS, 0, b"abc", 0);
        d.record(&mut m, 1);
    }
    let d = ask(&mut w, second, 0, OP_COMPRESS, 0, b"abc", 0);
    d.record(&mut m, 1);
    assert!(text(&m).contains("neb_zstd_contexts 4\n"));
    assert!(text(&m).contains("neb_zstd_endpoints 2\n"));

    let gone = w.fail(&mut m, make_request_tag(0, 99), Failure::Send);
    assert!(gone.was_live);
    assert_eq!(gone.purged, 3);
    assert_eq!(w.endpoint_count(), 1);
    assert_eq!(w.context_count(), 1);
    let t = text(&m);
    assert!(t.contains("neb_zstd_contexts 1\n"));
    assert!(t.contains("neb_zstd_endpoints 1\n"));
    assert!(t.contains("neb_zstd_connections_dropped_total{reason=\"transport\"} 1\n"));
    assert!(t.contains("neb_zstd_contexts_evicted_total{reason=\"endpoint\"} 3\n"));

    // Failing again finds nothing.
    let gone = w.fail(&mut m, make_request_tag(0, 99), Failure::Receive);
    assert!(!gone.was_live);
    assert_eq!(gone.purged, 0);
    assert_eq!(text(&m), t);

    let gone = w.fail(&mut m, make_request_tag(second, 0), Failure::BeyondHardCap);
    assert!(gone.was_live);
    assert!(text(&m).contains("neb_zstd_connections_dropped_total{reason=\"hard_cap\"} 1\n"));
    assert_eq!(Failure::BeyondHardCap.message(), "message beyond hard cap");
    assert_eq!(Failure::Receive.message(), "transport error on receive");
    assert_eq!(Failure::Send.message(), "transport error on send");
}

#[test]
fn announcements_tell_the_setup() {
    let mut m = Metrics::new();
    let mut w: WorkerState<u8> =
        WorkerState::new(config(&["--level", "9", "--window-log", "22"]), 0);
    let a = w.begin_accept(&mut m);
    assert_eq!(a.ep_id, 0);
    assert_eq!(a.tag, hello_tag(0));
    assert_eq!(
        Hello::decode(&a.hello),
        Ok(Hello {
            level: 9,
            window_log: 22,
            magicless: true,
            max_payload: 8 * 1024 * 1024
        })
    );
    // The announcement could not be sent.
    w.finish_accept(&mut m, a.ep_id, 1, false);
    assert_eq!(w.endpoint_count(), 0);
    let t = text(&m);
    assert!(t.contains("neb_zstd_connections_dropped_total{reason=\"hello\"} 1\n"));
    assert!(t.contains("neb_zstd_endpoints 0\n"));
    assert!(t.contains("neb_zstd_connections_accepted_total 0\n"));
    // The next endpoint gets the next id.
    let a = w.begin_accept(&mut m);
    assert_eq!(a.ep_id, 1);
    w.finish_accept(&mut m, a.ep_id, 2, true);
    assert_eq!(w.endpoint(1), Some(&2));
}

#[test]
fn endpoint_ids_wrap_around() {
    let mut m = Metrics::new();
    let mut w = worker(&[], &mut m);
    let d = ask(&mut w, 0, 5, OP_COMPRESS, 0, b"abc", 0);
    d.record(&mut m, 0);
    for i in 1..=u16::MAX {
        let a = w.begin_accept(&mut m);
        assert_eq!(a.ep_id, i);
        w.finish_accept(&mut m, i, "unsent", false);
    }
    assert_eq!(w.endpoint(0), Some(&"first"));
    let a = w.begin_accept(&mut m);
    assert_eq!(a.ep_id, 0);
    assert!(a.replaced.was_live);
    assert_eq!(a.replaced.purged, 1);
    assert_eq!(w.endpoint(0), None);
    assert_eq!(w.context_count(), 0);
    assert!(text(&m).contains("neb_zstd_connections_dropped_total{reason=\"wrap\"} 1\n"));
    w.finish_accept(&mut m, 0, "again", true);
    assert_eq!(w.endpoint(0), Some(&"again"));
    assert!(text(&m).contains("neb_zstd_endpoints 1\n"));
}

#[test]
fn idle_contexts_are_swept() {
    let mut m = Metrics::new();
    let mut w = worker(&["--gc-secs", "10"], &mut m);
    ask(&mut w, 0, 1, OP_COMPRESS, 0, b"abc", 0).record(&mut m, 0);
    ask(&mut w, 0, 2, OP_COMPRESS, 0, b"abc", 2 * SECOND).record(&mut m, 0);
    // Nothing happens before the interval is over.
    assert!(!w.gc_is_due(5 * SECOND - 1));
    assert!(w.gc_is_due(5 * SECOND));
    assert_eq!(w.gc(&mut m, 5 * SECOND - 1), 0);
    assert_eq!(w.gc(&mut m, 10 * SECOND), 0);
    assert_eq!(w.context_count(), 2);
    // The next sweep is due five seconds after the last.
    assert_eq!(w.gc(&mut m, 15 * SECOND - 1), 0);
    assert_eq!(w.context_count(), 2);
    // Use keeps a context alive.
    ask(&mut w, 0, 2, OP_DECOMPRESS, 0, &[], 14 * SECOND).record(&mut m, 0);
    assert_eq!(w.gc(&mut m, 15 * SECOND), 1);
    assert_eq!(w.context_count(), 1);
    let t = text(&m);
    assert!(t.contains("neb_zstd_contexts 1\n"));
    assert!(t.contains("neb_zstd_contexts_evicted_total{reason=\"gc\"} 1\n"));
    // Exactly as long as allowed is not too long.
    assert_eq!(w.gc(&mut m, 24 * SECOND), 0);
    assert_eq!(w.gc(&mut m, 29 * SECOND), 1);
    assert_eq!(w.context_count(), 0);
    assert_eq!(w.endpoint_count(), 1);
}

#[test]
fn answers_are_recorded() {
    let mut m = Metrics::new();
    let mut w = worker(&[], &mut m);
    let d = ask(&mut w, 0, 1, OP_COMPRESS, 0, &sample(64), 0);
    let n = d.payload.len();
    d.record(&mut m, 100_000);
    let d = w.handle_message(make_request_tag(0, 1), &[1, 2], 0).unwrap();
    d.record(&mut m, 100_000);
    let t = text(&m);
    assert!(t.contains("neb_zstd_requests_total{op=\"compress\",status=\"ok\"} 1\n"));
    assert!(t.contains("neb_zstd_requests_total{op=\"invalid\",status=\"bad_request\"} 1\n"));
    assert!(t.contains("neb_zstd_request_bytes_total{op=\"compress\",direction=\"in\"} 64\n"));
    assert!(t.contains(&format!(
        "neb_zstd_request_bytes_total{{op=\"compress\",direction=\"out\"}} {n}\n"
    )));
    // Refusals that took no work count no time.
    assert_eq!(m.duration_sum_nanos(OP_COMPRESS_IDX), 100_000);
    assert_eq!(m.duration_sum_nanos(OP_INVALID_IDX), 0);
}

#[test]
fn replies_carry_status_and_payload() {
    let ok = Dispatched::answer(OP_COMPRESS_IDX, 3, 0, Some(vec![9, 8]));
    assert_eq!(ok.reply(), [0, 0, 0, 0, 2, 0, 0, 0, 9, 8]);
    let failed = Dispatched::answer(OP_COMPRESS_IDX, 3, 0, None);
    assert_eq!(failed.reply(), [0xFE, 0xFF, 0xFF, 0xFF, 0, 0, 0, 0]);
    assert_eq!(failed.status_idx, STATUS_ZSTD_ERROR_IDX);
}

#[test]
fn statuses_have_their_indices() {
    assert_eq!(status_idx(STATUS_OK), STATUS_OK_IDX);
    assert_eq!(status_idx(STATUS_ZSTD_ERROR), STATUS_ZSTD_ERROR_IDX);
    assert_eq!(status_idx(STATUS_MESSAGE_TOO_LARGE), STATUS_TOO_LARGE_IDX);
    for other in [
        STATUS_BAD_REQUEST,
        STATUS_PARAM_MISMATCH,
        STATUS_INTERNAL_ERROR,
        7,
    ] {
        assert_eq!(status_idx(other), STATUS_BAD_REQUEST_IDX);
    }
}

#[test]
fn messages_are_dealt_with_step_by_step() {
    let mut m = Metrics::new();
    let mut w = worker(&[], &mut m);
    let tag = make_request_tag(0, 1);
    assert!(matches!(
        w.message_step(tag, MessageEvent::Probed(HARD_CAP), 0),
        MessageStep::Receive(HARD_CAP)
    ));
    let message = request_message(OP_COMPRESS, 0, b"abc");
    match w.message_step(tag, MessageEvent::Received(&message), 0) {
        MessageStep::Answer(d) => assert_eq!(d.status, STATUS_OK),
        _ => panic!("must answer"),
    }
    assert!(matches!(
        w.message_step(tag, MessageEvent::Sent, 0),
        MessageStep::Done
    ));
    assert!(matches!(
        w.message_step(tag, MessageEvent::Received(&message[..5]), 0),
        MessageStep::Answer(d) if d.status == STATUS_BAD_REQUEST
    ));
    assert!(matches!(
        w.message_step(make_request_tag(9, 1), MessageEvent::Received(&message), 0),
        MessageStep::Done
    ));
}

#[test]
fn trouble_fails_the_endpoint() {
    let mut m = Metrics::new();
    let mut w = worker(&[], &mut m);
    let tag = make_request_tag(0, 1);
    assert_eq!(HARD_CAP, 64 * 1024 * 1024);
    assert_eq!(REQUEST_HEADER_LEN, 12);
    assert!(matches!(
        w.message_step(tag, MessageEvent::Probed(HARD_CAP + 1), 0),
        MessageStep::Discard
    ));
    assert!(matches!(
        w.message_step(tag, MessageEvent::Probed(HARD_CAP + REQUEST_HEADER_LEN), 0),
        MessageStep::Discard
    ));
    assert!(matches!(
        w.message_step(tag, MessageEvent::Discarded, 0),
        MessageStep::Fail(Failure::BeyondHardCap)
    ));
    assert!(matches!(
        w.message_step(tag, MessageEvent::ReceiveFailed, 0),
        MessageStep::Fail(Failure::Receive)
    ));
    assert!(matches!(
        w.message_step(tag, MessageEvent::SendFailed, 0),
        MessageStep::Fail(Failure::Send)
    ));
    assert_eq!(w.endpoint_count(), 1);
}

#[test]
fn workers_share_their_gauges() {
    let mut m = Metrics::new();
    let mut a = worker(&[], &mut m);
    let mut b = worker(&[], &mut m);
    accept(&mut b, &mut m, "second");
    ask(&mut a, 0, 1, OP_COMPRESS, 0, b"abc", 0).record(&mut m, 0);
    ask(&mut b, 0, 1, OP_COMPRESS, 0, b"abc", 0).record(&mut m, 0);
    ask(&mut b, 1, 1, OP_DECOMPRESS, 3, b"abc", 0).record(&mut m, 0);
    ask(&mut a, 0, 1, OP_RESET, 0, &[], 0).record(&mut m, 0);
    b.fail(&mut m, make_request_tag(1, 0), Failure::Receive);
    assert_eq!((a.endpoint_count(), b.endpoint_count()), (1, 1));
    assert_eq!((a.context_count(), b.context_count()), (0, 1));
    let t = text(&m);
    assert!(t.contains("neb_zstd_endpoints 2\n"));
    assert!(t.contains("neb_zstd_contexts 1\n"));
}

#[test]
fn the_largest_payload_is_answered() {
    let mut m = Metrics::new();
    let mut w = worker(&["--max-payload", "67108864"], &mut m);
    let tag = make_request_tag(0, 1);
    let message = request_message(OP_COMPRESS, 0, &vec![7u8; 67_108_864]);
    assert!(matches!(
        w.message_step(tag, MessageEvent::Probed(message.len()), 0),
        MessageStep::Receive(67_108_876)
    ));
    assert!(matches!(
        w.message_step(tag, MessageEvent::Probed(message.len() + 1), 0),
        MessageStep::Discard
    ));
    match w.message_step(tag, MessageEvent::Received(&message), 0) {
        MessageStep::Answer(d) => {
            assert_eq!((d.status, d.bytes_in), (STATUS_OK, 67_108_864));
        }
        _ => panic!("must answer"),
    }
    assert_eq!(w.endpoint_count(), 1);
}

#[test]
fn announced_sizes_matter_to_decompression_alone() {
    let mut m = Metrics::new();
    let raw = sample(500);
    for op in [OP_COMPRESS, OP_COMPRESS_ONESHOT, OP_RESET, 77] {
        let mut a = worker(&[], &mut m);
        let mut b = worker(&[], &mut m);
        let plain = ask(&mut a, 0, 1, op, 0, &raw, 0);
        let sized = ask(&mut b, 0, 1, op, u32::MAX as usize, &raw, 0);
        assert_eq!(plain.payload, sized.payload);
        assert_eq!(
            (plain.status, plain.op_idx, plain.bytes_in, plain.contexts_added),
            (sized.status, sized.op_idx, sized.bytes_in, sized.contexts_added)
        );
        assert_eq!(a.context_count(), b.context_count());
    }
}

#[test]
fn the_hard_cap_gives_way_only_to_a_limit_close_to_it() {
    let mut m = Metrics::new();
    let tag = make_request_tag(0, 1);
    for (limit, largest) in [
        ("1", HARD_CAP),
        ("67108852", HARD_CAP),
        ("67108853", HARD_CAP + 1),
        ("67108864", HARD_CAP + 12),
    ] {
        let mut w = worker(&["--max-payload", limit], &mut m);
        assert!(matches!(
            w.message_step(tag, MessageEvent::Probed(largest), 0),
            MessageStep::Receive(n) if n == largest
        ));
        assert!(matches!(
            w.message_step(tag, MessageEvent::Probed(largest + 1), 0),
            MessageStep::Discard
        ));
    }
}

#[test]
fn the_accept_queue_is_drained_step_by_step() {
    let mut m = Metrics::new();
    let mut w: WorkerState<&'static str> = WorkerState::new(config(&[]), 0);
    assert!(matches!(
        w.accept_step::<u32>(&mut m, AcceptEvent::Started),
        AcceptStep::Poll
    ));
    assert!(matches!(
        w.accept_step(&mut m, AcceptEvent::Polled(Some(17))),
        AcceptStep::Accept(17)
    ));
    assert!(matches!(
        w.accept_step::<u32>(&mut m, AcceptEvent::NotAccepted),
        AcceptStep::Poll
    ));
    assert_eq!(w.endpoint_count(), 0);
    for (name, sent, live) in [("first", true, 1), ("second", false, 1), ("third", true, 2)] {
        let (ep, hello) = match w.accept_step::<u32>(&mut m, AcceptEvent::Accepted(name)) {
            AcceptStep::Announce { ep, hello } => (ep, hello),
            _ => panic!("must announce"),
        };
        assert_eq!(ep, name);
        assert_eq!(hello.tag, hello_tag(hello.ep_id));
        let ep_id = hello.ep_id;
        assert!(matches!(
            w.accept_step::<u32>(&mut m, AcceptEvent::Announced { ep, ep_id, sent }),
            AcceptStep::Poll
        ));
        assert_eq!(w.endpoint_count(), live);
        assert_eq!(w.endpoint(ep_id).is_some(), sent);
    }
    assert!(matches!(
        w.accept_step::<u32>(&mut m, AcceptEvent::Polled(None)),
        AcceptStep::Stop
    ));
    let text = m.render(&vec![String::from("0"); OP_COUNT]);
    assert!(text.contains("neb_zstd_connections_accepted_total 2\n"));
    assert!(text.contains("neb_zstd_connections_dropped_total{reason=\"hello\"} 1\n"));
}
