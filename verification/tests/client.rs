use neb_offload::client::{
    check_buffers, check_hello, compress_result, decompress_result, map_io_error, open_params,
    parse_response, reset_result, response_capacity, slot_of, ClientError, ClientParams, Event,
    Request, SlotConn, Step, ERR_INVALID_ARG, ERR_NOT_CONNECTED, ERR_TIMEOUT, ERR_TRANSPORT,
};
use neb_offload::config::parse_args;
use neb_offload::metrics::Metrics;
use neb_offload::protocol::{
    hello_tag, make_request_tag, request_message, response_message, response_tag, Hello,
    OP_COMPRESS, OP_COMPRESS_ONESHOT, OP_DECOMPRESS, OP_RESET, STATUS_BAD_REQUEST,
    STATUS_MESSAGE_TOO_LARGE, STATUS_OK, STATUS_PARAM_MISMATCH, STATUS_ZSTD_ERROR,
};
use neb_offload::transport::{plain_error, received, status_error, Error, Wait};
use neb_offload::worker::WorkerState;
use neb_offload::zstream::compress_bound;

fn params() -> ClientParams {
    open_params(4, 3, 23, 8 * 1024 * 1024).unwrap()
}

fn hello() -> Hello {
    Hello {
        level: 3,
        window_log: 23,
        magicless: true,
        max_payload: 8 * 1024 * 1024,
    }
}

fn timeout() -> Error {
    plain_error("ucp_tag_recv_nbx timed out".to_string())
}

fn broken() -> Error {
    status_error("ucp_tag_send_nbx", -25, "Endpoint is not connected")
}

fn request(payload: &[u8]) -> Request<'_> {
    Request {
        conn_id: 42,
        op: OP_COMPRESS,
        payload,
        raw_size: 0,
        expected_out_len: 100,
    }
}

/// A slot whose endpoint "ep" has the id 5.
fn connected() -> SlotConn<&'static str> {
    let mut conn = SlotConn::new();
    conn.greet(&params(), "ep", hello_tag(5), &hello().encode())
        .unwrap();
    conn
}

#[test]
fn parameters_are_checked() {
    assert_eq!(
        open_params(4, 3, 23, 1024),
        Some(ClientParams {
            slots: 4,
            level: 3,
            window_log: 23,
            max_payload: 1024
        })
    );
    for (level, window_log, max_payload) in [
        (99, 23, 1024),
        (0, 23, 1024),
        (23, 23, 1024),
        (3, 10, 1024),
        (3, 20, 1024),
        (3, 26, 1024),
        (3, -1, 1024),
        (3, 23, 0),
        (3, 23, -5),
    ] {
        assert_eq!(open_params(4, level, window_log, max_payload), None);
    }
    assert_eq!(open_params(0, 1, 21, 1).unwrap().slots, 1);
    assert_eq!(open_params(-7, 1, 21, 1).unwrap().slots, 1);
    assert_eq!(open_params(64, 22, 25, 1).unwrap().slots, 64);
    assert_eq!(open_params(65, 22, 25, i32::MAX).unwrap().slots, 64);
}

#[test]
fn connections_are_pinned_to_slots() {
    assert_eq!(slot_of(0, 4), 0);
    assert_eq!(slot_of(7, 4), 3);
    assert_eq!(slot_of(u32::MAX, 64), 63);
    assert_eq!(slot_of(u32::MAX, 1), 0);
}

#[test]
fn errors_map_to_codes() {
    assert_eq!(ClientError::Status(-3).code(), -3);
    assert_eq!(ClientError::Transport.code(), ERR_TRANSPORT);
    assert_eq!(ClientError::Timeout.code(), ERR_TIMEOUT);
    assert_eq!(ClientError::NotConnected.code(), ERR_NOT_CONNECTED);
    assert_eq!(
        [ERR_TRANSPORT, ERR_TIMEOUT, ERR_INVALID_ARG, ERR_NOT_CONNECTED],
        [-100, -101, -102, -103]
    );
    assert!(ClientError::Transport.drops_endpoint());
    assert!(ClientError::Timeout.drops_endpoint());
    assert!(!ClientError::NotConnected.drops_endpoint());
    assert!(!ClientError::Status(-2).drops_endpoint());
}

#[test]
fn timeouts_are_told_from_failures() {
    assert_eq!(map_io_error(&timeout()), ClientError::Timeout);
    assert_eq!(map_io_error(&broken()), ClientError::Transport);
    // A status makes it a failure, whatever the words.
    assert_eq!(
        map_io_error(&status_error("op", -20, "Operation timed out")),
        ClientError::Transport
    );
    assert_eq!(
        map_io_error(&received(0, 2, 1).err().unwrap()),
        ClientError::Transport
    );
    let mut wait = Wait::new();
    wait.step(false, true);
    let e = wait.outcome("ucp_tag_send_nbx", 0, "").err().unwrap();
    assert_eq!(map_io_error(&e), ClientError::Timeout);
}

#[test]
fn servers_set_up_differently_are_refused() {
    let p = params();
    let tag = hello_tag(9);
    assert_eq!(check_hello(&p, tag, &hello().encode()), Ok(9));
    let mismatch = Err(ClientError::Status(STATUS_PARAM_MISMATCH));
    for other in [
        Hello { level: 4, ..hello() },
        Hello { window_log: 22, ..hello() },
        Hello { magicless: false, ..hello() },
        Hello { max_payload: 1, ..hello() },
    ] {
        assert_eq!(check_hello(&p, tag, &other.encode()), mismatch);
    }
    assert_eq!(
        check_hello(&p, tag, &hello().encode()[..15]),
        Err(ClientError::NotConnected)
    );
    assert_eq!(
        check_hello(&p, tag, &[0u8; 16]),
        Err(ClientError::NotConnected)
    );
}

#[test]
fn responses_are_read() {
    assert_eq!(
        parse_response(&response_message(STATUS_OK, &[1, 2, 3])),
        Ok(vec![1, 2, 3])
    );
    assert_eq!(parse_response(&response_message(STATUS_OK, &[])), Ok(vec![]));
    assert_eq!(
        parse_response(&response_message(STATUS_ZSTD_ERROR, &[])),
        Err(ClientError::Status(STATUS_ZSTD_ERROR))
    );
    // The status counts before the framing does.
    let mut odd = response_message(STATUS_BAD_REQUEST, &[]);
    odd.push(0);
    assert_eq!(
        parse_response(&odd),
        Err(ClientError::Status(STATUS_BAD_REQUEST))
    );
    let mut odd = response_message(STATUS_OK, &[1, 2]);
    odd.push(3);
    assert_eq!(parse_response(&odd), Err(ClientError::Transport));
    assert_eq!(parse_response(&odd[..7]), Err(ClientError::Transport));
}

#[test]
fn response_buffers_are_large_enough() {
    assert_eq!(response_capacity(0), 16 * 1024);
    assert_eq!(response_capacity(16 * 1024 - 8), 16 * 1024);
    assert_eq!(response_capacity(16 * 1024 - 7), 16 * 1024 + 1);
}

#[test]
fn an_operation_connects_sends_and_receives() {
    let p = params();
    let req = request(b"data");
    let mut conn: SlotConn<&'static str> = SlotConn::new();
    assert!(matches!(conn.step(&p, &req, Event::Start), Step::Connect));
    let bytes = hello().encode();
    match conn.step(&p, &req, Event::Greeted("ep", hello_tag(5), &bytes)) {
        Step::Send(tag, message) => {
            assert_eq!(tag, make_request_tag(5, 42));
            assert_eq!(message, request_message(OP_COMPRESS, 0, b"data"));
        }
        _ => panic!("must send"),
    }
    assert_eq!(conn.endpoint(), Some(&"ep"));
    match conn.step(&p, &req, Event::Sent) {
        Step::Receive(tag, capacity) => {
            assert_eq!(tag, response_tag(make_request_tag(5, 42)));
            assert_eq!(capacity, 16 * 1024);
        }
        _ => panic!("must receive"),
    }
    let reply = response_message(STATUS_OK, b"reply");
    match conn.step(&p, &req, Event::Received(&reply)) {
        Step::Done(result) => assert_eq!(result, Ok(b"reply".to_vec())),
        _ => panic!("must be done"),
    }
    // The next operation goes straight out on the same endpoint.
    assert!(matches!(
        conn.step(&p, &req, Event::Start),
        Step::Send(_, _)
    ));
}

fn done(step: Step) -> Result<Vec<u8>, ClientError> {
    match step {
        Step::Done(result) => result,
        _ => panic!("must be done"),
    }
}

#[test]
fn failing_to_connect_leaves_the_slot_unconnected() {
    let p = params();
    let req = request(b"data");
    let mut conn: SlotConn<&'static str> = SlotConn::new();
    assert_eq!(
        done(conn.step(&p, &req, Event::ConnectFailed)),
        Err(ClientError::NotConnected)
    );
    assert_eq!(
        done(conn.step(&p, &req, Event::NotGreeted(timeout()))),
        Err(ClientError::Timeout)
    );
    assert_eq!(
        done(conn.step(&p, &req, Event::NotGreeted(broken()))),
        Err(ClientError::NotConnected)
    );
    let other = Hello { level: 4, ..hello() }.encode();
    assert_eq!(
        done(conn.step(&p, &req, Event::Greeted("ep", hello_tag(1), &other))),
        Err(ClientError::Status(STATUS_PARAM_MISMATCH))
    );
    assert_eq!(
        done(conn.step(&p, &req, Event::Sent)),
        Err(ClientError::NotConnected)
    );
    assert_eq!(conn.endpoint(), None);
    assert!(matches!(conn.step(&p, &req, Event::Start), Step::Connect));
}

#[test]
fn transport_trouble_drops_the_endpoint() {
    let p = params();
    let req = request(b"data");
    let short = [0u8; 3];
    let events: [(Event<'_, &'static str>, ClientError); 5] = [
        (Event::SendFailed(broken()), ClientError::Transport),
        (Event::SendFailed(timeout()), ClientError::Timeout),
        (Event::ReceiveFailed(broken()), ClientError::Transport),
        (Event::ReceiveFailed(timeout()), ClientError::Timeout),
        (Event::Received(&short), ClientError::Transport),
    ];
    for (event, error) in events {
        let mut conn = connected();
        assert_eq!(done(conn.step(&p, &req, event)), Err(error));
        assert_eq!(conn.endpoint(), None);
        assert!(matches!(conn.step(&p, &req, Event::Start), Step::Connect));
    }
    // A bad status from the server does not.
    let mut conn = connected();
    let refused = response_message(STATUS_ZSTD_ERROR, &[]);
    assert_eq!(
        done(conn.step(&p, &req, Event::Received(&refused))),
        Err(ClientError::Status(STATUS_ZSTD_ERROR))
    );
    assert_eq!(conn.endpoint(), Some(&"ep"));
    conn.disconnect();
    assert_eq!(conn.endpoint(), None);
}

#[test]
fn buffers_are_checked() {
    assert_eq!(check_buffers(0, true, 0, true, 10), None);
    assert_eq!(check_buffers(10, false, 10, false, 10), None);
    assert_eq!(check_buffers(-1, false, 10, false, 10), Some(ERR_INVALID_ARG));
    assert_eq!(check_buffers(1, false, -1, false, 10), Some(ERR_INVALID_ARG));
    assert_eq!(check_buffers(1, true, 1, false, 10), Some(ERR_INVALID_ARG));
    assert_eq!(check_buffers(1, false, 1, true, 10), Some(ERR_INVALID_ARG));
    assert_eq!(
        check_buffers(11, false, 1, false, 10),
        Some(STATUS_MESSAGE_TOO_LARGE)
    );
    // Arguments are looked at before the size is.
    assert_eq!(check_buffers(11, true, 1, false, 10), Some(ERR_INVALID_ARG));
}

#[test]
fn results_become_return_values() {
    let three = Ok(vec![1, 2, 3]);
    assert_eq!(compress_result(&three, 3), 3);
    assert_eq!(compress_result(&three, 2), ERR_INVALID_ARG);
    assert_eq!(compress_result(&Ok(vec![]), 0), 0);
    assert_eq!(decompress_result(&three, 3), 0);
    assert_eq!(decompress_result(&three, 4), ERR_TRANSPORT);
    assert_eq!(decompress_result(&three, 2), ERR_TRANSPORT);
    assert_eq!(reset_result(&three), 0);
    let failed = Err(ClientError::Timeout);
    assert_eq!(compress_result(&failed, 3), ERR_TIMEOUT);
    assert_eq!(decompress_result(&failed, 3), ERR_TIMEOUT);
    assert_eq!(reset_result(&failed), ERR_TIMEOUT);
    for status in [-1, -2, -3, -4, -5, -77] {
        let refused = Err(ClientError::Status(status));
        assert_eq!(compress_result(&refused, 3), status);
        assert_eq!(decompress_result(&refused, 3), status);
        assert_eq!(reset_result(&refused), status);
    }
    for status in [1, 3, i32::MAX] {
        let odd = Err(ClientError::Status(status));
        assert_eq!(odd.as_ref().err().map(ClientError::code), Some(status));
        assert_eq!(compress_result(&odd, 3), ERR_TRANSPORT);
        assert_eq!(decompress_result(&odd, 3), ERR_TRANSPORT);
        assert_eq!(reset_result(&odd), ERR_TRANSPORT);
    }
}

/// Client and server, with the wire between them cut short.
struct Exchange {
    conn: SlotConn<()>,
    server: WorkerState<()>,
    metrics: Metrics,
}

impl Exchange {
    fn operation(
        &mut self,
        params: &ClientParams,
        request: &Request<'_>,
    ) -> Result<Vec<u8>, ClientError> {
        let mut step = self.conn.step(params, request, Event::Start);
        let mut in_flight = Vec::new();
        loop {
            step = match step {
                Step::Connect => {
                    let a = self.server.begin_accept(&mut self.metrics);
                    self.server.finish_accept(&mut self.metrics, a.ep_id, (), true);
                    self.conn
                        .step(params, request, Event::Greeted((), a.tag, &a.hello))
                }
                Step::Send(tag, message) => {
                    let d = self.server.handle_message(tag, &message, 0).unwrap();
                    d.record(&mut self.metrics, 0);
                    in_flight.push((response_tag(tag), d.reply()));
                    self.conn.step(params, request, Event::Sent)
                }
                Step::Receive(tag, capacity) => {
                    let (sent, reply) = in_flight.pop().unwrap();
                    assert_eq!(sent, tag);
                    assert!(reply.len() <= capacity);
                    self.conn.step(params, request, Event::Received(&reply))
                }
                Step::Done(result) => return result,
            }
        }
    }
}

fn exchange(args: &[&str]) -> Exchange {
    let args: Vec<String> = args.iter().map(|a| a.to_string()).collect();
    let is_addr = vec![false; args.len()];
    let cfg = parse_args(&args, &is_addr, 1).ok().unwrap();
    Exchange {
        conn: SlotConn::new(),
        server: WorkerState::new(cfg, 0),
        metrics: Metrics::new(),
    }
}

#[test]
fn a_whole_exchange_brings_messages_back() {
    let p = params();
    let mut x = exchange(&[]);
    for i in 0..4usize {
        let raw: Vec<u8> = (0..2000 + i).map(|k| (k % 13) as u8).collect();
        let packed = x
            .operation(
                &p,
                &Request {
                    conn_id: 1,
                    op: OP_COMPRESS,
                    payload: &raw,
                    raw_size: 0,
                    expected_out_len: raw.len() + 100,
                },
            )
            .unwrap();
        assert!(packed.len() < raw.len());
        let back = x
            .operation(
                &p,
                &Request {
                    conn_id: 2,
                    op: OP_DECOMPRESS,
                    payload: &packed,
                    raw_size: raw.len() as u32,
                    expected_out_len: raw.len(),
                },
            )
            .unwrap();
        assert_eq!(back, raw);
    }
    assert_eq!(x.server.endpoint_count(), 1);
    assert_eq!(x.server.context_count(), 2);
}

#[test]
fn refusals_reach_the_client_unchanged() {
    let mut x = exchange(&["--max-payload", "1000"]);
    let p = open_params(1, 3, 23, 1000).unwrap();
    let ask = |op: u8, payload: &'static [u8]| Request {
        conn_id: 3,
        op,
        payload,
        raw_size: 9,
        expected_out_len: 0,
    };
    assert_eq!(
        x.operation(&p, &ask(77, b"x")),
        Err(ClientError::Status(STATUS_BAD_REQUEST))
    );
    assert_eq!(
        x.operation(&p, &ask(OP_DECOMPRESS, &[0xFF; 20])),
        Err(ClientError::Status(STATUS_ZSTD_ERROR))
    );
    assert_eq!(
        x.operation(&p, &ask(OP_COMPRESS, &[0; 1001])),
        Err(ClientError::Status(STATUS_MESSAGE_TOO_LARGE))
    );
    // A server set up differently is refused by the client itself.
    let mut y = exchange(&["--level", "9"]);
    assert_eq!(
        y.operation(&params(), &ask(OP_COMPRESS, b"x")),
        Err(ClientError::Status(STATUS_PARAM_MISMATCH))
    );
}

/// Repetitive, highly compressible sample resembling aggregated packet data.
fn records(n: usize) -> Vec<u8> {
    let mut v = Vec::new();
    for i in 0..n {
        v.extend_from_slice(
            format!("packet-{{\"id\":{},\"payload\":\"abcdefghij\"}}", i % 7).as_bytes(),
        );
    }
    v
}

#[test]
fn a_whole_session_works() {
    const ZSTD_MAGIC: [u8; 4] = 0xFD2FB528u32.to_le_bytes();
    let mut x = exchange(&[]);

    // Parameter handshake: a mismatched zstd level must be refused.
    let other = open_params(1, 5, 23, 8 * 1024 * 1024).unwrap();
    let empty = Request {
        conn_id: 7,
        op: OP_RESET,
        payload: &[],
        raw_size: 0,
        expected_out_len: 0,
    };
    assert_eq!(
        x.operation(&other, &empty),
        Err(ClientError::Status(STATUS_PARAM_MISMATCH))
    );

    let p = open_params(2, 3, 23, 8 * 1024 * 1024).unwrap();
    let raw_a = records(2000);
    let raw_b = records(1500);
    let pack = |x: &mut Exchange, op: u8, conn_id: u32, raw: &[u8]| -> Vec<u8> {
        let cap = compress_bound(raw.len());
        let outcome = x.operation(
            &p,
            &Request {
                conn_id,
                op,
                payload: raw,
                raw_size: 0,
                expected_out_len: cap,
            },
        );
        let n = compress_result(&outcome, cap as i32);
        assert!(n >= 0);
        assert_eq!(n as usize, outcome.as_ref().unwrap().len());
        outcome.unwrap()
    };
    let unpack = |x: &mut Exchange, conn_id: u32, packed: &[u8], raw_size: usize| -> Vec<u8> {
        let outcome = x.operation(
            &p,
            &Request {
                conn_id,
                op: OP_DECOMPRESS,
                payload: packed,
                raw_size: raw_size as u32,
                expected_out_len: raw_size,
            },
        );
        assert_eq!(decompress_result(&outcome, raw_size as i32), 0);
        outcome.unwrap()
    };

    // Streaming compress with context reuse.
    let c1 = pack(&mut x, OP_COMPRESS, 7, &raw_a);
    assert_ne!(&c1[..4], &ZSTD_MAGIC, "frames must be magicless");
    let c2 = pack(&mut x, OP_COMPRESS, 7, &raw_a);
    assert!(c2.len() < c1.len());
    // The same connection's streaming decoder reads both in order.
    assert_eq!(unpack(&mut x, 7, &c1, raw_a.len()), raw_a);
    assert_eq!(unpack(&mut x, 7, &c2, raw_a.len()), raw_a);

    // One-shot stateless frames through a fresh decoder.
    let frame = pack(&mut x, OP_COMPRESS_ONESHOT, 9, &raw_b);
    assert_eq!(unpack(&mut x, 9, &frame, raw_b.len()), raw_b);

    // A reset drops the server-side contexts.
    assert_eq!(x.server.context_count(), 2);
    assert_eq!(reset_result(&x.operation(&p, &empty)), 0);
    assert_eq!(x.server.context_count(), 1);
}
