//! What holds between a client and a server: each side's messages are understood
//! by the other.

use vstd::prelude::*;

use crate::answer::Dispatched;
use crate::client::{
    advanced, answered, greeted, ClientError, ClientParams, Event, Plan, Request,
};
use crate::codec::{bound_of, refused_at_once, Settings};
use crate::config::{Setup, HARD_CAP};
use crate::protocol::{
    law_headers_are_read_byte_by_byte, law_hello_round_trip, law_request_header_round_trip,
    law_response_header_round_trip, law_tag_round_trip, law_tags_bit_by_bit, length_field,
    request_bytes, request_tag, response_bytes, with_response_bit, DecodeError, RequestHeader,
    ResponseHeader, HELLO_CONN_ID, OP_COMPRESS, OP_COMPRESS_ONESHOT, OP_DECOMPRESS, OP_RESET,
    REQUEST_HEADER_LEN, STATUS_BAD_REQUEST, STATUS_MESSAGE_TOO_LARGE, STATUS_OK,
    STATUS_PARAM_MISMATCH, STATUS_ZSTD_ERROR,
};
use crate::worker::{
    compress_dispatched, decompress_dispatched, handles, hello_of, law_messages_are_compressed,
    law_messages_are_compressed_at_once, message_goes_on, oneshot_dispatched, reset_dispatched,
    tag_key, MessageEvent, MessageStep, WorkerView,
};

verus! {

/// A response reaches the client as it was meant: the payload if all went well,
/// and the status as it is if not.
pub proof fn law_responses_are_understood(status: i32, payload: Seq<u8>)
    requires
        payload.len() <= u32::MAX,
    ensures
        answered(response_bytes(status, payload)) == (if status == STATUS_OK {
            Ok(payload)
        } else {
            Err(ClientError::Status(status))
        }),
{
    let header = ResponseHeader { status, payload_len: length_field(payload.len() as int) };
    law_response_header_round_trip(header, payload);
}

/// A request reaches the server as it was meant.
pub proof fn law_requests_are_understood(op: u8, raw_size: u32, payload: Seq<u8>)
    requires
        payload.len() <= u32::MAX,
    ensures
        RequestHeader::parsed(request_bytes(op, raw_size, payload)) == Ok::<
            RequestHeader,
            DecodeError,
        >(RequestHeader { op, raw_size, payload_len: payload.len() as u32 }),
        request_bytes(op, raw_size, payload).len() == REQUEST_HEADER_LEN + payload.len(),
        request_bytes(op, raw_size, payload).skip(REQUEST_HEADER_LEN as int) == payload,
{
    let header = RequestHeader { op, raw_size, payload_len: length_field(payload.len() as int) };
    law_request_header_round_trip(header, payload);
}

/// A request within the server's limit is carried out, not refused: each
/// operation does its work on the contexts of the request's connection.
pub proof fn law_requests_are_carried_out<E>(
    before: WorkerView<E>,
    after: WorkerView<E>,
    tag: u64,
    op: u8,
    raw_size: u32,
    payload: Seq<u8>,
    now: int,
    r: Dispatched,
)
    requires
        before.setup.valid(),
        payload.len() <= before.setup.max_payload,
        handles(before, after, tag, request_bytes(op, raw_size, payload), now, r),
    ensures
        op == OP_COMPRESS ==> compress_dispatched(before, after, tag_key(tag), payload, now, r),
        op == OP_COMPRESS_ONESHOT ==> oneshot_dispatched(before, after, payload, r),
        op == OP_DECOMPRESS ==> decompress_dispatched(
            before,
            after,
            tag_key(tag),
            payload,
            raw_size as nat,
            now,
            r,
        ),
        op == OP_RESET ==> reset_dispatched(before, after, tag_key(tag), payload, r),
        OP_COMPRESS <= op <= OP_RESET ==> r.status != STATUS_BAD_REQUEST,
        !(OP_COMPRESS <= op <= OP_RESET) ==> r.status == STATUS_BAD_REQUEST && after == before,
{
    law_requests_are_understood(op, raw_size, payload);
}

/// A request within the server's limit is received, down to the last byte that
/// the limit allows: the endpoint is not failed for it.
pub proof fn law_requests_within_the_limit_are_received<E>(
    before: WorkerView<E>,
    after: WorkerView<E>,
    tag: u64,
    op: u8,
    raw_size: u32,
    payload: Seq<u8>,
    len: usize,
    now: int,
    step: MessageStep,
)
    requires
        before.setup.valid(),
        payload.len() <= before.setup.max_payload,
        len == request_bytes(op, raw_size, payload).len(),
        message_goes_on(before, after, tag, MessageEvent::Probed(len), now, step),
    ensures
        step == MessageStep::Receive(len),
        after == before,
{
    law_requests_are_understood(op, raw_size, payload);
}

/// A request beyond the server's limit is refused as too large.
pub proof fn law_large_requests_are_refused<E>(
    before: WorkerView<E>,
    after: WorkerView<E>,
    tag: u64,
    op: u8,
    raw_size: u32,
    payload: Seq<u8>,
    now: int,
    r: Dispatched,
)
    requires
        payload.len() <= u32::MAX,
        payload.len() > before.setup.max_payload,
        handles(before, after, tag, request_bytes(op, raw_size, payload), now, r),
    ensures
        r.status == STATUS_MESSAGE_TOO_LARGE,
        r.payload@.len() == 0,
        after == before,
{
    law_requests_are_understood(op, raw_size, payload);
}

/// What the server made of a request is what the client makes of the reply: its
/// payload if all went well, and else the server's status.
pub proof fn law_replies_are_understood<E>(
    before: WorkerView<E>,
    after: WorkerView<E>,
    tag: u64,
    buf: Seq<u8>,
    now: int,
    r: Dispatched,
)
    requires
        before.setup.valid(),
        handles(before, after, tag, buf, now, r),
    ensures
        answered(response_bytes(r.status, r.payload@)) == (if r.status == STATUS_OK {
            Ok(r.payload@)
        } else {
            Err(ClientError::Status(r.status))
        }),
{
    assert(r.payload@.len() <= bound_of(HARD_CAP as int)) by {
        if buf.len() >= REQUEST_HEADER_LEN {
            assert(buf.skip(REQUEST_HEADER_LEN as int).len() == buf.len() - REQUEST_HEADER_LEN);
        }
    }
    law_responses_are_understood(r.status, r.payload@);
}

/// A client takes a server's hello exactly if the two are set up alike, and then
/// goes by the endpoint id that the server assigned; else it refuses the server
/// for its parameters.
pub proof fn law_servers_set_up_alike_are_accepted(
    setup: Setup,
    params: ClientParams,
    ep_id: u16,
    tag: u64,
)
    requires
        setup.valid(),
        tag == with_response_bit(request_tag(ep_id as int, HELLO_CONN_ID as int)),
    ensures
        greeted(params, tag, hello_of(setup).bytes()) == (if setup.level == params.level
            && setup.window_log == params.window_log && setup.max_payload == params.max_payload {
            Ok(ep_id)
        } else {
            Err(ClientError::Status(STATUS_PARAM_MISMATCH))
        }),
{
    law_hello_round_trip(hello_of(setup), Seq::empty());
    assert(hello_of(setup).bytes() + Seq::<u8>::empty() =~= hello_of(setup).bytes());
    law_tag_round_trip(ep_id, HELLO_CONN_ID);
}

/// What a client sends is the request it was asked for, under its connection's tag:
/// the server that reads the message finds the operation, the size and the payload,
/// and in the tag the endpoint id that it gave out and the connection. The client
/// then waits under that same tag with the response bit set.
pub proof fn law_requests_are_sent_as_asked<E>(
    conn: Option<(E, u16)>,
    params: ClientParams,
    request: Request<'_>,
    event: Event<'_, E>,
)
    requires
        request.payload@.len() <= u32::MAX,
    ensures
        ({
            let (next, plan) = advanced(conn, params, request, event);
            let ep_id = (next->0).1;
            &&& plan matches Plan::Send(tag, message) ==> {
                &&& tag == ((ep_id as u64) << 48 | request.conn_id as u64)
                &&& RequestHeader::parsed(message) == Ok::<RequestHeader, DecodeError>(
                    RequestHeader {
                        op: request.op,
                        raw_size: request.raw_size,
                        payload_len: request.payload@.len() as u32,
                    },
                )
                &&& message.len() == 12 + request.payload@.len()
                &&& message.skip(12) == request.payload@
            }
            &&& plan matches Plan::Receive(tag, _) ==> tag == ((ep_id as u64) << 48
                | request.conn_id as u64 | 1u64 << 32)
        }),
{
    let ep_id = (advanced(conn, params, request, event).0->0).1;
    let tag = (ep_id as u64) << 48 | request.conn_id as u64;
    law_tags_bit_by_bit(ep_id, request.conn_id, tag);
    law_requests_are_understood(request.op, request.raw_size, request.payload@);
}

/// An operation runs its course: on a connected slot it sends, receives, and ends
/// with just what the server answered, its payload or its status, whatever the length
/// of the payload; the connection is kept.
pub proof fn law_operations_run_their_course<E>(
    ep: E,
    ep_id: u16,
    params: ClientParams,
    request: Request<'_>,
    status: i32,
    payload: Seq<u8>,
    response: &[u8],
)
    requires
        payload.len() <= u32::MAX,
        response@ == response_bytes(status, payload),
    ensures
        ({
            let conn = Some((ep, ep_id));
            let started = advanced(conn, params, request, Event::Start);
            let sent = advanced(started.0, params, request, Event::Sent);
            let received = advanced(sent.0, params, request, Event::Received(response));
            &&& started.1 is Send
            &&& sent.1 is Receive
            &&& received.1 == Plan::Done(
                if status == 0 {
                    Ok(payload)
                } else {
                    Err(ClientError::Status(status))
                },
            )
            &&& received.0 == conn
        }),
{
    law_responses_are_understood(status, payload);
}

/// Work that is asked for is done: a request within the server's limit is answered
/// with its result, unless zstd failed at it. A message or packet whose result is
/// an error has failed the connection's encoder, or was refused by zstd at one go; a
/// reset always succeeds; and only an announced size beyond the cap is too large.
pub proof fn law_work_is_done<E>(
    before: WorkerView<E>,
    after: WorkerView<E>,
    tag: u64,
    op: u8,
    raw_size: u32,
    payload: Seq<u8>,
    now: int,
    r: Dispatched,
)
    requires
        before.setup.valid(),
        before.settled(),
        payload.len() <= before.setup.max_payload,
        handles(before, after, tag, request_bytes(op, raw_size, payload), now, r),
    ensures
        ({
            let ctx = after.context(tag_key(tag));
            &&& op == OP_COMPRESS ==> r.status == STATUS_OK || r.status == STATUS_ZSTD_ERROR
                && ctx.encoder(after.setup).failed
            &&& op == OP_COMPRESS_ONESHOT ==> r.status == STATUS_OK || r.status
                == STATUS_ZSTD_ERROR && refused_at_once(
                Settings {
                    level: before.setup.level,
                    window_log: before.setup.window_log,
                    magicless: true,
                    content_size: false,
                },
                payload,
                payload.len() + payload.len() / 256 + (if payload.len() < 131072 {
                    ((131072 - payload.len()) / 2048) as nat
                } else {
                    0
                }),
            )
            &&& op == OP_DECOMPRESS ==> (r.status == STATUS_MESSAGE_TOO_LARGE <==> raw_size
                > 67_108_864)
            &&& op == OP_DECOMPRESS && r.status == STATUS_OK ==> r.payload@.len() == raw_size
            &&& op == OP_RESET ==> r.status == STATUS_OK && r.payload@.len() == 0
                && !after.contexts.contains_key(tag_key(tag))
            &&& r.bytes_in == payload.len()
            &&& r.timed
        }),
{
    law_requests_are_understood(op, raw_size, payload);
    law_requests_are_carried_out(before, after, tag, op, raw_size, payload, now, r);
    if op == OP_COMPRESS {
        law_messages_are_compressed(before, after, tag_key(tag), payload, now, r);
    }
    if op == OP_COMPRESS_ONESHOT {
        law_messages_are_compressed_at_once(before, after, payload, r);
    }
}

/// Which messages are refused, whatever their bytes are: one too short for a header,
/// one beyond the limit, one whose length field is not the number of bytes behind
/// the header, and one that asks for no known operation. No other is refused as
/// malformed.
pub proof fn law_malformed_requests_are_refused<E>(
    before: WorkerView<E>,
    after: WorkerView<E>,
    tag: u64,
    b: Seq<u8>,
    now: int,
    r: Dispatched,
)
    requires
        handles(before, after, tag, b, now, r),
    ensures
        ({
            let len = b[8] + 0x100 * b[9] + 0x1_0000 * b[10] + 0x100_0000 * b[11];
            let too_long = b.len() >= 12 && b.len() - 12 > before.setup.max_payload;
            let malformed = b.len() < 12 || !too_long && (len != b.len() - 12 || !(1 <= b[0]
                <= 4));
            &&& r.status == -1 <==> malformed
            &&& too_long ==> r.status == -4
            &&& malformed || too_long ==> after == before && r.payload@.len() == 0
            &&& r.timed <==> b.len() >= 12 && !too_long
        }),
{
    law_headers_are_read_byte_by_byte(b);
}

} // verus!
