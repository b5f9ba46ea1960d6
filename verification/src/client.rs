//! What the client library decides: which arguments it takes, which servers it
//! accepts, what it sends and what it makes of the replies.
//!
//! The transport lives outside. An operation runs in steps: [`SlotConn::step`]
//! says what the transport is to do next, and is told what came of it. An
//! endpoint is any value `E`; dropping it closes it.
//!
//! Error convention: server statuses (`STATUS_*`, -1..=-5) pass through to the
//! caller unchanged; client-side failures report the `ERR_*` codes below. Errors
//! are always negative: a status above 0 is reported as a transport failure.

use vstd::prelude::*;

use crate::protocol::{
    ep_id_of, law_headers_are_read_byte_by_byte, law_tags_bit_by_bit, make_request_tag,
    request_bytes, request_message, request_tag, response_bytes, response_tag, tag_ep_id,
    with_response_bit, Hello, ResponseHeader, RESPONSE_HEADER_LEN, STATUS_INTERNAL_ERROR,
    STATUS_MESSAGE_TOO_LARGE, STATUS_OK, STATUS_PARAM_MISMATCH,
};
use crate::text::{contains, contains_text, stands_at};
use crate::transport::Error;

verus! {

/// UCX transport failure (the slot's endpoint is dropped; the next operation
/// reconnects from scratch).
pub const ERR_TRANSPORT: i32 = -100;

/// An operation did not complete in time.
pub const ERR_TIMEOUT: i32 = -101;

/// Bad handle, pointer or length argument.
pub const ERR_INVALID_ARG: i32 = -102;

/// No connection to the server (connect or handshake failed).
pub const ERR_NOT_CONNECTED: i32 = -103;

/// Lower bound of the response buffer, so small replies need no exact size
/// estimate from the caller.
pub const MIN_RESPONSE_BUF: usize = 16384;

/// The most slots a client can have.
pub const MAX_SLOTS: i32 = 64;

/// Why an operation failed; every variant maps to exactly one error code.
#[derive(Debug, Clone, Copy, PartialEq, Eq, Structural)]
pub enum ClientError {
    /// Server-reported status, passed through to the caller unchanged.
    Status(i32),
    /// UCX failure on an established endpoint.
    Transport,
    /// An operation took too long.
    Timeout,
    /// Connect/handshake phase failure.
    NotConnected,
}

impl ClientError {
    /// The error code.
    pub open spec fn error_code(self) -> i32 {
        match self {
            ClientError::Status(status) => status,
            ClientError::Transport => ERR_TRANSPORT,
            ClientError::Timeout => ERR_TIMEOUT,
            ClientError::NotConnected => ERR_NOT_CONNECTED,
        }
    }

    /// The error code.
    pub fn code(&self) -> (code: i32)
        ensures
            code == self.error_code(),
    {
        match self {
            ClientError::Status(status) => *status,
            ClientError::Transport => ERR_TRANSPORT,
            ClientError::Timeout => ERR_TIMEOUT,
            ClientError::NotConnected => ERR_NOT_CONNECTED,
        }
    }

    /// What a caller is told: the error code if it reads as an error. A caller
    /// takes a number that is not negative for success, so a server status that
    /// is no error of the protocol is reported as a transport failure.
    pub open spec fn reported(self) -> i32 {
        if self.error_code() < 0 {
            self.error_code()
        } else {
            ERR_TRANSPORT
        }
    }

    /// What a caller is told.
    fn reported_code(&self) -> (code: i32)
        ensures
            code == self.reported(),
    {
        let code: i32 = self.code();
        if code < 0 {
            code
        } else {
            ERR_TRANSPORT
        }
    }

    /// Whether the endpoint must be dropped after this error: the request may
    /// have been (partially) processed server-side, so the connection's zstd
    /// stream state can no longer be trusted. The next operation reconnects.
    pub fn drops_endpoint(&self) -> (r: bool)
        ensures
            r == (*self is Transport || *self is Timeout),
    {
        match self {
            ClientError::Transport => true,
            ClientError::Timeout => true,
            _ => false,
        }
    }
}

/// The failure that a transport error on an established endpoint is. A timeout
/// is an error without a status (the request was cancelled locally), while real
/// transport failures carry a UCX status code.
pub open spec fn io_error(e: Error) -> ClientError {
    if e.status is None && contains_text(e.message@, "timed out"@) {
        ClientError::Timeout
    } else {
        ClientError::Transport
    }
}

/// Map a transport error to the timeout/transport distinction.
pub fn map_io_error(e: &Error) -> (r: ClientError)
    ensures
        r == io_error(*e),
{
    if e.status.is_none() && contains(e.message.as_str(), "timed out") {
        ClientError::Timeout
    } else {
        ClientError::Transport
    }
}

/// How a client is set up.
#[derive(Debug, Clone, Copy, PartialEq, Eq, Structural)]
pub struct ClientParams {
    /// How many slots it has; each has at most one endpoint to the server.
    pub slots: usize,
    pub level: i32,
    pub window_log: u32,
    pub max_payload: usize,
}

impl ClientParams {
    /// Every number is in its range.
    pub open spec fn valid(self) -> bool {
        &&& 1 <= self.slots <= MAX_SLOTS
        &&& 1 <= self.level <= 22
        &&& 21 <= self.window_log <= 25
        &&& 1 <= self.max_payload <= i32::MAX
    }
}

/// Checks the numbers a client is opened with: zstd levels 1..=22, explicit
/// window log 21..=25, positive payload limit. The number of slots is moved into
/// its range.
pub fn open_params(workers: i32, level: i32, window_log: i32, max_payload: i32) -> (r: Option<
    ClientParams,
>)
    ensures
        r is Some <==> 1 <= level <= 22 && 21 <= window_log <= 25 && max_payload > 0,
        r matches Some(params) ==> {
            &&& params.valid()
            &&& params.slots == (if workers < 1 {
                1
            } else if workers > MAX_SLOTS {
                MAX_SLOTS
            } else {
                workers
            })
            &&& params.level == level
            &&& params.window_log == window_log
            &&& params.max_payload == max_payload
        },
{
    if !(1 <= level && level <= 22) || !(21 <= window_log && window_log <= 25) || max_payload <= 0 {
        return None;
    }
    let slots: usize = if workers < 1 {
        1
    } else if workers > MAX_SLOTS {
        MAX_SLOTS as usize
    } else {
        workers as usize
    };
    Some(
        ClientParams {
            slots,
            level,
            window_log: window_log as u32,
            max_payload: max_payload as usize,
        },
    )
}

/// The slot that connection `conn_id` is pinned to.
pub fn slot_of(conn_id: u32, slots: usize) -> (i: usize)
    requires
        slots > 0,
    ensures
        i == conn_id as int % slots as int,
        i < slots,
{
    (conn_id as u64 % slots as u64) as usize
}

/// What a hello under `sender_tag` comes to: the endpoint id it assigns, unless
/// it is no hello or the server is set up differently. Such a server would
/// produce frames the client cannot decode, or reject messages it sends.
pub open spec fn greeted(params: ClientParams, sender_tag: u64, hello: Seq<u8>) -> Result<
    u16,
    ClientError,
> {
    match Hello::parsed(hello) {
        Err(_) => Err(ClientError::NotConnected),
        Ok(h) => if h.level != params.level || h.window_log != params.window_log || !h.magicless
            || h.max_payload != params.max_payload {
            Err(ClientError::Status(STATUS_PARAM_MISMATCH))
        } else {
            Ok(tag_ep_id(sender_tag as int) as u16)
        },
    }
}

/// Checks a hello.
pub fn check_hello(params: &ClientParams, sender_tag: u64, hello: &[u8]) -> (r: Result<
    u16,
    ClientError,
>)
    ensures
        r == greeted(*params, sender_tag, hello@),
{
    let h = match Hello::decode(hello) {
        Ok(h) => h,
        Err(_) => return Err(ClientError::NotConnected),
    };
    if h.level as i32 != params.level || h.window_log as u32 != params.window_log || !h.magicless
        || h.max_payload as u64 != params.max_payload as u64 {
        return Err(ClientError::Status(STATUS_PARAM_MISMATCH));
    }
    Ok(ep_id_of(sender_tag))
}

/// What a response comes to: its payload, the status the server reports, or a
/// transport failure if it is no response or its framing is off.
pub open spec fn answered(response: Seq<u8>) -> Result<Seq<u8>, ClientError> {
    match ResponseHeader::parsed(response) {
        Err(_) => Err(ClientError::Transport),
        Ok(header) => if header.status != STATUS_OK {
            Err(ClientError::Status(header.status))
        } else if header.payload_len != response.len() - RESPONSE_HEADER_LEN {
            Err(ClientError::Transport)
        } else {
            Ok(response.skip(RESPONSE_HEADER_LEN as int))
        },
    }
}

/// Reads a response.
pub fn parse_response(response: &[u8]) -> (r: Result<Vec<u8>, ClientError>)
    ensures
        match answered(response@) {
            Ok(payload) => r is Ok && r->Ok_0@ == payload,
            Err(e) => r == Err::<Vec<u8>, ClientError>(e),
        },
{
    let header = match ResponseHeader::decode(response) {
        Ok(header) => header,
        Err(_) => return Err(ClientError::Transport),
    };
    if header.status != STATUS_OK {
        return Err(ClientError::Status(header.status));
    }
    if header.payload_len as u64 != (response.len() - RESPONSE_HEADER_LEN) as u64 {
        // Framing desync; the stream state can no longer be trusted.
        return Err(ClientError::Transport);
    }
    let mut payload: Vec<u8> = Vec::new();
    payload.extend_from_slice(&response[RESPONSE_HEADER_LEN..response.len()]);
    assert(payload@ =~= response@.skip(RESPONSE_HEADER_LEN as int));
    Ok(payload)
}

/// How large a buffer to receive a response in.
pub fn response_capacity(expected_out_len: usize) -> (n: usize)
    requires
        expected_out_len + RESPONSE_HEADER_LEN <= usize::MAX,
    ensures
        n >= expected_out_len + RESPONSE_HEADER_LEN,
        n >= MIN_RESPONSE_BUF,
        n == expected_out_len + RESPONSE_HEADER_LEN || n == MIN_RESPONSE_BUF,
{
    let n: usize = RESPONSE_HEADER_LEN + expected_out_len;
    if n > MIN_RESPONSE_BUF {
        n
    } else {
        MIN_RESPONSE_BUF
    }
}

/// One operation on behalf of a game connection.
pub struct Request<'a> {
    pub conn_id: u32,
    pub op: u8,
    pub payload: &'a [u8],
    pub raw_size: u32,
    /// How many bytes the reply is expected to carry.
    pub expected_out_len: usize,
}

/// What the transport has to report of an operation.
pub enum Event<'a, E> {
    /// Nothing yet: the operation starts.
    Start,
    /// The server could not be reached.
    ConnectFailed,
    /// The server was reached, and said hello under this tag.
    Greeted(E, u64, &'a [u8]),
    /// The server was reached, but its hello could not be received.
    NotGreeted(Error),
    /// The request was sent.
    Sent,
    /// The request could not be sent.
    SendFailed(Error),
    /// A response was received.
    Received(&'a [u8]),
    /// No response could be received.
    ReceiveFailed(Error),
}

/// What the transport is to do next.
pub enum Step {
    /// Connect to the server and receive its hello.
    Connect,
    /// Send this message under this tag.
    Send(u64, Vec<u8>),
    /// Receive a message under exactly this tag, in a buffer of this size.
    Receive(u64, usize),
    /// Nothing: the operation is over, and this is its result.
    Done(Result<Vec<u8>, ClientError>),
}

/// What a [`Step`] says.
pub ghost enum Plan {
    Connect,
    Send(int, Seq<u8>),
    Receive(int, int),
    Done(Result<Seq<u8>, ClientError>),
}

impl View for Step {
    type V = Plan;

    open spec fn view(&self) -> Plan {
        match self {
            Step::Connect => Plan::Connect,
            Step::Send(tag, message) => Plan::Send(*tag as int, message@),
            Step::Receive(tag, capacity) => Plan::Receive(*tag as int, *capacity as int),
            Step::Done(Ok(payload)) => Plan::Done(Ok(payload@)),
            Step::Done(Err(e)) => Plan::Done(Err(*e)),
        }
    }
}

/// Sending `request` on the endpoint with the id `ep_id`.
pub open spec fn sending(ep_id: u16, request: Request<'_>) -> Plan {
    Plan::Send(
        request_tag(ep_id as int, request.conn_id as int),
        request_bytes(request.op, request.raw_size, request.payload@),
    )
}

/// Receiving the response to `request` on the endpoint with the id `ep_id`.
pub open spec fn receiving(ep_id: u16, request: Request<'_>) -> Plan {
    Plan::Receive(
        with_response_bit(request_tag(ep_id as int, request.conn_id as int)),
        if request.expected_out_len + RESPONSE_HEADER_LEN > MIN_RESPONSE_BUF {
            request.expected_out_len + RESPONSE_HEADER_LEN
        } else {
            MIN_RESPONSE_BUF as int
        },
    )
}

/// What becomes of a slot's connection after the failure `e`.
pub open spec fn after_failure<E>(conn: Option<(E, u16)>, e: ClientError) -> Option<(E, u16)> {
    if e is Transport || e is Timeout {
        None
    } else {
        conn
    }
}

/// How an operation goes on after `event`: what becomes of the slot's connection,
/// and what to do next. A connection is the endpoint and the id it was given.
pub open spec fn advanced<E>(
    conn: Option<(E, u16)>,
    params: ClientParams,
    request: Request<'_>,
    event: Event<'_, E>,
) -> (Option<(E, u16)>, Plan) {
    match event {
        Event::Start => match conn {
            None => (conn, Plan::Connect),
            Some((_, ep_id)) => (conn, sending(ep_id, request)),
        },
        Event::ConnectFailed => (conn, Plan::Done(Err(ClientError::NotConnected))),
        Event::Greeted(ep, sender_tag, hello) => match greeted(params, sender_tag, hello@) {
            Ok(ep_id) => (Some((ep, ep_id)), sending(ep_id, request)),
            Err(e) => (conn, Plan::Done(Err(e))),
        },
        Event::NotGreeted(e) => (
            conn,
            Plan::Done(
                Err(
                    if io_error(e) is Timeout {
                        ClientError::Timeout
                    } else {
                        ClientError::NotConnected
                    },
                ),
            ),
        ),
        Event::Sent => match conn {
            None => (conn, Plan::Done(Err(ClientError::NotConnected))),
            Some((_, ep_id)) => (conn, receiving(ep_id, request)),
        },
        Event::SendFailed(e) => (
            after_failure(conn, io_error(e)),
            Plan::Done(Err(io_error(e))),
        ),
        Event::Received(response) => match answered(response@) {
            Ok(payload) => (conn, Plan::Done(Ok(payload))),
            Err(e) => (after_failure(conn, e), Plan::Done(Err(e))),
        },
        Event::ReceiveFailed(e) => (
            after_failure(conn, io_error(e)),
            Plan::Done(Err(io_error(e))),
        ),
    }
}

/// The connection of a slot: an endpoint and the id that the server gave it in
/// the hello, which the tag of every request carries.
pub struct SlotConn<E> {
    ep: Option<E>,
    ep_id: u16,
}

impl<E> View for SlotConn<E> {
    type V = Option<(E, u16)>;

    closed spec fn view(&self) -> Option<(E, u16)> {
        match self.ep {
            Some(ep) => Some((ep, self.ep_id)),
            None => None,
        }
    }
}

impl<E> SlotConn<E> {
    /// Not connected.
    pub fn new() -> (r: Self)
        ensures
            r@ is None,
    {
        SlotConn { ep: None, ep_id: 0 }
    }

    /// The endpoint, if there is one.
    pub fn endpoint(&self) -> (r: Option<&E>)
        ensures
            r is Some == self@ is Some,
            r matches Some(ep) ==> *ep == (self@->Some_0).0,
    {
        self.ep.as_ref()
    }

    /// Closes the connection.
    pub fn disconnect(&mut self)
        ensures
            final(self)@ is None,
    {
        self.ep = None;
    }

    /// Takes over the endpoint `ep`, on which the server said hello under
    /// `sender_tag`. A server that is set up differently is refused, and the slot
    /// stays as it was.
    pub fn greet(&mut self, params: &ClientParams, ep: E, sender_tag: u64, hello: &[u8]) -> (r:
        Result<(), ClientError>)
        ensures
            match greeted(*params, sender_tag, hello@) {
                Ok(ep_id) => r is Ok && final(self)@ == Some((ep, ep_id)),
                Err(e) => r == Err::<(), ClientError>(e) && final(self)@ == old(self)@,
            },
    {
        match check_hello(params, sender_tag, hello) {
            Ok(ep_id) => {
                self.ep_id = ep_id;
                self.ep = Some(ep);
                Ok(())
            },
            Err(e) => Err(e),
        }
    }

    fn fail(&mut self, e: ClientError) -> (r: Step)
        ensures
            final(self)@ == after_failure(old(self)@, e),
            r@ == Plan::Done(Err(e)),
    {
        if e.drops_endpoint() {
            self.ep = None;
        }
        Step::Done(Err(e))
    }

    /// How the operation `request` goes on after `event`.
    pub fn step(&mut self, params: &ClientParams, request: &Request<'_>, event: Event<'_, E>) -> (r:
        Step)
        requires
            request.expected_out_len + RESPONSE_HEADER_LEN <= usize::MAX,
        ensures
            (final(self)@, r@) == advanced(old(self)@, *params, *request, event),
            r matches Step::Receive(_, capacity) ==> {
                &&& capacity >= request.expected_out_len + RESPONSE_HEADER_LEN
                &&& capacity >= MIN_RESPONSE_BUF
                &&& capacity == request.expected_out_len + RESPONSE_HEADER_LEN || capacity
                    == MIN_RESPONSE_BUF
            },
    {
        match event {
            Event::Start => {
                if self.ep.is_none() {
                    return Step::Connect;
                }
                self.send_step(request)
            },
            Event::ConnectFailed => Step::Done(Err(ClientError::NotConnected)),
            Event::Greeted(ep, sender_tag, hello) => {
                match self.greet(params, ep, sender_tag, hello) {
                    Ok(()) => self.send_step(request),
                    Err(e) => Step::Done(Err(e)),
                }
            },
            Event::NotGreeted(e) => match map_io_error(&e) {
                ClientError::Timeout => Step::Done(Err(ClientError::Timeout)),
                _ => Step::Done(Err(ClientError::NotConnected)),
            },
            Event::Sent => {
                if self.ep.is_none() {
                    return Step::Done(Err(ClientError::NotConnected));
                }
                let tag = response_tag(make_request_tag(self.ep_id, request.conn_id));
                Step::Receive(tag, response_capacity(request.expected_out_len))
            },
            Event::SendFailed(e) => self.fail(map_io_error(&e)),
            Event::Received(response) => match parse_response(response) {
                Ok(payload) => Step::Done(Ok(payload)),
                Err(e) => self.fail(e),
            },
            Event::ReceiveFailed(e) => self.fail(map_io_error(&e)),
        }
    }

    fn send_step(&self, request: &Request<'_>) -> (r: Step)
        requires
            self@ is Some,
        ensures
            r@ == sending((self@->Some_0).1, *request),
    {
        Step::Send(
            make_request_tag(self.ep_id, request.conn_id),
            request_message(request.op, request.raw_size, request.payload),
        )
    }
}

/// What a call with a source of `src_len` bytes and a destination of `dst_len`
/// bytes is refused with, before anything is sent; `None` if it is not. A null
/// pointer is fine where there are no bytes.
pub open spec fn refused_with(
    src_len: i32,
    src_is_null: bool,
    dst_len: i32,
    dst_is_null: bool,
    max_payload: int,
) -> Option<i32> {
    if src_len < 0 || dst_len < 0 || (src_len > 0 && src_is_null) || (dst_len > 0 && dst_is_null) {
        Some(ERR_INVALID_ARG)
    } else if src_len > max_payload {
        Some(STATUS_MESSAGE_TOO_LARGE)
    } else {
        None
    }
}

/// Checks the buffers of a call.
pub fn check_buffers(
    src_len: i32,
    src_is_null: bool,
    dst_len: i32,
    dst_is_null: bool,
    max_payload: usize,
) -> (r: Option<i32>)
    ensures
        r == refused_with(src_len, src_is_null, dst_len, dst_is_null, max_payload as int),
        r is None ==> src_len >= 0 && dst_len >= 0,
{
    if src_len < 0 || dst_len < 0 || (src_len > 0 && src_is_null) || (dst_len > 0 && dst_is_null) {
        return Some(ERR_INVALID_ARG);
    }
    if src_len as u64 > max_payload as u64 {
        return Some(STATUS_MESSAGE_TOO_LARGE);
    }
    None
}

/// What a compress call with room for `dst_cap` bytes returns: the number of
/// bytes to hand over, or the error. A reply that does not fit was already
/// processed server-side, so it is reported as a failure instead of truncated.
pub fn compress_result(outcome: &Result<Vec<u8>, ClientError>, dst_cap: i32) -> (r: i32)
    requires
        dst_cap >= 0,
    ensures
        match *outcome {
            Ok(out) => r == (if out@.len() > dst_cap {
                ERR_INVALID_ARG as int
            } else {
                out@.len() as int
            }),
            Err(e) => r == e.reported(),
        },
        r >= 0 ==> *outcome is Ok && r == outcome->Ok_0@.len(),
{
    match outcome {
        Ok(out) => {
            if out.len() as u64 > dst_cap as u64 {
                ERR_INVALID_ARG
            } else {
                out.len() as i32
            }
        },
        Err(e) => e.reported_code(),
    }
}

/// What a decompress call for `raw_size` bytes returns: 0 if exactly so many came
/// back, else the error. Any other number means the two sides desynced.
pub fn decompress_result(outcome: &Result<Vec<u8>, ClientError>, raw_size: i32) -> (r: i32)
    requires
        raw_size >= 0,
    ensures
        match *outcome {
            Ok(out) => r == (if out@.len() != raw_size {
                ERR_TRANSPORT
            } else {
                0
            }),
            Err(e) => r == e.reported(),
        },
        r <= 0,
{
    match outcome {
        Ok(out) => {
            if out.len() as u64 != raw_size as u64 {
                ERR_TRANSPORT
            } else {
                0
            }
        },
        Err(e) => e.reported_code(),
    }
}

/// What a reset call returns: 0 if it went well, else the error.
pub fn reset_result(outcome: &Result<Vec<u8>, ClientError>) -> (r: i32)
    ensures
        match *outcome {
            Ok(_) => r == 0,
            Err(e) => r == e.reported(),
        },
        r <= 0,
{
    match outcome {
        Ok(_) => 0,
        Err(e) => e.reported_code(),
    }
}

/// Error codes tell failures apart: no two client-side failures share one, and
/// none is a status that a server reports.
pub proof fn law_error_codes_are_distinct(a: ClientError, b: ClientError, status: i32)
    requires
        !(a is Status),
        !(b is Status),
        STATUS_INTERNAL_ERROR <= status <= STATUS_OK,
    ensures
        a.error_code() == b.error_code() ==> a == b,
        a.error_code() != status,
        a.error_code() != ERR_INVALID_ARG,
        ClientError::Status(status).error_code() == status,
{
}

/// No error is ever taken for success: what a caller is told of one is negative.
/// It is the error code itself of every client-side failure and of every status
/// below 0.
pub proof fn law_errors_are_negative(e: ClientError)
    ensures
        e.reported() < 0,
        !(e is Status) ==> e.reported() == e.error_code(),
        e matches ClientError::Status(status) ==> status < 0 ==> e.reported() == status,
        e matches ClientError::Status(status) ==> status >= 0 ==> e.reported() == ERR_TRANSPORT,
{
}

/// A cancelled request is recognised as a timeout, whatever the call was named,
/// and a failure with a UCX status never is.
pub proof fn law_timeouts_are_recognised(e: Error, op: Seq<char>)
    ensures
        e.status is None && e.message@ == op + " timed out"@ ==> io_error(e) is Timeout,
        e.status is Some ==> io_error(e) is Transport,
        io_error(e) is Timeout || io_error(e) is Transport,
{
    reveal_strlit(" timed out");
    reveal_strlit("timed out");
    let message = op + " timed out"@;
    let at: int = op.len() + 1int;
    assert(message.subrange(at, at + 9) =~= "timed out"@);
    assert(stands_at(message, "timed out"@, at));
}

/// What is taken for a timeout says so.
pub proof fn law_timeouts_say_so(e: Error)
    requires
        io_error(e) is Timeout,
    ensures
        exists|a: Seq<char>, b: Seq<char>| e.message@ == #[trigger] (a + "timed out"@ + b),
{
    let (hay, needle) = (e.message@, "timed out"@);
    let at = choose|at: int| stands_at(hay, needle, at);
    let (a, b) = (hay.take(at), hay.skip(at + needle.len()));
    assert(hay =~= a + needle + b);
}

/// An endpoint whose stream state can no longer be trusted is not used again: an
/// operation that ends with a transport failure or a timeout leaves the slot
/// disconnected, and the next operation connects first.
pub proof fn law_failed_endpoints_are_not_reused<E>(
    conn: Option<(E, u16)>,
    params: ClientParams,
    request: Request<'_>,
    event: Event<'_, E>,
    e: ClientError,
    next_request: Request<'_>,
)
    requires
        advanced(conn, params, request, event).1 == Plan::Done(Err(e)),
        e is Transport || e is Timeout,
        event is NotGreeted ==> conn is None,
    ensures
        advanced(conn, params, request, event).0 is None,
        advanced(
            advanced(conn, params, request, event).0,
            params,
            next_request,
            Event::Start,
        ).1 == Plan::Connect,
{
}

/// An answer of the server, good or bad, keeps the connection: the next
/// operation goes out on the same endpoint.
pub proof fn law_answers_keep_the_connection<E>(
    conn: Option<(E, u16)>,
    params: ClientParams,
    request: Request<'_>,
    response: &[u8],
)
    requires
        answered(response@) matches Err(e) ==> e is Status,
    ensures
        advanced(conn, params, request, Event::Received(response)).0 == conn,
{
}

/// Nothing is sent before the server has said a hello that matches, and then it
/// is sent under the endpoint id of that hello.
pub proof fn law_nothing_is_sent_ungreeted<E>(
    conn: Option<(E, u16)>,
    params: ClientParams,
    request: Request<'_>,
    event: Event<'_, E>,
)
    ensures
        advanced(conn, params, request, event).1 is Send ==> advanced(
            conn,
            params,
            request,
            event,
        ).0 is Some && (conn is Some || event is Greeted),
        advanced(conn, params, request, event).1 is Send && event is Greeted ==> greeted(
            params,
            event->Greeted_1,
            event->Greeted_2@,
        ) is Ok,
{
}

/// Replies fit the buffer they are received in: whenever an operation goes on to
/// receive, the buffer holds any response that carries up to as many bytes as are
/// expected, and any that takes no more than 16384 bytes in all. It is no longer than
/// one of the two asks for.
pub proof fn law_replies_fit_their_buffer<E>(
    conn: Option<(E, u16)>,
    params: ClientParams,
    request: Request<'_>,
    event: Event<'_, E>,
    status: i32,
    payload: Seq<u8>,
)
    requires
        advanced(conn, params, request, event).1 is Receive,
    ensures
        ({
            let capacity = advanced(conn, params, request, event).1->Receive_1;
            let reply = response_bytes(status, payload).len();
            &&& payload.len() <= request.expected_out_len ==> reply <= capacity
            &&& reply <= 16384 ==> reply <= capacity
            &&& payload.len() >= request.expected_out_len && reply >= 16384 ==> capacity <= reply
        }),
{
}

/// A connected slot sends at once; one that is not connects first. An operation ends
/// in the same step in which it fails, and only a response, taken for good, ends it
/// well.
pub proof fn law_operations_take_their_steps<E>(
    conn: Option<(E, u16)>,
    params: ClientParams,
    request: Request<'_>,
    event: Event<'_, E>,
)
    ensures
        ({
            let (next, plan) = advanced(conn, params, request, event);
            &&& event is Start ==> next == conn && (plan is Send <==> conn is Some) && (
            plan is Connect <==> conn is None)
            &&& event is Sent ==> next == conn && (plan is Receive <==> conn is Some)
            &&& event matches Event::Greeted(ep, _, _) ==> (plan is Send ==> next is Some && (
            next->0).0 == ep) && (plan is Send || plan is Done && next == conn)
            &&& event is ConnectFailed || event is NotGreeted ==> plan is Done && plan->Done_0
                is Err && next == conn
            &&& event is SendFailed || event is ReceiveFailed ==> plan is Done && plan->Done_0
                is Err && next is None
            &&& plan is Done && plan->Done_0 is Ok ==> event is Received && next == conn
            &&& plan is Connect ==> event is Start
            &&& plan is Receive ==> event is Sent
        }),
{
}

/// Failing to reach the server is told from losing it: before the hello, a failure
/// reads as not connected, unless the hello was waited for in vain; after it, a
/// failure with a UCX status reads as a transport failure.
pub proof fn law_failures_are_told_apart<E>(
    conn: Option<(E, u16)>,
    params: ClientParams,
    request: Request<'_>,
    e: Error,
)
    requires
        e.status is Some,
    ensures
        advanced(conn, params, request, Event::ConnectFailed).1 == Plan::Done(
            Err(ClientError::NotConnected),
        ),
        advanced(conn, params, request, Event::NotGreeted(e)).1 == Plan::Done(
            Err(ClientError::NotConnected),
        ),
        advanced(conn, params, request, Event::SendFailed(e)).1 == Plan::Done(
            Err(ClientError::Transport),
        ),
        advanced(conn, params, request, Event::ReceiveFailed(e)).1 == Plan::Done(
            Err(ClientError::Transport),
        ),
{
}

/// A request that is waited for in vain reads as a timeout, whatever the call was
/// named.
pub proof fn law_waiting_in_vain_is_a_timeout<E>(
    conn: Option<(E, u16)>,
    params: ClientParams,
    request: Request<'_>,
    e: Error,
    op: Seq<char>,
)
    requires
        e.status is None,
        e.message@ == op + " timed out"@,
    ensures
        advanced(conn, params, request, Event::NotGreeted(e)).1 == Plan::Done(
            Err(ClientError::Timeout),
        ),
        advanced(conn, params, request, Event::SendFailed(e)).1 == Plan::Done(
            Err(ClientError::Timeout),
        ),
        advanced(conn, params, request, Event::ReceiveFailed(e)).1 == Plan::Done(
            Err(ClientError::Timeout),
        ),
{
    law_timeouts_are_recognised(e, op);
}

/// What a client takes for a reply, whatever the bytes are: eight bytes of header at
/// least, of which the first four are the status and the others the number of bytes
/// behind them.
pub proof fn law_replies_are_read_byte_by_byte(b: Seq<u8>)
    ensures
        ({
            let bits = b[0] + 0x100 * b[1] + 0x1_0000 * b[2] + 0x100_0000 * b[3];
            let len = b[4] + 0x100 * b[5] + 0x1_0000 * b[6] + 0x100_0000 * b[7];
            match answered(b) {
                Ok(payload) => b.len() >= 8 && bits == 0 && len == b.len() - 8 && payload
                    == b.subrange(8, b.len() as int),
                Err(ClientError::Status(status)) => b.len() >= 8 && bits != 0 && status == bits
                    - (if b[3] >= 128 {
                    0x1_0000_0000int
                } else {
                    0int
                }),
                Err(e) => e is Transport && (b.len() < 8 || bits == 0 && len != b.len() - 8),
            }
        }),
{
    law_headers_are_read_byte_by_byte(b);
}

/// What a client takes for the hello of a server set up like itself, whatever the
/// bytes are, and that the id is then the one in the top bits of the tag.
pub proof fn law_hellos_are_checked_byte_by_byte(params: ClientParams, tag: u64, b: Seq<u8>)
    ensures
        ({
            let letters = b.len() >= 16 && b[0] == 'N' as u8 && b[1] == 'E' as u8 && b[2]
                == 'B' as u8 && b[3] == '1' as u8;
            let limit = b[8] + 0x100 * b[9] + 0x1_0000 * b[10] + 0x100_0000 * b[11];
            match greeted(params, tag, b) {
                Ok(ep_id) => letters && b[4] == params.level && b[5] == params.window_log && b[6]
                    & 1 == 1 && limit == params.max_payload && ep_id == tag >> 48,
                Err(ClientError::Status(status)) => letters && status == STATUS_PARAM_MISMATCH && !(
                b[4] == params.level && b[5] == params.window_log && b[6] & 1 == 1 && limit
                    == params.max_payload),
                Err(e) => !letters && e is NotConnected,
            }
        }),
{
    law_headers_are_read_byte_by_byte(b);
    law_tags_bit_by_bit(0, 0, tag);
    assert(tag >> 48 <= 0xFFFF) by (bit_vector);
}

/// Which buffers a call is let through with: lengths of 0 or more, the source within
/// the payload limit, and no null pointer to any bytes. A source that is merely too
/// long is told from an argument that makes no sense.
pub proof fn law_sound_buffers_are_let_through(
    src_len: i32,
    src_is_null: bool,
    dst_len: i32,
    dst_is_null: bool,
    max_payload: int,
)
    ensures
        ({
            let sound = src_len >= 0 && dst_len >= 0 && !(src_is_null && src_len != 0) && !(
            dst_is_null && dst_len != 0);
            match refused_with(src_len, src_is_null, dst_len, dst_is_null, max_payload) {
                None => sound && src_len <= max_payload,
                Some(code) => if sound {
                    code == -4 && src_len > max_payload
                } else {
                    code == -102
                },
            }
        }),
{
}

/// A connection keeps its slot, whenever it is asked for, and the slots take the
/// connections in turn: the next id has the next slot, and as many ids on, it is the
/// same slot again.
pub proof fn law_connections_keep_their_slot(
    conn_id: u32,
    other: u32,
    slots: usize,
    slot: usize,
    other_slot: usize,
)
    requires
        slots > 0,
        call_ensures(slot_of, (conn_id, slots), slot),
        call_ensures(slot_of, (other, slots), other_slot),
    ensures
        slot < slots,
        conn_id < slots ==> slot == conn_id,
        other == conn_id ==> other_slot == slot,
        other == conn_id + slots ==> other_slot == slot,
        other == conn_id + 1 ==> other_slot == (if slot + 1 == slots {
            0
        } else {
            slot + 1
        }),
{
    let (a, n) = (conn_id as int, slots as int);
    vstd::arithmetic::div_mod::lemma_fundamental_div_mod(a, n);
    if a < n {
        vstd::arithmetic::div_mod::lemma_small_mod(a as nat, n as nat);
    }
    if other == a + n {
        vstd::arithmetic::div_mod::lemma_mod_add_multiples_vanish(a, n);
    }
    if other == a + 1 {
        if a % n + 1 == n {
            assert((a / n + 1) * n == a + 1) by (nonlinear_arith)
                requires
                    a == n * (a / n) + a % n,
                    a % n + 1 == n,
            ;
            vstd::arithmetic::div_mod::lemma_mod_multiples_basic(a / n + 1, n);
        } else {
            vstd::arithmetic::div_mod::lemma_fundamental_div_mod_converse(
                a + 1,
                n,
                a / n,
                a % n + 1,
            );
        }
    }
}

/// A client is opened with the numbers it was given, where they are in their ranges,
/// and not at all where one is not; only the number of slots gives way.
pub proof fn law_clients_are_opened_as_asked(
    workers: i32,
    level: i32,
    window_log: i32,
    max_payload: i32,
    r: Option<ClientParams>,
)
    requires
        call_ensures(open_params, (workers, level, window_log, max_payload), r),
    ensures
        r is Some <==> 0 < level < 23 && 20 < window_log < 26 && 0 < max_payload,
        r matches Some(params) ==> {
            &&& params.level == level
            &&& params.window_log == window_log
            &&& params.max_payload == max_payload
            &&& 1 <= params.slots <= 64
            &&& 1 <= workers <= 64 ==> params.slots == workers
            &&& workers < 1 ==> params.slots == 1
            &&& workers > 64 ==> params.slots == 64
        },
{
}

/// Callers are told what came back: of a compression how many bytes there are, if
/// there is room for all of them; of a decompression 0, if it is exactly as many as
/// expected; of a reset 0. In every other case they are told of an error.
pub proof fn law_results_are_told(
    outcome: Result<Vec<u8>, ClientError>,
    room: i32,
    compressed: i32,
    decompressed: i32,
    reset: i32,
)
    requires
        room >= 0,
        call_ensures(compress_result, (&outcome, room), compressed),
        call_ensures(decompress_result, (&outcome, room), decompressed),
        call_ensures(reset_result, (&outcome,), reset),
    ensures
        compressed >= 0 <==> outcome is Ok && outcome->Ok_0@.len() <= room,
        compressed >= 0 ==> compressed == outcome->Ok_0@.len(),
        outcome is Ok && compressed < 0 ==> compressed == -102,
        decompressed == 0 <==> outcome is Ok && outcome->Ok_0@.len() == room,
        outcome is Ok && decompressed != 0 ==> decompressed == -100,
        reset == 0 <==> outcome is Ok,
        outcome matches Err(e) ==> compressed == decompressed && decompressed == reset && reset < 0,
        outcome matches Err(ClientError::Status(status)) ==> status < 0 ==> compressed == status,
        outcome matches Err(ClientError::Transport) ==> compressed == -100,
        outcome matches Err(ClientError::Timeout) ==> compressed == -101,
        outcome matches Err(ClientError::NotConnected) ==> compressed == -103,
{
}

/// Buffers for responses hold their header and what is expected behind it, and more
/// is never expected to need less.
pub proof fn law_buffers_grow_with_what_is_expected(
    expected: usize,
    more: usize,
    capacity: usize,
    larger: usize,
)
    requires
        expected <= more,
        more + RESPONSE_HEADER_LEN <= usize::MAX,
        call_ensures(response_capacity, (expected,), capacity),
        call_ensures(response_capacity, (more,), larger),
    ensures
        capacity >= 8 + expected,
        capacity >= 16384,
        capacity > 16384 ==> capacity == 8 + expected,
        capacity <= larger,
{
}

} // verus!
