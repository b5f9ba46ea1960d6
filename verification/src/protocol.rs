//! Wire protocol of the remote zstd offload service.
//!
//! The protocol is transport-agnostic. The transport (UCX tag matching) is
//! responsible for delivering, with every request, the id of the game connection
//! the request belongs to, and for routing the response back to the requesting
//! endpoint. Everything else travels in the payload. Integers are little-endian.
//!
//! Request (header 12 bytes + payload):
//! ```text
//! | op: u8 | rsv: u8 | rsv: u16 | raw_size: u32 | len: u32 | payload ...
//! ```
//! - `raw_size` is only used by OP_DECOMPRESS (expected decompressed size).
//! - OP_HELLO carries a [`Hello`] payload and is used by the server to
//!   announce itself right after accepting an endpoint.
//!
//! Response (header 8 bytes + payload):
//! ```text
//! | status: i32 | len: u32 | payload ...
//! ```

use vstd::prelude::*;

verus! {

pub const REQUEST_HEADER_LEN: usize = 12;

pub const RESPONSE_HEADER_LEN: usize = 8;

/// Server announces itself on a fresh endpoint. Not a request op.
pub const OP_HELLO: u8 = 0;

/// Stateful streaming compress on the per-connection context, flushed per call.
pub const OP_COMPRESS: u8 = 1;

/// Stateful streaming decompress on the per-connection context.
pub const OP_DECOMPRESS: u8 = 2;

/// One-shot stateless compress (for connections whose context reuse is
/// disabled).
pub const OP_COMPRESS_ONESHOT: u8 = 3;

/// Drop the per-connection contexts on the server (connection closed).
pub const OP_RESET: u8 = 4;

pub const STATUS_OK: i32 = 0;

pub const STATUS_BAD_REQUEST: i32 = -1;

pub const STATUS_ZSTD_ERROR: i32 = -2;

pub const STATUS_PARAM_MISMATCH: i32 = -3;

pub const STATUS_MESSAGE_TOO_LARGE: i32 = -4;

pub const STATUS_INTERNAL_ERROR: i32 = -5;

// Tag layout, from the top: [ep_id: 16][reserved: 15][resp: 1][conn_id: 32]
//
// The tag carries the routing information, so the message payload does not
// have to. `ep_id` is assigned by the server when it accepts an endpoint and
// announced to the client in the HELLO message; the client pins every game
// connection (`conn_id`) to one endpoint, so all requests of a connection
// land on the same server worker and contexts stay pinned to it.
/// The bit that tells a response (and a HELLO) from a request.
pub const TAG_RESP_BIT: u64 = 0x1_0000_0000;

/// Reserved conn_id used by the server-initiated HELLO message.
pub const HELLO_CONN_ID: u32 = 0xFFFF_FFFF;

/// Mask matching a HELLO message regardless of the (unknown yet) ep_id.
pub const HELLO_MASK: u64 = 0x1_FFFF_FFFF;

/// The endpoint id in `tag`: its top 16 bits.
pub open spec fn tag_ep_id(tag: int) -> int {
    tag / 0x1_0000_0000_0000
}

/// The connection id in `tag`: its low 32 bits.
pub open spec fn tag_conn_id(tag: int) -> int {
    tag % 0x1_0000_0000
}

/// Whether the response bit of `tag` is set.
pub open spec fn tag_is_response(tag: int) -> bool {
    (tag / 0x1_0000_0000) % 2 == 1
}

/// The request tag of connection `conn_id` on endpoint `ep_id`.
pub open spec fn request_tag(ep_id: int, conn_id: int) -> int {
    ep_id * 0x1_0000_0000_0000 + conn_id
}

/// `tag` with the response bit set.
pub open spec fn with_response_bit(tag: int) -> int {
    if tag_is_response(tag) {
        tag
    } else {
        tag + 0x1_0000_0000
    }
}

/// Whether a receive for `tag` under `mask` takes a message tagged `sent`.
pub open spec fn tag_matches(sent: u64, tag: u64, mask: u64) -> bool {
    sent & mask == tag & mask
}

/// The tag of a request of connection `conn_id` on endpoint `ep_id`.
pub fn make_request_tag(ep_id: u16, conn_id: u32) -> (tag: u64)
    ensures
        tag == request_tag(ep_id as int, conn_id as int),
{
    assert(((ep_id as u64) << 48) | conn_id as u64 == ep_id * 0x1_0000_0000_0000 + conn_id)
        by (bit_vector);
    ((ep_id as u64) << 48) | conn_id as u64
}

/// The tag of the response to the request tagged `request_tag`.
pub fn response_tag(request_tag: u64) -> (tag: u64)
    ensures
        tag == with_response_bit(request_tag as int),
{
    assert(request_tag | 0x1_0000_0000 == (if (request_tag / 0x1_0000_0000) % 2 == 1 {
        request_tag as int
    } else {
        request_tag + 0x1_0000_0000
    })) by (bit_vector);
    request_tag | TAG_RESP_BIT
}

/// The tag of the HELLO message on endpoint `ep_id`.
pub fn hello_tag(ep_id: u16) -> (tag: u64)
    ensures
        tag == with_response_bit(request_tag(ep_id as int, HELLO_CONN_ID as int)),
{
    response_tag(make_request_tag(ep_id, HELLO_CONN_ID))
}

/// The endpoint id a tag carries.
pub fn ep_id_of(tag: u64) -> (ep_id: u16)
    ensures
        ep_id == tag_ep_id(tag as int),
{
    assert((tag >> 48) as u16 == tag / 0x1_0000_0000_0000) by (bit_vector);
    (tag >> 48) as u16
}

/// The connection id a tag carries.
pub fn conn_id_of(tag: u64) -> (conn_id: u32)
    ensures
        conn_id == tag_conn_id(tag as int),
{
    assert(tag as u32 == tag % 0x1_0000_0000) by (bit_vector);
    #[verifier::truncate]
    (tag as u32)
}

/// Whether a tag is that of a request.
pub fn is_request_tag(tag: u64) -> (r: bool)
    ensures
        r == !tag_is_response(tag as int),
{
    assert((tag & 0x1_0000_0000 == 0) == ((tag / 0x1_0000_0000) % 2 != 1)) by (bit_vector);
    tag & TAG_RESP_BIT == 0
}

/// A request tag gives back the endpoint and the connection it was made of; so
/// does its response tag, and only the one of them is a response.
pub proof fn law_tag_round_trip(ep_id: u16, conn_id: u32)
    ensures
        ({
            let tag = request_tag(ep_id as int, conn_id as int);
            &&& 0 <= tag <= u64::MAX
            &&& tag_ep_id(tag) == ep_id
            &&& tag_conn_id(tag) == conn_id
            &&& !tag_is_response(tag)
            &&& with_response_bit(tag) <= u64::MAX
            &&& tag_ep_id(with_response_bit(tag)) == ep_id
            &&& tag_conn_id(with_response_bit(tag)) == conn_id
            &&& tag_is_response(with_response_bit(tag))
        }),
{
    let tag = request_tag(ep_id as int, conn_id as int);
    assert(tag / 0x1_0000_0000 == 65536 * ep_id);
    assert(!tag_is_response(tag));
    let answer = tag + 0x1_0000_0000;
    assert(answer / 0x1_0000_0000 == 65536 * ep_id + 1);
    assert(tag_is_response(answer));
    assert(tag_ep_id(tag) == ep_id);
    assert(tag_ep_id(answer) == ep_id);
}

/// Different endpoints or connections have different tags, requests and
/// responses alike: no two connections can get each other's messages.
pub proof fn law_tags_are_distinct(ep_a: u16, conn_a: u32, ep_b: u16, conn_b: u32)
    requires
        ep_a != ep_b || conn_a != conn_b,
    ensures
        request_tag(ep_a as int, conn_a as int) != request_tag(ep_b as int, conn_b as int),
        with_response_bit(request_tag(ep_a as int, conn_a as int)) != with_response_bit(
            request_tag(ep_b as int, conn_b as int),
        ),
        request_tag(ep_a as int, conn_a as int) != with_response_bit(
            request_tag(ep_b as int, conn_b as int),
        ),
{
    law_tag_round_trip(ep_a, conn_a);
    law_tag_round_trip(ep_b, conn_b);
}

/// Setting the response bit twice is setting it once.
pub proof fn law_response_tag_is_idempotent(tag: u64)
    ensures
        with_response_bit(with_response_bit(tag as int)) == with_response_bit(tag as int),
{
}

/// A receive for the HELLO tag under [`HELLO_MASK`] takes exactly the responses
/// to the reserved connection, whatever their endpoint id.
pub proof fn law_hello_mask(sent: u64)
    ensures
        tag_matches(sent, (TAG_RESP_BIT | HELLO_CONN_ID as u64), HELLO_MASK) <==> tag_is_response(
            sent as int,
        ) && tag_conn_id(sent as int) == HELLO_CONN_ID,
{
    assert(sent & 0x1_FFFF_FFFF == (0x1_0000_0000u64 | 0xFFFF_FFFFu32 as u64) & 0x1_FFFF_FFFF <==> (
    sent / 0x1_0000_0000) % 2 == 1 && sent % 0x1_0000_0000 == 0xFFFF_FFFF) by (bit_vector);
}

/// A probe for tag 0 under [`TAG_RESP_BIT`] sees exactly the requests.
pub proof fn law_request_mask(sent: u64)
    ensures
        tag_matches(sent, 0, TAG_RESP_BIT) <==> !tag_is_response(sent as int),
{
    assert(sent & 0x1_0000_0000 == 0u64 & 0x1_0000_0000 <==> (sent / 0x1_0000_0000) % 2 != 1)
        by (bit_vector);
}

/// Magic for the HELLO payload, "NEB1": the letters in order, the first in the
/// high byte. On the wire the first letter leads.
pub const HELLO_MAGIC: u32 = 0x4E45_4231;

pub const HELLO_LEN: usize = 16;

pub const FLAG_MAGICLESS: u8 = 1;

/// Byte `i` of `n`, counted from the low end.
pub open spec fn le_byte(n: int, i: int) -> u8 {
    (if i == 0 {
        n % 256
    } else if i == 1 {
        (n / 256) % 256
    } else if i == 2 {
        (n / 65536) % 256
    } else {
        (n / 16777216) % 256
    }) as u8
}

/// The four bytes of `n`, low end first.
pub open spec fn le_bytes(n: int) -> Seq<u8> {
    seq![le_byte(n, 0), le_byte(n, 1), le_byte(n, 2), le_byte(n, 3)]
}

/// The number whose four bytes stand in `s` from `at` on, low end first.
pub open spec fn le_value(s: Seq<u8>, at: int) -> int {
    s[at] + 256 * s[at + 1] + 65536 * s[at + 2] + 16777216 * s[at + 3]
}

/// Four little-endian bytes stand for the number they were made of.
proof fn lemma_le_round_trip(n: int)
    requires
        0 <= n < 0x1_0000_0000,
    ensures
        le_byte(n, 0) + 256 * le_byte(n, 1) + 65536 * le_byte(n, 2) + 16777216 * le_byte(n, 3) == n,
{
}

fn le_byte_of(n: u32, i: u8) -> (b: u8)
    requires
        i < 4,
    ensures
        b == le_byte(n as int, i as int),
{
    if i == 0 {
        (n % 256) as u8
    } else if i == 1 {
        ((n / 256) % 256) as u8
    } else if i == 2 {
        ((n / 65536) % 256) as u8
    } else {
        ((n / 16777216) % 256) as u8
    }
}

fn u32_at(buf: &[u8], at: usize) -> (n: u32)
    requires
        at + 4 <= buf.len(),
    ensures
        n == le_value(buf@, at as int),
{
    buf[at] as u32 + 256 * (buf[at + 1] as u32) + 65536 * (buf[at + 2] as u32) + 16777216 * (buf[at
        + 3] as u32)
}

/// The bits of a signed number, read as an unsigned one.
pub open spec fn bits_of(n: int) -> int {
    if n < 0 {
        n + 0x1_0000_0000
    } else {
        n
    }
}

/// The signed number whose bits, read as an unsigned one, are `bits`.
pub open spec fn signed_of(bits: int) -> int {
    if bits >= 0x8000_0000 {
        bits - 0x1_0000_0000
    } else {
        bits
    }
}

/// What is wrong with bytes that do not decode.
#[derive(Debug, Clone, Copy, PartialEq, Eq, Structural)]
pub enum DecodeError {
    HelloTooShort,
    BadHelloMagic,
    RequestHeaderTooShort,
    ResponseHeaderTooShort,
}

impl DecodeError {
    /// The error in words.
    pub open spec fn text(self) -> Seq<char> {
        match self {
            DecodeError::HelloTooShort => "hello payload too short"@,
            DecodeError::BadHelloMagic => "bad hello magic"@,
            DecodeError::RequestHeaderTooShort => "request header too short"@,
            DecodeError::ResponseHeaderTooShort => "response header too short"@,
        }
    }

    /// The error in words.
    pub fn message(&self) -> (s: &'static str)
        ensures
            s@ == self.text(),
    {
        match self {
            DecodeError::HelloTooShort => "hello payload too short",
            DecodeError::BadHelloMagic => "bad hello magic",
            DecodeError::RequestHeaderTooShort => "request header too short",
            DecodeError::ResponseHeaderTooShort => "response header too short",
        }
    }
}

/// Server hello announced on every accepted endpoint. The client must verify
/// that the parameters match its own configuration before using the endpoint;
/// a mismatch means the two sides would produce incompatible zstd frames.
#[derive(Debug, Clone, Copy, PartialEq, Eq, Structural)]
pub struct Hello {
    pub level: u8,
    pub window_log: u8,
    pub magicless: bool,
    /// Largest request payload the server accepts, in bytes.
    pub max_payload: u32,
}

impl Hello {
    /// The letters "NEB1", with which every hello begins.
    pub open spec fn magic() -> Seq<u8> {
        seq![0x4Eu8, 0x45u8, 0x42u8, 0x31u8]
    }

    /// The hello on the wire.
    pub open spec fn bytes(self) -> Seq<u8> {
        Self::magic() + seq![
            self.level,
            self.window_log,
            if self.magicless {
                FLAG_MAGICLESS
            } else {
                0
            },
            0u8,
        ] + le_bytes(self.max_payload as int) + seq![0u8, 0u8, 0u8, 0u8]
    }

    /// What `s` says as a hello.
    pub open spec fn parsed(s: Seq<u8>) -> Result<Hello, DecodeError> {
        if s.len() < HELLO_LEN {
            Err(DecodeError::HelloTooShort)
        } else if s.take(4) != Self::magic() {
            Err(DecodeError::BadHelloMagic)
        } else {
            Ok(
                Hello {
                    level: s[4],
                    window_log: s[5],
                    magicless: s[6] % 2 == 1,
                    max_payload: le_value(s, 8) as u32,
                },
            )
        }
    }

    pub fn encode(&self) -> (b: [u8; HELLO_LEN])
        ensures
            b@ == self.bytes(),
    {
        let flags: u8 = if self.magicless {
            FLAG_MAGICLESS
        } else {
            0
        };
        let b = [
            le_byte_of(HELLO_MAGIC, 3),
            le_byte_of(HELLO_MAGIC, 2),
            le_byte_of(HELLO_MAGIC, 1),
            le_byte_of(HELLO_MAGIC, 0),
            self.level,
            self.window_log,
            flags,
            0u8,
            le_byte_of(self.max_payload, 0),
            le_byte_of(self.max_payload, 1),
            le_byte_of(self.max_payload, 2),
            le_byte_of(self.max_payload, 3),
            0u8,
            0u8,
            0u8,
            0u8,
        ];
        assert(b@ =~= self.bytes());
        b
    }

    pub fn decode(buf: &[u8]) -> (r: Result<Self, DecodeError>)
        ensures
            r == Self::parsed(buf@),
    {
        if buf.len() < HELLO_LEN {
            return Err(DecodeError::HelloTooShort);
        }
        if buf[0] != le_byte_of(HELLO_MAGIC, 3) || buf[1] != le_byte_of(HELLO_MAGIC, 2) || buf[2]
            != le_byte_of(HELLO_MAGIC, 1) || buf[3] != le_byte_of(HELLO_MAGIC, 0) {
            assert(buf@.take(4)[0] == buf@[0] && buf@.take(4)[1] == buf@[1] && buf@.take(4)[2]
                == buf@[2] && buf@.take(4)[3] == buf@[3]);
            return Err(DecodeError::BadHelloMagic);
        }
        assert(buf@.take(4) =~= Self::magic());
        let flags: u8 = buf[6];
        assert((flags & 1 != 0) == (flags % 2 == 1)) by (bit_vector);
        Ok(
            Self {
                level: buf[4],
                window_log: buf[5],
                magicless: flags & FLAG_MAGICLESS != 0,
                max_payload: u32_at(buf, 8),
            },
        )
    }
}

/// A hello survives the wire, also with more bytes behind it.
pub proof fn law_hello_round_trip(hello: Hello, behind: Seq<u8>)
    ensures
        hello.bytes().len() == HELLO_LEN,
        Hello::parsed(hello.bytes() + behind) == Ok::<Hello, DecodeError>(hello),
{
    lemma_le_round_trip(hello.max_payload as int);
    assert((hello.bytes() + behind).take(4) =~= Hello::magic());
}

/// The fixed part of a request.
#[derive(Debug, Clone, Copy, PartialEq, Eq, Structural)]
pub struct RequestHeader {
    pub op: u8,
    pub raw_size: u32,
    pub payload_len: u32,
}

impl RequestHeader {
    /// The header on the wire.
    pub open spec fn bytes(self) -> Seq<u8> {
        seq![self.op, 0u8, 0u8, 0u8] + le_bytes(self.raw_size as int) + le_bytes(
            self.payload_len as int,
        )
    }

    /// What `s` says as a request header.
    pub open spec fn parsed(s: Seq<u8>) -> Result<RequestHeader, DecodeError> {
        if s.len() < REQUEST_HEADER_LEN {
            Err(DecodeError::RequestHeaderTooShort)
        } else {
            Ok(
                RequestHeader {
                    op: s[0],
                    raw_size: le_value(s, 4) as u32,
                    payload_len: le_value(s, 8) as u32,
                },
            )
        }
    }

    pub fn encode(&self) -> (b: [u8; REQUEST_HEADER_LEN])
        ensures
            b@ == self.bytes(),
    {
        let b = [
            self.op,
            0u8,
            0u8,
            0u8,
            le_byte_of(self.raw_size, 0),
            le_byte_of(self.raw_size, 1),
            le_byte_of(self.raw_size, 2),
            le_byte_of(self.raw_size, 3),
            le_byte_of(self.payload_len, 0),
            le_byte_of(self.payload_len, 1),
            le_byte_of(self.payload_len, 2),
            le_byte_of(self.payload_len, 3),
        ];
        assert(b@ =~= self.bytes());
        b
    }

    pub fn decode(buf: &[u8]) -> (r: Result<Self, DecodeError>)
        ensures
            r == Self::parsed(buf@),
    {
        if buf.len() < REQUEST_HEADER_LEN {
            return Err(DecodeError::RequestHeaderTooShort);
        }
        Ok(Self { op: buf[0], raw_size: u32_at(buf, 4), payload_len: u32_at(buf, 8) })
    }
}

/// A request header survives the wire, whatever payload follows it.
pub proof fn law_request_header_round_trip(header: RequestHeader, payload: Seq<u8>)
    ensures
        header.bytes().len() == REQUEST_HEADER_LEN,
        RequestHeader::parsed(header.bytes() + payload) == Ok::<RequestHeader, DecodeError>(header),
        (header.bytes() + payload).skip(REQUEST_HEADER_LEN as int) == payload,
{
    lemma_le_round_trip(header.raw_size as int);
    lemma_le_round_trip(header.payload_len as int);
    assert((header.bytes() + payload).skip(REQUEST_HEADER_LEN as int) =~= payload);
}

/// The fixed part of a response.
#[derive(Debug, Clone, Copy, PartialEq, Eq, Structural)]
pub struct ResponseHeader {
    pub status: i32,
    pub payload_len: u32,
}

impl ResponseHeader {
    /// The header on the wire.
    pub open spec fn bytes(self) -> Seq<u8> {
        le_bytes(bits_of(self.status as int)) + le_bytes(self.payload_len as int)
    }

    /// What `s` says as a response header.
    pub open spec fn parsed(s: Seq<u8>) -> Result<ResponseHeader, DecodeError> {
        if s.len() < RESPONSE_HEADER_LEN {
            Err(DecodeError::ResponseHeaderTooShort)
        } else {
            Ok(
                ResponseHeader {
                    status: signed_of(le_value(s, 0)) as i32,
                    payload_len: le_value(s, 4) as u32,
                },
            )
        }
    }

    pub fn encode(&self) -> (b: [u8; RESPONSE_HEADER_LEN])
        ensures
            b@ == self.bytes(),
    {
        let status: u32 = if self.status < 0 {
            (self.status as i64 + 0x1_0000_0000) as u32
        } else {
            self.status as u32
        };
        let b = [
            le_byte_of(status, 0),
            le_byte_of(status, 1),
            le_byte_of(status, 2),
            le_byte_of(status, 3),
            le_byte_of(self.payload_len, 0),
            le_byte_of(self.payload_len, 1),
            le_byte_of(self.payload_len, 2),
            le_byte_of(self.payload_len, 3),
        ];
        assert(b@ =~= self.bytes());
        b
    }

    pub fn decode(buf: &[u8]) -> (r: Result<Self, DecodeError>)
        ensures
            r == Self::parsed(buf@),
    {
        if buf.len() < RESPONSE_HEADER_LEN {
            return Err(DecodeError::ResponseHeaderTooShort);
        }
        let bits: u32 = u32_at(buf, 0);
        let status: i32 = if bits >= 0x8000_0000 {
            (bits as i64 - 0x1_0000_0000) as i32
        } else {
            bits as i32
        };
        Ok(Self { status, payload_len: u32_at(buf, 4) })
    }
}

/// A response header survives the wire, whatever payload follows it.
pub proof fn law_response_header_round_trip(header: ResponseHeader, payload: Seq<u8>)
    ensures
        header.bytes().len() == RESPONSE_HEADER_LEN,
        ResponseHeader::parsed(header.bytes() + payload) == Ok::<ResponseHeader, DecodeError>(
            header,
        ),
        (header.bytes() + payload).skip(RESPONSE_HEADER_LEN as int) == payload,
{
    lemma_le_round_trip(bits_of(header.status as int));
    lemma_le_round_trip(header.payload_len as int);
    assert((header.bytes() + payload).skip(RESPONSE_HEADER_LEN as int) =~= payload);
}

/// The length field for a payload of `len` bytes: as much of it as fits 32 bits.
pub open spec fn length_field(len: int) -> u32 {
    (len % 0x1_0000_0000) as u32
}

/// A full response on the wire.
pub open spec fn response_bytes(status: i32, payload: Seq<u8>) -> Seq<u8> {
    (ResponseHeader { status, payload_len: length_field(payload.len() as int) }).bytes() + payload
}

/// A full request on the wire.
pub open spec fn request_bytes(op: u8, raw_size: u32, payload: Seq<u8>) -> Seq<u8> {
    (RequestHeader { op, raw_size, payload_len: length_field(payload.len() as int) }).bytes()
        + payload
}

fn length_field_of(len: usize) -> (n: u32)
    ensures
        n == length_field(len as int),
{
    (len as u64 % 0x1_0000_0000) as u32
}

/// Build a full response message (header + payload).
pub fn response_message(status: i32, payload: &[u8]) -> (out: Vec<u8>)
    ensures
        out@ == response_bytes(status, payload@),
{
    let header = ResponseHeader { status, payload_len: length_field_of(payload.len()) };
    let mut out: Vec<u8> = Vec::new();
    out.extend_from_slice(&header.encode());
    out.extend_from_slice(payload);
    out
}

/// Build a full request message (header + payload).
pub fn request_message(op: u8, raw_size: u32, payload: &[u8]) -> (out: Vec<u8>)
    ensures
        out@ == request_bytes(op, raw_size, payload@),
{
    let header = RequestHeader { op, raw_size, payload_len: length_field_of(payload.len()) };
    let mut out: Vec<u8> = Vec::new();
    out.extend_from_slice(&header.encode());
    out.extend_from_slice(payload);
    out
}

/// Where the parts of a tag stand, bit by bit: the endpoint id in the top 16 bits,
/// the connection id in the low 32 bits, and the response bit just above those.
pub proof fn law_tags_bit_by_bit(ep_id: u16, conn_id: u32, tag: u64)
    ensures
        request_tag(ep_id as int, conn_id as int) == ((ep_id as u64) << 48 | conn_id as u64),
        with_response_bit(tag as int) == (tag | 1u64 << 32),
        tag_is_response(tag as int) <==> tag >> 32 & 1 == 1,
        tag_ep_id(tag as int) == tag >> 48,
        tag_conn_id(tag as int) == tag & 0xFFFF_FFFF,
{
    assert(((ep_id as u64) << 48) | conn_id as u64 == ep_id * 0x1_0000_0000_0000 + conn_id)
        by (bit_vector);
    assert(tag | 1u64 << 32 == (if (tag / 0x1_0000_0000) % 2 == 1 {
        tag as int
    } else {
        tag + 0x1_0000_0000
    })) by (bit_vector);
    assert((tag >> 32 & 1 == 1) == ((tag / 0x1_0000_0000) % 2 == 1)) by (bit_vector);
    assert(tag >> 48 == tag / 0x1_0000_0000_0000) by (bit_vector);
    assert(tag & 0xFFFF_FFFF == tag % 0x1_0000_0000) by (bit_vector);
}

/// The four bytes of a number, by shifts and masks.
proof fn lemma_bytes_bit_by_bit(n: u32)
    ensures
        le_bytes(n as int).len() == 4,
        le_bytes(n as int)[0] == n & 0xFF,
        le_bytes(n as int)[1] == n >> 8 & 0xFF,
        le_bytes(n as int)[2] == n >> 16 & 0xFF,
        le_bytes(n as int)[3] == n >> 24,
{
    assert(n & 0xFF == n % 256) by (bit_vector);
    assert(n >> 8 & 0xFF == (n / 256) % 256) by (bit_vector);
    assert(n >> 16 & 0xFF == (n / 65536) % 256) by (bit_vector);
    assert(n >> 24 == (n / 16777216) % 256) by (bit_vector);
}

/// Three parts of four bytes each and what follows them, one behind the other.
proof fn lemma_parts_stand_in_order(a: Seq<u8>, b: Seq<u8>, c: Seq<u8>, rest: Seq<u8>)
    requires
        a.len() == 4,
        b.len() == 4,
        c.len() == 4,
    ensures
        ({
            let all = a + b + c + rest;
            &&& all.len() == 12 + rest.len()
            &&& all[0] == a[0] && all[1] == a[1] && all[2] == a[2] && all[3] == a[3]
            &&& all[4] == b[0] && all[5] == b[1] && all[6] == b[2] && all[7] == b[3]
            &&& all[8] == c[0] && all[9] == c[1] && all[10] == c[2] && all[11] == c[3]
            &&& all.subrange(12, all.len() as int) == rest
        }),
{
    let all = a + b + c + rest;
    assert(all.subrange(12, all.len() as int) =~= rest);
}

/// A request on the wire, byte by byte: the operation, three bytes of 0, the raw
/// size and the payload length with the low byte first, and then the payload.
pub proof fn law_requests_byte_by_byte(op: u8, raw_size: u32, payload: Seq<u8>, len: u32)
    requires
        payload.len() == len,
    ensures
        ({
            let b = request_bytes(op, raw_size, payload);
            &&& b.len() == 12 + payload.len()
            &&& b[0] == op
            &&& b[1] == 0 && b[2] == 0 && b[3] == 0
            &&& b[4] == raw_size & 0xFF
            &&& b[5] == raw_size >> 8 & 0xFF
            &&& b[6] == raw_size >> 16 & 0xFF
            &&& b[7] == raw_size >> 24
            &&& b[8] == len & 0xFF
            &&& b[9] == len >> 8 & 0xFF
            &&& b[10] == len >> 16 & 0xFF
            &&& b[11] == len >> 24
            &&& b.subrange(12, b.len() as int) == payload
        }),
{
    let start = seq![op, 0u8, 0u8, 0u8];
    let (size, length) = (le_bytes(raw_size as int), le_bytes(len as int));
    assert(request_bytes(op, raw_size, payload) == start + size + length + payload);
    lemma_bytes_bit_by_bit(raw_size);
    lemma_bytes_bit_by_bit(len);
    lemma_parts_stand_in_order(start, size, length, payload);
}

/// A response on the wire, byte by byte: the status in two's complement and the
/// payload length, each with the low byte first, and then the payload.
pub proof fn law_responses_byte_by_byte(status: i32, payload: Seq<u8>, len: u32)
    requires
        payload.len() == len,
    ensures
        ({
            let b = response_bytes(status, payload);
            let bits = status as u32;
            &&& b.len() == 8 + payload.len()
            &&& b[0] == bits & 0xFF
            &&& b[1] == bits >> 8 & 0xFF
            &&& b[2] == bits >> 16 & 0xFF
            &&& b[3] == bits >> 24
            &&& b[4] == len & 0xFF
            &&& b[5] == len >> 8 & 0xFF
            &&& b[6] == len >> 16 & 0xFF
            &&& b[7] == len >> 24
            &&& b.subrange(8, b.len() as int) == payload
        }),
{
    assert(status as u32 == (if status < 0 {
        status + 0x1_0000_0000
    } else {
        status as int
    })) by (bit_vector);
    lemma_bytes_bit_by_bit(status as u32);
    lemma_bytes_bit_by_bit(len);
    let b = response_bytes(status, payload);
    assert(b.subrange(8, b.len() as int) =~= payload);
}

/// A hello on the wire, byte by byte: the letters "NEB1", the level, the window
/// log, the flags, a byte of 0, the payload limit with the low byte first, and four
/// bytes of 0.
pub proof fn law_hellos_byte_by_byte(hello: Hello)
    ensures
        ({
            let b = hello.bytes();
            &&& b.len() == 16
            &&& b.take(4) == seq!['N' as u8, 'E' as u8, 'B' as u8, '1' as u8]
            &&& b[4] == hello.level
            &&& b[5] == hello.window_log
            &&& b[6] == (if hello.magicless {
                1u8
            } else {
                0u8
            })
            &&& b[7] == 0
            &&& b[8] == hello.max_payload & 0xFF
            &&& b[9] == hello.max_payload >> 8 & 0xFF
            &&& b[10] == hello.max_payload >> 16 & 0xFF
            &&& b[11] == hello.max_payload >> 24
            &&& b[12] == 0 && b[13] == 0 && b[14] == 0 && b[15] == 0
        }),
{
    lemma_bytes_bit_by_bit(hello.max_payload);
    assert(hello.bytes().take(4) =~= seq!['N' as u8, 'E' as u8, 'B' as u8, '1' as u8]);
}

/// Whatever the bytes are, a header is read from them exactly if there are enough
/// of them, and a hello exactly if it begins with its letters too. Numbers have
/// their low byte first; bytes that are not named here do not matter.
pub proof fn law_headers_are_read_byte_by_byte(b: Seq<u8>)
    ensures
        RequestHeader::parsed(b) is Ok <==> b.len() >= 12,
        RequestHeader::parsed(b) matches Ok(h) ==> {
            &&& h.op == b[0]
            &&& h.raw_size == b[4] + 0x100 * b[5] + 0x1_0000 * b[6] + 0x100_0000 * b[7]
            &&& h.payload_len == b[8] + 0x100 * b[9] + 0x1_0000 * b[10] + 0x100_0000 * b[11]
        },
        ResponseHeader::parsed(b) is Ok <==> b.len() >= 8,
        ResponseHeader::parsed(b) matches Ok(h) ==> {
            &&& h.status == b[0] + 0x100 * b[1] + 0x1_0000 * b[2] + 0x100_0000 * b[3] - (if b[3]
                >= 128 {
                0x1_0000_0000int
            } else {
                0int
            })
            &&& h.payload_len == b[4] + 0x100 * b[5] + 0x1_0000 * b[6] + 0x100_0000 * b[7]
        },
        Hello::parsed(b) is Ok <==> b.len() >= 16 && b[0] == 'N' as u8 && b[1] == 'E' as u8 && b[2]
            == 'B' as u8 && b[3] == '1' as u8,
        Hello::parsed(b) matches Ok(h) ==> {
            &&& h.level == b[4]
            &&& h.window_log == b[5]
            &&& h.magicless == (b[6] & 1 == 1)
            &&& h.max_payload == b[8] + 0x100 * b[9] + 0x1_0000 * b[10] + 0x100_0000 * b[11]
        },
{
    let flags = b[6];
    assert((flags & 1 == 1) == (flags % 2 == 1)) by (bit_vector);
    if b.len() >= 16 {
        let start = b.take(4);
        assert(start[0] == b[0] && start[1] == b[1] && start[2] == b[2] && start[3] == b[3]);
        if b[0] == 'N' as u8 && b[1] == 'E' as u8 && b[2] == 'B' as u8 && b[3] == '1' as u8 {
            assert(start =~= Hello::magic());
        }
    }
}

/// Lengths go on the wire as they are, as long as 32 bits hold them.
pub proof fn law_lengths_are_kept(len: int)
    requires
        0 <= len <= u32::MAX,
    ensures
        length_field(len) == len,
{
}

} // verus!
