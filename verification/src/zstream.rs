//! Streaming zstd contexts of the offload service.
//!
//! - magicless frames without a content size, with an explicit window log
//! - one streaming context per game connection, flushed after every message so
//!   that the peer can decode it at once, while the sliding window keeps its
//!   history from message to message
//! - decompression streams too; one-shot compressed messages are complete
//!   frames, which a streaming decoder takes in its stride
//!
//! What a context has been through is its view: an [`EncoderState`] or a
//! [`DecoderState`]. What a compressed stream stands for is [`content`].

use vstd::prelude::*;
use zstd::stream::raw::{Decoder, Encoder};

use crate::codec::{
    call_compress_bound, compressor_compress_to_buffer, compressor_new, compressor_set_parameter,
    decoder_new, decoder_run, decoder_set_magicless, encoder_flush, encoder_new, encoder_run,
    encoder_set_parameter, Parameter,
};
use crate::codec::{
    bare_start, bound_error, bound_of, bulk_frame, compressor_state, content, decoder_state,
    encoder_state, goes_on_with, magicless_decoding, max_input_size, refused_at_once,
    stopped_short, unended, whole_frames, window_log_accepted, CompressorState, DecoderState,
    EncoderState, Settings,
};
use crate::text::{decimal, law_decimal_round_trip, push_decimal, spelled_int};

verus! {

/// A failed stream operation, as a message.
#[derive(Debug)]
pub struct ZstdError(String);

impl View for ZstdError {
    type V = Seq<char>;

    closed spec fn view(&self) -> Seq<char> {
        self.0@
    }
}

impl ZstdError {
    /// The error that reads `message`.
    fn of(message: &str) -> (e: ZstdError)
        ensures
            e@ == message@,
    {
        ZstdError(message.to_owned())
    }

    /// The error that reads `op`, a colon, a space and `cause`.
    fn with_cause(op: &str, cause: &str) -> (e: ZstdError)
        ensures
            e@ == op@ + ": "@ + cause@,
    {
        let mut text: String = op.to_owned();
        text.append(": ");
        text.append(cause);
        ZstdError(text)
    }

    /// The message.
    pub fn message(&self) -> (s: &str)
        ensures
            s@ == self@,
    {
        self.0.as_str()
    }
}

/// Whether an error reads `op`, a colon, a space and some cause.
pub open spec fn labelled(e: Seq<char>, op: Seq<char>) -> bool {
    exists|cause: Seq<char>| e == #[trigger] (op + ": "@ + cause)
}

/// The library's error for a failed zstd call of the operation `op`.
fn map_err(op: &str, e: std::io::Error) -> (r: ZstdError)
    ensures
        labelled(r@, op@),
{
    let cause = e.to_string();
    let r = ZstdError::with_cause(op, &cause);
    assert(r@ == op@ + ": "@ + cause@);
    r
}

/// Maximum compressed size for `src_size` bytes; zstd's error code for sizes
/// beyond what it can bound.
pub fn compress_bound(src_size: usize) -> (r: usize)
    ensures
        src_size < max_input_size() ==> r == bound_of(src_size as int),
        src_size >= max_input_size() ==> r == bound_error(),
{
    call_compress_bound(src_size)
}

/// An encoder of the offload service that nothing has gone through.
pub open spec fn fresh_encoder(level: int, window_log: int) -> EncoderState {
    EncoderState {
        settings: Settings::offload(level, window_log),
        started: false,
        failed: false,
        fed: Seq::empty(),
        emitted: Seq::empty(),
        unflushed: 0,
        cuts: Set::empty(),
    }
}

/// A decoder of the offload service that nothing has gone through.
pub open spec fn fresh_decoder() -> DecoderState {
    DecoderState {
        magicless: true,
        started: false,
        failed: false,
        in_step: true,
        fed: Seq::empty(),
        emitted: Seq::empty(),
        idle: 0,
        rejected: Seq::empty(),
    }
}

/// The four bytes that ordinary zstd frames start with.
pub open spec fn zstd_magic() -> Seq<u8> {
    seq![0x28u8, 0xB5u8, 0x2Fu8, 0xFDu8]
}

/// `bytes` start like a magicless frame: something is there, and it is not zstd's
/// magic number.
pub open spec fn starts_magicless(bytes: Seq<u8>) -> bool {
    bytes.len() >= 4 && bytes.take(4) != zstd_magic()
}

/// The start of a bare frame is not zstd's magic number.
proof fn lemma_bare_start_is_magicless(bytes: Seq<u8>)
    requires
        bare_start(bytes),
    ensures
        starts_magicless(bytes),
{
    assert(bytes.take(4)[0] == 0);
    assert(zstd_magic()[0] == 0x28);
}

/// `packet` is what a stream emitted for `message`: the stream has taken all of
/// the message and emitted all of the packet, and whoever has the packets so
/// far can decode everything the stream was fed so far. The first packet starts a
/// magicless frame, and the frame goes on. The stream is flushed at the end of the
/// message and nowhere within. Nothing is left to be flushed, and where nothing was,
/// the packet stays below the bound for the message.
pub open spec fn compresses(
    before: EncoderState,
    after: EncoderState,
    message: Seq<u8>,
    packet: Seq<u8>,
) -> bool {
    &&& !before.failed
    &&& after == (EncoderState {
        started: true,
        fed: before.fed + message,
        emitted: before.emitted + packet,
        unflushed: 0,
        cuts: before.cuts.insert(after.fed.len()),
        ..before
    })
    &&& before.unflushed == 0 ==> packet.len() < bound_of(message.len() as int)
    &&& content(after.emitted) == Some(after.fed)
    &&& before.emitted.len() == 0 && after.fed.len() > 0 ==> starts_magicless(packet)
    &&& unended(after.emitted)
}

/// The flushes of a stream that had those in `before` and then took `taken` bytes of
/// `message`: one at the end of the message, if it got there.
pub open spec fn cuts_after(before: EncoderState, message: Seq<u8>, taken: int) -> Set<nat> {
    if taken < message.len() {
        before.cuts
    } else {
        before.cuts.insert(before.fed.len() + message.len())
    }
}

/// zstd failed at some point of `message`, which fails the stream for good: it had
/// taken the start of the message and written the start of `out`.
pub open spec fn failed_at(
    before: EncoderState,
    after: EncoderState,
    message: Seq<u8>,
    out: Seq<u8>,
) -> bool {
    exists|taken: int, written: int|
        #![trigger message.take(taken), out.take(written)]
        0 <= taken <= message.len() && 0 <= written <= out.len() && after == (EncoderState {
            started: true,
            failed: true,
            fed: before.fed + message.take(taken),
            emitted: before.emitted + out.take(written),
            unflushed: after.unflushed,
            cuts: cuts_after(before, message, taken),
            ..before
        })
}

/// A stream did not get all of `message` out: zstd failed, which fails the stream
/// for good, while it took the message or while it was flushed, or `out` was too
/// small to hold what there was to emit. In that case `out` is full, and part of the
/// message was not taken or cannot be decoded yet. A stream of which nothing was left
/// to be flushed is never short of room where `out` is as long as the bound for the
/// message.
pub open spec fn compress_failure(
    before: EncoderState,
    after: EncoderState,
    message: Seq<u8>,
    out: Seq<u8>,
    e: Seq<char>,
) -> bool {
    ||| failed_at(before, after, message, out) && if after.fed.len() < before.fed.len()
        + message.len() {
        labelled(e, "compress"@)
    } else {
        labelled(e, "flush"@)
    }
    ||| {
        &&& e == "output buffer too small"@
        &&& !before.failed
        &&& before.unflushed > 0 || out.len() < bound_of(message.len() as int)
        &&& exists|taken: int|
            #![trigger message.take(taken)]
            0 <= taken <= message.len() && after == (EncoderState {
                started: true,
                fed: before.fed + message.take(taken),
                emitted: before.emitted + out,
                unflushed: after.unflushed,
                cuts: cuts_after(before, message, taken),
                ..before
            }) && (taken < message.len() || content(after.emitted) != Some(after.fed))
    }
}

/// `produced` is what a decoder wrote into `room` bytes when it was given
/// `packet`: the next bytes of what its input decodes to, and all that there
/// are of them if it left room.
pub open spec fn decompresses(
    before: DecoderState,
    after: DecoderState,
    packet: Seq<u8>,
    room: nat,
    produced: Seq<u8>,
) -> bool {
    &&& !before.failed
    &&& produced.len() <= room
    &&& after == (DecoderState {
        started: true,
        fed: before.fed + packet,
        emitted: before.emitted + produced,
        idle: after.idle,
        ..before
    })
    &&& packet.len() > 0 ==> after.idle <= 1
    &&& after.idle <= before.idle + 2
    &&& before.in_step ==> (content(after.fed) matches Some(bytes) ==> {
        &&& after.emitted.is_prefix_of(bytes)
        &&& produced.len() < room ==> after.emitted == bytes
    })
}

/// A decoder ran out of room: it filled all of `filled` and left part of
/// `packet` unread.
pub open spec fn out_of_room(
    before: DecoderState,
    after: DecoderState,
    packet: Seq<u8>,
    filled: Seq<u8>,
) -> bool {
    &&& !before.failed
    &&& exists|taken: int| #![trigger packet.take(taken)]
        0 <= taken < packet.len() && after == (DecoderState {
            started: true,
            in_step: false,
            fed: before.fed + packet.take(taken),
            emitted: before.emitted + filled,
            idle: after.idle,
            ..before
        })
    &&& before.in_step ==> stopped_short(before, after, packet)
}

/// zstd rejected the rest of `packet` at some point, which fails the decoder for
/// good: it had taken the start of the packet and written the start of `out`. A
/// decoder that had no reason to fail does not, and none is made to fail by steps
/// that give it nothing to do.
pub open spec fn rejected_at(
    before: DecoderState,
    after: DecoderState,
    packet: Seq<u8>,
    out: Seq<u8>,
) -> bool {
    &&& !goes_on_with(before, packet, out.len() as int)
    &&& after.idle <= before.idle
    &&& exists|taken: int, written: int|
        #![trigger packet.take(taken), out.take(written)]
        0 <= taken <= packet.len() && 0 <= written <= out.len() && (taken < packet.len() || (
        packet.len() == 0 && written == 0)) && after == (DecoderState {
            started: true,
            failed: true,
            fed: before.fed + packet.take(taken),
            emitted: before.emitted + out.take(written),
            idle: after.idle,
            rejected: if before.failed {
                before.rejected
            } else {
                packet.skip(taken)
            },
            ..before
        })
}

/// A decoder did not get all of `packet` decoded: zstd rejected it, which fails the
/// decoder for good, or there was no room left.
pub open spec fn decompress_failure(
    before: DecoderState,
    after: DecoderState,
    packet: Seq<u8>,
    out: Seq<u8>,
    e: Seq<char>,
) -> bool {
    ||| rejected_at(before, after, packet, out) && labelled(e, "decompress"@)
    ||| e == "output buffer too small"@ && out_of_room(before, after, packet, out)
}

/// `frame` is a complete magicless frame of its own for `message`: behind complete
/// frames it decodes to the message behind their content, and ends nowhere but at
/// its own end.
pub open spec fn frame_of(frame: Seq<u8>, message: Seq<u8>) -> bool {
    &&& starts_magicless(frame)
    &&& forall|before: Seq<u8>|
        whole_frames(before) ==> #[trigger] magicless_decoding(before + frame) == Some(
            (content(before)->0 + message, true),
        )
    &&& forall|before: Seq<u8>, k: int|
        whole_frames(before) && 0 < k < frame.len() ==> !whole_frames(
            #[trigger] (before + frame.take(k)),
        )
}

/// `frame` is what a stream made of `message` at one go, with `room` bytes to write
/// it to: a complete frame that rests on the stream's settings alone, whatever
/// went through the stream before, and the stream is left as it was.
pub open spec fn compresses_at_once(
    before: EncoderState,
    after: EncoderState,
    message: Seq<u8>,
    room: nat,
    frame: Seq<u8>,
) -> bool {
    &&& after == before
    &&& frame == bulk_frame(before.settings, message, room)
    &&& frame_of(frame, message)
}

/// A longer input has no smaller bound.
proof fn lemma_bound_grows(n: int, m: int)
    requires
        0 <= n <= m,
    ensures
        bound_of(n) <= bound_of(m),
{
}

/// Bytes `from..to` of `now`, behind bytes `..from` of `then`, are bytes `..to`
/// of `now` if the two agree up to `from`.
proof fn lemma_take_extends(base: Seq<u8>, then: Seq<u8>, now: Seq<u8>, from: int, to: int)
    requires
        0 <= from <= to <= now.len(),
        from <= then.len(),
        now.take(from) == then.take(from),
    ensures
        base + then.take(from) + now.subrange(from, to) == base + now.take(to),
{
    assert(now.take(from) + now.subrange(from, to) =~= now.take(to));
    assert(base + then.take(from) + now.subrange(from, to) =~= base + (now.take(from)
        + now.subrange(from, to)));
}

/// Per-connection streaming compression context.
pub struct CompressStream {
    encoder: Encoder<'static>,
    level: i32,
    window_log: u32,
}

impl View for CompressStream {
    type V = EncoderState;

    closed spec fn view(&self) -> EncoderState {
        encoder_state(self.encoder)
    }
}

impl CompressStream {
    /// The encoder is set up as the offload service needs it, for the level and
    /// window log that the stream remembers.
    pub closed spec fn wf(&self) -> bool {
        &&& self@.settings == Settings::offload(self.level as int, self.window_log as int)
        &&& window_log_accepted(self.window_log as int)
    }

    /// A stream of that level and window log that nothing has gone through.
    pub open spec fn is_fresh(&self, level: int, window_log: int) -> bool {
        self.wf() && self@ == fresh_encoder(level, window_log)
    }

    /// A fresh stream, unless zstd does not take the window log.
    pub fn new(level: i32, window_log: u32) -> (r: Result<Self, ZstdError>)
        ensures
            r is Ok <==> window_log_accepted(window_log as int),
            r matches Ok(stream) ==> stream.is_fresh(level as int, window_log as int),
            r matches Err(e) ==> labelled(e@, "set windowLog"@),
    {
        match Self::build_encoder(level, window_log) {
            Ok(encoder) => Ok(Self { encoder, level, window_log }),
            Err(e) => Err(e),
        }
    }

    fn build_encoder(level: i32, window_log: u32) -> (r: Result<Encoder<'static>, ZstdError>)
        ensures
            r is Ok <==> window_log_accepted(window_log as int),
            r matches Ok(encoder) ==> encoder_state(encoder) == fresh_encoder(
                level as int,
                window_log as int,
            ),
            r matches Err(e) ==> labelled(e@, "set windowLog"@),
    {
        let mut encoder = match encoder_new(level) {
            Ok(encoder) => encoder,
            Err(e) => return Err(map_err("create encoder", e)),
        };
        if let Err(e) = encoder_set_parameter(&mut encoder, Parameter::WindowLog(window_log)) {
            return Err(map_err("set windowLog", e));
        }
        if let Err(e) = encoder_set_parameter(&mut encoder, Parameter::MagiclessFormat) {
            return Err(map_err("set magicless format", e));
        }
        if let Err(e) = encoder_set_parameter(&mut encoder, Parameter::ContentSizeFlag(false)) {
            return Err(map_err("disable content size", e));
        }
        Ok(encoder)
    }

    /// Compress one aggregated message, flushing afterwards so the peer's
    /// streaming decoder can decode it immediately. `out` should be at least
    /// `compress_bound(input.len())` bytes; returns the number of bytes written.
    pub fn compress(&mut self, input: &[u8], out: &mut [u8]) -> (r: Result<usize, ZstdError>)
        requires
            old(self).wf(),
        ensures
            final(self).wf(),
            final(out).len() == old(out).len(),
            old(self)@.failed ==> r is Err && final(self)@.failed,
            r matches Ok(n) ==> n <= final(out).len() && compresses(
                old(self)@,
                final(self)@,
                input@,
                final(out)@.take(n as int),
            ),
            r matches Err(e) ==> compress_failure(
                old(self)@,
                final(self)@,
                input@,
                final(out)@,
                e@,
            ),
            final(self)@.settings == old(self)@.settings,
    {
        let mut in_pos: usize = 0;
        let mut out_pos: usize = 0;
        let ghost s0 = self@;
        // Feed all input...
        while in_pos < input.len()
            invariant
                old(self)@ == s0,
                self.wf(),
                self@.settings == s0.settings,
                self@.failed == s0.failed,
                in_pos <= input.len(),
                out_pos <= out.len(),
                out.len() == old(out).len(),
                self@.fed == s0.fed + input@.take(in_pos as int),
                self@.emitted == s0.emitted + out@.take(out_pos as int),
                in_pos < input.len() ==> out_pos < out.len() || in_pos == 0,
                in_pos > 0 || out_pos > 0 ==> self@.started,
                !self@.started ==> self@ == s0,
                self@.cuts == s0.cuts,
                s0.unflushed == 0 && in_pos == 0 ==> out_pos == 0 && self@.unflushed == 0,
                s0.unflushed == 0 && in_pos > 0 ==> in_pos == input.len() && out_pos
                    + self@.unflushed < bound_of(input.len() as int),
            decreases input.len() - in_pos, out.len() - out_pos,
        {
            let ghost out_before = out@;
            let (i, o) = match encoder_run(&mut self.encoder, input, in_pos, out, out_pos) {
                Ok(positions) => positions,
                Err(e) => {
                    assert(out@.take(out_pos as int) == out_before.take(out_pos as int));
                    assert(self@ =~= (EncoderState {
                        started: true,
                        failed: true,
                        fed: s0.fed + input@.take(in_pos as int),
                        emitted: s0.emitted + out@.take(out_pos as int),
                        unflushed: self@.unflushed,
                        cuts: cuts_after(s0, input@, in_pos as int),
                        ..s0
                    }));
                    assert(failed_at(s0, self@, input@, out@));
                    return Err(map_err("compress", e));
                },
            };
            proof {
                lemma_take_extends(s0.fed, input@, input@, in_pos as int, i as int);
                lemma_take_extends(s0.emitted, out_before, out@, out_pos as int, o as int);
            }
            in_pos = i;
            out_pos = o;
            if in_pos < input.len() && out_pos == out.len() {
                assert(out@.take(out_pos as int) == out@);
                assert(self@ =~= (EncoderState {
                    started: true,
                    fed: s0.fed + input@.take(in_pos as int),
                    emitted: s0.emitted + out@,
                    unflushed: self@.unflushed,
                    cuts: cuts_after(s0, input@, in_pos as int),
                    ..s0
                }));
                proof {
                    lemma_bound_grows(in_pos as int, input.len() as int);
                }
                return Err(ZstdError::of("output buffer too small"));
            }
        }
        assert(input@.take(input.len() as int) == input@);
        // ...then flush until everything so far is decodable by the peer.
        loop
            invariant
                old(self)@ == s0,
                self.wf(),
                self@.settings == s0.settings,
                self@.failed == s0.failed,
                out_pos <= out.len(),
                out.len() == old(out).len(),
                self@.fed == s0.fed + input@,
                self@.emitted == s0.emitted + out@.take(out_pos as int),
                self@.cuts == s0.cuts || self@.cuts == s0.cuts.insert(self@.fed.len()),
                s0.unflushed == 0 ==> out_pos + self@.unflushed < bound_of(input.len() as int),
            decreases out.len() - out_pos,
        {
            let ghost out_before = out@;
            let (pending, o) = match encoder_flush(&mut self.encoder, out, out_pos) {
                Ok(flushed) => flushed,
                Err(e) => {
                    assert(out@.take(out_pos as int) == out_before.take(out_pos as int));
                    assert(input@.take(input.len() as int) == input@);
                    assert(self@ =~= (EncoderState {
                        started: true,
                        failed: true,
                        fed: s0.fed + input@.take(input.len() as int),
                        emitted: s0.emitted + out@.take(out_pos as int),
                        unflushed: self@.unflushed,
                        cuts: cuts_after(s0, input@, input.len() as int),
                        ..s0
                    }));
                    assert(failed_at(s0, self@, input@, out@));
                    return Err(map_err("flush", e));
                },
            };
            proof {
                lemma_take_extends(s0.emitted, out_before, out@, out_pos as int, o as int);
            }
            out_pos = o;
            if pending == 0 {
                assert(self@ =~= (EncoderState {
                    started: true,
                    fed: s0.fed + input@,
                    emitted: s0.emitted + out@.take(out_pos as int),
                    unflushed: 0,
                    cuts: s0.cuts.insert(self@.fed.len()),
                    ..s0
                }));
                proof {
                    if s0.emitted.len() == 0 && self@.fed.len() > 0 {
                        assert(self@.emitted =~= out@.take(out_pos as int));
                        lemma_bare_start_is_magicless(self@.emitted);
                    }
                }
                return Ok(out_pos);
            }
            if out_pos == out.len() {
                assert(out@.take(out_pos as int) == out@);
                assert(input@.take(input.len() as int) == input@);
                assert(self@ =~= (EncoderState {
                    started: true,
                    fed: s0.fed + input@.take(input.len() as int),
                    emitted: s0.emitted + out@,
                    unflushed: self@.unflushed,
                    cuts: cuts_after(s0, input@, input.len() as int),
                    ..s0
                }));
                return Err(ZstdError::of("output buffer too small"));
            }
        }
    }

    /// One-shot stateless compress producing a complete frame (used for
    /// connections with context reuse disabled). A fresh compressor is used per
    /// call, so no state carries over between messages.
    pub fn compress_oneshot(&mut self, input: &[u8], out: &mut [u8]) -> (r: Result<
        usize,
        ZstdError,
    >)
        requires
            old(self).wf(),
        ensures
            *final(self) == *old(self),
            final(out).len() == old(out).len(),
            r matches Ok(n) ==> n <= final(out).len() && compresses_at_once(
                old(self)@,
                final(self)@,
                input@,
                final(out).len() as nat,
                final(out)@.take(n as int),
            ),
            r matches Err(e) ==> labelled(e@, "oneshot compress"@) && refused_at_once(
                old(self)@.settings,
                input@,
                final(out).len() as nat,
            ),
    {
        let mut compressor = match compressor_new(self.level) {
            Ok(compressor) => compressor,
            Err(e) => return Err(map_err("create compressor", e)),
        };
        let window_log = Parameter::WindowLog(self.window_log);
        if let Err(e) = compressor_set_parameter(&mut compressor, window_log) {
            return Err(map_err("set windowLog", e));
        }
        if let Err(e) = compressor_set_parameter(&mut compressor, Parameter::MagiclessFormat) {
            return Err(map_err("set magicless format", e));
        }
        if let Err(e) = compressor_set_parameter(
            &mut compressor,
            Parameter::ContentSizeFlag(false),
        ) {
            return Err(map_err("disable content size", e));
        }
        match compressor_compress_to_buffer(&mut compressor, input, out) {
            Ok(n) => {
                proof {
                    lemma_bare_start_is_magicless(out@.take(n as int));
                }
                Ok(n)
            },
            Err(e) => {
                assert(compressor_state(compressor) == (CompressorState {
                    settings: old(self)@.settings,
                    used: true,
                    refused: Some((input@, out.len() as nat)),
                }));
                Err(map_err("oneshot compress", e))
            },
        }
    }

    /// Start a new stream, dropping all history. The peer's decompressor must
    /// be reset too, otherwise the streams desync.
    pub fn reset(&mut self) -> (r: Result<(), ZstdError>)
        requires
            old(self).wf(),
        ensures
            r is Ok,
            final(self).is_fresh(old(self)@.settings.level, old(self)@.settings.window_log),
    {
        match Self::build_encoder(self.level, self.window_log) {
            Ok(encoder) => {
                self.encoder = encoder;
                Ok(())
            },
            Err(e) => Err(e),
        }
    }
}

/// The decoder has written all that its input decodes to, and its input ends
/// where a frame ends.
pub open spec fn between_frames(state: DecoderState) -> bool {
    state.in_step && magicless_decoding(state.fed) == Some((state.emitted, true))
}

/// The message for a decompressed size that is not the expected one.
pub open spec fn size_mismatch(expected: nat, got: nat) -> Seq<char> {
    "decompressed size mismatch: expected "@ + decimal(expected) + ", got "@ + decimal(got)
        + " (stream desync)"@
}

/// zstd failed when a decoder that had decoded all of `packet` and filled `out` was
/// asked whether it had more to write. That happens only to a decoder that has lost
/// the stream, or was asked again and again with nothing to do.
pub open spec fn failed_when_asked(
    before: DecoderState,
    after: DecoderState,
    packet: Seq<u8>,
    out: Seq<u8>,
) -> bool {
    &&& !before.in_step || content(before.fed + packet) is None || (packet.len() == 0
        && before.idle >= 14)
    &&& after.idle <= before.idle + 1
    &&& after == (DecoderState {
        started: true,
        failed: true,
        fed: before.fed + packet,
        emitted: before.emitted + out,
        idle: after.idle,
        rejected: Seq::empty(),
        ..before
    })
}

/// A decoder did not fill `out` exactly with what it was given for: zstd failed,
/// which fails the decoder for good, or there was too much to decode, or too
/// little.
pub open spec fn exact_failure(
    before: DecoderState,
    after: DecoderState,
    packet: Seq<u8>,
    out: Seq<u8>,
    e: Seq<char>,
) -> bool {
    ||| decompress_failure(before, after, packet, out, e)
    ||| failed_when_asked(before, after, packet, out) && labelled(e, "decompress"@)
    ||| exists|n: nat|
        {
            &&& n < out.len()
            &&& e == #[trigger] size_mismatch(out.len(), n)
            &&& decompresses(before, after, packet, out.len(), out.take(n as int))
        }
    ||| e == "decompressed data beyond expected size (stream desync)"@ && exists|withheld: u8|
        decompresses(before, after, packet, out.len() + 1, #[trigger] out.push(withheld))
}

/// Per-connection streaming decompression context.
pub struct DecompressStream {
    decoder: Decoder<'static>,
}

impl View for DecompressStream {
    type V = DecoderState;

    closed spec fn view(&self) -> DecoderState {
        decoder_state(self.decoder)
    }
}

impl DecompressStream {
    /// The decoder reads magicless frames.
    pub open spec fn wf(&self) -> bool {
        self@.magicless
    }

    /// A decoder that nothing has gone through.
    pub open spec fn is_fresh(&self) -> bool {
        self@ == fresh_decoder()
    }

    /// A fresh decoder.
    pub fn new() -> (r: Result<Self, ZstdError>)
        ensures
            r is Ok,
            r->Ok_0.is_fresh(),
            between_frames(r->Ok_0@),
    {
        match Self::build_decoder() {
            Ok(decoder) => Ok(Self { decoder }),
            Err(e) => Err(e),
        }
    }

    fn build_decoder() -> (r: Result<Decoder<'static>, ZstdError>)
        ensures
            r is Ok,
            decoder_state(r->Ok_0) == fresh_decoder(),
            magicless_decoding(Seq::<u8>::empty()) == Some((Seq::<u8>::empty(), true)),
    {
        let mut decoder = match decoder_new() {
            Ok(decoder) => decoder,
            Err(e) => return Err(map_err("create decoder", e)),
        };
        if let Err(e) = decoder_set_magicless(&mut decoder) {
            return Err(map_err("set magicless format", e));
        }
        Ok(decoder)
    }

    /// Decompress one message produced by [`CompressStream::compress`].
    /// `out` should be exactly the expected raw size; the produced size is
    /// returned and must equal it (a mismatch means the two sides desynced,
    /// e.g. after an uncoordinated reset).
    pub fn decompress(&mut self, input: &[u8], out: &mut [u8]) -> (r: Result<usize, ZstdError>)
        requires
            old(self).wf(),
        ensures
            final(self).wf(),
            final(out).len() == old(out).len(),
            old(self)@.failed ==> r is Err && final(self)@.failed,
            r matches Ok(n) ==> n <= final(out).len() && decompresses(
                old(self)@,
                final(self)@,
                input@,
                final(out).len() as nat,
                final(out)@.take(n as int),
            ),
            r matches Err(e) ==> decompress_failure(
                old(self)@,
                final(self)@,
                input@,
                final(out)@,
                e@,
            ),
            input.len() == 0 ==> (r matches Err(e) ==> final(self)@.failed),
            r is Ok && input.len() > 0 ==> final(self)@.idle == 0,
            r is Ok && input.len() == 0 ==> final(self)@.idle <= old(self)@.idle + 1,
    {
        let mut in_pos: usize = 0;
        let mut out_pos: usize = 0;
        let ghost s0 = self@;
        // Run at least once, even with empty input: decompress_exact relies on
        // an empty-input run to flush bytes withheld in the decoder.
        loop
            invariant
                old(self)@ == s0,
                self.wf(),
                s0.magicless,
                self@.failed == s0.failed,
                self@.in_step == s0.in_step,
                in_pos <= input.len(),
                out_pos <= out.len(),
                out.len() == old(out).len(),
                in_pos < input.len() || in_pos == 0,
                out_pos < out.len() || out_pos == 0,
                self@.fed == s0.fed + input@.take(in_pos as int),
                self@.emitted == s0.emitted + out@.take(out_pos as int),
                self@ != s0 && s0.in_step ==> (content(self@.fed) matches Some(bytes)
                    ==> self@.emitted == bytes),
                self@ == s0 && in_pos == 0 && out_pos == 0 || in_pos < input.len() && out_pos
                    < out.len() && self@.idle == 0 && !s0.failed,
                self@.rejected == s0.rejected,
            decreases input.len() - in_pos, out.len() - out_pos,
        {
            let ghost out_before = out@;
            let ghost step_before = self@;
            let ghost step_in_pos = in_pos;
            let (i, o) = match decoder_run(&mut self.decoder, input, in_pos, out, out_pos) {
                Ok(positions) => positions,
                Err(e) => {
                    proof {
                        assert(out@.take(out_pos as int) == out_before.take(out_pos as int));
                        assert(step_before.fed + input@.skip(in_pos as int) =~= s0.fed + input@);
                        assert(s0.fed =~= s0.fed + input@.take(0));
                        assert(s0.emitted =~= s0.emitted + out@.take(0));
                        assert(input@.take(in_pos as int).len() == in_pos);
                        assert(self@ =~= (DecoderState {
                            started: true,
                            failed: true,
                            fed: s0.fed + input@.take(in_pos as int),
                            emitted: s0.emitted + out@.take(out_pos as int),
                            idle: self@.idle,
                            rejected: if s0.failed {
                                s0.rejected
                            } else {
                                input@.skip(in_pos as int)
                            },
                            ..s0
                        }));
                        assert(rejected_at(s0, self@, input@, out@));
                    }
                    return Err(map_err("decompress", e));
                },
            };
            proof {
                lemma_take_extends(s0.fed, input@, input@, in_pos as int, i as int);
                lemma_take_extends(s0.emitted, out_before, out@, out_pos as int, o as int);
            }
            in_pos = i;
            out_pos = o;
            if in_pos >= input.len() {
                assert(input@.take(in_pos as int) == input@);
                assert(self@ =~= (DecoderState {
                    started: true,
                    fed: s0.fed + input@,
                    emitted: s0.emitted + out@.take(out_pos as int),
                    idle: self@.idle,
                    ..s0
                }));
                return Ok(out_pos);
            }
            if out_pos == out.len() {
                assert(out@.take(out_pos as int) == out@);
                assert(self@ =~= (DecoderState {
                    started: true,
                    in_step: false,
                    fed: s0.fed + input@.take(in_pos as int),
                    emitted: s0.emitted + out@,
                    idle: self@.idle,
                    ..s0
                }));
                assert(step_before.fed + input@.skip(step_in_pos as int) =~= s0.fed + input@);
                assert(s0.in_step ==> stopped_short(s0, self@, input@));
                return Err(ZstdError::of("output buffer too small"));
            }
        }
    }

    /// [`decompress`](Self::decompress) with the exact-size semantics the
    /// offload protocol requires: the request carries the expected raw size,
    /// so anything but an exact fill of `out` is a desync and an error.
    pub fn decompress_exact(&mut self, input: &[u8], out: &mut [u8]) -> (r: Result<(), ZstdError>)
        requires
            old(self).wf(),
        ensures
            final(self).wf(),
            final(out).len() == old(out).len(),
            old(self)@.failed ==> r is Err && final(self)@.failed,
            r is Ok ==> decompresses(
                old(self)@,
                final(self)@,
                input@,
                (final(out).len() + 1) as nat,
                final(out)@,
            ),
            r matches Err(e) ==> exact_failure(
                old(self)@,
                final(self)@,
                input@,
                final(out)@,
                e@,
            ),
    {
        let ghost s0 = self@;
        let produced = match self.decompress(input, out) {
            Ok(n) => n,
            Err(e) => return Err(e),
        };
        if produced != out.len() {
            let mut text: String = "decompressed size mismatch: expected ".to_owned();
            push_decimal(&mut text, out.len() as u64);
            text.append(", got ");
            push_decimal(&mut text, produced as u64);
            text.append(" (stream desync)");
            assert(text@ == size_mismatch(out.len() as nat, produced as nat));
            return Err(ZstdError(text));
        }
        assert(out@.take(produced as int) == out@);
        // The decoder may have consumed the whole input into its internal
        // buffer even after the output filled, silently withholding
        // decompressed bytes that would corrupt the next message. Probe with
        // empty input: any further output means the frame produced more than
        // the expected raw size.
        let ghost s1 = self@;
        let mut probe = [0u8;1];
        let withheld = match self.decompress(&[], &mut probe) {
            Ok(n) => n,
            Err(e) => {
                proof {
                    let none = Seq::<u8>::empty();
                    assert(s1.fed + none =~= s0.fed + input@);
                    assert(none.take(0) =~= none && none.skip(0) =~= none);
                    assert(s1.emitted + probe@.take(0) =~= s1.emitted);
                    assert(self@ =~= (DecoderState {
                        started: true,
                        failed: true,
                        fed: s0.fed + input@,
                        emitted: s0.emitted + out@,
                        idle: self@.idle,
                        rejected: Seq::empty(),
                        ..s0
                    }));
                    assert(failed_when_asked(s0, self@, input@, out@));
                }
                return Err(e);
            },
        };
        assert(s1.fed + Seq::<u8>::empty() =~= s0.fed + input@);
        if withheld != 0 {
            assert(self@.emitted =~= s0.emitted + out@.push(probe[0]));
            return Err(ZstdError::of("decompressed data beyond expected size (stream desync)"));
        }
        assert(self@.emitted =~= s0.emitted + out@);
        Ok(())
    }

    /// Start over with a fresh decoder.
    pub fn reset(&mut self) -> (r: Result<(), ZstdError>)
        ensures
            r is Ok,
            final(self).is_fresh(),
            between_frames(final(self)@),
    {
        match Self::build_decoder() {
            Ok(decoder) => {
                self.decoder = decoder;
                Ok(())
            },
            Err(e) => Err(e),
        }
    }
}

/// The decoder has been given what the encoder emitted, and has written what the
/// encoder was fed.
pub open spec fn paired(enc: EncoderState, dec: DecoderState) -> bool {
    dec.in_step && dec.fed == enc.emitted && dec.emitted == enc.fed
}

/// Two fresh streams are paired, be they new or just reset on both sides.
pub proof fn law_fresh_streams_are_paired(
    compressing: CompressStream,
    decompressing: DecompressStream,
    level: int,
    window_log: int,
)
    requires
        compressing.is_fresh(level, window_log),
        decompressing.is_fresh(),
    ensures
        paired(compressing@, decompressing@),
{
}

/// What came of compressing `message` with `out` to write to: how many bytes were
/// written at the start of `out`, or the error.
pub open spec fn compress_outcome(
    before: EncoderState,
    after: EncoderState,
    message: Seq<u8>,
    out: Seq<u8>,
    r: Result<nat, Seq<char>>,
) -> bool {
    match r {
        Ok(n) => n <= out.len() && compresses(before, after, message, out.take(n as int)),
        Err(e) => compress_failure(before, after, message, out, e),
    }
}

/// A buffer of the bound's size is always large enough: a stream of which nothing is
/// left to be flushed, and that has not failed, compresses any message into it,
/// unless zstd itself fails. Then nothing is left to be flushed again.
pub proof fn law_messages_fit_their_bound(
    before: EncoderState,
    after: EncoderState,
    message: Seq<u8>,
    out: Seq<u8>,
    r: Result<nat, Seq<char>>,
)
    requires
        before.unflushed == 0,
        out.len() >= message.len() + message.len() / 256 + (if message.len() < 131072 {
            (131072 - message.len()) / 2048
        } else {
            0
        }),
        compress_outcome(before, after, message, out, r),
    ensures
        r is Err ==> failed_at(before, after, message, out),
        r is Err ==> after.failed,
        !after.failed ==> r is Ok && after.unflushed == 0,
        r matches Ok(n) ==> n <= message.len() + message.len() / 256 + 64,
{
}

/// A stream never runs short of room: as long as zstd itself does not fail, message
/// after message fits a buffer of its bound's size. `encs` are the states of the
/// stream before each message and after the last.
pub proof fn law_streams_never_run_short(
    encs: Seq<EncoderState>,
    messages: Seq<Seq<u8>>,
    outs: Seq<Seq<u8>>,
    results: Seq<Result<nat, Seq<char>>>,
)
    requires
        encs.len() == messages.len() + 1,
        outs.len() == messages.len(),
        results.len() == messages.len(),
        encs[0].unflushed == 0,
        forall|i: int|
            0 <= i < messages.len() ==> compress_outcome(
                encs[i],
                encs[i + 1],
                #[trigger] messages[i],
                outs[i],
                results[i],
            ) && outs[i].len() >= bound_of(messages[i].len() as int) && !encs[i + 1].failed,
    ensures
        forall|i: int| 0 <= i < messages.len() ==> #[trigger] results[i] is Ok,
        encs.last().unflushed == 0,
    decreases messages.len(),
{
    if messages.len() > 0 {
        let n = messages.len() - 1;
        let earlier = messages.drop_last();
        assert forall|i: int| 0 <= i < n implies compress_outcome(
            encs.drop_last()[i],
            encs.drop_last()[i + 1],
            #[trigger] earlier[i],
            outs.drop_last()[i],
            results.drop_last()[i],
        ) && outs.drop_last()[i].len() >= bound_of(earlier[i].len() as int)
            && !encs.drop_last()[i + 1].failed by {
            assert(earlier[i] == messages[i]);
        }
        law_streams_never_run_short(
            encs.drop_last(),
            earlier,
            outs.drop_last(),
            results.drop_last(),
        );
        assert(messages[n] == messages.last());
        law_messages_fit_their_bound(encs[n], encs[n + 1], messages[n], outs[n], results[n]);
        assert forall|i: int| 0 <= i < messages.len() implies #[trigger] results[i] is Ok by {
            if i < n {
                assert(results.drop_last()[i] == results[i]);
            }
        }
    }
}

/// Paired streams give every message back: what one side makes of a message, the
/// other decodes to that message as long as it has room for it, and the streams
/// stay paired, with nothing left to write.
pub proof fn law_message_round_trip(
    enc_before: EncoderState,
    enc_after: EncoderState,
    dec_before: DecoderState,
    dec_after: DecoderState,
    message: Seq<u8>,
    packet: Seq<u8>,
    room: nat,
    produced: Seq<u8>,
)
    requires
        paired(enc_before, dec_before),
        compresses(enc_before, enc_after, message, packet),
        decompresses(dec_before, dec_after, packet, room, produced),
        message.len() <= room,
    ensures
        produced == message,
        paired(enc_after, dec_after),
        caught_up(dec_after),
{
    let bytes = enc_before.fed + message;
    assert(content(dec_after.fed) == Some(bytes));
    lemma_same_tail(enc_before.fed, message, produced, room);
}

/// What extends `base` to a prefix of `base + message` is a prefix of `message`;
/// it is all of it if it ends short of a room that holds the message, or fills
/// such a room.
proof fn lemma_same_tail(base: Seq<u8>, message: Seq<u8>, produced: Seq<u8>, room: nat)
    requires
        (base + produced).is_prefix_of(base + message),
        produced.len() < room ==> base + produced == base + message,
        message.len() <= room,
    ensures
        produced == message,
{
    assert(produced.len() <= message.len());
    assert forall|i: int| 0 <= i < produced.len() implies produced[i] == message[i] by {
        assert((base + produced)[base.len() + i] == (base + message)[base.len() + i]);
    }
    if produced.len() < room {
        assert((base + produced).len() == (base + message).len());
    }
    assert(produced =~= message);
}

/// A whole conversation over paired streams comes back message by message, in
/// order. `encs` and `decs` are the states of the two streams before each
/// message and after the last.
pub proof fn law_conversation_round_trip(
    encs: Seq<EncoderState>,
    decs: Seq<DecoderState>,
    messages: Seq<Seq<u8>>,
    packets: Seq<Seq<u8>>,
    rooms: Seq<nat>,
    outputs: Seq<Seq<u8>>,
)
    requires
        encs.len() == messages.len() + 1,
        decs.len() == messages.len() + 1,
        packets.len() == messages.len(),
        rooms.len() == messages.len(),
        outputs.len() == messages.len(),
        paired(encs[0], decs[0]),
        forall|i: int|
            0 <= i < messages.len() ==> compresses(
                encs[i],
                encs[i + 1],
                #[trigger] messages[i],
                packets[i],
            ) && decompresses(decs[i], decs[i + 1], packets[i], rooms[i], outputs[i])
                && messages[i].len() <= rooms[i],
    ensures
        outputs == messages,
        paired(encs.last(), decs.last()),
    decreases messages.len(),
{
    if messages.len() > 0 {
        let n = messages.len() - 1;
        assert forall|i: int| 0 <= i < n implies compresses(
            encs.drop_last()[i],
            encs.drop_last()[i + 1],
            #[trigger] messages.drop_last()[i],
            packets.drop_last()[i],
        ) && decompresses(
            decs.drop_last()[i],
            decs.drop_last()[i + 1],
            packets.drop_last()[i],
            rooms.drop_last()[i],
            outputs.drop_last()[i],
        ) && messages.drop_last()[i].len() <= rooms.drop_last()[i] by {
            assert(messages.drop_last()[i] == messages[i]);
        }
        law_conversation_round_trip(
            encs.drop_last(),
            decs.drop_last(),
            messages.drop_last(),
            packets.drop_last(),
            rooms.drop_last(),
            outputs.drop_last(),
        );
        assert(messages[n] == messages.last());
        law_message_round_trip(
            encs[n],
            encs[n + 1],
            decs[n],
            decs[n + 1],
            messages[n],
            packets[n],
            rooms[n],
            outputs[n],
        );
        assert(outputs =~= outputs.drop_last().push(outputs[n]));
        assert(messages =~= messages.drop_last().push(messages[n]));
    }
}

/// One-shot frames decode through a streaming decoder, message by message: a
/// decoder between frames gives the message back as long as it has room for it,
/// and is between frames again.
pub proof fn law_oneshot_round_trip(
    dec_before: DecoderState,
    dec_after: DecoderState,
    message: Seq<u8>,
    frame: Seq<u8>,
    room: nat,
    produced: Seq<u8>,
)
    requires
        between_frames(dec_before),
        frame_of(frame, message),
        decompresses(dec_before, dec_after, frame, room, produced),
        message.len() <= room,
    ensures
        produced == message,
        between_frames(dec_after),
{
    assert(whole_frames(dec_before.fed));
    assert(magicless_decoding(dec_before.fed + frame) == Some((dec_before.emitted + message, true)));
    lemma_same_tail(dec_before.emitted, message, produced, room);
}

/// What came of giving `packet` to a decoder with `out` to write to: how many bytes
/// it wrote at the start of `out`, or the error.
pub open spec fn decompress_outcome(
    before: DecoderState,
    after: DecoderState,
    packet: Seq<u8>,
    out: Seq<u8>,
    r: Result<nat, Seq<char>>,
) -> bool {
    match r {
        Ok(n) => n <= out.len() && decompresses(
            before,
            after,
            packet,
            out.len(),
            out.take(n as int),
        ),
        Err(e) => decompress_failure(before, after, packet, out, e),
    }
}

/// The decoder has written all that its input decodes to.
pub open spec fn caught_up(state: DecoderState) -> bool {
    content(state.fed) == Some(state.emitted)
}

/// A message comes back at once: over paired streams, a decoder that has caught up
/// and is given a buffer of the message's size fills it with the message, unless
/// zstd itself fails. It has caught up again then, and the streams stay paired.
pub proof fn law_message_comes_back(
    enc_before: EncoderState,
    enc_after: EncoderState,
    dec_before: DecoderState,
    dec_after: DecoderState,
    message: Seq<u8>,
    packet: Seq<u8>,
    out: Seq<u8>,
    r: Result<nat, Seq<char>>,
)
    requires
        paired(enc_before, dec_before),
        caught_up(dec_before),
        compresses(enc_before, enc_after, message, packet),
        decompress_outcome(dec_before, dec_after, packet, out, r),
        out.len() == message.len(),
        !dec_after.failed,
    ensures
        r == Ok::<nat, Seq<char>>(message.len()),
        out == message,
        paired(enc_after, dec_after),
        caught_up(dec_after),
{
    match r {
        Ok(n) => {
            law_message_round_trip(
                enc_before,
                enc_after,
                dec_before,
                dec_after,
                message,
                packet,
                out.len(),
                out.take(n as int),
            );
            assert(out.take(n as int) =~= out);
        },
        Err(e) => {
            assert(exact_failure(dec_before, dec_after, packet, out, e));
            law_exact_refuses_no_true_size(
                enc_before,
                enc_after,
                dec_before,
                dec_after,
                message,
                packet,
                out,
                e,
            );
        },
    }
}

/// A reset on both sides starts both afresh, whatever went before, even if the two
/// had lost each other: the next message comes back, unless zstd itself fails.
/// `compressing` and `decompressing` are the streams as a reset leaves them.
pub proof fn law_paired_reset_starts_afresh(
    compressing: CompressStream,
    decompressing: DecompressStream,
    level: int,
    window_log: int,
    enc_after: EncoderState,
    dec_after: DecoderState,
    message: Seq<u8>,
    packet: Seq<u8>,
    out: Seq<u8>,
    r: Result<nat, Seq<char>>,
)
    requires
        compressing.is_fresh(level, window_log),
        decompressing.is_fresh(),
        between_frames(decompressing@),
        compresses(compressing@, enc_after, message, packet),
        decompress_outcome(decompressing@, dec_after, packet, out, r),
        out.len() == message.len(),
        !dec_after.failed,
    ensures
        r == Ok::<nat, Seq<char>>(message.len()),
        out == message,
        paired(enc_after, dec_after),
        caught_up(dec_after),
{
    law_fresh_streams_are_paired(compressing, decompressing, level, window_log);
    law_message_comes_back(
        compressing@,
        enc_after,
        decompressing@,
        dec_after,
        message,
        packet,
        out,
        r,
    );
}

/// A whole conversation comes back as it goes along, each message without any
/// later one, unless zstd itself fails. `encs` and `decs` are the states of the two
/// streams before each message and after the last.
pub proof fn law_conversation_comes_back(
    encs: Seq<EncoderState>,
    decs: Seq<DecoderState>,
    messages: Seq<Seq<u8>>,
    packets: Seq<Seq<u8>>,
    outs: Seq<Seq<u8>>,
    results: Seq<Result<nat, Seq<char>>>,
)
    requires
        encs.len() == messages.len() + 1,
        decs.len() == messages.len() + 1,
        packets.len() == messages.len(),
        outs.len() == messages.len(),
        results.len() == messages.len(),
        paired(encs[0], decs[0]),
        caught_up(decs[0]),
        forall|i: int|
            0 <= i < messages.len() ==> compresses(
                encs[i],
                encs[i + 1],
                #[trigger] messages[i],
                packets[i],
            ) && decompress_outcome(decs[i], decs[i + 1], packets[i], outs[i], results[i])
                && outs[i].len() == messages[i].len() && !decs[i + 1].failed,
    ensures
        outs == messages,
        forall|i: int|
            0 <= i < messages.len() ==> results[i] == Ok::<nat, Seq<char>>(
                (#[trigger] messages[i]).len(),
            ),
        paired(encs.last(), decs.last()),
        caught_up(decs.last()),
    decreases messages.len(),
{
    if messages.len() > 0 {
        let n = messages.len() - 1;
        let earlier = messages.drop_last();
        assert forall|i: int| 0 <= i < n implies compresses(
            encs.drop_last()[i],
            encs.drop_last()[i + 1],
            #[trigger] earlier[i],
            packets.drop_last()[i],
        ) && decompress_outcome(
            decs.drop_last()[i],
            decs.drop_last()[i + 1],
            packets.drop_last()[i],
            outs.drop_last()[i],
            results.drop_last()[i],
        ) && outs.drop_last()[i].len() == earlier[i].len() && !decs.drop_last()[i + 1].failed by {
            assert(earlier[i] == messages[i]);
        }
        law_conversation_comes_back(
            encs.drop_last(),
            decs.drop_last(),
            earlier,
            packets.drop_last(),
            outs.drop_last(),
            results.drop_last(),
        );
        assert(messages[n] == messages.last());
        law_message_comes_back(
            encs[n],
            encs[n + 1],
            decs[n],
            decs[n + 1],
            messages[n],
            packets[n],
            outs[n],
            results[n],
        );
        assert(outs =~= outs.drop_last().push(outs[n]));
        assert(messages =~= earlier.push(messages[n]));
        assert forall|i: int| 0 <= i < messages.len() implies results[i] == Ok::<nat, Seq<char>>(
            (#[trigger] messages[i]).len(),
        ) by {
            if i < n {
                assert(earlier[i] == messages[i]);
                assert(results.drop_last()[i] == results[i]);
            }
        }
    }
}

/// A frame of its own comes back at once: a decoder between frames that is given a
/// buffer of the message's size fills it with the message, unless zstd itself
/// fails, and is between frames again.
pub proof fn law_oneshot_comes_back(
    dec_before: DecoderState,
    dec_after: DecoderState,
    message: Seq<u8>,
    frame: Seq<u8>,
    out: Seq<u8>,
    r: Result<nat, Seq<char>>,
)
    requires
        between_frames(dec_before),
        frame_of(frame, message),
        decompress_outcome(dec_before, dec_after, frame, out, r),
        out.len() == message.len(),
        !dec_after.failed,
    ensures
        r == Ok::<nat, Seq<char>>(message.len()),
        out == message,
        between_frames(dec_after),
{
    match r {
        Ok(n) => {
            law_oneshot_round_trip(
                dec_before,
                dec_after,
                message,
                frame,
                out.len(),
                out.take(n as int),
            );
            assert(out.take(n as int) =~= out);
        },
        Err(e) => {
            assert(exact_failure(dec_before, dec_after, frame, out, e));
            law_exact_refuses_no_true_oneshot_size(dec_before, dec_after, message, frame, out, e);
        },
    }
}

/// Compressing at one go carries nothing over: the bytes are those that a fresh
/// stream of the same level and window makes of the message with the same room,
/// and the stream is left as it was.
pub proof fn law_oneshot_carries_nothing_over(
    before: EncoderState,
    after: EncoderState,
    fresh_after: EncoderState,
    message: Seq<u8>,
    room: nat,
    frame: Seq<u8>,
    fresh_frame: Seq<u8>,
    level: int,
    window_log: int,
)
    requires
        before.settings == Settings::offload(level, window_log),
        compresses_at_once(before, after, message, room, frame),
        compresses_at_once(
            fresh_encoder(level, window_log),
            fresh_after,
            message,
            room,
            fresh_frame,
        ),
    ensures
        frame == fresh_frame,
        after == before,
{
}

/// Frames of their own, fed one after another to one decoder, each come back,
/// unless zstd itself fails. `decs` are the states of the decoder before each frame
/// and after the last.
pub proof fn law_oneshot_conversation_comes_back(
    decs: Seq<DecoderState>,
    messages: Seq<Seq<u8>>,
    frames: Seq<Seq<u8>>,
    outs: Seq<Seq<u8>>,
    results: Seq<Result<nat, Seq<char>>>,
)
    requires
        decs.len() == messages.len() + 1,
        frames.len() == messages.len(),
        outs.len() == messages.len(),
        results.len() == messages.len(),
        between_frames(decs[0]),
        forall|i: int|
            0 <= i < messages.len() ==> frame_of(frames[i], #[trigger] messages[i])
                && decompress_outcome(decs[i], decs[i + 1], frames[i], outs[i], results[i])
                && outs[i].len() == messages[i].len() && !decs[i + 1].failed,
    ensures
        outs == messages,
        forall|i: int|
            0 <= i < messages.len() ==> results[i] == Ok::<nat, Seq<char>>(
                (#[trigger] messages[i]).len(),
            ),
        between_frames(decs.last()),
    decreases messages.len(),
{
    if messages.len() > 0 {
        let n = messages.len() - 1;
        let earlier = messages.drop_last();
        assert forall|i: int| 0 <= i < n implies frame_of(
            frames.drop_last()[i],
            #[trigger] earlier[i],
        ) && decompress_outcome(
            decs.drop_last()[i],
            decs.drop_last()[i + 1],
            frames.drop_last()[i],
            outs.drop_last()[i],
            results.drop_last()[i],
        ) && outs.drop_last()[i].len() == earlier[i].len() && !decs.drop_last()[i + 1].failed by {
            assert(earlier[i] == messages[i]);
        }
        law_oneshot_conversation_comes_back(
            decs.drop_last(),
            earlier,
            frames.drop_last(),
            outs.drop_last(),
            results.drop_last(),
        );
        assert(messages[n] == messages.last());
        law_oneshot_comes_back(
            decs[n],
            decs[n + 1],
            messages[n],
            frames[n],
            outs[n],
            results[n],
        );
        assert(outs =~= outs.drop_last().push(outs[n]));
        assert(messages =~= earlier.push(messages[n]));
        assert forall|i: int| 0 <= i < messages.len() implies results[i] == Ok::<nat, Seq<char>>(
            (#[trigger] messages[i]).len(),
        ) by {
            if i < n {
                assert(earlier[i] == messages[i]);
                assert(results.drop_last()[i] == results[i]);
            }
        }
    }
}

/// Exact decompression never takes a wrong size for success: over paired
/// streams, what [`DecompressStream::decompress_exact`] accepts is the message,
/// in full.
pub proof fn law_exact_means_the_message(
    enc_before: EncoderState,
    enc_after: EncoderState,
    dec_before: DecoderState,
    dec_after: DecoderState,
    message: Seq<u8>,
    packet: Seq<u8>,
    out: Seq<u8>,
)
    requires
        paired(enc_before, dec_before),
        compresses(enc_before, enc_after, message, packet),
        decompresses(dec_before, dec_after, packet, out.len() + 1, out),
    ensures
        out == message,
        paired(enc_after, dec_after),
        caught_up(dec_after),
{
    assert(content(dec_after.fed) == Some(enc_before.fed + message));
    assert(dec_after.emitted == enc_before.fed + message);
    assert((enc_before.fed + out).len() == (enc_before.fed + message).len());
    lemma_same_tail(enc_before.fed, message, out, out.len() + 1);
}

/// The same of one-shot frames: what a decoder between frames accepts as an exact
/// decompression is the message, in full, and it is between frames again.
pub proof fn law_exact_oneshot_means_the_message(
    dec_before: DecoderState,
    dec_after: DecoderState,
    message: Seq<u8>,
    frame: Seq<u8>,
    out: Seq<u8>,
)
    requires
        between_frames(dec_before),
        frame_of(frame, message),
        decompresses(dec_before, dec_after, frame, out.len() + 1, out),
    ensures
        out == message,
        between_frames(dec_after),
{
    assert(whole_frames(dec_before.fed));
    assert(magicless_decoding(dec_before.fed + frame) == Some((dec_before.emitted + message, true)));
    assert(dec_before.emitted + out == dec_before.emitted + message);
    assert((dec_before.emitted + out).len() == (dec_before.emitted + message).len());
    lemma_same_tail(dec_before.emitted, message, out, out.len() + 1);
}

/// Exact decompression raises no false alarm: over paired streams, a reported
/// size mismatch gives the message's true size, which is smaller than expected.
pub proof fn law_size_mismatch_is_genuine(
    enc_before: EncoderState,
    enc_after: EncoderState,
    dec_before: DecoderState,
    dec_after: DecoderState,
    message: Seq<u8>,
    packet: Seq<u8>,
    expected: nat,
    produced: Seq<u8>,
)
    requires
        paired(enc_before, dec_before),
        compresses(enc_before, enc_after, message, packet),
        decompresses(dec_before, dec_after, packet, expected, produced),
        produced.len() < expected,
    ensures
        produced == message,
        message.len() < expected,
{
    assert(content(dec_after.fed) == Some(enc_before.fed + message));
    assert(dec_after.emitted == enc_before.fed + message);
    assert((enc_before.fed + produced).len() == (enc_before.fed + message).len());
    lemma_same_tail(enc_before.fed, message, produced, expected);
}

/// Over paired streams, data beyond the expected size is reported only for a
/// message that is longer than expected.
pub proof fn law_data_beyond_is_genuine(
    enc_before: EncoderState,
    enc_after: EncoderState,
    dec_before: DecoderState,
    dec_after: DecoderState,
    message: Seq<u8>,
    packet: Seq<u8>,
    out: Seq<u8>,
    withheld: u8,
)
    requires
        paired(enc_before, dec_before),
        compresses(enc_before, enc_after, message, packet),
        decompresses(dec_before, dec_after, packet, out.len() + 1, out.push(withheld)),
    ensures
        out.push(withheld).is_prefix_of(message),
        out.len() < message.len(),
{
    let produced = out.push(withheld);
    assert(content(dec_after.fed) == Some(enc_before.fed + message));
    assert((enc_before.fed + produced).is_prefix_of(enc_before.fed + message));
    assert forall|i: int| 0 <= i < produced.len() implies produced[i] == message[i] by {
        assert((enc_before.fed + produced)[enc_before.fed.len() + i] == (enc_before.fed
            + message)[enc_before.fed.len() + i]);
    }
    assert(produced =~= message.take(produced.len() as int));
}

/// Exact decompression raises no false alarm at all: over paired streams whose
/// decoder has written all there was to write, a message announced with its true
/// size is refused only if zstd itself failed.
pub proof fn law_exact_refuses_no_true_size(
    enc_before: EncoderState,
    enc_after: EncoderState,
    dec_before: DecoderState,
    dec_after: DecoderState,
    message: Seq<u8>,
    packet: Seq<u8>,
    out: Seq<u8>,
    e: Seq<char>,
)
    requires
        paired(enc_before, dec_before),
        caught_up(dec_before),
        compresses(enc_before, enc_after, message, packet),
        exact_failure(dec_before, dec_after, packet, out, e),
        out.len() == message.len(),
    ensures
        dec_after.failed,
{
    if !dec_after.failed {
        if out_of_room(dec_before, dec_after, packet, out) {
            let taken = choose|taken: int|
                #![trigger packet.take(taken)]
                0 <= taken < packet.len() && dec_after == (DecoderState {
                    started: true,
                    in_step: false,
                    fed: dec_before.fed + packet.take(taken),
                    emitted: dec_before.emitted + out,
                    ..dec_before
                });
            assert(content(dec_before.fed + packet) == Some(enc_before.fed + message));
            assert(dec_after.fed =~= enc_after.emitted.take(dec_after.fed.len() as int));
            assert(!whole_frames(dec_after.fed));
        } else if exists|n: nat|
            {
                &&& n < out.len()
                &&& e == #[trigger] size_mismatch(out.len(), n)
                &&& decompresses(dec_before, dec_after, packet, out.len(), out.take(n as int))
            } {
            let n = choose|n: nat|
                {
                    &&& n < out.len()
                    &&& e == #[trigger] size_mismatch(out.len(), n)
                    &&& decompresses(dec_before, dec_after, packet, out.len(), out.take(n as int))
                };
            law_size_mismatch_is_genuine(
                enc_before,
                enc_after,
                dec_before,
                dec_after,
                message,
                packet,
                out.len(),
                out.take(n as int),
            );
        } else {
            let withheld = choose|withheld: u8|
                decompresses(
                    dec_before,
                    dec_after,
                    packet,
                    out.len() + 1,
                    #[trigger] out.push(withheld),
                );
            law_data_beyond_is_genuine(
                enc_before,
                enc_after,
                dec_before,
                dec_after,
                message,
                packet,
                out,
                withheld,
            );
        }
    }
}

/// What came of decompressing `packet` to exactly the size of `out`.
pub open spec fn exact_outcome(
    before: DecoderState,
    after: DecoderState,
    packet: Seq<u8>,
    out: Seq<u8>,
    r: Result<(), Seq<char>>,
) -> bool {
    match r {
        Ok(_) => decompresses(before, after, packet, out.len() + 1, out),
        Err(e) => exact_failure(before, after, packet, out, e),
    }
}

/// Exact decompression takes the true size alone: over paired streams whose decoder
/// has caught up, it succeeds exactly if the buffer has the message's size, unless
/// zstd itself fails, and then the buffer holds the message. Any shorter or longer
/// buffer is an error, never a silent truncation.
pub proof fn law_exact_takes_the_true_size_alone(
    enc_before: EncoderState,
    enc_after: EncoderState,
    dec_before: DecoderState,
    dec_after: DecoderState,
    message: Seq<u8>,
    packet: Seq<u8>,
    out: Seq<u8>,
    r: Result<(), Seq<char>>,
)
    requires
        paired(enc_before, dec_before),
        caught_up(dec_before),
        compresses(enc_before, enc_after, message, packet),
        exact_outcome(dec_before, dec_after, packet, out, r),
    ensures
        r is Ok ==> out == message,
        out.len() != message.len() ==> r is Err,
        out.len() == message.len() && !dec_after.failed ==> r is Ok,
{
    match r {
        Ok(_) => law_exact_means_the_message(
            enc_before,
            enc_after,
            dec_before,
            dec_after,
            message,
            packet,
            out,
        ),
        Err(e) => if out.len() == message.len() {
            law_exact_refuses_no_true_size(
                enc_before,
                enc_after,
                dec_before,
                dec_after,
                message,
                packet,
                out,
                e,
            );
        },
    }
}

/// A decoder fails only over its own stream: where zstd fails while a packet is
/// decompressed, what it rejected is the rest of what the decoder was given, behind
/// all that it had taken, and it was not worn out by steps with nothing to do.
pub proof fn law_only_the_stream_is_rejected(
    before: DecoderState,
    after: DecoderState,
    packet: Seq<u8>,
    out: Seq<u8>,
    r: Result<(), Seq<char>>,
)
    requires
        exact_outcome(before, after, packet, out, r),
        !before.failed,
        after.failed,
    ensures
        r is Err,
        after.fed + after.rejected == before.fed + packet,
        before.fed.is_prefix_of(after.fed),
        before.emitted.is_prefix_of(after.emitted),
        after.magicless == before.magicless,
        after.idle <= before.idle + 1,
{
    let e = r->Err_0;
    if rejected_at(before, after, packet, out) {
        let (taken, written) = choose|taken: int, written: int|
            #![trigger packet.take(taken), out.take(written)]
            0 <= taken <= packet.len() && 0 <= written <= out.len() && (taken < packet.len() || (
            packet.len() == 0 && written == 0)) && after == (DecoderState {
                started: true,
                failed: true,
                fed: before.fed + packet.take(taken),
                emitted: before.emitted + out.take(written),
                idle: after.idle,
                rejected: if before.failed {
                    before.rejected
                } else {
                    packet.skip(taken)
                },
                ..before
            });
        assert(packet.take(taken) + packet.skip(taken) =~= packet);
        assert(after.fed + after.rejected =~= before.fed + packet);
        assert(before.fed =~= after.fed.take(before.fed.len() as int));
        assert(before.emitted =~= after.emitted.take(before.emitted.len() as int));
    } else {
        assert(failed_when_asked(before, after, packet, out));
        assert(after.fed + after.rejected =~= before.fed + packet);
        assert(before.fed =~= after.fed.take(before.fed.len() as int));
        assert(before.emitted =~= after.emitted.take(before.emitted.len() as int));
    }
}

/// There is something in a packet if there was something in the message.
proof fn lemma_packets_carry_messages(
    enc_before: EncoderState,
    enc_after: EncoderState,
    dec_before: DecoderState,
    message: Seq<u8>,
    packet: Seq<u8>,
)
    requires
        paired(enc_before, dec_before),
        caught_up(dec_before),
        compresses(enc_before, enc_after, message, packet),
        message.len() > 0,
    ensures
        packet.len() > 0,
{
    if packet.len() == 0 {
        assert(enc_before.emitted + packet =~= enc_before.emitted);
        assert((enc_before.fed + message).len() > enc_before.fed.len());
    }
}

/// A stream that is under way does not fail: over paired streams, a decoder that has
/// written something, has not failed and has caught up decompresses the next message
/// to its true size, whatever the message is. The streams stay so.
pub proof fn law_streams_under_way_do_not_fail(
    enc_before: EncoderState,
    enc_after: EncoderState,
    dec_before: DecoderState,
    dec_after: DecoderState,
    message: Seq<u8>,
    packet: Seq<u8>,
    out: Seq<u8>,
    r: Result<(), Seq<char>>,
)
    requires
        paired(enc_before, dec_before),
        caught_up(dec_before),
        dec_before.magicless,
        !dec_before.failed,
        dec_before.emitted.len() > 0,
        compresses(enc_before, enc_after, message, packet),
        message.len() > 0,
        exact_outcome(dec_before, dec_after, packet, out, r),
        out.len() == message.len(),
    ensures
        r is Ok,
        out == message,
        paired(enc_after, dec_after),
        caught_up(dec_after),
        dec_after.magicless,
        !dec_after.failed,
        dec_after.emitted.len() > 0,
{
    lemma_packets_carry_messages(enc_before, enc_after, dec_before, message, packet);
    assert(goes_on_with(dec_before, packet, out.len() as int));
    match r {
        Ok(_) => law_exact_means_the_message(
            enc_before,
            enc_after,
            dec_before,
            dec_after,
            message,
            packet,
            out,
        ),
        Err(e) => law_exact_refuses_no_true_size(
            enc_before,
            enc_after,
            dec_before,
            dec_after,
            message,
            packet,
            out,
            e,
        ),
    }
}

/// A whole conversation over streams that are under way comes back, message by
/// message, and nothing fails. `encs` and `decs` are the states of the two streams
/// before each message and after the last.
pub proof fn law_conversations_under_way_do_not_fail(
    encs: Seq<EncoderState>,
    decs: Seq<DecoderState>,
    messages: Seq<Seq<u8>>,
    packets: Seq<Seq<u8>>,
    outs: Seq<Seq<u8>>,
    results: Seq<Result<(), Seq<char>>>,
)
    requires
        encs.len() == messages.len() + 1,
        decs.len() == messages.len() + 1,
        packets.len() == messages.len(),
        outs.len() == messages.len(),
        results.len() == messages.len(),
        paired(encs[0], decs[0]),
        caught_up(decs[0]),
        decs[0].magicless,
        !decs[0].failed,
        decs[0].emitted.len() > 0,
        forall|i: int|
            0 <= i < messages.len() ==> compresses(
                encs[i],
                encs[i + 1],
                #[trigger] messages[i],
                packets[i],
            ) && exact_outcome(decs[i], decs[i + 1], packets[i], outs[i], results[i])
                && outs[i].len() == messages[i].len() && messages[i].len() > 0,
    ensures
        outs == messages,
        forall|i: int| 0 <= i < messages.len() ==> #[trigger] results[i] is Ok,
        paired(encs.last(), decs.last()),
        caught_up(decs.last()),
        decs.last().magicless,
        !decs.last().failed,
        decs.last().emitted.len() > 0,
    decreases messages.len(),
{
    if messages.len() > 0 {
        let n = messages.len() - 1;
        let earlier = messages.drop_last();
        assert forall|i: int| 0 <= i < n implies compresses(
            encs.drop_last()[i],
            encs.drop_last()[i + 1],
            #[trigger] earlier[i],
            packets.drop_last()[i],
        ) && exact_outcome(
            decs.drop_last()[i],
            decs.drop_last()[i + 1],
            packets.drop_last()[i],
            outs.drop_last()[i],
            results.drop_last()[i],
        ) && outs.drop_last()[i].len() == earlier[i].len() && earlier[i].len() > 0 by {
            assert(earlier[i] == messages[i]);
        }
        law_conversations_under_way_do_not_fail(
            encs.drop_last(),
            decs.drop_last(),
            earlier,
            packets.drop_last(),
            outs.drop_last(),
            results.drop_last(),
        );
        assert(messages[n] == messages.last());
        law_streams_under_way_do_not_fail(
            encs[n],
            encs[n + 1],
            decs[n],
            decs[n + 1],
            messages[n],
            packets[n],
            outs[n],
            results[n],
        );
        assert(outs =~= outs.drop_last().push(outs[n]));
        assert(messages =~= earlier.push(messages[n]));
        assert forall|i: int| 0 <= i < messages.len() implies #[trigger] results[i] is Ok by {
            if i < n {
                assert(results.drop_last()[i] == results[i]);
            }
        }
    }
}

/// The same of one-shot frames: a decoder between frames refuses a message
/// announced with its true size only if zstd itself failed.
pub proof fn law_exact_refuses_no_true_oneshot_size(
    dec_before: DecoderState,
    dec_after: DecoderState,
    message: Seq<u8>,
    frame: Seq<u8>,
    out: Seq<u8>,
    e: Seq<char>,
)
    requires
        between_frames(dec_before),
        frame_of(frame, message),
        exact_failure(dec_before, dec_after, frame, out, e),
        out.len() == message.len(),
    ensures
        dec_after.failed,
{
    assert(whole_frames(dec_before.fed));
    assert(magicless_decoding(dec_before.fed + frame) == Some((dec_before.emitted + message, true)));
    if !dec_after.failed {
        if out_of_room(dec_before, dec_after, frame, out) {
            let taken = choose|taken: int|
                #![trigger frame.take(taken)]
                0 <= taken < frame.len() && dec_after == (DecoderState {
                    started: true,
                    in_step: false,
                    fed: dec_before.fed + frame.take(taken),
                    emitted: dec_before.emitted + out,
                    ..dec_before
                });
            assert(taken > 0 ==> !whole_frames(dec_before.fed + frame.take(taken)));
        } else if exists|n: nat|
            {
                &&& n < out.len()
                &&& e == #[trigger] size_mismatch(out.len(), n)
                &&& decompresses(dec_before, dec_after, frame, out.len(), out.take(n as int))
            } {
            let n = choose|n: nat|
                {
                    &&& n < out.len()
                    &&& e == #[trigger] size_mismatch(out.len(), n)
                    &&& decompresses(dec_before, dec_after, frame, out.len(), out.take(n as int))
                };
            assert((dec_before.emitted + out.take(n as int)).len() == (dec_before.emitted
                + message).len());
        } else {
            let withheld = choose|withheld: u8|
                decompresses(
                    dec_before,
                    dec_after,
                    frame,
                    out.len() + 1,
                    #[trigger] out.push(withheld),
                );
            assert((dec_before.emitted + out.push(withheld)).len() <= (dec_before.emitted
                + message).len());
        }
    }
}

/// Streams are set up as asked, whatever the numbers: with just that level and just
/// that window, in frames that leave out the magic number and the content size.
pub proof fn law_streams_are_set_up_as_asked(level: int, window_log: int)
    ensures
        fresh_encoder(level, window_log).settings.level == level,
        fresh_encoder(level, window_log).settings.window_log == window_log,
        fresh_encoder(level, window_log).settings.magicless,
        !fresh_encoder(level, window_log).settings.content_size,
        !fresh_encoder(level, window_log).failed,
        fresh_encoder(level, window_log).fed == Seq::<u8>::empty(),
        fresh_encoder(level, window_log).unflushed == 0,
        fresh_decoder().magicless,
        !fresh_decoder().failed,
        fresh_decoder().in_step,
        fresh_decoder().fed == Seq::<u8>::empty(),
        fresh_decoder().emitted == Seq::<u8>::empty(),
{
}

/// The complaint about a size tells both sizes: it can be read back from it.
pub proof fn law_size_mismatches_tell_both_sizes(expected: u64, got: u64)
    ensures
        exists|a: Seq<char>, b: Seq<char>|
            size_mismatch(expected as nat, got as nat) == #[trigger] ((
            "decompressed size mismatch: expected "@ + a) + ((", got "@ + b)
                + " (stream desync)"@)) && spelled_int(a, 0, u64::MAX as int) == Some(
                expected as int,
            ) && spelled_int(b, 0, u64::MAX as int) == Some(got as int),
{
    let (a, b) = (decimal(expected as nat), decimal(got as nat));
    law_decimal_round_trip(expected as int, 0, u64::MAX as int);
    law_decimal_round_trip(got as int, 0, u64::MAX as int);
    assert(size_mismatch(expected as nat, got as nat) =~= ("decompressed size mismatch: expected "@
        + a) + ((", got "@ + b) + " (stream desync)"@));
}

/// A message is fed as a whole and flushed only then: whatever came of it, and
/// however small the buffer was, no flush was asked for within the message. A flush at
/// its end was asked for wherever it was taken in full.
pub proof fn law_messages_are_not_cut(
    before: EncoderState,
    after: EncoderState,
    message: Seq<u8>,
    out: Seq<u8>,
    r: Result<nat, Seq<char>>,
    at: nat,
)
    requires
        compress_outcome(before, after, message, out, r),
    ensures
        after.cuts.contains(at) ==> before.cuts.contains(at) || at == before.fed.len()
            + message.len(),
        before.cuts.contains(at) ==> after.cuts.contains(at),
        r is Ok ==> after.cuts.contains(before.fed.len() + message.len()),
        after.fed == before.fed + message ==> after.cuts.contains(
            before.fed.len() + message.len(),
        ),
{
    if let Err(e) = r {
        if failed_at(before, after, message, out) {
            let (taken, written) = choose|taken: int, written: int|
                #![trigger message.take(taken), out.take(written)]
                0 <= taken <= message.len() && 0 <= written <= out.len() && after == (EncoderState {
                    started: true,
                    failed: true,
                    fed: before.fed + message.take(taken),
                    emitted: before.emitted + out.take(written),
                    unflushed: after.unflushed,
                    cuts: cuts_after(before, message, taken),
                    ..before
                });
            assert(after.fed.len() == before.fed.len() + taken);
        } else {
            let taken = choose|taken: int|
                #![trigger message.take(taken)]
                0 <= taken <= message.len() && after == (EncoderState {
                    started: true,
                    fed: before.fed + message.take(taken),
                    emitted: before.emitted + out,
                    unflushed: after.unflushed,
                    cuts: cuts_after(before, message, taken),
                    ..before
                }) && (taken < message.len() || content(after.emitted) != Some(after.fed));
            assert(after.fed.len() == before.fed.len() + taken);
        }
    }
}

/// Errors of zstd begin with what was being done, and a colon and a blank set that
/// apart from the cause.
pub proof fn law_errors_tell_what_was_being_done(e: Seq<char>, op: Seq<char>)
    requires
        labelled(e, op),
    ensures
        e.len() >= op.len() + 2,
        e.subrange(0, op.len() as int) == op,
        e[op.len() as int] == ':',
        e[op.len() as int + 1] == ' ',
{
    reveal_strlit(": ");
    let cause = choose|cause: Seq<char>| e == #[trigger] (op + ": "@ + cause);
    assert(e.subrange(0, op.len() as int) =~= op);
}

} // verus!
