//! The boundary to the `zstd` crate.
//!
//! Every call into the crate stands in one wrapper below. A wrapper's contract
//! is taken as given; the rest of the library is proved on top of them.
//!
//! The crate's encoder, decoder and one-shot compressor are opaque values. What
//! the library needs to know of one is named by a state function
//! ([`encoder_state`], [`decoder_state`], [`compressor_state`]), which records
//! the parameters that were set and the bytes that have gone in and come out.
//! What a byte stream decodes to is named by [`magicless_decoding`].

use vstd::prelude::*;
use zstd::bulk::Compressor;
use zstd::stream::raw::{Decoder, Encoder, InBuffer, Operation, OutBuffer};
use zstd::zstd_safe::{CParameter, DParameter, FrameFormat};

verus! {

/// The error type of the `zstd` crate's calls.
#[verifier::external_type_specification]
#[verifier::external_body]
pub struct ExIoError(std::io::Error);

/// The streaming encoder, `zstd::stream::raw::Encoder`.
#[verifier::external_type_specification]
#[verifier::external_body]
pub struct ExEncoder<'a>(Encoder<'a>);

/// The streaming decoder, `zstd::stream::raw::Decoder`.
#[verifier::external_type_specification]
#[verifier::external_body]
pub struct ExDecoder<'a>(Decoder<'a>);

/// The one-shot compressor, `zstd::bulk::Compressor`.
#[verifier::external_type_specification]
#[verifier::external_body]
pub struct ExCompressor<'a>(Compressor<'a>);

/// A compression parameter, as the library sets it.
pub enum Parameter {
    /// `CParameter::WindowLog`.
    WindowLog(u32),
    /// `CParameter::Format(FrameFormat::Magicless)`.
    MagiclessFormat,
    /// `CParameter::ContentSizeFlag`.
    ContentSizeFlag(bool),
}

/// The parameters a compressing context has been given.
pub ghost struct Settings {
    pub level: int,
    /// 0 leaves the window to zstd.
    pub window_log: int,
    /// Whether frames leave out the zstd magic number.
    pub magicless: bool,
    /// Whether frame headers carry the content size when it is known.
    pub content_size: bool,
}

impl Settings {
    /// What a new context of compression level `level` is set to.
    pub open spec fn fresh(level: int) -> Settings {
        Settings { level, window_log: 0, magicless: false, content_size: true }
    }

    /// These settings after `p` has been set.
    pub open spec fn with(self, p: Parameter) -> Settings {
        match p {
            Parameter::WindowLog(v) => Settings { window_log: v as int, ..self },
            Parameter::MagiclessFormat => Settings { magicless: true, ..self },
            Parameter::ContentSizeFlag(flag) => Settings { content_size: flag, ..self },
        }
    }

    /// The settings of every stream of the offload service.
    pub open spec fn offload(level: int, window_log: int) -> Settings {
        Settings { level, window_log, magicless: true, content_size: false }
    }

    /// Whether frames are magicless and leave their content size out.
    pub open spec fn bare_frames(self) -> bool {
        self.magicless && !self.content_size
    }
}

/// Whether zstd takes `v` as a window log: 0, or 10 up to 31 (30 where
/// addresses have 32 bits).
pub open spec fn window_log_accepted(v: int) -> bool {
    v == 0 || 10 <= v <= (if usize::BITS == 64 { 31int } else { 30int })
}

/// Whether zstd takes the parameter `p`.
pub open spec fn accepted(p: Parameter) -> bool {
    match p {
        Parameter::WindowLog(v) => window_log_accepted(v as int),
        Parameter::MagiclessFormat => true,
        Parameter::ContentSizeFlag(_) => true,
    }
}

/// The history of a streaming encoder.
#[verifier::ext_equal]
pub ghost struct EncoderState {
    pub settings: Settings,
    /// Whether a step has been run; the settings are fixed from then on.
    pub started: bool,
    /// Whether a step has failed; every later step then fails too.
    pub failed: bool,
    /// The input bytes that successful steps have taken, in order.
    pub fed: Seq<u8>,
    /// The output bytes that successful steps have written, in order.
    pub emitted: Seq<u8>,
    /// The most bytes that flushing can write before anything more is fed.
    pub unflushed: nat,
    /// How many bytes had been fed when a flush was asked for, for each flush.
    pub cuts: Set<nat>,
}

/// The history of a streaming decoder.
#[verifier::ext_equal]
pub ghost struct DecoderState {
    /// Whether frames are read without the zstd magic number.
    pub magicless: bool,
    /// Whether a step has been run.
    pub started: bool,
    /// Whether a step has failed; every later step then fails too.
    pub failed: bool,
    /// Whether no step has yet filled its output with input left unread. After
    /// such a step the decoder may hold output of a byte it has not yet taken.
    pub in_step: bool,
    /// The input bytes that successful steps have taken, in order.
    pub fed: Seq<u8>,
    /// The output bytes that successful steps have written, in order.
    pub emitted: Seq<u8>,
    /// How many successful steps in a row have neither taken nor written anything.
    pub idle: nat,
    /// The input that the step was offered that failed; empty if none has.
    pub rejected: Seq<u8>,
}

/// The history of a one-shot compressor.
pub ghost struct CompressorState {
    pub settings: Settings,
    /// Whether it has been asked to compress anything yet.
    pub used: bool,
    /// The input and the room of the last call, if that call failed.
    pub refused: Option<(Seq<u8>, nat)>,
}

/// What an encoder has been through.
pub uninterp spec fn encoder_state(encoder: Encoder<'static>) -> EncoderState;

/// What a decoder has been through.
pub uninterp spec fn decoder_state(decoder: Decoder<'static>) -> DecoderState;

/// What a one-shot compressor has been through.
pub uninterp spec fn compressor_state(compressor: Compressor<'static>) -> CompressorState;

/// What the zstd format makes of `stream`, read as magicless frames.
///
/// `Some((content, whole))` where `stream` is the start of a sequence of
/// magicless frames that leave their content size out and use no dictionary:
/// `content` is every byte that can be decoded from `stream`, and `whole` says
/// whether `stream` ends where a frame ends. `None` for any other stream.
pub uninterp spec fn magicless_decoding(stream: Seq<u8>) -> Option<(Seq<u8>, bool)>;

/// The frame that a fresh one-shot compressor with the given settings makes of
/// `input` if it has `room` bytes to write it to.
pub uninterp spec fn bulk_frame(settings: Settings, input: Seq<u8>, room: nat) -> Seq<u8>;

/// zstd was asked to compress `message` at one go, with these settings and `room`
/// bytes to write to, and failed: there is a one-shot compressor that has refused it.
pub open spec fn refused_at_once(settings: Settings, message: Seq<u8>, room: nat) -> bool {
    exists|c: Compressor<'static>|
        #[trigger] compressor_state(c) == (CompressorState {
            settings,
            used: true,
            refused: Some((message, room)),
        })
}

/// The bytes that can be decoded from `stream`, if it is a magicless stream.
pub open spec fn content(stream: Seq<u8>) -> Option<Seq<u8>> {
    match magicless_decoding(stream) {
        Some((bytes, _)) => Some(bytes),
        None => None,
    }
}

/// Whether `stream` is a sequence of complete magicless frames.
pub open spec fn whole_frames(stream: Seq<u8>) -> bool {
    magicless_decoding(stream) matches Some((_, whole)) && whole
}

/// Whether no frame ends anywhere in `stream`.
pub open spec fn unended(stream: Seq<u8>) -> bool {
    forall|k: int| 0 < k <= stream.len() ==> !whole_frames(#[trigger] stream.take(k))
}

/// How a stream of magicless frames begins that leave out their content size, a
/// dictionary and a checksum: with a descriptor byte, which is 0 then, a byte for
/// the window and the three bytes in front of a block.
pub open spec fn bare_start(stream: Seq<u8>) -> bool {
    stream.len() >= 5 && stream[0] == 0
}

/// Why a decoder stopped with its output full and some of its input unread: there
/// is more to write, or a frame has ended. A frame cannot have ended without the
/// decoder taking input, unless some of its content was still to be written.
/// `input` is all the input that the decoder was offered.
pub open spec fn stopped_short(before: DecoderState, after: DecoderState, input: Seq<u8>) -> bool {
    content(before.fed + input) matches Some(bytes) ==> {
        &&& after.emitted.is_prefix_of(bytes)
        &&& {
            ||| after.emitted.len() < bytes.len()
            ||| {
                &&& whole_frames(after.fed)
                &&& {
                    ||| after.fed.len() > before.fed.len()
                    ||| content(before.fed) matches Some(pending) && pending.len()
                        > before.emitted.len()
                }
            }
        }
    }
}

/// Whether a decoder that is offered `input`, with `room` bytes to write to, has no
/// reason to fail. What it was fed and the input are magicless frames. Either it is
/// offered nothing, or it goes on with a frame of which it has written something,
/// and which has not ended and does not end in the input: zstd asks for memory only
/// where a frame begins. As zstd gives up on the sixteenth step in a row that moves
/// nothing, the step must not come close to that, or must have something to do.
pub open spec fn goes_on_with(state: DecoderState, input: Seq<u8>, room: int) -> bool {
    &&& state.magicless
    &&& !state.failed
    &&& state.in_step
    &&& content(state.fed + input) is Some
    &&& {
        ||| input.len() == 0 && state.idle < 15
        ||| {
            &&& state.emitted.len() > 0
            &&& unended(state.fed + input)
            &&& state.idle < 15 || (input.len() > 0 && room > 0)
        }
    }
}

/// The inputs that zstd can bound are shorter than this.
pub open spec fn max_input_size() -> int {
    if usize::BITS == 64 {
        0xFF00FF00FF00FF00
    } else {
        0xFF00FF00
    }
}

/// The most bytes a single-pass compression of `n` bytes can take.
pub open spec fn bound_of(n: int) -> int {
    n + n / 256 + (if n < 131072 {
        (131072 - n) / 2048
    } else {
        0
    })
}

/// What zstd answers for inputs it cannot bound: its "source size wrong" code.
pub open spec fn bound_error() -> int {
    usize::MAX - 71
}

/// Calls `zstd::zstd_safe::compress_bound`, which is C's `ZSTD_compressBound`:
/// the formula `bound_of` below [`max_input_size`], an error code from there on.
#[verifier::external_body]
pub(crate) fn call_compress_bound(src_size: usize) -> (r: usize)
    ensures
        r == (if src_size < max_input_size() {
            bound_of(src_size as int)
        } else {
            bound_error()
        }),
{
    zstd::zstd_safe::compress_bound(src_size)
}

/// Calls `zstd::stream::raw::Encoder::new`: a fresh encoder of the given level
/// and no dictionary. Setting a level clamps it and cannot fail; an empty
/// dictionary is no dictionary.
#[verifier::external_body]
pub(crate) fn encoder_new(level: i32) -> (r: Result<Encoder<'static>, std::io::Error>)
    ensures
        r is Ok,
        encoder_state(r->Ok_0) == (EncoderState {
            settings: Settings::fresh(level as int),
            started: false,
            failed: false,
            fed: Seq::empty(),
            emitted: Seq::empty(),
            unflushed: 0,
            cuts: Set::empty(),
        }),
{
    Encoder::new(level)
}

/// Calls `zstd::stream::raw::Encoder::set_parameter`. Before the first step it
/// takes exactly the [`accepted`] parameters; a refused one changes nothing.
#[verifier::external_body]
pub(crate) fn encoder_set_parameter(encoder: &mut Encoder<'static>, p: Parameter) -> (r: Result<
    (),
    std::io::Error,
>)
    ensures
        !encoder_state(*old(encoder)).started ==> (r is Ok <==> accepted(p)),
        r is Ok ==> encoder_state(*final(encoder)) == (EncoderState {
            settings: encoder_state(*old(encoder)).settings.with(p),
            ..encoder_state(*old(encoder))
        }),
        r is Err ==> encoder_state(*final(encoder)) == encoder_state(*old(encoder)),
{
    encoder.set_parameter(match p {
        Parameter::WindowLog(v) => CParameter::WindowLog(v),
        Parameter::MagiclessFormat => CParameter::Format(FrameFormat::Magicless),
        Parameter::ContentSizeFlag(flag) => CParameter::ContentSizeFlag(flag),
    })
}

/// Calls `run` of `zstd::stream::raw::Encoder`: one step that takes input from
/// `in_pos` on and writes output from `out_pos` on, and returns the two new
/// positions. It goes on until all input is taken or no room is left. What was
/// taken after everything was flushed, written now or by later flushes, stays
/// below the bound of zstd for inputs of that size: every block takes at most
/// three bytes more than its content, which the bound allows for each kilobyte. A
/// failed step takes and yields nothing, and fails every later one. Bytes of
/// `out` past the new position are left unspecified.
#[verifier::external_body]
pub(crate) fn encoder_run(
    encoder: &mut Encoder<'static>,
    input: &[u8],
    in_pos: usize,
    out: &mut [u8],
    out_pos: usize,
) -> (r: Result<(usize, usize), std::io::Error>)
    requires
        in_pos <= input.len(),
        out_pos <= old(out).len(),
    ensures
        final(out).len() == old(out).len(),
        final(out)@.take(out_pos as int) == old(out)@.take(out_pos as int),
        encoder_state(*old(encoder)).failed ==> r is Err,
        r matches Ok((i, o)) ==> {
            &&& in_pos <= i <= input.len()
            &&& out_pos <= o <= final(out).len()
            &&& in_pos < input.len() && out_pos < final(out).len() ==> in_pos < i || out_pos < o
            &&& i == input.len() || o == final(out).len()
            &&& encoder_state(*final(encoder)) == (EncoderState {
                started: true,
                fed: encoder_state(*old(encoder)).fed + input@.subrange(in_pos as int, i as int),
                emitted: encoder_state(*old(encoder)).emitted + final(out)@.subrange(
                    out_pos as int,
                    o as int,
                ),
                unflushed: encoder_state(*final(encoder)).unflushed,
                ..encoder_state(*old(encoder))
            })
            &&& encoder_state(*old(encoder)).unflushed == 0 ==> (o - out_pos) + encoder_state(
                *final(encoder),
            ).unflushed < bound_of(i - in_pos)
        },
        r is Err ==> encoder_state(*final(encoder)) == (EncoderState {
            started: true,
            failed: true,
            ..encoder_state(*old(encoder))
        }),
{
    let mut src = InBuffer::around(input);
    src.set_pos(in_pos);
    let mut dst = OutBuffer::around_pos(out, out_pos);
    encoder.run(&mut src, &mut dst)?;
    Ok((src.pos(), dst.pos()))
}

/// Calls `flush` of `zstd::stream::raw::Encoder`: writes pending output from
/// `out_pos` on, and returns how many bytes are still pending, at least, and
/// the new position. Where the flush was asked for is on record, whatever comes of
/// it. Output stays pending only if the buffer is full. What is written is no
/// longer left to be flushed, and nothing is when none is pending. When none is
/// pending, everything fed so far can be decoded from what was emitted, and there
/// is the start of a frame if anything was fed. What is pending is the end of a
/// block, so that something fed cannot be decoded yet. Steps and flushes never end
/// the frame.
#[verifier::external_body]
pub(crate) fn encoder_flush(encoder: &mut Encoder<'static>, out: &mut [u8], out_pos: usize) -> (r:
    Result<(usize, usize), std::io::Error>)
    requires
        out_pos <= old(out).len(),
    ensures
        final(out).len() == old(out).len(),
        final(out)@.take(out_pos as int) == old(out)@.take(out_pos as int),
        encoder_state(*old(encoder)).failed ==> r is Err,
        r matches Ok((pending, o)) ==> {
            &&& out_pos <= o <= final(out).len()
            &&& pending != 0 ==> o == final(out).len()
            &&& encoder_state(*final(encoder)) == (EncoderState {
                started: true,
                emitted: encoder_state(*old(encoder)).emitted + final(out)@.subrange(
                    out_pos as int,
                    o as int,
                ),
                unflushed: encoder_state(*final(encoder)).unflushed,
                cuts: encoder_state(*old(encoder)).cuts.insert(
                    encoder_state(*old(encoder)).fed.len(),
                ),
                ..encoder_state(*old(encoder))
            })
            &&& (o - out_pos) + encoder_state(*final(encoder)).unflushed <= encoder_state(
                *old(encoder),
            ).unflushed
            &&& pending == 0 <==> encoder_state(*final(encoder)).unflushed == 0
            &&& pending == 0 && encoder_state(*final(encoder)).settings.bare_frames() ==> content(
                encoder_state(*final(encoder)).emitted,
            ) == Some(encoder_state(*final(encoder)).fed)
            &&& pending != 0 && encoder_state(*final(encoder)).settings.bare_frames() ==> content(
                encoder_state(*final(encoder)).emitted,
            ) != Some(encoder_state(*final(encoder)).fed)
            &&& pending == 0 && encoder_state(*final(encoder)).settings.bare_frames()
                && encoder_state(*final(encoder)).fed.len() > 0 ==> bare_start(
                encoder_state(*final(encoder)).emitted,
            )
            &&& encoder_state(*final(encoder)).settings.bare_frames() ==> unended(
                encoder_state(*final(encoder)).emitted,
            )
        },
        r is Err ==> encoder_state(*final(encoder)) == (EncoderState {
            started: true,
            failed: true,
            cuts: encoder_state(*old(encoder)).cuts.insert(encoder_state(*old(encoder)).fed.len()),
            ..encoder_state(*old(encoder))
        }),
{
    let mut dst = OutBuffer::around_pos(out, out_pos);
    let pending = encoder.flush(&mut dst)?;
    Ok((pending, dst.pos()))
}

/// Calls `zstd::bulk::Compressor::new`: a fresh one-shot compressor of the given
/// level and no dictionary, which cannot fail for the reasons given at
/// [`encoder_new`].
#[verifier::external_body]
pub(crate) fn compressor_new(level: i32) -> (r: Result<Compressor<'static>, std::io::Error>)
    ensures
        r is Ok,
        compressor_state(r->Ok_0) == (CompressorState {
            settings: Settings::fresh(level as int),
            used: false,
            refused: None,
        }),
{
    Compressor::new(level)
}

/// Calls `zstd::bulk::Compressor::set_parameter`. On an unused compressor it
/// takes exactly the [`accepted`] parameters; a refused one changes nothing.
#[verifier::external_body]
pub(crate) fn compressor_set_parameter(
    compressor: &mut Compressor<'static>,
    p: Parameter,
) -> (r: Result<(), std::io::Error>)
    ensures
        !compressor_state(*old(compressor)).used ==> (r is Ok <==> accepted(p)),
        r is Ok ==> compressor_state(*final(compressor)) == (CompressorState {
            settings: compressor_state(*old(compressor)).settings.with(p),
            ..compressor_state(*old(compressor))
        }),
        r is Err ==> compressor_state(*final(compressor)) == compressor_state(*old(compressor)),
{
    compressor.set_parameter(match p {
        Parameter::WindowLog(v) => CParameter::WindowLog(v),
        Parameter::MagiclessFormat => CParameter::Format(FrameFormat::Magicless),
        Parameter::ContentSizeFlag(flag) => CParameter::ContentSizeFlag(flag),
    })
}

/// Calls `zstd::bulk::Compressor::compress_to_buffer`: writes `input` as one
/// complete frame to the start of `out` and returns the frame's length. Which
/// frame an unused compressor writes depends on its settings, the input and the
/// room alone. A magicless frame without a content size begins as in
/// [`bare_start`]. Put behind complete frames, it decodes to `input` behind their
/// content, and ends nowhere but at its own end. Whether the call succeeds also
/// rests on the memory there is; a compressor whose call failed has refused that
/// input for that room. Bytes of `out` past the frame are left unspecified.
#[verifier::external_body]
pub(crate) fn compressor_compress_to_buffer(
    compressor: &mut Compressor<'static>,
    input: &[u8],
    out: &mut [u8],
) -> (r: Result<usize, std::io::Error>)
    ensures
        final(out).len() == old(out).len(),
        compressor_state(*final(compressor)) == (CompressorState {
            used: true,
            refused: if r is Ok {
                None
            } else {
                Some((input@, final(out).len() as nat))
            },
            ..compressor_state(*old(compressor))
        }),
        r matches Ok(n) ==> n <= final(out).len(),
        r matches Ok(n) ==> (!compressor_state(*old(compressor)).used ==> final(out)@.take(n as int)
            == bulk_frame(
            compressor_state(*old(compressor)).settings,
            input@,
            final(out).len() as nat,
        )),
        r matches Ok(n) ==> (compressor_state(*old(compressor)).settings.bare_frames()
            ==> bare_start(final(out)@.take(n as int))),
        r matches Ok(n) ==> (compressor_state(*old(compressor)).settings.bare_frames() ==> forall|
            before: Seq<u8>,
        |
            whole_frames(before) ==> #[trigger] magicless_decoding(
                before + final(out)@.take(n as int),
            ) == Some((content(before)->0 + input@, true))),
        r matches Ok(n) ==> (compressor_state(*old(compressor)).settings.bare_frames() ==> forall|
            before: Seq<u8>,
            k: int,
        |
            whole_frames(before) && 0 < k < n ==> !whole_frames(
                #[trigger] (before + final(out)@.take(n as int).take(k)),
            )),
{
    compressor.compress_to_buffer(input, out)
}

/// Calls `zstd::stream::raw::Decoder::new`: a fresh decoder with no dictionary.
/// Nothing it does can fail. The stream it has been fed is the empty one, which
/// is no frame at all.
#[verifier::external_body]
pub(crate) fn decoder_new() -> (r: Result<Decoder<'static>, std::io::Error>)
    ensures
        r is Ok,
        decoder_state(r->Ok_0) == (DecoderState {
            magicless: false,
            started: false,
            failed: false,
            in_step: true,
            fed: Seq::empty(),
            emitted: Seq::empty(),
            idle: 0,
            rejected: Seq::empty(),
        }),
        magicless_decoding(decoder_state(r->Ok_0).fed) == Some((Seq::<u8>::empty(), true)),
{
    Decoder::new()
}

/// Calls `zstd::stream::raw::Decoder::set_parameter` with the magicless frame
/// format, which a decoder takes until its first step.
#[verifier::external_body]
pub(crate) fn decoder_set_magicless(decoder: &mut Decoder<'static>) -> (r: Result<
    (),
    std::io::Error,
>)
    ensures
        !decoder_state(*old(decoder)).started ==> r is Ok,
        r is Ok ==> decoder_state(*final(decoder)) == (DecoderState {
            magicless: true,
            ..decoder_state(*old(decoder))
        }),
        r is Err ==> decoder_state(*final(decoder)) == decoder_state(*old(decoder)),
{
    decoder.set_parameter(DParameter::Format(FrameFormat::Magicless))
}

/// Calls `run` of `zstd::stream::raw::Decoder`: one step that takes input from
/// `in_pos` on and writes output from `out_pos` on, and returns the two new
/// positions. With input left and room for output it moves at least one of
/// them. As long as it is in step, a magicless decoder has written the start of
/// what its input decodes to, and all of it whenever the step left room. Input
/// stays unread in a full step only for the reasons in [`stopped_short`]. A step
/// as in [`goes_on_with`] does not fail. A failed step takes and yields nothing, and
/// fails every later one. Bytes of `out` past the new position are left
/// unspecified.
#[verifier::external_body]
pub(crate) fn decoder_run(
    decoder: &mut Decoder<'static>,
    input: &[u8],
    in_pos: usize,
    out: &mut [u8],
    out_pos: usize,
) -> (r: Result<(usize, usize), std::io::Error>)
    requires
        in_pos <= input.len(),
        out_pos <= old(out).len(),
    ensures
        final(out).len() == old(out).len(),
        final(out)@.take(out_pos as int) == old(out)@.take(out_pos as int),
        decoder_state(*old(decoder)).failed ==> r is Err,
        goes_on_with(
            decoder_state(*old(decoder)),
            input@.skip(in_pos as int),
            old(out).len() - out_pos,
        ) ==> r is Ok,
        r matches Ok((i, o)) ==> {
            &&& in_pos <= i <= input.len()
            &&& out_pos <= o <= final(out).len()
            &&& in_pos < input.len() && out_pos < final(out).len() ==> in_pos < i || out_pos < o
            &&& decoder_state(*final(decoder)) == (DecoderState {
                started: true,
                in_step: decoder_state(*old(decoder)).in_step && !(i < input.len() && o
                    == final(out).len()),
                fed: decoder_state(*old(decoder)).fed + input@.subrange(in_pos as int, i as int),
                emitted: decoder_state(*old(decoder)).emitted + final(out)@.subrange(
                    out_pos as int,
                    o as int,
                ),
                idle: if i == in_pos && o == out_pos {
                    decoder_state(*old(decoder)).idle + 1
                } else {
                    0
                },
                ..decoder_state(*old(decoder))
            })
            &&& decoder_state(*final(decoder)).magicless && decoder_state(*final(decoder)).in_step
                ==> {
                &&& content(decoder_state(*final(decoder)).fed) matches Some(bytes) ==> {
                    &&& decoder_state(*final(decoder)).emitted.is_prefix_of(bytes)
                    &&& o < final(out).len() ==> decoder_state(*final(decoder)).emitted == bytes
                }
            }
            &&& decoder_state(*old(decoder)).magicless && decoder_state(*old(decoder)).in_step && i
                < input.len() && o == final(out).len() ==> stopped_short(
                decoder_state(*old(decoder)),
                decoder_state(*final(decoder)),
                input@.skip(in_pos as int),
            )
        },
        r is Err ==> decoder_state(*final(decoder)) == (DecoderState {
            started: true,
            failed: true,
            rejected: if decoder_state(*old(decoder)).failed {
                decoder_state(*old(decoder)).rejected
            } else {
                input@.skip(in_pos as int)
            },
            ..decoder_state(*old(decoder))
        }),
{
    let mut src = InBuffer::around(input);
    src.set_pos(in_pos);
    let mut dst = OutBuffer::around_pos(out, out_pos);
    decoder.run(&mut src, &mut dst)?;
    Ok((src.pos(), dst.pos()))
}

} // verus!
