//! What one serve worker of the server decides.
//!
//! A worker owns the endpoints it accepted and the zstd contexts of the game
//! connections that use them. The transport lives outside: it receives messages
//! and sends replies, and this module says what to do with each of them. An
//! endpoint is any value `E`; dropping it closes it.
//!
//! Time is given as nanoseconds since some fixed moment.

use std::collections::HashMap;

use vstd::prelude::*;

use crate::answer::Dispatched;
use crate::codec::{bound_of, bulk_frame, refused_at_once, DecoderState, EncoderState, Settings};
use crate::config::{Config, Setup, HARD_CAP};
use crate::metrics::{
    gauge, law_comings_and_goings_are_counted, lemma_gauge_goes_on, Counts, Metrics,
    DROP_HARD_CAP_IDX, DROP_HELLO_IDX, DROP_REASON_COUNT, DROP_TRANSPORT_IDX, DROP_WRAP_IDX,
    EVICT_ENDPOINT_IDX, EVICT_GC_IDX, OP_COMPRESS_IDX, OP_DECOMPRESS_IDX, OP_INVALID_IDX,
    OP_ONESHOT_IDX, OP_RESET_IDX,
};
use crate::protocol::{
    conn_id_of, ep_id_of, hello_tag, law_hello_round_trip, law_tag_round_trip, law_tags_bit_by_bit,
    request_tag, tag_conn_id, tag_ep_id, with_response_bit, DecodeError, Hello, RequestHeader,
    HELLO_CONN_ID, HELLO_LEN, OP_COMPRESS, OP_COMPRESS_ONESHOT, OP_DECOMPRESS, OP_RESET,
    REQUEST_HEADER_LEN, STATUS_BAD_REQUEST, STATUS_MESSAGE_TOO_LARGE, STATUS_OK, STATUS_ZSTD_ERROR,
};
use crate::zstream::{
    compress_bound, compress_failure, compresses, decompresses, exact_failure, frame_of,
    fresh_decoder, fresh_encoder, CompressStream, DecompressStream,
};
use crate::zstream::{
    between_frames, caught_up, exact_outcome, failed_at, law_exact_means_the_message,
    law_exact_oneshot_means_the_message, law_exact_refuses_no_true_size,
    law_only_the_stream_is_rejected, law_streams_under_way_do_not_fail, paired,
};

verus! {

broadcast use vstd::std_specs::hash::group_hash_axioms;

/// How often the idle-context sweep runs, in nanoseconds.
pub const GC_INTERVAL_NANOS: u128 = 5_000_000_000;

/// Nanoseconds from `then` to `now`, 0 if `then` is the later.
pub open spec fn elapsed(then: int, now: int) -> int {
    if now >= then {
        now - then
    } else {
        0
    }
}

fn elapsed_nanos(then: u128, now: u128) -> (r: u128)
    ensures
        r == elapsed(then as int, now as int),
        now >= then ==> r == now - then,
        now < then ==> r == 0,
{
    if now >= then {
        now - then
    } else {
        0
    }
}

/// What the contexts of connection `conn_id` on endpoint `ep_id` are kept under.
pub open spec fn conn_key(ep_id: int, conn_id: int) -> u64 {
    (ep_id * 0x1_0000_0000 + conn_id) as u64
}

/// The endpoint of a connection.
pub open spec fn key_ep_id(key: u64) -> int {
    key as int / 0x1_0000_0000
}

/// What the contexts of the connection that `tag` belongs to are kept under.
pub open spec fn tag_key(tag: u64) -> u64 {
    conn_key(tag_ep_id(tag as int), tag_conn_id(tag as int))
}

fn key_of(tag: u64) -> (key: u64)
    ensures
        key == tag_key(tag),
        key_ep_id(key) == tag_ep_id(tag as int),
{
    ep_id_of(tag) as u64 * 0x1_0000_0000 + conn_id_of(tag) as u64
}

/// Per-game-connection zstd state, pinned to the worker that owns the endpoint.
/// Both halves are lazy: a connection that only ever compresses never pays for a
/// decompression context.
pub struct ConnCtx {
    cctx: Option<CompressStream>,
    dctx: Option<DecompressStream>,
    last_used: u128,
}

/// What the contexts of a connection have been through.
pub ghost struct ConnView {
    pub cctx: Option<EncoderState>,
    pub dctx: Option<DecoderState>,
    pub last_used: int,
}

impl ConnView {
    /// The contexts of a connection that has none yet.
    pub open spec fn none() -> ConnView {
        ConnView { cctx: None, dctx: None, last_used: 0 }
    }

    /// Nothing is left to be flushed of an encoder that has not failed, and decoders
    /// read magicless frames.
    pub open spec fn settled(self) -> bool {
        &&& self.cctx matches Some(state) ==> state.failed || state.unflushed == 0
        &&& self.dctx matches Some(state) ==> state.magicless
    }

    /// The encoder the next message goes through.
    pub open spec fn encoder(self, setup: Setup) -> EncoderState {
        match self.cctx {
            Some(state) => state,
            None => fresh_encoder(setup.level, setup.window_log),
        }
    }

    /// The decoder the next packet goes through.
    pub open spec fn decoder(self) -> DecoderState {
        match self.dctx {
            Some(state) => state,
            None => fresh_decoder(),
        }
    }
}

impl View for ConnCtx {
    type V = ConnView;

    closed spec fn view(&self) -> ConnView {
        ConnView {
            cctx: match self.cctx {
                Some(stream) => Some(stream@),
                None => None,
            },
            dctx: match self.dctx {
                Some(stream) => Some(stream@),
                None => None,
            },
            last_used: self.last_used as int,
        }
    }
}

impl ConnCtx {
    /// The streams are set up as the server is, and nothing is left to be flushed.
    spec fn wf(&self, setup: Setup) -> bool {
        &&& self@.settled()
        &&& self.cctx matches Some(stream) ==> stream.wf() && stream@.settings == fresh_encoder(
            setup.level,
            setup.window_log,
        ).settings
        &&& self.dctx matches Some(stream) ==> stream.wf()
    }

    fn new(now: u128) -> (r: Self)
        ensures
            r@ == (ConnView { last_used: now as int, ..ConnView::none() }),
            forall|setup: Setup| #[trigger] r.wf(setup),
    {
        ConnCtx { cctx: None, dctx: None, last_used: now }
    }
}

/// The contexts in `contexts` whose key meets `keep`.
pub open spec fn kept(
    contexts: Map<u64, ConnView>,
    keep: spec_fn(u64, ConnView) -> bool,
) -> Map<u64, ConnView> {
    Map::new(|k: u64| contexts.contains_key(k) && keep(k, contexts[k]), |k: u64| contexts[k])
}

/// Everything one serve worker owns, apart from its transport.
pub struct WorkerState<E> {
    cfg: Config,
    /// Live endpoints by their server-assigned id.
    endpoints: HashMap<u16, E>,
    /// Per-connection zstd contexts by endpoint id and game connection id.
    ctxs: HashMap<u64, ConnCtx>,
    /// Next endpoint id to hand out; wraps after 2^16 accepts on this worker.
    next_ep_id: u16,
    /// Shared stateless compressor for OP_COMPRESS_ONESHOT: it produces
    /// complete frames and keeps no inter-message state, so one context
    /// serves every connection on this worker.
    oneshot: Option<CompressStream>,
    last_gc: u128,
}

/// What a worker owns.
#[verifier::ext_equal]
pub ghost struct WorkerView<E> {
    pub setup: Setup,
    pub endpoints: Map<u16, E>,
    pub contexts: Map<u64, ConnView>,
    pub next_ep_id: u16,
    pub last_gc: int,
}

impl<E> WorkerView<E> {
    /// The contexts of the connection under `key`; none if there are none.
    pub open spec fn context(self, key: u64) -> ConnView {
        if self.contexts.contains_key(key) {
            self.contexts[key]
        } else {
            ConnView::none()
        }
    }

    /// Every context belongs to a live endpoint.
    pub open spec fn pinned(self) -> bool {
        forall|key: u64| #[trigger]
            self.contexts.contains_key(key) ==> key_ep_id(key) <= u16::MAX
                && self.endpoints.contains_key(key_ep_id(key) as u16)
    }

    /// Nothing is left to be flushed for any connection whose encoder has not failed.
    pub open spec fn settled(self) -> bool {
        forall|key: u64| #[trigger]
            self.contexts.contains_key(key) ==> self.contexts[key].settled()
    }

    /// This worker after endpoint `ep_id` and its contexts are gone.
    pub open spec fn without_endpoint(self, ep_id: u16) -> WorkerView<E> {
        WorkerView {
            endpoints: self.endpoints.remove(ep_id),
            contexts: kept(self.contexts, |k: u64, c: ConnView| key_ep_id(k) != ep_id),
            ..self
        }
    }

    /// This worker after the contexts that have been idle for too long are gone.
    pub open spec fn swept(self, now: int) -> WorkerView<E> {
        WorkerView {
            contexts: kept(
                self.contexts,
                |k: u64, c: ConnView|
                    now - c.last_used <= self.setup.gc_secs * 1_000_000_000,
            ),
            last_gc: now,
            ..self
        }
    }

    /// How many contexts `self` has lost on the way to `after`.
    pub open spec fn contexts_lost(self, after: WorkerView<E>) -> int {
        self.contexts.dom().len() - after.contexts.dom().len()
    }
}

impl<E> View for WorkerState<E> {
    type V = WorkerView<E>;

    closed spec fn view(&self) -> WorkerView<E> {
        WorkerView {
            setup: self.cfg@,
            endpoints: self.endpoints@,
            contexts: Map::new(|k: u64| self.ctxs@.contains_key(k), |k: u64| self.ctxs@[k]@),
            next_ep_id: self.next_ep_id,
            last_gc: self.last_gc as int,
        }
    }
}

/// The keys of `m`, in no particular order.
fn all_keys(m: &HashMap<u64, ConnCtx>) -> (keys: Vec<u64>)
    ensures
        keys@.no_duplicates(),
        forall|k: u64| keys@.contains(k) <==> #[trigger] m@.contains_key(k),
{
    let mut keys: Vec<u64> = Vec::new();
    let ghost all = vstd::std_specs::iter::IteratorSpec::remaining(&m.keys()).unref();
    for key in it: m.keys()
        invariant
            it.seq().unref() == all,
            all.to_set() == m@.dom(),
            all.no_duplicates(),
            keys@ == all.take(it.index()),
    {
        keys.push(*key);
        assert(keys@ =~= all.take(it.index() + 1));
    }
    assert(keys@ =~= all);
    assert(forall|k: u64| all.contains(k) <==> all.to_set().contains(k));
    keys
}

/// Removes every key in `keys`.
fn remove_all(m: &mut HashMap<u64, ConnCtx>, keys: &Vec<u64>)
    requires
        keys@.no_duplicates(),
        forall|i: int| 0 <= i < keys.len() ==> old(m)@.contains_key(#[trigger] keys@[i]),
    ensures
        forall|k: u64| #[trigger]
            final(m)@.contains_key(k) <==> old(m)@.contains_key(k) && !keys@.contains(k),
        forall|k: u64| #[trigger] final(m)@.contains_key(k) ==> final(m)@[k] == old(m)@[k],
        final(m)@.dom().len() + keys.len() == old(m)@.dom().len(),
{
    let mut i: usize = 0;
    while i < keys.len()
        invariant
            i <= keys.len(),
            keys@.no_duplicates(),
            forall|j: int| 0 <= j < keys.len() ==> old(m)@.contains_key(#[trigger] keys@[j]),
            forall|k: u64| #[trigger]
                m@.contains_key(k) <==> old(m)@.contains_key(k) && !keys@.take(i as int).contains(
                    k,
                ),
            forall|k: u64| #[trigger] m@.contains_key(k) ==> m@[k] == old(m)@[k],
            m@.dom().len() + i == old(m)@.dom().len(),
        decreases keys.len() - i,
    {
        let ghost before = m@;
        let key: u64 = keys[i];
        proof {
            lemma_take_one_more(keys@, i as int);
            assert(before.contains_key(keys@[i as int]));
        }
        m.remove(&key);
        assert(m@ =~= before.remove(key));
        i += 1;
    }
    assert(keys@.take(i as int) =~= keys@);
}

/// What dropping an endpoint came to.
pub struct Dropped {
    /// Whether the endpoint was live.
    pub was_live: bool,
    /// How many contexts went with it.
    pub purged: usize,
}

/// The gauges in `counts` follow a worker's endpoints and contexts from `before`
/// to `after`.
pub open spec fn tracks<E>(
    before: WorkerView<E>,
    after: WorkerView<E>,
    counts: Counts,
    counts_after: Counts,
) -> bool {
    &&& counts_after.endpoints == gauge(
        counts.endpoints + after.endpoints.dom().len() - before.endpoints.dom().len(),
    )
    &&& counts_after.contexts == gauge(
        counts.contexts + after.contexts.dom().len() - before.contexts.dom().len(),
    )
}

/// The counts after an endpoint was dropped.
pub open spec fn counts_dropped(counts: Counts, was_live: bool, reason: int, purged: int) -> Counts {
    (if was_live {
        counts.and_dropped(reason)
    } else {
        counts
    }).and_evicted(EVICT_ENDPOINT_IDX as int, purged)
}

impl<E> WorkerState<E> {
    /// The contexts are set up as the server is and belong to live endpoints, and
    /// the shared compressor has no history.
    pub closed spec fn wf(&self) -> bool {
        &&& self.cfg@.valid()
        &&& self@.pinned()
        &&& forall|k: u64| #[trigger] self.ctxs@.contains_key(k) ==> self.ctxs@[k].wf(self.cfg@)
        &&& self.oneshot matches Some(stream) ==> stream.is_fresh(
            self.cfg.level as int,
            self.cfg.window_log as int,
        )
    }

    /// A worker with no endpoints, started at `now`.
    pub fn new(cfg: Config, now: u128) -> (r: Self)
        requires
            cfg@.valid(),
        ensures
            r.wf(),
            r@ == (WorkerView {
                setup: cfg@,
                endpoints: Map::<u16, E>::empty(),
                contexts: Map::<u64, ConnView>::empty(),
                next_ep_id: 0,
                last_gc: now as int,
            }),
    {
        let r = WorkerState {
            cfg,
            endpoints: HashMap::new(),
            ctxs: HashMap::new(),
            next_ep_id: 0,
            oneshot: None,
            last_gc: now,
        };
        assert(r@.contexts =~= Map::<u64, ConnView>::empty());
        r
    }

    /// The live endpoint `ep_id`, if there is one.
    pub fn endpoint(&self, ep_id: u16) -> (r: Option<&E>)
        ensures
            r matches Some(ep) ==> self@.endpoints.contains_key(ep_id) && *ep
                == self@.endpoints[ep_id],
            r is None ==> !self@.endpoints.contains_key(ep_id),
    {
        self.endpoints.get(&ep_id)
    }

    /// How many endpoints are live.
    pub fn endpoint_count(&self) -> (n: usize)
        ensures
            n == self@.endpoints.dom().len(),
    {
        self.endpoints.len()
    }

    /// How many connections have contexts.
    pub fn context_count(&self) -> (n: usize)
        ensures
            n == self@.contexts.dom().len(),
    {
        assert(self@.contexts.dom() =~= self.ctxs@.dom());
        self.ctxs.len()
    }

    /// Drops the contexts under `doomed`.
    fn forget(&mut self, doomed: &Vec<u64>)
        requires
            old(self).wf(),
            doomed@.no_duplicates(),
            forall|i: int|
                0 <= i < doomed.len() ==> old(self)@.contexts.contains_key(#[trigger] doomed@[i]),
        ensures
            final(self).wf(),
            final(self)@ == (WorkerView {
                contexts: kept(old(self)@.contexts, |k: u64, c: ConnView| !doomed@.contains(k)),
                ..old(self)@
            }),
            final(self)@.contexts.dom().len() + doomed.len() == old(self)@.contexts.dom().len(),
    {
        remove_all(&mut self.ctxs, doomed);
        assert(old(self)@.contexts.dom() =~= old(self).ctxs@.dom());
        assert(self@.contexts.dom() =~= self.ctxs@.dom());
        assert(self@.contexts =~= kept(
            old(self)@.contexts,
            |k: u64, c: ConnView| !doomed@.contains(k),
        ));
    }

    /// Close an endpoint (by dropping it) and purge every connection context
    /// pinned to it: after a transport error those contexts are unrecoverable
    /// anyway. `reason_idx` says why, as a metrics index.
    pub fn drop_endpoint(&mut self, metrics: &mut Metrics, ep_id: u16, reason_idx: usize) -> (r:
        Dropped)
        requires
            old(self).wf(),
            reason_idx < DROP_REASON_COUNT,
        ensures
            final(self).wf(),
            final(self)@ == old(self)@.without_endpoint(ep_id),
            r.was_live == old(self)@.endpoints.contains_key(ep_id),
            r.purged == old(self)@.contexts_lost(final(self)@),
            final(metrics)@ == counts_dropped(
                old(metrics)@,
                r.was_live,
                reason_idx as int,
                r.purged as int,
            ),
            tracks(old(self)@, final(self)@, old(metrics)@, final(metrics)@),
    {
        let keys = all_keys(&self.ctxs);
        let mut doomed: Vec<u64> = Vec::new();
        let mut i: usize = 0;
        while i < keys.len()
            invariant
                i <= keys.len(),
                keys@.no_duplicates(),
                doomed@.no_duplicates(),
                forall|k: u64| #[trigger]
                    doomed@.contains(k) <==> keys@.take(i as int).contains(k) && key_ep_id(k)
                        == ep_id,
            decreases keys.len() - i,
        {
            let key: u64 = keys[i];
            let ghost before = doomed@;
            proof {
                lemma_take_one_more(keys@, i as int);
            }
            if key / 0x1_0000_0000 == ep_id as u64 {
                doomed.push(key);
                proof {
                    lemma_push_contains(before, key);
                }
            }
            i += 1;
        }
        assert(keys@.take(i as int) =~= keys@);
        proof {
            assert forall|j: int| 0 <= j < doomed.len() implies self@.contexts.contains_key(
                #[trigger] doomed@[j],
            ) by {
                assert(doomed@.contains(doomed@[j]));
            }
        }
        self.forget(&doomed);
        let ghost swept = *self;
        let was_live = self.endpoints.remove(&ep_id).is_some();
        if was_live {
            metrics.endpoint_dropped(reason_idx);
        }
        metrics.contexts_evicted(EVICT_ENDPOINT_IDX, doomed.len() as u64);
        proof {
            assert(self@.endpoints =~= old(self)@.endpoints.remove(ep_id));
            assert(self@.contexts =~= swept@.contexts);
            assert(self@ =~= old(self)@.without_endpoint(ep_id));
            assert forall|k: u64| #[trigger] self.ctxs@.contains_key(k) implies self.ctxs@[k].wf(
                self.cfg@,
            ) by {
                assert(swept.ctxs@.contains_key(k));
            }
        }
        Dropped { was_live, purged: doomed.len() }
    }
}

impl<E> WorkerState<E> {
    /// Whether the next sweep is due.
    pub fn gc_is_due(&self, now: u128) -> (due: bool)
        ensures
            due == (now - self@.last_gc >= 5_000_000_000),
    {
        elapsed_nanos(self.last_gc, now) >= GC_INTERVAL_NANOS
    }

    /// Drop contexts idle for longer than the configured time (game connections
    /// can die without OP_RESET when the client crashes). Does nothing until
    /// [`GC_INTERVAL_NANOS`] after the last sweep. Returns how many were dropped.
    pub fn gc(&mut self, metrics: &mut Metrics, now: u128) -> (dropped: usize)
        requires
            old(self).wf(),
        ensures
            final(self).wf(),
            final(self)@ == (if now - old(self)@.last_gc < 5_000_000_000 {
                old(self)@
            } else {
                old(self)@.swept(now as int)
            }),
            dropped == old(self)@.contexts_lost(final(self)@),
            final(metrics)@ == old(metrics)@.and_evicted(EVICT_GC_IDX as int, dropped as int),
            tracks(old(self)@, final(self)@, old(metrics)@, final(metrics)@),
    {
        if !self.gc_is_due(now) {
            return 0;
        }
        self.last_gc = now;
        let max_idle: u128 = self.cfg.gc_secs as u128 * 1_000_000_000;
        let keys = all_keys(&self.ctxs);
        let mut doomed: Vec<u64> = Vec::new();
        let mut i: usize = 0;
        while i < keys.len()
            invariant
                i <= keys.len(),
                keys@.no_duplicates(),
                doomed@.no_duplicates(),
                forall|k: u64| keys@.contains(k) ==> #[trigger] self.ctxs@.contains_key(k),
                forall|k: u64| #[trigger]
                    doomed@.contains(k) <==> keys@.take(i as int).contains(k) && elapsed(
                        self.ctxs@[k]@.last_used,
                        now as int,
                    ) > max_idle,
            decreases keys.len() - i,
        {
            let key: u64 = keys[i];
            let ghost before = doomed@;
            proof {
                lemma_take_one_more(keys@, i as int);
                assert(keys@.contains(keys@[i as int]));
            }
            let idle: u128 = match self.ctxs.get(&key) {
                Some(ctx) => elapsed_nanos(ctx.last_used, now),
                None => 0,
            };
            if idle > max_idle {
                doomed.push(key);
                proof {
                    lemma_push_contains(before, key);
                }
            }
            i += 1;
        }
        assert(keys@.take(i as int) =~= keys@);
        proof {
            assert forall|j: int| 0 <= j < doomed.len() implies self@.contexts.contains_key(
                #[trigger] doomed@[j],
            ) by {
                assert(doomed@.contains(doomed@[j]));
            }
        }
        self.forget(&doomed);
        metrics.contexts_evicted(EVICT_GC_IDX, doomed.len() as u64);
        assert(self@ =~= old(self)@.swept(now as int));
        doomed.len()
    }
}

/// A message was compressed on the stream of the connection under `key`, or the
/// stream failed at it.
pub open spec fn compress_dispatched<E>(
    before: WorkerView<E>,
    after: WorkerView<E>,
    key: u64,
    payload: Seq<u8>,
    now: int,
    r: Dispatched,
) -> bool {
    let ctx = before.context(key);
    let next = after.contexts[key];
    &&& after == (WorkerView { contexts: before.contexts.insert(key, next), ..before })
    &&& next.last_used == now
    &&& next.dctx == ctx.dctx
    &&& next.cctx is Some
    &&& r.op_idx == OP_COMPRESS_IDX
    &&& r.bytes_in == payload.len()
    &&& {
        ||| {
            &&& r.status == STATUS_OK
            &&& r.payload@.len() <= bound_of(payload.len() as int)
            &&& compresses(ctx.encoder(before.setup), next.cctx->0, payload, r.payload@)
        }
        ||| {
            &&& r.status == STATUS_ZSTD_ERROR
            &&& r.payload@.len() == 0
            &&& exists|out: Seq<u8>, e: Seq<char>|
                out.len() == bound_of(payload.len() as int) && #[trigger] compress_failure(
                    ctx.encoder(before.setup),
                    next.cctx->0,
                    payload,
                    out,
                    e,
                )
        }
    }
}

/// A message was compressed to a frame of its own, or zstd failed at just that. No
/// connection's contexts are touched.
pub open spec fn oneshot_dispatched<E>(
    before: WorkerView<E>,
    after: WorkerView<E>,
    payload: Seq<u8>,
    r: Dispatched,
) -> bool {
    &&& after == before
    &&& r.op_idx == OP_ONESHOT_IDX
    &&& r.bytes_in == payload.len()
    &&& {
        ||| {
            &&& r.status == STATUS_OK
            &&& r.payload@.len() <= bound_of(payload.len() as int)
            &&& r.payload@ == bulk_frame(
                Settings::offload(before.setup.level, before.setup.window_log),
                payload,
                bound_of(payload.len() as int) as nat,
            )
            &&& frame_of(r.payload@, payload)
        }
        ||| {
            &&& r.status == STATUS_ZSTD_ERROR
            &&& r.payload@.len() == 0
            &&& refused_at_once(
                Settings::offload(before.setup.level, before.setup.window_log),
                payload,
                bound_of(payload.len() as int) as nat,
            )
        }
    }
}

/// A packet was decompressed to exactly `raw_size` bytes on the stream of the
/// connection under `key`, or the stream failed at it. Absurd sizes are refused
/// before they are trusted.
pub open spec fn decompress_dispatched<E>(
    before: WorkerView<E>,
    after: WorkerView<E>,
    key: u64,
    payload: Seq<u8>,
    raw_size: nat,
    now: int,
    r: Dispatched,
) -> bool {
    let ctx = before.context(key);
    let next = after.contexts[key];
    if raw_size > HARD_CAP {
        &&& after == before
        &&& r.is_refusal(OP_DECOMPRESS_IDX, STATUS_MESSAGE_TOO_LARGE, payload.len() as int)
    } else {
        &&& after == (WorkerView { contexts: before.contexts.insert(key, next), ..before })
        &&& next.last_used == now
        &&& next.cctx == ctx.cctx
        &&& next.dctx is Some
        &&& r.op_idx == OP_DECOMPRESS_IDX
        &&& r.bytes_in == payload.len()
        &&& {
            ||| {
                &&& r.status == STATUS_OK
                &&& r.payload@.len() == raw_size
                &&& decompresses(ctx.decoder(), next.dctx->0, payload, raw_size + 1, r.payload@)
            }
            ||| {
                &&& r.status == STATUS_ZSTD_ERROR
                &&& r.payload@.len() == 0
                &&& exists|out: Seq<u8>, e: Seq<char>|
                    out.len() == raw_size && #[trigger] exact_failure(
                        ctx.decoder(),
                        next.dctx->0,
                        payload,
                        out,
                        e,
                    )
            }
        }
    }
}

/// The contexts of the connection under `key` were dropped, if there were any.
pub open spec fn reset_dispatched<E>(
    before: WorkerView<E>,
    after: WorkerView<E>,
    key: u64,
    payload: Seq<u8>,
    r: Dispatched,
) -> bool {
    &&& after == (WorkerView { contexts: before.contexts.remove(key), ..before })
    &&& r.op_idx == OP_RESET_IDX
    &&& r.bytes_in == payload.len()
    &&& r.status == STATUS_OK
    &&& r.payload@.len() == 0
}

/// How many payload bytes the message `buf` carries: what there is of it behind
/// the header.
pub open spec fn payload_bytes(buf: Seq<u8>) -> int {
    if buf.len() < REQUEST_HEADER_LEN {
        0
    } else {
        buf.len() - REQUEST_HEADER_LEN
    }
}

/// What the request `buf` under `tag` comes to on a worker.
pub open spec fn dispatches<E>(
    before: WorkerView<E>,
    after: WorkerView<E>,
    tag: u64,
    buf: Seq<u8>,
    now: int,
    r: Dispatched,
) -> bool {
    let payload = buf.skip(REQUEST_HEADER_LEN as int);
    match RequestHeader::parsed(buf) {
        Err(_) => after == before && r.is_refusal(
            OP_INVALID_IDX,
            STATUS_BAD_REQUEST,
            payload_bytes(buf),
        ),
        Ok(header) => if header.payload_len != payload.len() {
            after == before && r.is_refusal(
                OP_INVALID_IDX,
                STATUS_BAD_REQUEST,
                payload.len() as int,
            )
        } else if header.op == OP_COMPRESS {
            compress_dispatched(before, after, tag_key(tag), payload, now, r)
        } else if header.op == OP_COMPRESS_ONESHOT {
            oneshot_dispatched(before, after, payload, r)
        } else if header.op == OP_DECOMPRESS {
            decompress_dispatched(
                before,
                after,
                tag_key(tag),
                payload,
                header.raw_size as nat,
                now,
                r,
            )
        } else if header.op == OP_RESET {
            reset_dispatched(before, after, tag_key(tag), payload, r)
        } else {
            after == before && r.is_refusal(
                OP_INVALID_IDX,
                STATUS_BAD_REQUEST,
                payload.len() as int,
            )
        },
    }
}

impl<E> WorkerState<E> {
    /// Takes the contexts under `key` out, or new ones if there are none; also
    /// says by how much the number of contexts grows once they are put back.
    fn take_context(&mut self, key: u64, now: u128) -> (r: (ConnCtx, i64))
        requires
            old(self).wf(),
        ensures
            final(self).wf(),
            final(self)@ == (WorkerView {
                contexts: old(self)@.contexts.remove(key),
                ..old(self)@
            }),
            r.0.wf(old(self)@.setup),
            r.0@ == (ConnView { last_used: now as int, ..old(self)@.context(key) }),
            r.1 == (if old(self)@.contexts.contains_key(key) {
                0int
            } else {
                1int
            }),
    {
        match self.ctxs.remove(&key) {
            Some(mut ctx) => {
                ctx.last_used = now;
                assert(self@.contexts =~= old(self)@.contexts.remove(key));
                (ctx, 0)
            },
            None => {
                assert(self@.contexts =~= old(self)@.contexts.remove(key));
                (ConnCtx::new(now), 1)
            },
        }
    }

    /// Puts contexts under `key`.
    fn put_context(&mut self, key: u64, ctx: ConnCtx)
        requires
            old(self).wf(),
            ctx.wf(old(self)@.setup),
            key_ep_id(key) <= u16::MAX,
            old(self)@.endpoints.contains_key(key_ep_id(key) as u16),
        ensures
            final(self).wf(),
            final(self)@ == (WorkerView {
                contexts: old(self)@.contexts.insert(key, ctx@),
                ..old(self)@
            }),
    {
        self.ctxs.insert(key, ctx);
        assert(self@.contexts =~= old(self)@.contexts.insert(key, ctx@));
    }

    fn dispatch_compress(&mut self, key: u64, payload: &[u8], now: u128) -> (r: Dispatched)
        requires
            old(self).wf(),
            key_ep_id(key) <= u16::MAX,
            old(self)@.endpoints.contains_key(key_ep_id(key) as u16),
            payload.len() <= HARD_CAP,
        ensures
            final(self).wf(),
            r.wf(),
            r.timed,
            compress_dispatched(old(self)@, final(self)@, key, payload@, now as int, r),
            r.contexts_added == -old(self)@.contexts_lost(final(self)@),
    {
        proof {
            law_workers_own_finitely_many(*old(self));
        }
        let (mut ctx, added) = self.take_context(key, now);
        let mut cctx = match ctx.cctx.take() {
            Some(cctx) => cctx,
            None => match CompressStream::new(self.cfg.level, self.cfg.window_log) {
                Ok(cctx) => cctx,
                Err(_) => {
                    self.put_context(key, ctx);
                    return Dispatched::answer(OP_COMPRESS_IDX, payload.len(), added, None);
                },
            },
        };
        let ghost start = cctx@;
        assert(start == old(self)@.context(key).encoder(old(self)@.setup));
        let mut out: Vec<u8> = vec![0u8; compress_bound(payload.len())];
        let outcome = match cctx.compress(payload, out.as_mut_slice()) {
            Ok(n) => {
                out.truncate(n);
                assert(compresses(start, cctx@, payload@, out@));
                Some(out)
            },
            Err(e) => {
                assert(compress_failure(start, cctx@, payload@, out@, e@));
                None
            },
        };
        assert(outcome is None ==> exists|o: Seq<u8>, e: Seq<char>|
            o.len() == bound_of(payload@.len() as int) && #[trigger] compress_failure(
                start,
                cctx@,
                payload@,
                o,
                e,
            ));
        let ghost end = cctx@;
        ctx.cctx = Some(cctx);
        self.put_context(key, ctx);
        assert(self@.contexts =~= old(self)@.contexts.insert(key, ctx@));
        assert(self@.contexts[key].cctx->0 == end);
        Dispatched::answer(OP_COMPRESS_IDX, payload.len(), added, outcome)
    }

    fn dispatch_oneshot(&mut self, payload: &[u8]) -> (r: Dispatched)
        requires
            old(self).wf(),
            payload.len() <= HARD_CAP,
        ensures
            final(self).wf(),
            r.wf(),
            r.timed,
            oneshot_dispatched(old(self)@, final(self)@, payload@, r),
            r.contexts_added == 0,
    {
        let mut cctx = match self.oneshot.take() {
            Some(cctx) => cctx,
            None => match CompressStream::new(self.cfg.level, self.cfg.window_log) {
                Ok(cctx) => cctx,
                Err(_) => {
                    return Dispatched::answer(OP_ONESHOT_IDX, payload.len(), 0, None);
                },
            },
        };
        let mut out: Vec<u8> = vec![0u8; compress_bound(payload.len())];
        let outcome = match cctx.compress_oneshot(payload, out.as_mut_slice()) {
            Ok(n) => {
                out.truncate(n);
                assert(frame_of(out@, payload@));
                Some(out)
            },
            Err(_) => None,
        };
        self.oneshot = Some(cctx);
        assert(self@ =~= old(self)@);
        Dispatched::answer(OP_ONESHOT_IDX, payload.len(), 0, outcome)
    }

    fn dispatch_decompress(&mut self, key: u64, payload: &[u8], raw_size: u32, now: u128) -> (r:
        Dispatched)
        requires
            old(self).wf(),
            key_ep_id(key) <= u16::MAX,
            old(self)@.endpoints.contains_key(key_ep_id(key) as u16),
        ensures
            final(self).wf(),
            r.wf(),
            r.timed,
            decompress_dispatched(
                old(self)@,
                final(self)@,
                key,
                payload@,
                raw_size as nat,
                now as int,
                r,
            ),
            r.contexts_added == -old(self)@.contexts_lost(final(self)@),
    {
        // raw_size comes from the wire and decides an allocation; refuse absurd
        // sizes before trusting it.
        if raw_size as u64 > HARD_CAP as u64 {
            return Dispatched::refusal(
                OP_DECOMPRESS_IDX,
                STATUS_MESSAGE_TOO_LARGE,
                payload.len(),
                true,
            );
        }
        proof {
            law_workers_own_finitely_many(*old(self));
        }
        let (mut ctx, added) = self.take_context(key, now);
        let mut dctx = match ctx.dctx.take() {
            Some(dctx) => dctx,
            None => match DecompressStream::new() {
                Ok(dctx) => dctx,
                Err(_) => {
                    self.put_context(key, ctx);
                    return Dispatched::answer(OP_DECOMPRESS_IDX, payload.len(), added, None);
                },
            },
        };
        let ghost start = dctx@;
        assert(start == old(self)@.context(key).decoder());
        let mut out: Vec<u8> = vec![0u8; raw_size as usize];
        let outcome = match dctx.decompress_exact(payload, out.as_mut_slice()) {
            Ok(()) => {
                assert(decompresses(start, dctx@, payload@, raw_size as nat + 1, out@));
                Some(out)
            },
            Err(e) => {
                assert(exact_failure(start, dctx@, payload@, out@, e@));
                None
            },
        };
        assert(outcome is None ==> exists|o: Seq<u8>, e: Seq<char>|
            o.len() == raw_size && #[trigger] exact_failure(start, dctx@, payload@, o, e));
        let ghost end = dctx@;
        ctx.dctx = Some(dctx);
        self.put_context(key, ctx);
        assert(self@.contexts =~= old(self)@.contexts.insert(key, ctx@));
        assert(self@.contexts[key].dctx->0 == end);
        Dispatched::answer(OP_DECOMPRESS_IDX, payload.len(), added, outcome)
    }

    /// Idempotent: the client sends this when a game connection closes, whether
    /// or not there still is state for it.
    fn dispatch_reset(&mut self, key: u64, payload: &[u8]) -> (r: Dispatched)
        requires
            old(self).wf(),
        ensures
            final(self).wf(),
            r.wf(),
            r.timed,
            reset_dispatched(old(self)@, final(self)@, key, payload@, r),
            r.contexts_added == -old(self)@.contexts_lost(final(self)@),
    {
        proof {
            law_workers_own_finitely_many(*old(self));
        }
        let added: i64 = if self.ctxs.remove(&key).is_some() {
            -1
        } else {
            0
        };
        assert(self@.contexts =~= old(self)@.contexts.remove(key));
        Dispatched::answer(OP_RESET_IDX, payload.len(), added, Some(Vec::new()))
    }

    /// Execute one fully-received request of a live endpoint whose payload is
    /// within the configured limit.
    pub fn dispatch_inner(&mut self, tag: u64, buf: &[u8], now: u128) -> (r: Dispatched)
        requires
            old(self).wf(),
            old(self)@.endpoints.contains_key(tag_ep_id(tag as int) as u16),
            buf.len() <= old(self)@.setup.max_payload + REQUEST_HEADER_LEN,
        ensures
            final(self).wf(),
            r.wf(),
            r.timed,
            dispatches(old(self)@, final(self)@, tag, buf@, now as int, r),
            r.contexts_added == -old(self)@.contexts_lost(final(self)@),
    {
        let key = key_of(tag);
        let header = match RequestHeader::decode(buf) {
            Ok(h) => h,
            Err(_) => {
                return Dispatched::refusal(OP_INVALID_IDX, STATUS_BAD_REQUEST, 0, true);
            },
        };
        let payload = &buf[REQUEST_HEADER_LEN..buf.len()];
        assert(payload@ =~= buf@.skip(REQUEST_HEADER_LEN as int));
        if header.payload_len as u64 != payload.len() as u64 {
            return Dispatched::refusal(OP_INVALID_IDX, STATUS_BAD_REQUEST, payload.len(), true);
        }
        if header.op == OP_COMPRESS {
            self.dispatch_compress(key, payload, now)
        } else if header.op == OP_COMPRESS_ONESHOT {
            self.dispatch_oneshot(payload)
        } else if header.op == OP_DECOMPRESS {
            self.dispatch_decompress(key, payload, header.raw_size, now)
        } else if header.op == OP_RESET {
            self.dispatch_reset(key, payload)
        } else {
            Dispatched::refusal(OP_INVALID_IDX, STATUS_BAD_REQUEST, payload.len(), true)
        }
    }
}

/// What a received message comes to on a worker that knows its endpoint.
pub open spec fn handles<E>(
    before: WorkerView<E>,
    after: WorkerView<E>,
    tag: u64,
    buf: Seq<u8>,
    now: int,
    r: Dispatched,
) -> bool {
    if buf.len() < REQUEST_HEADER_LEN {
        &&& after == before
        &&& r.is_refusal(OP_INVALID_IDX, STATUS_BAD_REQUEST, payload_bytes(buf))
        &&& !r.timed
    } else if buf.len() > before.setup.max_payload + REQUEST_HEADER_LEN {
        &&& after == before
        &&& r.is_refusal(OP_INVALID_IDX, STATUS_MESSAGE_TOO_LARGE, payload_bytes(buf))
        &&& !r.timed
    } else {
        &&& dispatches(before, after, tag, buf, now, r)
        &&& r.timed
    }
}

/// How a message can bring its endpoint down.
#[derive(Clone, Copy)]
pub enum Failure {
    /// It is longer than [`HARD_CAP`], and than any request the server takes.
    BeyondHardCap,
    /// It could not be received.
    Receive,
    /// Its reply could not be sent.
    Send,
}

impl Failure {
    /// The reason the endpoint is dropped for, as a metrics index.
    pub open spec fn reason(self) -> usize {
        match self {
            Failure::BeyondHardCap => DROP_HARD_CAP_IDX,
            Failure::Receive => DROP_TRANSPORT_IDX,
            Failure::Send => DROP_TRANSPORT_IDX,
        }
    }

    /// The reason the endpoint is dropped for, in words.
    pub open spec fn text(self) -> Seq<char> {
        match self {
            Failure::BeyondHardCap => "message beyond hard cap"@,
            Failure::Receive => "transport error on receive"@,
            Failure::Send => "transport error on send"@,
        }
    }

    /// The reason the endpoint is dropped for, as a metrics index.
    fn reason_idx(self) -> (idx: usize)
        ensures
            idx == self.reason(),
            idx < DROP_REASON_COUNT,
    {
        match self {
            Failure::BeyondHardCap => DROP_HARD_CAP_IDX,
            Failure::Receive => DROP_TRANSPORT_IDX,
            Failure::Send => DROP_TRANSPORT_IDX,
        }
    }

    /// The reason the endpoint is dropped for, in words.
    pub fn message(self) -> (s: &'static str)
        ensures
            s@ == self.text(),
    {
        match self {
            Failure::BeyondHardCap => "message beyond hard cap",
            Failure::Receive => "transport error on receive",
            Failure::Send => "transport error on send",
        }
    }
}

/// What the transport has to report of a message.
pub enum MessageEvent<'a> {
    /// A message of this many bytes is there to be received.
    Probed(usize),
    /// The message was taken off the transport unread.
    Discarded,
    /// The message was received.
    Received(&'a [u8]),
    /// The message could not be received.
    ReceiveFailed,
    /// The reply was sent.
    Sent,
    /// The reply could not be sent.
    SendFailed,
}

/// What to do next about a message.
pub enum MessageStep {
    /// Take the message off the transport unread.
    Discard,
    /// Receive the message in a buffer of this size.
    Receive(usize),
    /// Record this answer and send it back.
    Answer(Dispatched),
    /// Fail the endpoint of the message.
    Fail(Failure),
    /// Nothing: the message is dealt with.
    Done,
}

/// Whether a message of `len` bytes is way beyond anything legitimate: longer than
/// [`HARD_CAP`], and longer than the largest request that a server with the payload
/// limit `max_payload` takes. The two differ only for limits close to the cap.
pub open spec fn beyond_hard_cap(len: int, max_payload: int) -> bool {
    len > HARD_CAP && len > max_payload + REQUEST_HEADER_LEN
}

/// How a worker goes on after `event` of a message under `tag`. A message way
/// beyond anything legitimate is discarded unread and fails its endpoint, and so
/// does every transport error. A message of an endpoint that is gone has nobody
/// left to answer.
pub open spec fn message_goes_on<E>(
    before: WorkerView<E>,
    after: WorkerView<E>,
    tag: u64,
    event: MessageEvent<'_>,
    now: int,
    step: MessageStep,
) -> bool {
    match event {
        MessageEvent::Probed(len) => after == before && step == (if beyond_hard_cap(
            len as int,
            before.setup.max_payload,
        ) {
            MessageStep::Discard
        } else {
            MessageStep::Receive(len)
        }),
        MessageEvent::Discarded => after == before && step == MessageStep::Fail(
            Failure::BeyondHardCap,
        ),
        MessageEvent::ReceiveFailed => after == before && step == MessageStep::Fail(
            Failure::Receive,
        ),
        MessageEvent::Received(buf) => if before.endpoints.contains_key(
            tag_ep_id(tag as int) as u16,
        ) {
            &&& step matches MessageStep::Answer(d)
            &&& d.wf()
            &&& handles(before, after, tag, buf@, now, d)
            &&& d.contexts_added == -before.contexts_lost(after)
        } else {
            after == before && step == MessageStep::Done
        },
        MessageEvent::Sent => after == before && step == MessageStep::Done,
        MessageEvent::SendFailed => after == before && step == MessageStep::Fail(Failure::Send),
    }
}

/// What the server sends on an endpoint it has just accepted.
pub struct Announcement {
    /// The id given to the endpoint.
    pub ep_id: u16,
    /// The tag to send the hello under.
    pub tag: u64,
    /// The hello.
    pub hello: [u8; HELLO_LEN],
    /// What the id was taken from, if it was in use.
    pub replaced: Dropped,
}

/// What the transport has to report of the queue of connection requests.
pub enum AcceptEvent<R, E> {
    /// The queue is to be drained.
    Started,
    /// The next request was taken off the queue; none if the queue is empty.
    Polled(Option<R>),
    /// The request could not be accepted.
    NotAccepted,
    /// The request was accepted, as this endpoint.
    Accepted(E),
    /// The announcement on the endpoint was sent, or could not be.
    Announced { ep: E, ep_id: u16, sent: bool },
}

/// What to do next about the queue of connection requests.
pub enum AcceptStep<R, E> {
    /// Take the next request off the queue.
    Poll,
    /// Accept the request.
    Accept(R),
    /// Send the announcement on the endpoint.
    Announce { ep: E, hello: Announcement },
    /// Nothing: the queue is drained.
    Stop,
}

/// `hello` is the announcement on an endpoint that is being accepted: it has the
/// next endpoint id, and whatever was left under that id is gone.
pub open spec fn announces<E>(
    before: WorkerView<E>,
    after: WorkerView<E>,
    counts: Counts,
    counts_after: Counts,
    hello: Announcement,
) -> bool {
    &&& hello.ep_id == before.next_ep_id
    &&& hello.tag == with_response_bit(request_tag(hello.ep_id as int, HELLO_CONN_ID as int))
    &&& hello.hello@ == hello_of(before.setup).bytes()
    &&& hello.replaced.was_live == before.endpoints.contains_key(hello.ep_id)
    &&& hello.replaced.purged == before.contexts_lost(after)
    &&& after == (WorkerView {
        next_ep_id: next_id(hello.ep_id),
        ..before.without_endpoint(hello.ep_id)
    })
    &&& counts_after == counts_dropped(
        counts,
        hello.replaced.was_live,
        DROP_WRAP_IDX as int,
        hello.replaced.purged as int,
    )
    &&& tracks(before, after, counts, counts_after)
}

/// An accept is completed: if the announcement was sent, the endpoint is live from
/// now on; if not, it is counted as failed.
pub open spec fn completes_accept<E>(
    before: WorkerView<E>,
    after: WorkerView<E>,
    counts: Counts,
    counts_after: Counts,
    ep_id: u16,
    ep: E,
    announced: bool,
) -> bool {
    &&& after == (if announced {
        WorkerView { endpoints: before.endpoints.insert(ep_id, ep), ..before }
    } else {
        before
    })
    &&& counts_after == (if announced {
        counts.and_accepted()
    } else {
        counts.and_failed(DROP_HELLO_IDX as int)
    })
    &&& !before.endpoints.contains_key(ep_id) ==> tracks(before, after, counts, counts_after)
}

/// How a worker goes on after `event` while it drains the queue of connection
/// requests. A request that cannot be accepted or announced does not stop the
/// drain; only an empty queue does.
pub open spec fn accept_goes_on<R, E>(
    before: WorkerView<E>,
    after: WorkerView<E>,
    counts: Counts,
    counts_after: Counts,
    event: AcceptEvent<R, E>,
    step: AcceptStep<R, E>,
) -> bool {
    match event {
        AcceptEvent::Accepted(ep) => {
            &&& step matches AcceptStep::Announce { ep: announced, hello }
            &&& announced == ep
            &&& announces(before, after, counts, counts_after, hello)
        },
        AcceptEvent::Announced { ep, ep_id, sent } => {
            &&& step == AcceptStep::<R, E>::Poll
            &&& completes_accept(before, after, counts, counts_after, ep_id, ep, sent)
        },
        _ => {
            &&& after == before
            &&& counts_after == counts
            &&& step == (match event {
                AcceptEvent::Polled(Some(request)) => AcceptStep::<R, E>::Accept(request),
                AcceptEvent::Polled(None) => AcceptStep::Stop,
                _ => AcceptStep::Poll,
            })
        },
    }
}

/// The hello of a server with the given setup.
pub open spec fn hello_of(setup: Setup) -> Hello {
    Hello {
        level: setup.level as u8,
        window_log: setup.window_log as u8,
        magicless: true,
        max_payload: setup.max_payload as u32,
    }
}

/// The endpoint id that comes after `id`.
pub open spec fn next_id(id: u16) -> u16 {
    if id == u16::MAX {
        0
    } else {
        (id + 1) as u16
    }
}

impl<E> WorkerState<E> {
    /// Decides on a message that was received in full: `None` if its endpoint is
    /// gone and there is nobody left to answer, else what to answer.
    pub fn handle_message(&mut self, tag: u64, buf: &[u8], now: u128) -> (r: Option<Dispatched>)
        requires
            old(self).wf(),
        ensures
            final(self).wf(),
            r is Some <==> old(self)@.endpoints.contains_key(tag_ep_id(tag as int) as u16),
            r is None ==> final(self)@ == old(self)@,
            r matches Some(d) ==> d.wf() && handles(
                old(self)@,
                final(self)@,
                tag,
                buf@,
                now as int,
                d,
            ),
            r matches Some(d) ==> d.contexts_added == -old(self)@.contexts_lost(final(self)@),
            final(self)@.endpoints == old(self)@.endpoints,
    {
        if !self.endpoints.contains_key(&ep_id_of(tag)) {
            return None;
        }
        let len = buf.len();
        let answer = if len < REQUEST_HEADER_LEN {
            Dispatched::refusal(OP_INVALID_IDX, STATUS_BAD_REQUEST, 0, false)
        } else if len > self.cfg.max_payload + REQUEST_HEADER_LEN {
            Dispatched::refusal(
                OP_INVALID_IDX,
                STATUS_MESSAGE_TOO_LARGE,
                len - REQUEST_HEADER_LEN,
                false,
            )
        } else {
            self.dispatch_inner(tag, buf, now)
        };
        Some(answer)
    }

    /// How to go on after `event` of a message under `tag`.
    pub fn message_step(&mut self, tag: u64, event: MessageEvent<'_>, now: u128) -> (r: MessageStep)
        requires
            old(self).wf(),
        ensures
            final(self).wf(),
            message_goes_on(old(self)@, final(self)@, tag, event, now as int, r),
    {
        match event {
            MessageEvent::Probed(len) => {
                if len > HARD_CAP && len > self.cfg.max_payload + REQUEST_HEADER_LEN {
                    MessageStep::Discard
                } else {
                    MessageStep::Receive(len)
                }
            },
            MessageEvent::Discarded => MessageStep::Fail(Failure::BeyondHardCap),
            MessageEvent::ReceiveFailed => MessageStep::Fail(Failure::Receive),
            MessageEvent::Received(buf) => match self.handle_message(tag, buf, now) {
                Some(answer) => MessageStep::Answer(answer),
                None => MessageStep::Done,
            },
            MessageEvent::Sent => MessageStep::Done,
            MessageEvent::SendFailed => MessageStep::Fail(Failure::Send),
        }
    }

    /// Drops the endpoint that a message under `tag` came from, because of
    /// `failure`.
    pub fn fail(&mut self, metrics: &mut Metrics, tag: u64, failure: Failure) -> (r: Dropped)
        requires
            old(self).wf(),
        ensures
            final(self).wf(),
            final(self)@ == old(self)@.without_endpoint(tag_ep_id(tag as int) as u16),
            r.was_live == old(self)@.endpoints.contains_key(tag_ep_id(tag as int) as u16),
            r.purged == old(self)@.contexts_lost(final(self)@),
            final(metrics)@ == counts_dropped(
                old(metrics)@,
                r.was_live,
                failure.reason() as int,
                r.purged as int,
            ),
            tracks(old(self)@, final(self)@, old(metrics)@, final(metrics)@),
    {
        self.drop_endpoint(metrics, ep_id_of(tag), failure.reason_idx())
    }

    /// Assign an endpoint id from this worker's counter. After 2^16 accepts the
    /// id may still be in use; any stale state under it is dropped.
    fn alloc_ep_id(&mut self, metrics: &mut Metrics) -> (r: (u16, Dropped))
        requires
            old(self).wf(),
        ensures
            final(self).wf(),
            r.0 == old(self)@.next_ep_id,
            final(self)@ == (WorkerView {
                next_ep_id: next_id(r.0),
                ..old(self)@.without_endpoint(r.0)
            }),
            r.1.was_live == old(self)@.endpoints.contains_key(r.0),
            r.1.purged == old(self)@.contexts_lost(final(self)@),
            final(metrics)@ == counts_dropped(
                old(metrics)@,
                r.1.was_live,
                DROP_WRAP_IDX as int,
                r.1.purged as int,
            ),
            tracks(old(self)@, final(self)@, old(metrics)@, final(metrics)@),
    {
        let id = self.next_ep_id;
        self.next_ep_id = if id == u16::MAX {
            0
        } else {
            id + 1
        };
        assert(self@.contexts =~= old(self)@.contexts);
        let dropped = self.drop_endpoint(metrics, id, DROP_WRAP_IDX);
        (id, dropped)
    }

    /// Prepares the announcement on an endpoint that is being accepted.
    pub fn begin_accept(&mut self, metrics: &mut Metrics) -> (r: Announcement)
        requires
            old(self).wf(),
        ensures
            final(self).wf(),
            announces(old(self)@, final(self)@, old(metrics)@, final(metrics)@, r),
    {
        let (ep_id, replaced) = self.alloc_ep_id(metrics);
        let hello = Hello {
            level: self.cfg.level as u8,
            window_log: self.cfg.window_log as u8,
            magicless: true,
            max_payload: self.cfg.max_payload as u32,
        };
        assert(hello == hello_of(old(self)@.setup));
        Announcement { ep_id, tag: hello_tag(ep_id), hello: hello.encode(), replaced }
    }

    /// Completes an accept: if the announcement was sent, the endpoint is live
    /// from now on; if not, it is dropped and counted as failed.
    pub fn finish_accept(&mut self, metrics: &mut Metrics, ep_id: u16, ep: E, announced: bool)
        requires
            old(self).wf(),
        ensures
            final(self).wf(),
            completes_accept(
                old(self)@,
                final(self)@,
                old(metrics)@,
                final(metrics)@,
                ep_id,
                ep,
                announced,
            ),
    {
        if announced {
            self.endpoints.insert(ep_id, ep);
            metrics.endpoint_accepted();
            assert(self@.contexts =~= old(self)@.contexts);
        } else {
            metrics.connection_failed_before_accept(DROP_HELLO_IDX);
        }
    }

    /// How to go on after `event` while the queue of connection requests is drained.
    pub fn accept_step<R>(&mut self, metrics: &mut Metrics, event: AcceptEvent<R, E>) -> (r:
        AcceptStep<R, E>)
        requires
            old(self).wf(),
        ensures
            final(self).wf(),
            accept_goes_on(old(self)@, final(self)@, old(metrics)@, final(metrics)@, event, r),
    {
        match event {
            AcceptEvent::Started => AcceptStep::Poll,
            AcceptEvent::Polled(Some(request)) => AcceptStep::Accept(request),
            AcceptEvent::Polled(None) => AcceptStep::Stop,
            AcceptEvent::NotAccepted => AcceptStep::Poll,
            AcceptEvent::Accepted(ep) => {
                let hello = self.begin_accept(metrics);
                AcceptStep::Announce { ep, hello }
            },
            AcceptEvent::Announced { ep, ep_id, sent } => {
                self.finish_accept(metrics, ep_id, ep, sent);
                AcceptStep::Poll
            },
        }
    }
}

/// The first `i + 1` elements of `s` are its first `i` and element `i`.
proof fn lemma_take_one_more(s: Seq<u64>, i: int)
    requires
        0 <= i < s.len(),
        s.no_duplicates(),
    ensures
        forall|k: u64| #[trigger]
            s.take(i + 1).contains(k) <==> s.take(i).contains(k) || k == s[i],
        !s.take(i).contains(s[i]),
{
    assert forall|k: u64| #[trigger]
        s.take(i + 1).contains(k) <==> s.take(i).contains(k) || k == s[i] by {
        if s.take(i + 1).contains(k) {
            let j = choose|j: int| 0 <= j < i + 1 && #[trigger] s.take(i + 1)[j] == k;
            if j < i {
                assert(s.take(i)[j] == k);
            }
        }
        if s.take(i).contains(k) {
            let j = choose|j: int| 0 <= j < i && #[trigger] s.take(i)[j] == k;
            assert(s.take(i + 1)[j] == k);
        }
        assert(s.take(i + 1)[i] == s[i]);
    }
    if s.take(i).contains(s[i]) {
        let j = choose|j: int| 0 <= j < i && #[trigger] s.take(i)[j] == s[i];
        assert(s[j] == s[i]);
    }
}

/// A sequence with one more element holds that element too.
proof fn lemma_push_contains(s: Seq<u64>, key: u64)
    requires
        s.no_duplicates(),
        !s.contains(key),
    ensures
        forall|k: u64| #[trigger] s.push(key).contains(k) <==> s.contains(k) || k == key,
        s.push(key).no_duplicates(),
{
    assert forall|k: u64| #[trigger] s.push(key).contains(k) <==> s.contains(k) || k == key by {
        if s.contains(k) {
            let j = choose|j: int| 0 <= j < s.len() && s[j] == k;
            assert(s.push(key)[j] == k);
        }
        assert(s.push(key)[s.len() as int] == key);
    }
}

/// A worker has finitely many endpoints and contexts, so that their numbers mean
/// something: the numbers that the gauges follow.
pub proof fn law_workers_own_finitely_many<E>(worker: WorkerState<E>)
    ensures
        worker@.endpoints.dom().finite(),
        worker@.contexts.dom().finite(),
{
    assert(worker@.contexts.dom() =~= worker.ctxs@.dom());
}

/// Every context of a well-formed worker belongs to a live endpoint.
pub proof fn law_contexts_are_pinned<E>(worker: WorkerState<E>)
    requires
        worker.wf(),
    ensures
        worker@.pinned(),
{
}

/// Connections are told apart: two tags lead to the same contexts only if they
/// carry the same endpoint and the same connection.
pub proof fn law_connections_are_told_apart(a: u64, b: u64)
    ensures
        tag_key(a) == tag_key(b) <==> tag_ep_id(a as int) == tag_ep_id(b as int) && tag_conn_id(
            a as int,
        ) == tag_conn_id(b as int),
        key_ep_id(tag_key(a)) == tag_ep_id(a as int),
{
    let (ep_a, conn_a) = (tag_ep_id(a as int), tag_conn_id(a as int));
    let (ep_b, conn_b) = (tag_ep_id(b as int), tag_conn_id(b as int));
    assert(tag_key(a) == ep_a * 0x1_0000_0000 + conn_a);
    assert(tag_key(b) == ep_b * 0x1_0000_0000 + conn_b);
}

/// A request touches no other connection: whatever it comes to, the contexts of
/// the others, the endpoints and the setup stay as they were, and neither the next
/// sweep nor the next endpoint id is put off.
pub proof fn law_other_connections_are_untouched<E>(
    before: WorkerView<E>,
    after: WorkerView<E>,
    tag: u64,
    buf: Seq<u8>,
    now: int,
    r: Dispatched,
    other: u64,
)
    requires
        handles(before, after, tag, buf, now, r),
        other != tag_key(tag),
    ensures
        after.contexts.contains_key(other) == before.contexts.contains_key(other),
        after.context(other) == before.context(other),
        after.endpoints == before.endpoints,
        after.setup == before.setup,
        after.last_gc == before.last_gc,
        after.next_ep_id == before.next_ep_id,
{
}

/// Contexts come with the first message or packet of a connection and go with its
/// reset; nothing else a request asks for makes or drops one. What the gauge is
/// moved by is what came or went.
pub proof fn law_contexts_come_and_go<E>(
    before: WorkerView<E>,
    after: WorkerView<E>,
    tag: u64,
    buf: Seq<u8>,
    now: int,
    r: Dispatched,
)
    requires
        before.contexts.dom().finite(),
        handles(before, after, tag, buf, now, r),
        r.contexts_added == -before.contexts_lost(after),
    ensures
        ({
            let key = tag_key(tag);
            let had = before.contexts.contains_key(key);
            if r.op_idx == OP_COMPRESS_IDX || (r.op_idx == OP_DECOMPRESS_IDX && r.status
                != STATUS_MESSAGE_TOO_LARGE) {
                &&& after.contexts.dom() == before.contexts.dom().insert(key)
                &&& r.contexts_added == (if had {
                    0int
                } else {
                    1int
                })
            } else if r.op_idx == OP_RESET_IDX {
                &&& after.contexts.dom() == before.contexts.dom().remove(key)
                &&& r.contexts_added == (if had {
                    -1int
                } else {
                    0int
                })
            } else {
                &&& after == before
                &&& r.contexts_added == 0
            }
        }),
{
    let key = tag_key(tag);
    assert(before.contexts.insert(key, after.contexts[key]).dom() =~= before.contexts.dom().insert(
        key,
    ));
    assert(before.contexts.remove(key).dom() =~= before.contexts.dom().remove(key));
}

/// The announced size matters to decompression alone: two messages that differ
/// only there come to the same, unless that is what they ask for.
pub proof fn law_announced_sizes_matter_to_decompression_alone<E>(
    before: WorkerView<E>,
    after: WorkerView<E>,
    tag: u64,
    buf: Seq<u8>,
    other: Seq<u8>,
    now: int,
    r: Dispatched,
)
    requires
        buf.len() == other.len(),
        buf.len() >= REQUEST_HEADER_LEN,
        buf.take(4) == other.take(4),
        buf.skip(8) == other.skip(8),
        buf[0] != OP_DECOMPRESS,
        handles(before, after, tag, buf, now, r),
    ensures
        handles(before, after, tag, other, now, r),
{
    assert(buf[0] == buf.take(4)[0] && other[0] == other.take(4)[0]);
    assert forall|i: int| 8 <= i < buf.len() implies buf[i] == other[i] by {
        assert(buf.skip(8)[i - 8] == other.skip(8)[i - 8]);
    }
    assert(buf.skip(REQUEST_HEADER_LEN as int) =~= other.skip(REQUEST_HEADER_LEN as int));
    assert(buf[8] == other[8] && buf[9] == other[9] && buf[10] == other[10] && buf[11]
        == other[11]);
}

/// What is counted as received is payload: the header's bytes never are, whatever
/// becomes of the request.
pub proof fn law_payload_bytes_are_counted<E>(
    before: WorkerView<E>,
    after: WorkerView<E>,
    tag: u64,
    buf: Seq<u8>,
    now: int,
    r: Dispatched,
)
    requires
        handles(before, after, tag, buf, now, r),
    ensures
        r.bytes_in == payload_bytes(buf),
        buf.len() >= 12 ==> r.bytes_in == buf.len() - 12,
        buf.len() < 12 ==> r.bytes_in == 0,
{
}

/// A worker answers with one of four statuses, with a payload only if all went
/// well, and a refused request changes nothing.
pub proof fn law_refusals_change_nothing<E>(
    before: WorkerView<E>,
    after: WorkerView<E>,
    tag: u64,
    buf: Seq<u8>,
    now: int,
    r: Dispatched,
)
    requires
        handles(before, after, tag, buf, now, r),
    ensures
        r.status == STATUS_OK || r.status == STATUS_BAD_REQUEST || r.status == STATUS_ZSTD_ERROR
            || r.status == STATUS_MESSAGE_TOO_LARGE,
        r.status != STATUS_OK ==> r.payload@.len() == 0,
        r.status == STATUS_BAD_REQUEST || r.status == STATUS_MESSAGE_TOO_LARGE ==> after == before,
{
}

/// A message fails its endpoint exactly if it is beyond the hard cap or the
/// transport had trouble with it or its reply; a bad request never does.
pub proof fn law_only_trouble_fails_an_endpoint<E>(
    before: WorkerView<E>,
    after: WorkerView<E>,
    tag: u64,
    event: MessageEvent<'_>,
    now: int,
    step: MessageStep,
)
    requires
        message_goes_on(before, after, tag, event, now, step),
    ensures
        step is Fail <==> event is Discarded || event is ReceiveFailed || event is SendFailed,
        step is Discard <==> event is Probed && beyond_hard_cap(
            event->Probed_0 as int,
            before.setup.max_payload,
        ),
        step is Discard <==> event is Probed && event->Probed_0 > 67_108_864 && event->Probed_0
            > before.setup.max_payload + 12,
        step is Receive ==> event is Probed && step->Receive_0 == event->Probed_0,
        step is Answer ==> event is Received,
        !(event is Received) ==> after == before,
        after.endpoints == before.endpoints,
{
}

/// Draining the queue of connection requests stops exactly when the queue is empty:
/// no failure stops it.
pub proof fn law_only_an_empty_queue_stops_the_drain<R, E>(
    before: WorkerView<E>,
    after: WorkerView<E>,
    counts: Counts,
    counts_after: Counts,
    event: AcceptEvent<R, E>,
    step: AcceptStep<R, E>,
)
    requires
        accept_goes_on(before, after, counts, counts_after, event, step),
    ensures
        step is Stop <==> event is Polled && event->Polled_0 is None,
        event is Started || event is NotAccepted || event is Announced ==> step is Poll,
        event matches AcceptEvent::Polled(Some(request)) ==> step == AcceptStep::<R, E>::Accept(
            request,
        ),
        event matches AcceptEvent::Accepted(ep) ==> step is Announce && step->ep == ep,
        event is Started || event is Polled || event is NotAccepted ==> after == before
            && counts_after == counts,
{
}

/// A reset forgets the connection: its next message starts on fresh streams.
/// Another reset changes nothing more, and is answered alike.
pub proof fn law_reset_is_idempotent<E>(
    before: WorkerView<E>,
    between: WorkerView<E>,
    after: WorkerView<E>,
    key: u64,
    payload: Seq<u8>,
    first: Dispatched,
    second: Dispatched,
)
    requires
        reset_dispatched(before, between, key, payload, first),
        reset_dispatched(between, after, key, payload, second),
    ensures
        !between.contexts.contains_key(key),
        between.context(key).encoder(before.setup) == fresh_encoder(
            before.setup.level,
            before.setup.window_log,
        ),
        between.context(key).decoder() == fresh_decoder(),
        after == between,
        second.status == first.status,
{
    assert(after.contexts =~= between.contexts);
}

/// What one worker compresses for a connection, another gives back: as long as
/// the two streams are paired, the decompressed payload is the message, the
/// announced size was its true size, and the streams stay paired.
pub proof fn law_offloaded_round_trip<E, F>(
    a_before: WorkerView<E>,
    a_after: WorkerView<E>,
    a_key: u64,
    message: Seq<u8>,
    a_now: int,
    compressed: Dispatched,
    b_before: WorkerView<F>,
    b_after: WorkerView<F>,
    b_key: u64,
    raw_size: nat,
    b_now: int,
    decompressed: Dispatched,
)
    requires
        paired(a_before.context(a_key).encoder(a_before.setup), b_before.context(b_key).decoder()),
        compress_dispatched(a_before, a_after, a_key, message, a_now, compressed),
        compressed.status == STATUS_OK,
        decompress_dispatched(
            b_before,
            b_after,
            b_key,
            compressed.payload@,
            raw_size,
            b_now,
            decompressed,
        ),
        decompressed.status == STATUS_OK,
    ensures
        decompressed.payload@ == message,
        raw_size == message.len(),
        paired(a_after.context(a_key).encoder(a_after.setup), b_after.context(b_key).decoder()),
{
    law_exact_means_the_message(
        a_before.context(a_key).encoder(a_before.setup),
        a_after.contexts[a_key].cctx->0,
        b_before.context(b_key).decoder(),
        b_after.contexts[b_key].dctx->0,
        message,
        compressed.payload@,
        decompressed.payload@,
    );
}

/// A packet announced with its true size is refused only if zstd itself failed,
/// as long as the two streams are paired and the decoder has written all there
/// was to write. The connection's decoder is then of no use until it is reset.
pub proof fn law_true_sizes_are_not_refused<E, F>(
    a_before: WorkerView<E>,
    a_after: WorkerView<E>,
    a_key: u64,
    message: Seq<u8>,
    a_now: int,
    compressed: Dispatched,
    b_before: WorkerView<F>,
    b_after: WorkerView<F>,
    b_key: u64,
    b_now: int,
    refused: Dispatched,
)
    requires
        paired(a_before.context(a_key).encoder(a_before.setup), b_before.context(b_key).decoder()),
        caught_up(b_before.context(b_key).decoder()),
        compress_dispatched(a_before, a_after, a_key, message, a_now, compressed),
        compressed.status == STATUS_OK,
        message.len() <= HARD_CAP,
        decompress_dispatched(
            b_before,
            b_after,
            b_key,
            compressed.payload@,
            message.len(),
            b_now,
            refused,
        ),
        refused.status != STATUS_OK,
    ensures
        refused.status == STATUS_ZSTD_ERROR,
        b_after.context(b_key).decoder().failed,
{
    let start = b_before.context(b_key).decoder();
    let end = b_after.contexts[b_key].dctx->0;
    let packet = compressed.payload@;
    let (out, e) = choose|out: Seq<u8>, e: Seq<char>|
        out.len() == message.len() && #[trigger] exact_failure(start, end, packet, out, e);
    law_exact_refuses_no_true_size(
        a_before.context(a_key).encoder(a_before.setup),
        a_after.contexts[a_key].cctx->0,
        start,
        end,
        message,
        packet,
        out,
        e,
    );
}

/// Connections that have no contexts yet are paired: their first message comes
/// back, and so on.
pub proof fn law_new_connections_are_paired<E, F>(
    a: WorkerView<E>,
    a_key: u64,
    b: WorkerView<F>,
    b_key: u64,
)
    requires
        !a.contexts.contains_key(a_key),
        !b.contexts.contains_key(b_key),
    ensures
        paired(a.context(a_key).encoder(a.setup), b.context(b_key).decoder()),
{
}

/// What a worker compresses to a frame of its own, a worker gives back on any
/// stream that is between frames, and the stream is between frames again.
pub proof fn law_oneshot_offloaded_round_trip<E, F>(
    a_before: WorkerView<E>,
    a_after: WorkerView<E>,
    message: Seq<u8>,
    compressed: Dispatched,
    b_before: WorkerView<F>,
    b_after: WorkerView<F>,
    b_key: u64,
    raw_size: nat,
    b_now: int,
    decompressed: Dispatched,
)
    requires
        oneshot_dispatched(a_before, a_after, message, compressed),
        compressed.status == STATUS_OK,
        between_frames(b_before.context(b_key).decoder()),
        decompress_dispatched(
            b_before,
            b_after,
            b_key,
            compressed.payload@,
            raw_size,
            b_now,
            decompressed,
        ),
        decompressed.status == STATUS_OK,
    ensures
        decompressed.payload@ == message,
        raw_size == message.len(),
        between_frames(b_after.context(b_key).decoder()),
{
    law_exact_oneshot_means_the_message(
        b_before.context(b_key).decoder(),
        b_after.contexts[b_key].dctx->0,
        message,
        compressed.payload@,
        decompressed.payload@,
    );
}

/// Recording an answer moves the gauges exactly as the worker's contexts moved.
pub proof fn law_recorded_answers_track<E>(
    before: WorkerView<E>,
    after: WorkerView<E>,
    tag: u64,
    buf: Seq<u8>,
    now: int,
    r: Dispatched,
    counts: Counts,
    nanos: int,
)
    requires
        handles(before, after, tag, buf, now, r),
        r.contexts_added == -before.contexts_lost(after),
    ensures
        tracks(
            before,
            after,
            counts,
            counts.and_contexts(r.contexts_added as int).and_request(
                r.op_idx as int,
                r.status_idx as int,
                r.bytes_in as int,
                r.payload@.len() as int,
                nanos,
            ),
        ),
{
}

/// Gauges that follow a worker from one state to the next and on to a third
/// follow it from the first to the third: whatever happens, in whatever order,
/// the gauges move with the number of live endpoints and contexts.
pub proof fn law_tracking_composes<E>(
    first: WorkerView<E>,
    second: WorkerView<E>,
    third: WorkerView<E>,
    counts_first: Counts,
    counts_second: Counts,
    counts_third: Counts,
)
    requires
        tracks(first, second, counts_first, counts_second),
        tracks(second, third, counts_second, counts_third),
    ensures
        tracks(first, third, counts_first, counts_third),
{
    lemma_gauge_goes_on(
        counts_first.endpoints + second.endpoints.dom().len() - first.endpoints.dom().len(),
        third.endpoints.dom().len() - second.endpoints.dom().len(),
    );
    lemma_gauge_goes_on(
        counts_first.contexts + second.contexts.dom().len() - first.contexts.dom().len(),
        third.contexts.dom().len() - second.contexts.dom().len(),
    );
}

/// Where nothing was live when counting began, the gauges show how many endpoints
/// and contexts are live.
pub proof fn law_gauges_show_what_is_live<E>(
    first: WorkerView<E>,
    last: WorkerView<E>,
    counts: Counts,
)
    requires
        tracks(first, last, Counts::zero(), counts),
        first.endpoints.dom().len() == 0,
        first.contexts.dom().len() == 0,
        last.endpoints.dom().len() <= i64::MAX,
        last.contexts.dom().len() <= i64::MAX,
    ensures
        counts.endpoints == last.endpoints.dom().len(),
        counts.contexts == last.contexts.dom().len(),
{
}

/// Workers can share their counters: when one moves and then another, the gauges
/// move by what the two gained and lost between them.
pub proof fn law_gauges_add_up_over_workers<E>(
    a_before: WorkerView<E>,
    a_after: WorkerView<E>,
    b_before: WorkerView<E>,
    b_after: WorkerView<E>,
    counts: Counts,
    counts_between: Counts,
    counts_after: Counts,
)
    requires
        tracks(a_before, a_after, counts, counts_between),
        tracks(b_before, b_after, counts_between, counts_after),
    ensures
        counts_after.endpoints == gauge(
            counts.endpoints + a_after.endpoints.dom().len() - a_before.endpoints.dom().len()
                + b_after.endpoints.dom().len() - b_before.endpoints.dom().len(),
        ),
        counts_after.contexts == gauge(
            counts.contexts + a_after.contexts.dom().len() - a_before.contexts.dom().len()
                + b_after.contexts.dom().len() - b_before.contexts.dom().len(),
        ),
{
    lemma_gauge_goes_on(
        counts.endpoints + a_after.endpoints.dom().len() - a_before.endpoints.dom().len(),
        b_after.endpoints.dom().len() - b_before.endpoints.dom().len(),
    );
    lemma_gauge_goes_on(
        counts.contexts + a_after.contexts.dom().len() - a_before.contexts.dom().len(),
        b_after.contexts.dom().len() - b_before.contexts.dom().len(),
    );
}

/// A worker can count what it does on its own: once that is added to the totals,
/// the totals follow the worker.
pub proof fn law_added_up_gauges_track<E>(
    before: WorkerView<E>,
    after: WorkerView<E>,
    change: Counts,
    total: Counts,
)
    requires
        tracks(before, after, Counts::zero(), change),
    ensures
        tracks(before, after, total, total.plus(change)),
{
    let endpoints = after.endpoints.dom().len() - before.endpoints.dom().len();
    let contexts = after.contexts.dom().len() - before.contexts.dom().len();
    lemma_gauge_goes_on(endpoints, total.endpoints as int);
    lemma_gauge_goes_on(contexts, total.contexts as int);
}

/// Dropping an endpoint takes exactly its own contexts with it, and leaves everything
/// else as it was.
pub proof fn law_dropping_purges_exactly_its_own<E>(worker: WorkerView<E>, ep_id: u16, key: u64)
    ensures
        !worker.without_endpoint(ep_id).endpoints.contains_key(ep_id),
        worker.without_endpoint(ep_id).contexts.contains_key(key) <==> worker.contexts.contains_key(
            key,
        ) && key_ep_id(key) != ep_id,
        key_ep_id(key) != ep_id ==> worker.without_endpoint(ep_id).context(key) == worker.context(
            key,
        ),
        forall|other: u16|
            other != ep_id ==> (#[trigger] worker.without_endpoint(ep_id).endpoints.contains_key(
                other,
            ) == worker.endpoints.contains_key(other)),
        forall|other: u16|
            other != ep_id && worker.endpoints.contains_key(other) ==> (
            #[trigger] worker.endpoints[other] == worker.without_endpoint(ep_id).endpoints[other]),
        worker.without_endpoint(ep_id).setup == worker.setup,
        worker.without_endpoint(ep_id).next_ep_id == worker.next_ep_id,
        worker.without_endpoint(ep_id).last_gc == worker.last_gc,
{
}

/// A sweep drops a connection exactly if its last use lies back by more than the
/// configured number of seconds, and leaves every other as it was.
pub proof fn law_sweeping_spares_the_recent<E>(worker: WorkerView<E>, now: int, key: u64)
    requires
        worker.contexts.contains_key(key),
    ensures
        worker.swept(now).contexts.contains_key(key) <==> now - worker.contexts[key].last_used
            <= worker.setup.gc_secs * 1_000_000_000,
        worker.swept(now).contexts.contains_key(key) ==> worker.swept(now).contexts[key]
            == worker.contexts[key],
        worker.swept(now).endpoints == worker.endpoints,
        worker.swept(now).setup == worker.setup,
        worker.swept(now).next_ep_id == worker.next_ep_id,
        worker.swept(now).last_gc == now,
        elapsed(worker.contexts[key].last_used, now) == (if now
            >= worker.contexts[key].last_used {
            now - worker.contexts[key].last_used
        } else {
            0
        }),
{
}

/// A sweep makes no connection up.
pub proof fn law_sweeping_adds_nothing<E>(worker: WorkerView<E>, now: int, key: u64)
    requires
        worker.swept(now).contexts.contains_key(key),
    ensures
        worker.contexts.contains_key(key),
{
}

/// Use keeps contexts alive: a connection whose message or packet was dealt with loses
/// its contexts to a sweep exactly if more than the configured time has gone by since.
pub proof fn law_use_keeps_contexts_alive<E>(
    before: WorkerView<E>,
    after: WorkerView<E>,
    tag: u64,
    buf: Seq<u8>,
    used: int,
    r: Dispatched,
    now: int,
)
    requires
        handles(before, after, tag, buf, used, r),
        r.op_idx == OP_COMPRESS_IDX || r.op_idx == OP_DECOMPRESS_IDX,
        r.status != STATUS_MESSAGE_TOO_LARGE,
    ensures
        after.contexts.contains_key(tag_key(tag)),
        after.swept(now).contexts.contains_key(tag_key(tag)) <==> now - used
            <= before.setup.gc_secs * 1_000_000_000,
{
}

/// Nothing is ever left to be flushed on a well-formed worker, of encoders that have
/// not failed, and all its decoders read magicless frames.
pub proof fn law_workers_are_settled<E>(worker: WorkerState<E>)
    requires
        worker.wf(),
    ensures
        worker@.settled(),
{
    assert forall|key: u64| #[trigger]
        worker@.contexts.contains_key(key) implies worker@.contexts[key].settled() by {
        assert(worker.ctxs@.contains_key(key));
    }
}

/// Compressing fails only where zstd fails: a message of any length is answered with
/// a packet, unless zstd failed at it, which fails the connection's encoder until it
/// is reset. It never fails for want of room.
pub proof fn law_messages_are_compressed<E>(
    before: WorkerView<E>,
    after: WorkerView<E>,
    key: u64,
    message: Seq<u8>,
    now: int,
    r: Dispatched,
)
    requires
        before.settled(),
        compress_dispatched(before, after, key, message, now, r),
    ensures
        after.context(key).encoder(after.setup).failed || r.status == STATUS_OK,
        r.status != STATUS_OK ==> r.status == STATUS_ZSTD_ERROR && exists|out: Seq<u8>|
            #[trigger] failed_at(
                before.context(key).encoder(before.setup),
                after.context(key).encoder(after.setup),
                message,
                out,
            ),
        r.status == STATUS_OK ==> r.payload@.len() <= message.len() + message.len() / 256 + 64,
        after.settled(),
{
    let start = before.context(key).encoder(before.setup);
    assert(start.failed || start.unflushed == 0);
    if r.status != STATUS_OK {
        let (out, e) = choose|out: Seq<u8>, e: Seq<char>|
            out.len() == bound_of(message.len() as int) && #[trigger] compress_failure(
                start,
                after.contexts[key].cctx->0,
                message,
                out,
                e,
            );
        assert(failed_at(start, after.contexts[key].cctx->0, message, out));
    }
}

/// Compressing to a frame of its own fails only where zstd fails at just that: a
/// message of any length is answered with a frame, unless zstd refused that message,
/// at the server's level and window, with as much room as its bound asks for.
pub proof fn law_messages_are_compressed_at_once<E>(
    before: WorkerView<E>,
    after: WorkerView<E>,
    message: Seq<u8>,
    r: Dispatched,
)
    requires
        oneshot_dispatched(before, after, message, r),
    ensures
        r.status == STATUS_OK ==> frame_of(r.payload@, message),
        r.status == STATUS_OK || refused_at_once(
            Settings {
                level: before.setup.level,
                window_log: before.setup.window_log,
                magicless: true,
                content_size: false,
            },
            message,
            message.len() + message.len() / 256 + (if message.len() < 131072 {
                ((131072 - message.len()) / 2048) as nat
            } else {
                0
            }),
        ),
        after == before,
{
}

/// Decompressing fails only over the packet itself: where the connection's decoder
/// fails, what zstd rejected is the rest of what the connection sent.
pub proof fn law_only_what_was_sent_is_rejected<E>(
    before: WorkerView<E>,
    after: WorkerView<E>,
    key: u64,
    packet: Seq<u8>,
    raw_size: nat,
    now: int,
    r: Dispatched,
)
    requires
        raw_size <= HARD_CAP,
        decompress_dispatched(before, after, key, packet, raw_size, now, r),
        !before.context(key).decoder().failed,
        after.context(key).decoder().failed,
    ensures
        ({
            let (start, end) = (before.context(key).decoder(), after.context(key).decoder());
            &&& end.fed + end.rejected == start.fed + packet
            &&& start.fed.is_prefix_of(end.fed)
            &&& end.idle <= start.idle + 1
        }),
{
    let (start, end) = (before.context(key).decoder(), after.contexts[key].dctx->0);
    let (out, e) = choose|out: Seq<u8>, e: Seq<char>|
        out.len() == raw_size && #[trigger] exact_failure(start, end, packet, out, e);
    assert(exact_outcome(start, end, packet, out, Err(e)));
    law_only_the_stream_is_rejected(start, end, packet, out, Err(e));
}

/// Once a connection is under way its messages come back without fail: a packet that
/// one worker made of a message, announced with its true size, is answered with the
/// message by the other, and so is the next one.
pub proof fn law_messages_under_way_come_back<E, F>(
    a_before: WorkerView<E>,
    a_after: WorkerView<E>,
    a_key: u64,
    message: Seq<u8>,
    a_now: int,
    compressed: Dispatched,
    b_before: WorkerView<F>,
    b_after: WorkerView<F>,
    b_key: u64,
    b_now: int,
    decompressed: Dispatched,
)
    requires
        paired(a_before.context(a_key).encoder(a_before.setup), b_before.context(b_key).decoder()),
        caught_up(b_before.context(b_key).decoder()),
        b_before.settled(),
        !b_before.context(b_key).decoder().failed,
        b_before.context(b_key).decoder().emitted.len() > 0,
        compress_dispatched(a_before, a_after, a_key, message, a_now, compressed),
        compressed.status == STATUS_OK,
        0 < message.len() <= HARD_CAP,
        decompress_dispatched(
            b_before,
            b_after,
            b_key,
            compressed.payload@,
            message.len(),
            b_now,
            decompressed,
        ),
    ensures
        decompressed.status == STATUS_OK,
        decompressed.payload@ == message,
        paired(a_after.context(a_key).encoder(a_after.setup), b_after.context(b_key).decoder()),
        caught_up(b_after.context(b_key).decoder()),
        b_after.settled(),
        !b_after.context(b_key).decoder().failed,
        b_after.context(b_key).decoder().emitted.len() > 0,
{
    let (start, end) = (b_before.context(b_key).decoder(), b_after.contexts[b_key].dctx->0);
    let packet = compressed.payload@;
    let (out, outcome): (Seq<u8>, Result<(), Seq<char>>) = if decompressed.status == STATUS_OK {
        (decompressed.payload@, Ok(()))
    } else {
        let (out, e) = choose|out: Seq<u8>, e: Seq<char>|
            out.len() == message.len() && #[trigger] exact_failure(start, end, packet, out, e);
        (out, Err(e))
    };
    assert(exact_outcome(start, end, packet, out, outcome));
    law_streams_under_way_do_not_fail(
        a_before.context(a_key).encoder(a_before.setup),
        a_after.contexts[a_key].cctx->0,
        start,
        end,
        message,
        packet,
        out,
        outcome,
    );
}

/// Endpoint ids go round: each accept takes the next one, from 0 to 65535 and then
/// from 0 again, and announces it in the top bits of the hello's tag. Whatever was
/// left under that id is gone, and nothing else is.
pub proof fn law_endpoint_ids_go_round<E>(
    before: WorkerView<E>,
    after: WorkerView<E>,
    counts: Counts,
    counts_after: Counts,
    hello: Announcement,
    other: u16,
    key: u64,
)
    requires
        announces(before, after, counts, counts_after, hello),
    ensures
        hello.ep_id == before.next_ep_id,
        after.next_ep_id == (before.next_ep_id + 1) % 0x1_0000,
        hello.tag == ((hello.ep_id as u64) << 48 | 0x1_FFFF_FFFF),
        before.setup.valid() ==> Hello::parsed(hello.hello@) == Ok::<Hello, DecodeError>(
            Hello {
                level: before.setup.level as u8,
                window_log: before.setup.window_log as u8,
                magicless: true,
                max_payload: before.setup.max_payload as u32,
            },
        ),
        !after.endpoints.contains_key(hello.ep_id),
        other != hello.ep_id ==> after.endpoints.contains_key(other)
            == before.endpoints.contains_key(other),
        other != hello.ep_id && after.endpoints.contains_key(other) ==> after.endpoints[other]
            == before.endpoints[other],
        after.contexts.contains_key(key) <==> before.contexts.contains_key(key) && key
            / 0x1_0000_0000 != hello.ep_id,
        after.contexts.contains_key(key) ==> after.contexts[key] == before.contexts[key],
        after.setup == before.setup,
        after.last_gc == before.last_gc,
        counts_after == counts_dropped(
            counts,
            before.endpoints.contains_key(hello.ep_id),
            2,
            before.contexts_lost(after),
        ),
{
    let ep_id = hello.ep_id;
    assert(((ep_id as u64) << 48 | 0x1_FFFF_FFFF) == ep_id * 0x1_0000_0000_0000 + 0x1_FFFF_FFFF)
        by (bit_vector);
    law_tag_round_trip(ep_id, HELLO_CONN_ID);
    law_hello_round_trip(hello_of(before.setup), Seq::empty());
    assert(hello.hello@ + Seq::<u8>::empty() =~= hello.hello@);
}

/// An accepted endpoint is live exactly if its announcement was sent, under the id
/// that was announced, and every other endpoint stays as it was. It is counted as
/// accepted then, and else as dropped over its hello.
pub proof fn law_announced_endpoints_are_live<R, E>(
    before: WorkerView<E>,
    after: WorkerView<E>,
    counts: Counts,
    counts_after: Counts,
    ep: E,
    ep_id: u16,
    sent: bool,
    step: AcceptStep<R, E>,
    other: u16,
)
    requires
        accept_goes_on(
            before,
            after,
            counts,
            counts_after,
            AcceptEvent::Announced { ep, ep_id, sent },
            step,
        ),
        !before.endpoints.contains_key(ep_id),
    ensures
        after.endpoints.contains_key(ep_id) <==> sent,
        sent ==> after.endpoints[ep_id] == ep,
        other != ep_id ==> after.endpoints.contains_key(other) == before.endpoints.contains_key(
            other,
        ),
        other != ep_id && after.endpoints.contains_key(other) ==> after.endpoints[other]
            == before.endpoints[other],
        after.contexts == before.contexts,
        after.next_ep_id == before.next_ep_id,
        after.setup == before.setup,
        after.last_gc == before.last_gc,
        step is Poll,
        sent ==> counts_after == counts.and_accepted(),
        !sent ==> counts_after == counts.and_failed(3),
{
}

/// Whoever is live is answered: a message that was received from a live endpoint, by
/// the id in the top bits of its tag, gets an answer, and one from any other gets
/// none and changes nothing.
pub proof fn law_live_endpoints_are_answered<E>(
    before: WorkerView<E>,
    after: WorkerView<E>,
    tag: u64,
    buf: &[u8],
    now: int,
    step: MessageStep,
)
    requires
        message_goes_on(before, after, tag, MessageEvent::Received(buf), now, step),
    ensures
        step is Answer <==> before.endpoints.contains_key((tag >> 48) as u16),
        step is Answer || step is Done && after == before,
        step matches MessageStep::Answer(d) ==> handles(before, after, tag, buf@, now, d),
{
    law_tags_bit_by_bit(0, 0, tag);
}

/// Dropping an endpoint is counted once under its reason, if it was live, and each
/// context that went with it as evicted with its endpoint, but for multiples of 2^64.
pub proof fn law_drops_are_counted(
    counts: Counts,
    was_live: bool,
    reason: int,
    other: int,
    purged: int,
)
    requires
        counts.complete(),
        0 <= reason < 4,
        0 <= other < 4,
        0 <= purged,
    ensures
        ({
            let m: int = 0x1_0000_0000_0000_0000;
            let after = counts_dropped(counts, was_live, reason, purged);
            &&& was_live ==> (counts.dropped[reason] + 1 - after.dropped[reason]) % m == 0
            &&& was_live ==> (counts.endpoints - 1 - after.endpoints) % m == 0
            &&& !was_live ==> after.dropped == counts.dropped && after.endpoints
                == counts.endpoints
            &&& other != reason ==> after.dropped[other] == counts.dropped[other]
            &&& (counts.evicted[1] + purged - after.evicted[1]) % m == 0
            &&& (counts.contexts - purged - after.contexts) % m == 0
            &&& after.evicted[0] == counts.evicted[0]
            &&& after.accepted == counts.accepted
            &&& after.ops == counts.ops
        }),
{
    law_comings_and_goings_are_counted(counts, reason, other, 0);
    let between = if was_live {
        counts.and_dropped(reason)
    } else {
        counts
    };
    law_comings_and_goings_are_counted(between, 1, 0, purged);
}

/// A sweep is due exactly once five seconds have gone by since the last one.
pub proof fn law_sweeps_are_due_after_five_seconds<E>(worker: WorkerState<E>, now: u128, due: bool)
    requires
        call_ensures(WorkerState::<E>::gc_is_due, (&worker, now), due),
    ensures
        due <==> now - worker@.last_gc >= 5 * 1_000_000_000,
{
}

/// The two halves of a connection are independent: compressing leaves its decoder as
/// it was, and decompressing its encoder, whatever comes of it.
pub proof fn law_halves_are_independent<E>(
    before: WorkerView<E>,
    after: WorkerView<E>,
    key: u64,
    payload: Seq<u8>,
    raw_size: nat,
    now: int,
    r: Dispatched,
)
    ensures
        compress_dispatched(before, after, key, payload, now, r) ==> after.context(key).decoder()
            == before.context(key).decoder() && after.context(key).dctx == before.context(key).dctx,
        decompress_dispatched(before, after, key, payload, raw_size, now, r) ==> after.context(
            key,
        ).encoder(after.setup) == before.context(key).encoder(before.setup) && after.context(
            key,
        ).cctx == before.context(key).cctx,
{
}

} // verus!
