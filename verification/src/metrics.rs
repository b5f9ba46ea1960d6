//! Operational metrics of the server: what is counted, and how each event moves
//! the counters. The text they are served as is in [`crate::exposition`].
//!
//! Counters are 64 bits wide and wrap around.

use vstd::arithmetic::div_mod::{lemma_add_mod_noop_right, lemma_mod_sub_multiples_vanish};
use vstd::prelude::*;

use crate::exposition::{
    accepted_text, bucket_sample, bytes_samples, bytes_text, contexts_text, dropped_sample,
    dropped_text, durations_text, endpoints_text, evicted_sample, evicted_text, exposition,
    histogram_text, histograms, joined, outcome_sample, outcome_samples, requests_text,
};
use crate::exposition::{
    bound_label, drop_reason_label, evict_reason_label, op_label, push_counter, push_gauge,
    push_heading, push_labelled, push_of_op, push_text_of_op, status_label,
};

verus! {

// Request operations, as array indices. "invalid" covers requests whose header
// could not be parsed or whose op is not recognized.
pub const OP_COMPRESS_IDX: usize = 0;

pub const OP_DECOMPRESS_IDX: usize = 1;

pub const OP_ONESHOT_IDX: usize = 2;

pub const OP_RESET_IDX: usize = 3;

pub const OP_INVALID_IDX: usize = 4;

/// How many request operations there are.
pub const OP_COUNT: usize = 5;

// Request outcomes, as array indices.
pub const STATUS_OK_IDX: usize = 0;

pub const STATUS_BAD_REQUEST_IDX: usize = 1;

pub const STATUS_ZSTD_ERROR_IDX: usize = 2;

pub const STATUS_TOO_LARGE_IDX: usize = 3;

/// How many request outcomes there are.
pub const STATUS_COUNT: usize = 4;

// Reasons an endpoint is dropped.
pub const DROP_TRANSPORT_IDX: usize = 0;

pub const DROP_HARD_CAP_IDX: usize = 1;

pub const DROP_WRAP_IDX: usize = 2;

pub const DROP_HELLO_IDX: usize = 3;

/// How many reasons there are to drop an endpoint.
pub const DROP_REASON_COUNT: usize = 4;

// Reasons a connection context is evicted.
pub const EVICT_GC_IDX: usize = 0;

pub const EVICT_ENDPOINT_IDX: usize = 1;

/// How many reasons there are to evict a connection context.
pub const EVICT_REASON_COUNT: usize = 2;

/// How many counters and gauges there are in all.
pub const VALUE_COUNT: usize = 99;

/// How many counters each request operation has.
pub const OP_VALUE_COUNT: usize = 18;

/// How many duration histogram buckets there are, "+Inf" aside.
pub const BUCKET_COUNT: usize = 10;

/// The upper bound of duration bucket `i` in nanoseconds (50 us up to 50 ms).
pub open spec fn bucket_bound(i: int) -> int {
    if i == 0 {
        50_000
    } else if i == 1 {
        100_000
    } else if i == 2 {
        250_000
    } else if i == 3 {
        500_000
    } else if i == 4 {
        1_000_000
    } else if i == 5 {
        2_500_000
    } else if i == 6 {
        5_000_000
    } else if i == 7 {
        10_000_000
    } else if i == 8 {
        25_000_000
    } else {
        50_000_000
    }
}

fn bucket_bound_nanos(i: usize) -> (nanos: u128)
    requires
        i < BUCKET_COUNT,
    ensures
        nanos == bucket_bound(i as int),
{
    if i == 0 {
        50_000
    } else if i == 1 {
        100_000
    } else if i == 2 {
        250_000
    } else if i == 3 {
        500_000
    } else if i == 4 {
        1_000_000
    } else if i == 5 {
        2_500_000
    } else if i == 6 {
        5_000_000
    } else if i == 7 {
        10_000_000
    } else if i == 8 {
        25_000_000
    } else {
        50_000_000
    }
}

/// The counter value after `n` more, wrapping around at 64 bits.
pub open spec fn counted(value: u64, n: int) -> u64 {
    ((value + n) % 0x1_0000_0000_0000_0000) as u64
}

/// The gauge value for `n`, wrapping around at 64 bits.
pub open spec fn gauge(n: int) -> i64 {
    ({
        let bits = n % 0x1_0000_0000_0000_0000;
        if bits >= 0x8000_0000_0000_0000 {
            bits - 0x1_0000_0000_0000_0000
        } else {
            bits
        }
    }) as i64
}

fn count_up(value: u64, n: u128) -> (r: u64)
    ensures
        r == counted(value, n as int),
{
    let low: u128 = n % 0x1_0000_0000_0000_0000;
    ((value as u128 + low) % 0x1_0000_0000_0000_0000) as u64
}

fn gauge_of(n: i128) -> (r: i64)
    requires
        -0x1_8000_0000_0000_0000 <= n <= 0x1_0000_0000_0000_0000,
    ensures
        r == gauge(n as int),
{
    let bits: i128 = (n + 0x2_0000_0000_0000_0000) % 0x1_0000_0000_0000_0000;
    if bits >= 0x8000_0000_0000_0000 {
        (bits - 0x1_0000_0000_0000_0000) as i64
    } else {
        bits as i64
    }
}

/// The bits of a gauge, read as a counter.
pub open spec fn gauge_bits(n: i64) -> u64 {
    (if n < 0 {
        n + 0x1_0000_0000_0000_0000
    } else {
        n as int
    }) as u64
}

fn bits_of_gauge(n: i64) -> (r: u64)
    ensures
        r == gauge_bits(n),
{
    if n < 0 {
        (n as i128 + 0x1_0000_0000_0000_0000) as u64
    } else {
        n as u64
    }
}

/// The sums of the first `n` counters of `a` and `b`, each with its counterpart.
pub open spec fn added_up(n: nat, a: Seq<u64>, b: Seq<u64>) -> Seq<u64> {
    Seq::new(n, |i: int| counted(a[i], b[i] as int))
}

/// What is counted of the requests of one operation.
#[verifier::ext_equal]
pub ghost struct OpCounts {
    /// Requests answered, by outcome.
    pub outcomes: Seq<u64>,
    pub bytes_in: u64,
    pub bytes_out: u64,
    /// Requests that took no longer than each bucket's bound.
    pub buckets: Seq<u64>,
    pub sum_nanos: u64,
    pub count: u64,
}

impl OpCounts {
    /// Nothing counted yet.
    pub open spec fn zero() -> OpCounts {
        OpCounts {
            outcomes: Seq::new(STATUS_COUNT as nat, |i: int| 0u64),
            bytes_in: 0,
            bytes_out: 0,
            buckets: Seq::new(BUCKET_COUNT as nat, |i: int| 0u64),
            sum_nanos: 0,
            count: 0,
        }
    }

    /// These counts and one more request.
    pub open spec fn and_request(
        self,
        status_idx: int,
        bytes_in: int,
        bytes_out: int,
        nanos: int,
    ) -> OpCounts {
        OpCounts {
            outcomes: self.outcomes.update(status_idx, counted(self.outcomes[status_idx], 1)),
            bytes_in: counted(self.bytes_in, bytes_in),
            bytes_out: counted(self.bytes_out, bytes_out),
            buckets: Seq::new(
                BUCKET_COUNT as nat,
                |i: int|
                    if nanos <= bucket_bound(i) {
                        counted(self.buckets[i], 1)
                    } else {
                        self.buckets[i]
                    },
            ),
            sum_nanos: counted(self.sum_nanos, nanos),
            count: counted(self.count, 1),
        }
    }

    /// The counters, one behind the other.
    pub open spec fn values(self) -> Seq<u64> {
        self.outcomes + seq![self.bytes_in, self.bytes_out] + self.buckets + seq![
            self.sum_nanos,
            self.count,
        ]
    }

    /// The counts whose counters stand in `values` from `at` on.
    pub open spec fn of_values(values: Seq<u64>, at: int) -> OpCounts {
        OpCounts {
            outcomes: values.subrange(at, at + 4),
            bytes_in: values[at + 4],
            bytes_out: values[at + 5],
            buckets: values.subrange(at + 6, at + 16),
            sum_nanos: values[at + 16],
            count: values[at + 17],
        }
    }

    /// These counts and those of `other` together.
    pub open spec fn plus(self, other: OpCounts) -> OpCounts {
        OpCounts {
            outcomes: added_up(STATUS_COUNT as nat, self.outcomes, other.outcomes),
            bytes_in: counted(self.bytes_in, other.bytes_in as int),
            bytes_out: counted(self.bytes_out, other.bytes_out as int),
            buckets: added_up(BUCKET_COUNT as nat, self.buckets, other.buckets),
            sum_nanos: counted(self.sum_nanos, other.sum_nanos as int),
            count: counted(self.count, other.count as int),
        }
    }
}

/// Everything that is counted.
#[verifier::ext_equal]
pub ghost struct Counts {
    /// Live endpoints.
    pub endpoints: i64,
    /// Live connection contexts.
    pub contexts: i64,
    /// Endpoints accepted and announced.
    pub accepted: u64,
    /// Endpoints dropped, by reason.
    pub dropped: Seq<u64>,
    /// Contexts evicted, by reason.
    pub evicted: Seq<u64>,
    /// Requests, by operation.
    pub ops: Seq<OpCounts>,
}

impl Counts {
    /// Nothing counted yet.
    pub open spec fn zero() -> Counts {
        Counts {
            endpoints: 0,
            contexts: 0,
            accepted: 0,
            dropped: Seq::new(DROP_REASON_COUNT as nat, |i: int| 0u64),
            evicted: Seq::new(EVICT_REASON_COUNT as nat, |i: int| 0u64),
            ops: Seq::new(OP_COUNT as nat, |i: int| OpCounts::zero()),
        }
    }

    /// There is one count for each reason, operation, outcome and bucket.
    pub open spec fn complete(self) -> bool {
        &&& self.dropped.len() == DROP_REASON_COUNT
        &&& self.evicted.len() == EVICT_REASON_COUNT
        &&& self.ops.len() == OP_COUNT
        &&& forall|op: int|
            0 <= op < OP_COUNT ==> (#[trigger] self.ops[op]).outcomes.len() == STATUS_COUNT
                && self.ops[op].buckets.len() == BUCKET_COUNT
    }

    /// These counts and one more endpoint accepted.
    pub open spec fn and_accepted(self) -> Counts {
        Counts {
            accepted: counted(self.accepted, 1),
            endpoints: gauge(self.endpoints + 1),
            ..self
        }
    }

    /// These counts and one more live endpoint dropped.
    pub open spec fn and_dropped(self, reason: int) -> Counts {
        Counts {
            dropped: self.dropped.update(reason, counted(self.dropped[reason], 1)),
            endpoints: gauge(self.endpoints - 1),
            ..self
        }
    }

    /// These counts and one more endpoint that failed before it was live.
    pub open spec fn and_failed(self, reason: int) -> Counts {
        Counts { dropped: self.dropped.update(reason, counted(self.dropped[reason], 1)), ..self }
    }

    /// These counts and `n` more live contexts.
    pub open spec fn and_contexts(self, n: int) -> Counts {
        Counts { contexts: gauge(self.contexts + n), ..self }
    }

    /// These counts and `n` contexts evicted.
    pub open spec fn and_evicted(self, reason: int, n: int) -> Counts {
        if n == 0 {
            self
        } else {
            Counts {
                evicted: self.evicted.update(reason, counted(self.evicted[reason], n)),
                contexts: gauge(self.contexts - n),
                ..self
            }
        }
    }

    /// The counters and gauges, one behind the other.
    pub open spec fn values(self) -> Seq<u64> {
        seq![gauge_bits(self.endpoints), gauge_bits(self.contexts), self.accepted] + self.dropped
            + self.evicted + self.ops[0].values() + self.ops[1].values() + self.ops[2].values()
            + self.ops[3].values() + self.ops[4].values()
    }

    /// The counts whose counters and gauges are `values`.
    pub open spec fn of_values(values: Seq<u64>) -> Counts {
        Counts {
            endpoints: gauge(values[0] as int),
            contexts: gauge(values[1] as int),
            accepted: values[2],
            dropped: values.subrange(3, 7),
            evicted: values.subrange(7, 9),
            ops: Seq::new(
                OP_COUNT as nat,
                |op: int| OpCounts::of_values(values, 9 + op * OP_VALUE_COUNT),
            ),
        }
    }

    /// These counts and those of `other` together.
    pub open spec fn plus(self, other: Counts) -> Counts {
        Counts {
            endpoints: gauge(self.endpoints + other.endpoints),
            contexts: gauge(self.contexts + other.contexts),
            accepted: counted(self.accepted, other.accepted as int),
            dropped: added_up(DROP_REASON_COUNT as nat, self.dropped, other.dropped),
            evicted: added_up(EVICT_REASON_COUNT as nat, self.evicted, other.evicted),
            ops: Seq::new(OP_COUNT as nat, |op: int| self.ops[op].plus(other.ops[op])),
        }
    }

    /// These counts and one more request answered.
    pub open spec fn and_request(
        self,
        op_idx: int,
        status_idx: int,
        bytes_in: int,
        bytes_out: int,
        nanos: int,
    ) -> Counts {
        Counts {
            ops: self.ops.update(
                op_idx,
                self.ops[op_idx].and_request(status_idx, bytes_in, bytes_out, nanos),
            ),
            ..self
        }
    }
}

struct OpCounters {
    outcomes: [u64; STATUS_COUNT],
    bytes_in: u64,
    bytes_out: u64,
    buckets: [u64; BUCKET_COUNT],
    sum_nanos: u64,
    count: u64,
}

impl View for OpCounters {
    type V = OpCounts;

    closed spec fn view(&self) -> OpCounts {
        OpCounts {
            outcomes: self.outcomes@,
            bytes_in: self.bytes_in,
            bytes_out: self.bytes_out,
            buckets: self.buckets@,
            sum_nanos: self.sum_nanos,
            count: self.count,
        }
    }
}

impl OpCounters {
    fn new() -> (r: Self)
        ensures
            r@ == OpCounts::zero(),
    {
        let r = OpCounters {
            outcomes: [0u64;STATUS_COUNT],
            bytes_in: 0,
            bytes_out: 0,
            buckets: [0u64;BUCKET_COUNT],
            sum_nanos: 0,
            count: 0,
        };
        assert(r@ =~= OpCounts::zero());
        r
    }

    fn record(&mut self, status_idx: usize, bytes_in: usize, bytes_out: usize, nanos: u128)
        requires
            status_idx < STATUS_COUNT,
        ensures
            final(self)@ == old(self)@.and_request(
                status_idx as int,
                bytes_in as int,
                bytes_out as int,
                nanos as int,
            ),
    {
        self.outcomes[status_idx] = count_up(self.outcomes[status_idx], 1);
        self.bytes_in = count_up(self.bytes_in, bytes_in as u128);
        self.bytes_out = count_up(self.bytes_out, bytes_out as u128);
        self.sum_nanos = count_up(self.sum_nanos, nanos);
        self.count = count_up(self.count, 1);
        let ghost settled = *self;
        let mut i: usize = 0;
        while i < BUCKET_COUNT
            invariant
                i <= BUCKET_COUNT,
                self.outcomes == settled.outcomes,
                self.bytes_in == settled.bytes_in,
                self.bytes_out == settled.bytes_out,
                self.sum_nanos == settled.sum_nanos,
                self.count == settled.count,
                forall|k: int|
                    0 <= k < BUCKET_COUNT ==> #[trigger] self.buckets@[k] == (if k < i && nanos
                        <= bucket_bound(k) {
                        counted(settled.buckets@[k], 1)
                    } else {
                        settled.buckets@[k]
                    }),
            decreases BUCKET_COUNT - i,
        {
            if nanos <= bucket_bound_nanos(i) {
                self.buckets[i] = count_up(self.buckets[i], 1);
            }
            i += 1;
        }
        assert(self@ =~= old(self)@.and_request(
            status_idx as int,
            bytes_in as int,
            bytes_out as int,
            nanos as int,
        ));
    }
}

/// Appends each of `values`.
fn push_all(out: &mut Vec<u64>, values: &[u64])
    ensures
        final(out)@ == old(out)@ + values@,
{
    let mut i: usize = 0;
    while i < values.len()
        invariant
            i <= values.len(),
            out@ == old(out)@ + values@.take(i as int),
        decreases values.len() - i,
    {
        out.push(values[i]);
        i += 1;
        assert(out@ =~= old(out)@ + values@.take(i as int));
    }
    assert(values@.take(i as int) =~= values@);
}

impl OpCounters {
    fn push_values(&self, out: &mut Vec<u64>)
        ensures
            final(out)@ == old(out)@ + self@.values(),
    {
        push_all(out, &self.outcomes);
        out.push(self.bytes_in);
        out.push(self.bytes_out);
        push_all(out, &self.buckets);
        out.push(self.sum_nanos);
        out.push(self.count);
        assert(out@ =~= old(out)@ + self@.values());
    }

    fn from_values(values: &[u64], at: usize) -> (r: OpCounters)
        requires
            at + OP_VALUE_COUNT <= values.len(),
        ensures
            r@ == OpCounts::of_values(values@, at as int),
    {
        let r = OpCounters {
            outcomes: [values[at], values[at + 1], values[at + 2], values[at + 3]],
            bytes_in: values[at + 4],
            bytes_out: values[at + 5],
            buckets: [
                values[at + 6],
                values[at + 7],
                values[at + 8],
                values[at + 9],
                values[at + 10],
                values[at + 11],
                values[at + 12],
                values[at + 13],
                values[at + 14],
                values[at + 15],
            ],
            sum_nanos: values[at + 16],
            count: values[at + 17],
        };
        assert(r@ =~= OpCounts::of_values(values@, at as int));
        r
    }
}

/// All metric state.
pub struct Metrics {
    endpoints: i64,
    contexts: i64,
    connections_accepted: u64,
    connections_dropped: [u64; DROP_REASON_COUNT],
    contexts_evicted: [u64; EVICT_REASON_COUNT],
    ops: [OpCounters; OP_COUNT],
}

impl View for Metrics {
    type V = Counts;

    closed spec fn view(&self) -> Counts {
        Counts {
            endpoints: self.endpoints,
            contexts: self.contexts,
            accepted: self.connections_accepted,
            dropped: self.connections_dropped@,
            evicted: self.contexts_evicted@,
            ops: Seq::new(OP_COUNT as nat, |op: int| self.ops@[op]@),
        }
    }
}

impl Metrics {
    /// Nothing counted yet.
    pub fn new() -> (r: Self)
        ensures
            r@ == Counts::zero(),
    {
        let r = Metrics {
            endpoints: 0,
            contexts: 0,
            connections_accepted: 0,
            connections_dropped: [0u64;DROP_REASON_COUNT],
            contexts_evicted: [0u64;EVICT_REASON_COUNT],
            ops: [
                OpCounters::new(),
                OpCounters::new(),
                OpCounters::new(),
                OpCounters::new(),
                OpCounters::new(),
            ],
        };
        assert(r@ =~= Counts::zero());
        r
    }

    /// An endpoint was accepted and announced: it is live.
    pub fn endpoint_accepted(&mut self)
        ensures
            final(self)@ == old(self)@.and_accepted(),
    {
        self.connections_accepted = count_up(self.connections_accepted, 1);
        self.endpoints = gauge_of(self.endpoints as i128 + 1);
        assert(self@ =~= old(self)@.and_accepted());
    }

    /// A live endpoint was dropped.
    pub fn endpoint_dropped(&mut self, reason_idx: usize)
        requires
            reason_idx < DROP_REASON_COUNT,
        ensures
            final(self)@ == old(self)@.and_dropped(reason_idx as int),
    {
        self.connections_dropped[reason_idx] = count_up(self.connections_dropped[reason_idx], 1);
        self.endpoints = gauge_of(self.endpoints as i128 - 1);
        assert(self@ =~= old(self)@.and_dropped(reason_idx as int));
    }

    /// An endpoint that failed before being fully accepted (e.g. the HELLO
    /// announcement could not be sent): count it without touching the gauge,
    /// since it was never registered as live.
    pub fn connection_failed_before_accept(&mut self, reason_idx: usize)
        requires
            reason_idx < DROP_REASON_COUNT,
        ensures
            final(self)@ == old(self)@.and_failed(reason_idx as int),
    {
        self.connections_dropped[reason_idx] = count_up(self.connections_dropped[reason_idx], 1);
        assert(self@ =~= old(self)@.and_failed(reason_idx as int));
    }

    /// `n` more contexts are live (fewer, for a negative `n`).
    pub fn contexts_added(&mut self, n: i64)
        ensures
            final(self)@ == old(self)@.and_contexts(n as int),
    {
        self.contexts = gauge_of(self.contexts as i128 + n as i128);
        assert(self@ =~= old(self)@.and_contexts(n as int));
    }

    /// Record `n` contexts evicted for `reason_idx` (also lowers the gauge). If
    /// there are none, nothing changes, whatever the reason.
    pub fn contexts_evicted(&mut self, reason_idx: usize, n: u64)
        requires
            n == 0 || reason_idx < EVICT_REASON_COUNT,
        ensures
            final(self)@ == old(self)@.and_evicted(reason_idx as int, n as int),
    {
        if n == 0 {
            return ;
        }
        self.contexts_evicted[reason_idx] = count_up(self.contexts_evicted[reason_idx], n as u128);
        self.contexts = gauge_of(self.contexts as i128 - n as i128);
        assert(self@ =~= old(self)@.and_evicted(reason_idx as int, n as int));
    }

    /// Every counter and gauge, one behind the other, gauges as their bits. Values
    /// of the same place can be added up, wrapping around at 64 bits.
    pub fn values(&self) -> (values: Vec<u64>)
        ensures
            values@ == self@.values(),
            values@.len() == VALUE_COUNT,
    {
        let mut values: Vec<u64> = Vec::new();
        values.push(bits_of_gauge(self.endpoints));
        values.push(bits_of_gauge(self.contexts));
        values.push(self.connections_accepted);
        push_all(&mut values, &self.connections_dropped);
        push_all(&mut values, &self.contexts_evicted);
        self.ops[0].push_values(&mut values);
        self.ops[1].push_values(&mut values);
        self.ops[2].push_values(&mut values);
        self.ops[3].push_values(&mut values);
        self.ops[4].push_values(&mut values);
        assert(values@ =~= self@.values());
        values
    }

    /// The metrics with the given counters and gauges, in the order of
    /// [`Metrics::values`].
    pub fn from_values(values: &[u64]) -> (r: Self)
        requires
            values.len() == VALUE_COUNT,
        ensures
            r@ == Counts::of_values(values@),
    {
        let r = Metrics {
            endpoints: gauge_of(values[0] as i128),
            contexts: gauge_of(values[1] as i128),
            connections_accepted: values[2],
            connections_dropped: [values[3], values[4], values[5], values[6]],
            contexts_evicted: [values[7], values[8]],
            ops: [
                OpCounters::from_values(values, 9),
                OpCounters::from_values(values, 27),
                OpCounters::from_values(values, 45),
                OpCounters::from_values(values, 63),
                OpCounters::from_values(values, 81),
            ],
        };
        assert(r@ =~= Counts::of_values(values@));
        r
    }

    /// Record one answered request: outcome, payload sizes, and the time the
    /// actual zstd work took.
    pub fn request(
        &mut self,
        op_idx: usize,
        status_idx: usize,
        bytes_in: usize,
        bytes_out: usize,
        nanos: u128,
    )
        requires
            op_idx < OP_COUNT,
            status_idx < STATUS_COUNT,
        ensures
            final(self)@ == old(self)@.and_request(
                op_idx as int,
                status_idx as int,
                bytes_in as int,
                bytes_out as int,
                nanos as int,
            ),
    {
        self.ops[op_idx].record(status_idx, bytes_in, bytes_out, nanos);
        assert(self@ =~= old(self)@.and_request(
            op_idx as int,
            status_idx as int,
            bytes_in as int,
            bytes_out as int,
            nanos as int,
        ));
    }

    /// How long the requests of operation `op_idx` took altogether.
    pub fn duration_sum_nanos(&self, op_idx: usize) -> (nanos: u64)
        requires
            op_idx < OP_COUNT,
        ensures
            nanos == self@.ops[op_idx as int].sum_nanos,
    {
        self.ops[op_idx].sum_nanos
    }

    /// Render the Prometheus text exposition format. `duration_sums` holds, for
    /// each operation, [`duration_sum_nanos`](Self::duration_sum_nanos) in
    /// seconds, as it is to be printed.
    pub fn render(&self, duration_sums: &[String]) -> (out: String)
        requires
            duration_sums.len() == OP_COUNT,
        ensures
            out@ == exposition(self@, duration_sums@),
    {
        let mut out: String = String::new();
        self.render_gauges(&mut out);
        self.render_connections(&mut out);
        self.render_requests(&mut out);
        self.render_bytes(&mut out);
        self.render_durations(&mut out, duration_sums);
        assert(Seq::<char>::empty() + endpoints_text(self@) =~= endpoints_text(self@));
        out
    }

    fn render_gauges(&self, out: &mut String)
        ensures
            final(out)@ == old(out)@ + endpoints_text(self@) + contexts_text(self@),
    {
        push_heading(out, "neb_zstd_endpoints", "Live UCX endpoints (client slots).", "gauge");
        push_gauge(out, "neb_zstd_endpoints", self.endpoints);
        assert(out@ =~= old(out)@ + endpoints_text(self@));
        push_heading(out, "neb_zstd_contexts", "Live per-connection zstd contexts.", "gauge");
        push_gauge(out, "neb_zstd_contexts", self.contexts);
        assert(out@ =~= old(out)@ + endpoints_text(self@) + contexts_text(self@));
    }

    fn render_connections(&self, out: &mut String)
        ensures
            final(out)@ == old(out)@ + accepted_text(self@) + dropped_text(self@) + evicted_text(
                self@,
            ),
    {
        push_heading(
            out,
            "neb_zstd_connections_accepted_total",
            "Endpoints accepted and announced.",
            "counter",
        );
        push_counter(out, "neb_zstd_connections_accepted_total", self.connections_accepted);
        assert(out@ =~= old(out)@ + accepted_text(self@));
        let ghost before = out@;
        push_heading(
            out,
            "neb_zstd_connections_dropped_total",
            "Endpoints dropped, by reason.",
            "counter",
        );
        let ghost base = out@;
        let mut i: usize = 0;
        while i < DROP_REASON_COUNT
            invariant
                i <= DROP_REASON_COUNT,
                out@ == base + joined(i as nat, dropped_sample(self@)),
            decreases DROP_REASON_COUNT - i,
        {
            push_labelled(
                out,
                "neb_zstd_connections_dropped_total",
                "reason",
                drop_reason_label(i),
                self.connections_dropped[i],
            );
            i += 1;
            assert(out@ =~= base + joined(i as nat, dropped_sample(self@)));
        }
        assert(out@ =~= before + dropped_text(self@));
        let ghost before = out@;
        push_heading(
            out,
            "neb_zstd_contexts_evicted_total",
            "Connection contexts evicted, by reason.",
            "counter",
        );
        let ghost base = out@;
        let mut i: usize = 0;
        while i < EVICT_REASON_COUNT
            invariant
                i <= EVICT_REASON_COUNT,
                out@ == base + joined(i as nat, evicted_sample(self@)),
            decreases EVICT_REASON_COUNT - i,
        {
            push_labelled(
                out,
                "neb_zstd_contexts_evicted_total",
                "reason",
                evict_reason_label(i),
                self.contexts_evicted[i],
            );
            i += 1;
            assert(out@ =~= base + joined(i as nat, evicted_sample(self@)));
        }
        assert(out@ =~= before + evicted_text(self@));
    }

    fn render_requests(&self, out: &mut String)
        ensures
            final(out)@ == old(out)@ + requests_text(self@),
    {
        push_heading(
            out,
            "neb_zstd_requests_total",
            "Requests answered, by op and status.",
            "counter",
        );
        let ghost base = out@;
        let mut op: usize = 0;
        while op < OP_COUNT
            invariant
                op <= OP_COUNT,
                out@ == base + joined(op as nat, outcome_samples(self@)),
            decreases OP_COUNT - op,
        {
            let ghost before = out@;
            let ghost c = self@.ops[op as int];
            let mut status: usize = 0;
            while status < STATUS_COUNT
                invariant
                    op < OP_COUNT,
                    status <= STATUS_COUNT,
                    c == self@.ops[op as int],
                    out@ == before + joined(status as nat, outcome_sample(c, op as int)),
                decreases STATUS_COUNT - status,
            {
                push_of_op(
                    out,
                    "neb_zstd_requests_total",
                    op_label(op),
                    "status",
                    status_label(status),
                    self.ops[op].outcomes[status],
                );
                status += 1;
                assert(out@ =~= before + joined(status as nat, outcome_sample(c, op as int)));
            }
            op += 1;
            assert(out@ =~= base + joined(op as nat, outcome_samples(self@)));
        }
        assert(out@ =~= old(out)@ + requests_text(self@));
    }

    fn render_bytes(&self, out: &mut String)
        ensures
            final(out)@ == old(out)@ + bytes_text(self@),
    {
        push_heading(
            out,
            "neb_zstd_request_bytes_total",
            "Payload bytes processed. Compression ratio = out/in of op=\"compress\".",
            "counter",
        );
        let ghost base = out@;
        let mut op: usize = 0;
        while op < OP_COUNT
            invariant
                op <= OP_COUNT,
                out@ == base + joined(op as nat, bytes_samples(self@)),
            decreases OP_COUNT - op,
        {
            push_of_op(
                out,
                "neb_zstd_request_bytes_total",
                op_label(op),
                "direction",
                "in",
                self.ops[op].bytes_in,
            );
            push_of_op(
                out,
                "neb_zstd_request_bytes_total",
                op_label(op),
                "direction",
                "out",
                self.ops[op].bytes_out,
            );
            op += 1;
            assert(out@ =~= base + joined(op as nat, bytes_samples(self@)));
        }
        assert(out@ =~= old(out)@ + bytes_text(self@));
    }

    fn render_histogram(&self, out: &mut String, op: usize, sum: &str)
        requires
            op < OP_COUNT,
        ensures
            final(out)@ == old(out)@ + histogram_text(self@.ops[op as int], op as int, sum@),
    {
        let ghost c = self@.ops[op as int];
        let mut i: usize = 0;
        while i < BUCKET_COUNT
            invariant
                op < OP_COUNT,
                i <= BUCKET_COUNT,
                c == self@.ops[op as int],
                out@ == old(out)@ + joined(i as nat, bucket_sample(c, op as int)),
            decreases BUCKET_COUNT - i,
        {
            push_of_op(
                out,
                "neb_zstd_request_duration_seconds_bucket",
                op_label(op),
                "le",
                bound_label(i),
                self.ops[op].buckets[i],
            );
            i += 1;
            assert(out@ =~= old(out)@ + joined(i as nat, bucket_sample(c, op as int)));
        }
        push_of_op(
            out,
            "neb_zstd_request_duration_seconds_bucket",
            op_label(op),
            "le",
            "+Inf",
            self.ops[op].count,
        );
        push_text_of_op(out, "neb_zstd_request_duration_seconds_sum", op_label(op), sum);
        push_labelled(
            out,
            "neb_zstd_request_duration_seconds_count",
            "op",
            op_label(op),
            self.ops[op].count,
        );
        assert(out@ =~= old(out)@ + histogram_text(c, op as int, sum@));
    }

    fn render_durations(&self, out: &mut String, sums: &[String])
        requires
            sums.len() == OP_COUNT,
        ensures
            final(out)@ == old(out)@ + durations_text(self@, sums@),
    {
        push_heading(
            out,
            "neb_zstd_request_duration_seconds",
            "Time spent on the actual zstd work, by op.",
            "histogram",
        );
        let ghost base = out@;
        let mut op: usize = 0;
        while op < OP_COUNT
            invariant
                op <= OP_COUNT,
                sums.len() == OP_COUNT,
                out@ == base + joined(op as nat, histograms(self@, sums@)),
            decreases OP_COUNT - op,
        {
            self.render_histogram(out, op, sums[op].as_str());
            op += 1;
            assert(out@ =~= base + joined(op as nat, histograms(self@, sums@)));
        }
        assert(out@ =~= old(out)@ + durations_text(self@, sums@));
    }
}

/// The buckets of a histogram are cumulative: a request in one is in every wider
/// one, and all are among the requests counted.
pub open spec fn cumulative(c: OpCounts) -> bool {
    &&& c.buckets.len() == BUCKET_COUNT
    &&& forall|i: int, j: int|
        0 <= i <= j < BUCKET_COUNT ==> #[trigger] c.buckets[i] <= #[trigger] c.buckets[j]
    &&& forall|i: int| 0 <= i < BUCKET_COUNT ==> #[trigger] c.buckets[i] <= c.count
}

/// Histograms start out cumulative, and a request keeps them so until their
/// counter wraps around.
pub proof fn law_histograms_stay_cumulative(
    c: OpCounts,
    status_idx: int,
    bytes_in: int,
    bytes_out: int,
    nanos: int,
)
    requires
        cumulative(c),
        c.count < u64::MAX,
    ensures
        cumulative(OpCounts::zero()),
        cumulative(c.and_request(status_idx, bytes_in, bytes_out, nanos)),
{
}

/// Every request has an outcome: the outcomes of an operation add up to its
/// request count.
pub open spec fn accounted(c: OpCounts) -> bool {
    &&& c.outcomes.len() == STATUS_COUNT
    &&& c.count == (c.outcomes[0] + c.outcomes[1] + c.outcomes[2] + c.outcomes[3])
        % 0x1_0000_0000_0000_0000
}

/// Outcomes add up from the start, and still do after a request, wrapping
/// around as one.
pub proof fn law_every_request_has_an_outcome(
    c: OpCounts,
    status_idx: int,
    bytes_in: int,
    bytes_out: int,
    nanos: int,
)
    requires
        accounted(c),
        0 <= status_idx < STATUS_COUNT,
    ensures
        accounted(OpCounts::zero()),
        accounted(c.and_request(status_idx, bytes_in, bytes_out, nanos)),
{
    let after = c.and_request(status_idx, bytes_in, bytes_out, nanos);
    assert(after.outcomes[status_idx] == counted(c.outcomes[status_idx], 1));
}

/// An endpoint accepted and dropped again leaves the gauge where it was, as do
/// contexts added and evicted again.
pub proof fn law_gauges_return(c: Counts, drop_reason: int, evict_reason: int, n: i64)
    requires
        0 <= n,
    ensures
        c.and_accepted().and_dropped(drop_reason).endpoints == c.endpoints,
        c.and_contexts(n as int).and_evicted(evict_reason, n as int).contexts == c.contexts,
{
}

/// Counting up twice is counting up by both, and it does not matter whether what
/// is counted has wrapped around.
proof fn lemma_counted_twice(t: u64, x: int, y: int)
    ensures
        counted(counted(t, x), y) == (t + x + y) % 0x1_0000_0000_0000_0000,
        counted(t, counted(0, x) as int) == counted(t, x),
{
    let m: int = 0x1_0000_0000_0000_0000;
    lemma_add_mod_noop_right(y, t + x, m);
    lemma_add_mod_noop_right(t as int, x, m);
}

/// Counters are added up in any order.
proof fn lemma_counted_in_any_order(t: u64, x: u64, y: u64)
    ensures
        counted(counted(t, x as int), y as int) == counted(counted(t, y as int), x as int),
        counted(counted(t, x as int), y as int) == counted(t, counted(x, y as int) as int),
{
    lemma_counted_twice(t, x as int, y as int);
    lemma_counted_twice(t, y as int, x as int);
    lemma_add_mod_noop_right(t as int, x + y, 0x1_0000_0000_0000_0000);
}

/// A gauge that has wrapped around goes on as if it had not.
pub(crate) proof fn lemma_gauge_goes_on(a: int, b: int)
    ensures
        gauge(gauge(a) + b) == gauge(a + b),
{
    let m: int = 0x1_0000_0000_0000_0000;
    lemma_add_mod_noop_right(b, a, m);
    lemma_mod_sub_multiples_vanish(b + a % m, m);
}

/// Gauges are added up in any order.
proof fn lemma_gauge_in_any_order(t: i64, x: i64, y: i64)
    ensures
        gauge(gauge(t + x) + y) == gauge(gauge(t + y) + x),
        gauge(gauge(t + x) + y) == gauge(t + gauge(x + y)),
{
    lemma_gauge_goes_on(t + x, y as int);
    lemma_gauge_goes_on(t + y, x as int);
    lemma_gauge_goes_on(x + y, t as int);
}

/// Lists of counters are added up in any order.
proof fn lemma_added_up_in_any_order(n: nat, t: Seq<u64>, x: Seq<u64>, y: Seq<u64>)
    ensures
        added_up(n, added_up(n, t, x), y) == added_up(n, added_up(n, t, y), x),
        added_up(n, added_up(n, t, x), y) == added_up(n, t, added_up(n, x, y)),
{
    assert forall|i: int| 0 <= i < n implies added_up(n, added_up(n, t, x), y)[i] == added_up(
        n,
        added_up(n, t, y),
        x,
    )[i] && added_up(n, added_up(n, t, x), y)[i] == added_up(n, t, added_up(n, x, y))[i] by {
        lemma_counted_in_any_order(t[i], x[i], y[i]);
    }
    assert(added_up(n, added_up(n, t, x), y) =~= added_up(n, added_up(n, t, y), x));
    assert(added_up(n, added_up(n, t, x), y) =~= added_up(n, t, added_up(n, x, y)));
}

/// The counts of an operation are added up in any order.
proof fn lemma_op_counts_in_any_order(t: OpCounts, x: OpCounts, y: OpCounts)
    ensures
        t.plus(x).plus(y) == t.plus(y).plus(x),
        t.plus(x).plus(y) == t.plus(x.plus(y)),
{
    lemma_added_up_in_any_order(STATUS_COUNT as nat, t.outcomes, x.outcomes, y.outcomes);
    lemma_added_up_in_any_order(BUCKET_COUNT as nat, t.buckets, x.buckets, y.buckets);
    lemma_counted_in_any_order(t.bytes_in, x.bytes_in, y.bytes_in);
    lemma_counted_in_any_order(t.bytes_out, x.bytes_out, y.bytes_out);
    lemma_counted_in_any_order(t.sum_nanos, x.sum_nanos, y.sum_nanos);
    lemma_counted_in_any_order(t.count, x.count, y.count);
}

/// It does not matter in which order counts are added up.
pub proof fn law_order_of_adding_is_no_matter(total: Counts, a: Counts, b: Counts)
    ensures
        total.plus(a).plus(b) == total.plus(b).plus(a),
        total.plus(a).plus(b) == total.plus(a.plus(b)),
{
    lemma_gauge_in_any_order(total.endpoints, a.endpoints, b.endpoints);
    lemma_gauge_in_any_order(total.contexts, a.contexts, b.contexts);
    lemma_counted_in_any_order(total.accepted, a.accepted, b.accepted);
    lemma_added_up_in_any_order(DROP_REASON_COUNT as nat, total.dropped, a.dropped, b.dropped);
    lemma_added_up_in_any_order(EVICT_REASON_COUNT as nat, total.evicted, a.evicted, b.evicted);
    let ab = total.plus(a).plus(b);
    let ba = total.plus(b).plus(a);
    let at_once = total.plus(a.plus(b));
    assert forall|op: int| 0 <= op < OP_COUNT implies ab.ops[op] == ba.ops[op] && ab.ops[op]
        == at_once.ops[op] by {
        lemma_op_counts_in_any_order(total.ops[op], a.ops[op], b.ops[op]);
    }
    assert(ab.ops =~= ba.ops);
    assert(ab.ops =~= at_once.ops);
}

/// Adding nothing changes no list of counters; adding one counter of a list that is
/// otherwise zero is counting it up.
proof fn lemma_one_added_up(n: nat, a: Seq<u64>, at: int, by: int)
    requires
        a.len() == n,
    ensures
        added_up(n, a, Seq::new(n, |i: int| 0u64)) == a,
        0 <= at < n ==> added_up(
            n,
            a,
            Seq::new(n, |i: int| 0u64).update(at, counted(0, by)),
        ) == a.update(at, counted(a[at], by)),
{
    let zeros = Seq::new(n, |i: int| 0u64);
    assert(added_up(n, a, zeros) =~= a);
    if 0 <= at < n {
        lemma_counted_twice(a[at], by, 0);
        assert(added_up(n, a, zeros.update(at, counted(0, by))) =~= a.update(
            at,
            counted(a[at], by),
        ));
    }
}

/// The buckets of a request counted on its own, added to those of its operation.
proof fn lemma_buckets_counted_apart(a: Seq<u64>, nanos: int)
    requires
        a.len() == BUCKET_COUNT,
    ensures
        added_up(
            BUCKET_COUNT as nat,
            a,
            OpCounts::zero().and_request(0, 0, 0, nanos).buckets,
        ) == (OpCounts { buckets: a, ..OpCounts::zero() }).and_request(0, 0, 0, nanos).buckets,
{
    let one = OpCounts::zero().and_request(0, 0, 0, nanos).buckets;
    let after = (OpCounts { buckets: a, ..OpCounts::zero() }).and_request(0, 0, 0, nanos).buckets;
    assert forall|i: int| 0 <= i < BUCKET_COUNT implies added_up(BUCKET_COUNT as nat, a, one)[i]
        == after[i] by {
        assert(OpCounts::zero().buckets[i] == 0);
        lemma_counted_twice(a[i], 1, 0);
    }
    assert(added_up(BUCKET_COUNT as nat, a, one) =~= after);
}

/// Counting a request on its own and adding it to the counts of its operation is
/// counting it there.
proof fn lemma_request_counted_apart(
    c: OpCounts,
    status_idx: int,
    bytes_in: int,
    bytes_out: int,
    nanos: int,
)
    requires
        c.outcomes.len() == STATUS_COUNT,
        c.buckets.len() == BUCKET_COUNT,
    ensures
        c.plus(OpCounts::zero()) == c,
        0 <= status_idx < STATUS_COUNT ==> c.plus(
            OpCounts::zero().and_request(status_idx, bytes_in, bytes_out, nanos),
        ) == c.and_request(status_idx, bytes_in, bytes_out, nanos),
{
    lemma_one_added_up(STATUS_COUNT as nat, c.outcomes, status_idx, 1);
    lemma_one_added_up(BUCKET_COUNT as nat, c.buckets, 0, 0);
    lemma_counted_twice(c.bytes_in, bytes_in, 0);
    lemma_counted_twice(c.bytes_out, bytes_out, 0);
    lemma_counted_twice(c.sum_nanos, nanos, 0);
    lemma_counted_twice(c.count, 1, 0);
    lemma_buckets_counted_apart(c.buckets, nanos);
    let one = OpCounts::zero().and_request(status_idx, bytes_in, bytes_out, nanos);
    let after = c.and_request(status_idx, bytes_in, bytes_out, nanos);
    assert(one.buckets =~= OpCounts::zero().and_request(0, 0, 0, nanos).buckets);
    assert(after.buckets =~= (OpCounts { buckets: c.buckets, ..OpCounts::zero() }).and_request(
        0,
        0,
        0,
        nanos,
    ).buckets);
    assert(c.plus(one).buckets == after.buckets);
}

/// Adding nothing to a total leaves it as it is.
proof fn lemma_nothing_added(total: Counts)
    requires
        total.complete(),
    ensures
        total.plus(Counts::zero()) == total,
        forall|op: int|
            0 <= op < OP_COUNT ==> (#[trigger] total.ops[op]).plus(OpCounts::zero())
                == total.ops[op],
{
    lemma_one_added_up(DROP_REASON_COUNT as nat, total.dropped, 0, 0);
    lemma_one_added_up(EVICT_REASON_COUNT as nat, total.evicted, 0, 0);
    lemma_gauge_goes_on(0, total.contexts as int);
    lemma_gauge_goes_on(0, total.endpoints as int);
    assert forall|op: int| 0 <= op < OP_COUNT implies (#[trigger] total.ops[op]).plus(
        OpCounts::zero(),
    ) == total.ops[op] by {
        lemma_request_counted_apart(total.ops[op], 0, 0, 0, 0);
    }
    assert(total.plus(Counts::zero()).ops =~= total.ops);
    assert(total.plus(Counts::zero()) =~= total);
}

/// An accepted endpoint, counted on its own and added.
proof fn lemma_accept_counted_apart(total: Counts)
    requires
        total.complete(),
    ensures
        total.plus(Counts::zero().and_accepted()) == total.and_accepted(),
{
    lemma_nothing_added(total);
    lemma_gauge_goes_on(1, total.endpoints as int);
    lemma_counted_twice(total.accepted, 1, 0);
    let (sum, want) = (total.plus(Counts::zero().and_accepted()), total.and_accepted());
    let unchanged = total.plus(Counts::zero());
    assert(sum.endpoints == want.endpoints);
    assert(sum.accepted == want.accepted);
    assert(sum.contexts == unchanged.contexts && sum.dropped == unchanged.dropped && sum.evicted
        == unchanged.evicted && sum.ops == unchanged.ops);
}

/// A dropped or failed endpoint, counted on its own and added.
proof fn lemma_drop_counted_apart(total: Counts, reason: int)
    requires
        total.complete(),
        0 <= reason < DROP_REASON_COUNT,
    ensures
        total.plus(Counts::zero().and_dropped(reason)) == total.and_dropped(reason),
        total.plus(Counts::zero().and_failed(reason)) == total.and_failed(reason),
{
    lemma_nothing_added(total);
    lemma_gauge_goes_on(-1, total.endpoints as int);
    lemma_one_added_up(DROP_REASON_COUNT as nat, total.dropped, reason, 1);
    let (sum, want) = (total.plus(Counts::zero().and_dropped(reason)), total.and_dropped(reason));
    let failed = total.plus(Counts::zero().and_failed(reason));
    let unchanged = total.plus(Counts::zero());
    assert(sum.endpoints == want.endpoints && failed.endpoints == unchanged.endpoints);
    assert(sum.dropped == want.dropped && failed.dropped == want.dropped);
    assert(sum.contexts == unchanged.contexts && sum.accepted == unchanged.accepted && sum.evicted
        == unchanged.evicted && sum.ops == unchanged.ops);
}

/// Contexts that came or were evicted, counted on their own and added.
proof fn lemma_contexts_counted_apart(total: Counts, reason: int, n: int)
    requires
        total.complete(),
    ensures
        total.plus(Counts::zero().and_contexts(n)) == total.and_contexts(n),
        0 <= reason < EVICT_REASON_COUNT ==> total.plus(Counts::zero().and_evicted(reason, n))
            == total.and_evicted(reason, n),
{
    lemma_nothing_added(total);
    lemma_gauge_goes_on(n, total.contexts as int);
    lemma_gauge_goes_on(-n, total.contexts as int);
    let unchanged = total.plus(Counts::zero());
    let (sum, want) = (total.plus(Counts::zero().and_contexts(n)), total.and_contexts(n));
    assert(sum.contexts == want.contexts);
    assert(sum.endpoints == unchanged.endpoints && sum.dropped == unchanged.dropped && sum.evicted
        == unchanged.evicted && sum.accepted == unchanged.accepted && sum.ops == unchanged.ops);
    if 0 <= reason < EVICT_REASON_COUNT && n != 0 {
        lemma_one_added_up(EVICT_REASON_COUNT as nat, total.evicted, reason, n);
        let evicted = total.plus(Counts::zero().and_evicted(reason, n));
        assert(evicted.contexts == total.and_evicted(reason, n).contexts);
        assert(evicted.evicted == total.and_evicted(reason, n).evicted);
        assert(evicted.endpoints == unchanged.endpoints && evicted.dropped == unchanged.dropped
            && evicted.accepted == unchanged.accepted && evicted.ops == unchanged.ops);
    }
}

/// Counting an event on its own and adding it to a total is counting it in the
/// total: nothing is lost by counting apart.
pub proof fn law_counting_apart_loses_nothing(
    total: Counts,
    reason: int,
    n: int,
    op_idx: int,
    status_idx: int,
    bytes_in: int,
    bytes_out: int,
    nanos: int,
)
    requires
        total.complete(),
    ensures
        total.plus(Counts::zero()) == total,
        total.plus(Counts::zero().and_accepted()) == total.and_accepted(),
        0 <= reason < DROP_REASON_COUNT ==> total.plus(Counts::zero().and_dropped(reason))
            == total.and_dropped(reason),
        0 <= reason < DROP_REASON_COUNT ==> total.plus(Counts::zero().and_failed(reason))
            == total.and_failed(reason),
        total.plus(Counts::zero().and_contexts(n)) == total.and_contexts(n),
        0 <= reason < EVICT_REASON_COUNT ==> total.plus(Counts::zero().and_evicted(reason, n))
            == total.and_evicted(reason, n),
        0 <= op_idx < OP_COUNT && 0 <= status_idx < STATUS_COUNT ==> total.plus(
            Counts::zero().and_request(op_idx, status_idx, bytes_in, bytes_out, nanos),
        ) == total.and_request(op_idx, status_idx, bytes_in, bytes_out, nanos),
{
    lemma_nothing_added(total);
    lemma_accept_counted_apart(total);
    if 0 <= reason < DROP_REASON_COUNT {
        lemma_drop_counted_apart(total, reason);
    }
    lemma_contexts_counted_apart(total, reason, n);
    if 0 <= op_idx < OP_COUNT && 0 <= status_idx < STATUS_COUNT {
        let one = Counts::zero().and_request(op_idx, status_idx, bytes_in, bytes_out, nanos);
        let (sum, want) = (
            total.plus(one),
            total.and_request(op_idx, status_idx, bytes_in, bytes_out, nanos),
        );
        let unchanged = total.plus(Counts::zero());
        lemma_request_counted_apart(total.ops[op_idx], status_idx, bytes_in, bytes_out, nanos);
        assert(sum.ops =~= want.ops);
        assert(sum.endpoints == unchanged.endpoints && sum.contexts == unchanged.contexts
            && sum.accepted == unchanged.accepted && sum.dropped == unchanged.dropped && sum.evicted
            == unchanged.evicted);
    }
}

/// Where the counters of operation `op` stand among all values.
proof fn lemma_values_of_op(c: Counts, op: int)
    requires
        c.complete(),
        0 <= op < OP_COUNT,
    ensures
        c.values().len() == VALUE_COUNT,
        c.values().subrange(9 + op * OP_VALUE_COUNT, 9 + (op + 1) * OP_VALUE_COUNT)
            == c.ops[op].values(),
        c.ops[op].values().len() == OP_VALUE_COUNT,
{
    assert(c.ops[0].values().len() == 18 && c.ops[1].values().len() == 18 && c.ops[2].values().len()
        == 18 && c.ops[3].values().len() == 18 && c.ops[4].values().len() == 18);
    assert(c.values().subrange(9 + op * 18, 9 + (op + 1) * 18) =~= c.ops[op].values());
}

/// The counts of an operation can be read back from their values, wherever those
/// stand.
proof fn lemma_op_values_read_back(c: OpCounts, values: Seq<u64>, at: int)
    requires
        c.outcomes.len() == STATUS_COUNT,
        c.buckets.len() == BUCKET_COUNT,
        0 <= at,
        at + OP_VALUE_COUNT <= values.len(),
        values.subrange(at, at + OP_VALUE_COUNT) == c.values(),
    ensures
        OpCounts::of_values(values, at) == c,
{
    let own = c.values();
    assert forall|k: int| 0 <= k < OP_VALUE_COUNT implies values[at + k] == #[trigger] own[k] by {
        assert(values.subrange(at, at + OP_VALUE_COUNT)[k] == values[at + k]);
    }
    assert(values.subrange(at, at + 4) =~= c.outcomes);
    assert forall|k: int| 0 <= k < BUCKET_COUNT implies values.subrange(at + 6, at + 16)[k]
        == c.buckets[k] by {
        assert(own[6 + k] == c.buckets[k]);
    }
    assert(values.subrange(at + 6, at + 16) =~= c.buckets);
    assert(values[at + 4] == own[4] && values[at + 5] == own[5] && values[at + 16] == own[16]
        && values[at + 17] == own[17]);
}

/// The values say everything: the counts can be read back from them.
pub proof fn law_values_say_everything(c: Counts)
    requires
        c.complete(),
    ensures
        c.values().len() == VALUE_COUNT,
        Counts::of_values(c.values()) == c,
{
    let values = c.values();
    assert forall|op: int| 0 <= op < OP_COUNT implies OpCounts::of_values(
        values,
        9 + op * OP_VALUE_COUNT,
    ) == #[trigger] c.ops[op] by {
        lemma_values_of_op(c, op);
        lemma_op_values_read_back(c.ops[op], values, 9 + op * OP_VALUE_COUNT);
    }
    lemma_values_of_op(c, 0);
    assert(Counts::of_values(values).ops =~= c.ops);
    assert(values.subrange(3, 7) =~= c.dropped);
    assert(values.subrange(7, 9) =~= c.evicted);
    assert(values[0] == gauge_bits(c.endpoints) && values[1] == gauge_bits(c.contexts) && values[2]
        == c.accepted);
}

/// The values of two operations' counts, added up place by place.
proof fn lemma_op_values_add_up(a: OpCounts, b: OpCounts)
    requires
        a.outcomes.len() == STATUS_COUNT,
        a.buckets.len() == BUCKET_COUNT,
        b.outcomes.len() == STATUS_COUNT,
        b.buckets.len() == BUCKET_COUNT,
    ensures
        added_up(OP_VALUE_COUNT as nat, a.values(), b.values()) == a.plus(b).values(),
{
    assert(added_up(OP_VALUE_COUNT as nat, a.values(), b.values()) =~= a.plus(b).values());
}

/// Gauges can be added up as their bits.
proof fn lemma_gauge_bits_add_up(a: i64, b: i64)
    ensures
        gauge_bits(gauge(a + b)) == counted(gauge_bits(a), gauge_bits(b) as int),
{
    let m: int = 0x1_0000_0000_0000_0000;
    lemma_mod_sub_multiples_vanish(a + b + m, m);
    lemma_mod_sub_multiples_vanish(a + b + 2 * m, m);
}

/// Counts can be added up as their values, place by place, each place on its own.
pub proof fn law_values_add_up(a: Counts, b: Counts)
    requires
        a.complete(),
        b.complete(),
    ensures
        a.plus(b).complete(),
        added_up(VALUE_COUNT as nat, a.values(), b.values()) == a.plus(b).values(),
{
    let sum = a.plus(b);
    let values = added_up(VALUE_COUNT as nat, a.values(), b.values());
    lemma_gauge_bits_add_up(a.endpoints, b.endpoints);
    lemma_gauge_bits_add_up(a.contexts, b.contexts);
    assert forall|i: int| 0 <= i < VALUE_COUNT implies values[i] == sum.values()[i] by {
        lemma_values_of_op(a, 0);
        lemma_values_of_op(b, 0);
        lemma_values_of_op(sum, 0);
        if i >= 9 {
            let op = (i - 9) / 18;
            let k = (i - 9) % 18;
            lemma_values_of_op(a, op);
            lemma_values_of_op(b, op);
            lemma_values_of_op(sum, op);
            lemma_op_values_add_up(a.ops[op], b.ops[op]);
            assert(a.values().subrange(9 + op * 18, 9 + (op + 1) * 18)[k] == a.values()[i]);
            assert(b.values().subrange(9 + op * 18, 9 + (op + 1) * 18)[k] == b.values()[i]);
            assert(sum.values().subrange(9 + op * 18, 9 + (op + 1) * 18)[k] == sum.values()[i]);
            assert(added_up(18, a.ops[op].values(), b.ops[op].values())[k] == sum.ops[op].values()[k]);
        }
    }
    lemma_values_of_op(sum, 0);
    assert(values =~= sum.values());
}

/// There is always one count for each reason, operation, outcome and bucket.
pub proof fn law_counts_are_complete(m: Metrics)
    ensures
        m@.complete(),
{
}

/// What a wrapping counter shows after `n` more differs from the true count by a
/// multiple of 2^64, so it shows the true count wherever that fits.
pub proof fn law_counters_count(value: u64, n: int)
    ensures
        (value + n - counted(value, n)) % 0x1_0000_0000_0000_0000 == 0,
        0 <= value + n <= u64::MAX ==> counted(value, n) == value + n,
{
    let m: int = 0x1_0000_0000_0000_0000;
    vstd::arithmetic::div_mod::lemma_fundamental_div_mod(value + n, m);
    vstd::arithmetic::div_mod::lemma_mod_multiples_basic((value + n) / m, m);
}

/// What a gauge shows differs from the true number by a multiple of 2^64, so it shows
/// the true number wherever 64 bits hold it.
pub proof fn law_gauges_gauge(n: int)
    ensures
        (n - gauge(n)) % 0x1_0000_0000_0000_0000 == 0,
        i64::MIN <= n <= i64::MAX ==> gauge(n) == n,
        i64::MIN <= n <= i64::MAX ==> gauge(gauge_bits(n as i64) as int) == n,
{
    let m: int = 0x1_0000_0000_0000_0000;
    let k = if n % m >= 0x8000_0000_0000_0000 {
        n / m + 1
    } else {
        n / m
    };
    vstd::arithmetic::div_mod::lemma_fundamental_div_mod(n, m);
    assert(n - gauge(n) == k * m);
    vstd::arithmetic::div_mod::lemma_mod_multiples_basic(k, m);
}

/// One request more is counted once, where it belongs: under its outcome, with its
/// bytes and its time, and in every bucket whose bound, from 50 microseconds to 50
/// milliseconds, it did not exceed. Each counter goes up by just that, but for
/// multiples of 2^64.
pub proof fn law_requests_are_counted(
    c: Counts,
    op: int,
    status: int,
    bytes_in: int,
    bytes_out: int,
    nanos: int,
    other_op: int,
    other_status: int,
    bucket: int,
)
    requires
        c.complete(),
        0 <= op < 5,
        0 <= status < 4,
        0 <= other_op < 5,
        0 <= other_status < 4,
        0 <= bucket < 10,
    ensures
        ({
            let m: int = 0x1_0000_0000_0000_0000;
            let after = c.and_request(op, status, bytes_in, bytes_out, nanos);
            let (was, is) = (c.ops[op], after.ops[op]);
            let micros: Seq<int> = seq![
                50,
                100,
                250,
                500,
                1_000,
                2_500,
                5_000,
                10_000,
                25_000,
                50_000,
            ];
            &&& (was.count + 1 - is.count) % m == 0
            &&& (was.bytes_in + bytes_in - is.bytes_in) % m == 0
            &&& (was.bytes_out + bytes_out - is.bytes_out) % m == 0
            &&& (was.sum_nanos + nanos - is.sum_nanos) % m == 0
            &&& (was.outcomes[status] + 1 - is.outcomes[status]) % m == 0
            &&& other_status != status ==> is.outcomes[other_status] == was.outcomes[other_status]
            &&& nanos <= micros[bucket] * 1_000 ==> (was.buckets[bucket] + 1 - is.buckets[bucket])
                % m == 0
            &&& nanos > micros[bucket] * 1_000 ==> is.buckets[bucket] == was.buckets[bucket]
            &&& other_op != op ==> after.ops[other_op] == c.ops[other_op]
            &&& after.complete()
            &&& after == (Counts { ops: after.ops, ..c })
        }),
{
    let after = c.and_request(op, status, bytes_in, bytes_out, nanos);
    let was = c.ops[op];
    assert(after.ops[op] == was.and_request(status, bytes_in, bytes_out, nanos));
    law_counters_count(was.count, 1);
    law_counters_count(was.bytes_in, bytes_in);
    law_counters_count(was.bytes_out, bytes_out);
    law_counters_count(was.sum_nanos, nanos);
    law_counters_count(was.outcomes[status], 1);
    law_counters_count(was.buckets[bucket], 1);
}

/// Accepts, drops, failures and evictions are counted once, under their reason, and
/// move the gauges by what came or went, but for multiples of 2^64; nothing else
/// moves.
pub proof fn law_comings_and_goings_are_counted(c: Counts, reason: int, other: int, n: int)
    requires
        c.complete(),
    ensures
        ({
            let m: int = 0x1_0000_0000_0000_0000;
            let accepted = c.and_accepted();
            let added = c.and_contexts(n);
            &&& (c.accepted + 1 - accepted.accepted) % m == 0
            &&& (c.endpoints + 1 - accepted.endpoints) % m == 0
            &&& accepted == (Counts {
                accepted: accepted.accepted,
                endpoints: accepted.endpoints,
                ..c
            })
            &&& (c.contexts + n - added.contexts) % m == 0
            &&& added == (Counts { contexts: added.contexts, ..c })
        }),
        0 <= reason < 4 && 0 <= other < 4 ==> ({
            let m: int = 0x1_0000_0000_0000_0000;
            let (dropped, failed) = (c.and_dropped(reason), c.and_failed(reason));
            &&& (c.dropped[reason] + 1 - dropped.dropped[reason]) % m == 0
            &&& other != reason ==> dropped.dropped[other] == c.dropped[other]
            &&& (c.endpoints - 1 - dropped.endpoints) % m == 0
            &&& dropped == (Counts {
                dropped: dropped.dropped,
                endpoints: dropped.endpoints,
                ..c
            })
            &&& failed == (Counts { dropped: dropped.dropped, ..c })
        }),
        0 <= reason < 2 && 0 <= other < 2 ==> ({
            let m: int = 0x1_0000_0000_0000_0000;
            let evicted = c.and_evicted(reason, n);
            &&& (c.evicted[reason] + n - evicted.evicted[reason]) % m == 0
            &&& other != reason ==> evicted.evicted[other] == c.evicted[other]
            &&& (c.contexts - n - evicted.contexts) % m == 0
            &&& evicted == (Counts { evicted: evicted.evicted, contexts: evicted.contexts, ..c })
        }),
{
    law_counters_count(c.accepted, 1);
    law_gauges_gauge(c.endpoints + 1);
    law_gauges_gauge(c.endpoints - 1);
    law_gauges_gauge(c.contexts + n);
    law_gauges_gauge(c.contexts - n);
    law_counters_count(c.dropped[reason], 1);
    law_counters_count(c.evicted[reason], n);
}

/// What workers count apart adds up: each counter of the sum is the sum of the two,
/// but for multiples of 2^64.
pub proof fn law_sums_are_sums(a: Counts, b: Counts, reason: int, op: int, i: int)
    requires
        a.complete(),
        b.complete(),
        0 <= op < 5,
    ensures
        ({
            let m: int = 0x1_0000_0000_0000_0000;
            let sum = a.plus(b);
            let (x, y, z) = (a.ops[op], b.ops[op], sum.ops[op]);
            &&& (a.accepted + b.accepted - sum.accepted) % m == 0
            &&& (a.endpoints + b.endpoints - sum.endpoints) % m == 0
            &&& (a.contexts + b.contexts - sum.contexts) % m == 0
            &&& 0 <= reason < 4 ==> (a.dropped[reason] + b.dropped[reason] - sum.dropped[reason])
                % m == 0
            &&& 0 <= reason < 2 ==> (a.evicted[reason] + b.evicted[reason] - sum.evicted[reason])
                % m == 0
            &&& (x.count + y.count - z.count) % m == 0
            &&& (x.bytes_in + y.bytes_in - z.bytes_in) % m == 0
            &&& (x.bytes_out + y.bytes_out - z.bytes_out) % m == 0
            &&& (x.sum_nanos + y.sum_nanos - z.sum_nanos) % m == 0
            &&& 0 <= i < 4 ==> (x.outcomes[i] + y.outcomes[i] - z.outcomes[i]) % m == 0
            &&& 0 <= i < 10 ==> (x.buckets[i] + y.buckets[i] - z.buckets[i]) % m == 0
            &&& sum.complete()
        }),
{
    let (x, y) = (a.ops[op], b.ops[op]);
    law_counters_count(a.accepted, b.accepted as int);
    law_gauges_gauge(a.endpoints + b.endpoints);
    law_gauges_gauge(a.contexts + b.contexts);
    law_counters_count(a.dropped[reason], b.dropped[reason] as int);
    law_counters_count(a.evicted[reason], b.evicted[reason] as int);
    law_counters_count(x.count, y.count as int);
    law_counters_count(x.bytes_in, y.bytes_in as int);
    law_counters_count(x.bytes_out, y.bytes_out as int);
    law_counters_count(x.sum_nanos, y.sum_nanos as int);
    law_counters_count(x.outcomes[i], y.outcomes[i] as int);
    law_counters_count(x.buckets[i], y.buckets[i] as int);
}

} // verus!
