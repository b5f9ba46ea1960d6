//! The metrics as text, in the Prometheus exposition format.
//!
//! Each family of metrics is a heading and its samples, one per line.
//! [`exposition`] is the whole text for given counts.

use vstd::prelude::*;

use crate::metrics::{
    BUCKET_COUNT, DROP_REASON_COUNT, EVICT_REASON_COUNT, OP_COUNT, STATUS_COUNT,
};
use crate::metrics::{Counts, OpCounts};
use crate::text::{decimal, push_decimal, push_signed_decimal, signed_decimal};

verus! {

/// The label of request operation `i`.
pub open spec fn op_name(i: int) -> Seq<char> {
    if i == 0 {
        "compress"@
    } else if i == 1 {
        "decompress"@
    } else if i == 2 {
        "oneshot"@
    } else if i == 3 {
        "reset"@
    } else {
        "invalid"@
    }
}

/// The label of request operation `i`.
pub(crate) fn op_label(i: usize) -> (s: &'static str)
    requires
        i < OP_COUNT,
    ensures
        s@ == op_name(i as int),
{
    if i == 0 {
        "compress"
    } else if i == 1 {
        "decompress"
    } else if i == 2 {
        "oneshot"
    } else if i == 3 {
        "reset"
    } else {
        "invalid"
    }
}

/// The label of request outcome `i`.
pub open spec fn status_name(i: int) -> Seq<char> {
    if i == 0 {
        "ok"@
    } else if i == 1 {
        "bad_request"@
    } else if i == 2 {
        "zstd_error"@
    } else {
        "too_large"@
    }
}

/// The label of request outcome `i`.
pub(crate) fn status_label(i: usize) -> (s: &'static str)
    requires
        i < STATUS_COUNT,
    ensures
        s@ == status_name(i as int),
{
    if i == 0 {
        "ok"
    } else if i == 1 {
        "bad_request"
    } else if i == 2 {
        "zstd_error"
    } else {
        "too_large"
    }
}

/// The label of the reason `i` to drop an endpoint.
pub open spec fn drop_reason_name(i: int) -> Seq<char> {
    if i == 0 {
        "transport"@
    } else if i == 1 {
        "hard_cap"@
    } else if i == 2 {
        "wrap"@
    } else {
        "hello"@
    }
}

/// The label of the reason `i` to drop an endpoint.
pub(crate) fn drop_reason_label(i: usize) -> (s: &'static str)
    requires
        i < DROP_REASON_COUNT,
    ensures
        s@ == drop_reason_name(i as int),
{
    if i == 0 {
        "transport"
    } else if i == 1 {
        "hard_cap"
    } else if i == 2 {
        "wrap"
    } else {
        "hello"
    }
}

/// The label of the reason `i` to evict a context.
pub open spec fn evict_reason_name(i: int) -> Seq<char> {
    if i == 0 {
        "gc"@
    } else {
        "endpoint"@
    }
}

/// The label of the reason `i` to evict a context.
pub(crate) fn evict_reason_label(i: usize) -> (s: &'static str)
    requires
        i < EVICT_REASON_COUNT,
    ensures
        s@ == evict_reason_name(i as int),
{
    if i == 0 {
        "gc"
    } else {
        "endpoint"
    }
}

/// The upper bound of duration bucket `i`, in seconds.
pub open spec fn bound_name(i: int) -> Seq<char> {
    if i == 0 {
        "0.00005"@
    } else if i == 1 {
        "0.0001"@
    } else if i == 2 {
        "0.00025"@
    } else if i == 3 {
        "0.0005"@
    } else if i == 4 {
        "0.001"@
    } else if i == 5 {
        "0.0025"@
    } else if i == 6 {
        "0.005"@
    } else if i == 7 {
        "0.01"@
    } else if i == 8 {
        "0.025"@
    } else {
        "0.05"@
    }
}

/// The upper bound of duration bucket `i`, in seconds.
pub(crate) fn bound_label(i: usize) -> (s: &'static str)
    requires
        i < BUCKET_COUNT,
    ensures
        s@ == bound_name(i as int),
{
    if i == 0 {
        "0.00005"
    } else if i == 1 {
        "0.0001"
    } else if i == 2 {
        "0.00025"
    } else if i == 3 {
        "0.0005"
    } else if i == 4 {
        "0.001"
    } else if i == 5 {
        "0.0025"
    } else if i == 6 {
        "0.005"
    } else if i == 7 {
        "0.01"
    } else if i == 8 {
        "0.025"
    } else {
        "0.05"
    }
}

/// `part(0)` up to `part(n - 1)`, one behind the other.
pub open spec fn joined(n: nat, part: spec_fn(int) -> Seq<char>) -> Seq<char>
    decreases n,
{
    if n == 0 {
        Seq::empty()
    } else {
        joined((n - 1) as nat, part) + part(n - 1)
    }
}

/// The two lines that open a family of metrics.
pub open spec fn heading(name: Seq<char>, help: Seq<char>, kind: Seq<char>) -> Seq<char> {
    "# HELP "@ + name + " "@ + help + "\n# TYPE "@ + name + " "@ + kind + "\n"@
}

/// One label.
pub open spec fn label(key: Seq<char>, value: Seq<char>) -> Seq<char> {
    "{"@ + key + "=\""@ + value + "\"}"@
}

/// Two labels.
pub open spec fn labels(
    key: Seq<char>,
    value: Seq<char>,
    other_key: Seq<char>,
    other_value: Seq<char>,
) -> Seq<char> {
    "{"@ + key + "=\""@ + value + "\","@ + other_key + "=\""@ + other_value + "\"}"@
}

/// One sample line; `labels` may be empty.
pub open spec fn sample(name: Seq<char>, labels: Seq<char>, value: Seq<char>) -> Seq<char> {
    name + labels + " "@ + value + "\n"@
}

/// Appends the two lines that open a family of metrics.
pub(crate) fn push_heading(out: &mut String, name: &str, help: &str, kind: &str)
    ensures
        final(out)@ == old(out)@ + heading(name@, help@, kind@),
{
    out.append("# HELP ");
    out.append(name);
    out.append(" ");
    out.append(help);
    out.append("\n# TYPE ");
    out.append(name);
    out.append(" ");
    out.append(kind);
    out.append("\n");
    assert(out@ =~= old(out)@ + heading(name@, help@, kind@));
}

/// Appends one label.
pub(crate) fn push_label(out: &mut String, key: &str, value: &str)
    ensures
        final(out)@ == old(out)@ + label(key@, value@),
{
    out.append("{");
    out.append(key);
    out.append("=\"");
    out.append(value);
    out.append("\"}");
    assert(out@ =~= old(out)@ + label(key@, value@));
}

fn push_labels(out: &mut String, key: &str, value: &str, other_key: &str, other_value: &str)
    ensures
        final(out)@ == old(out)@ + labels(key@, value@, other_key@, other_value@),
{
    out.append("{");
    out.append(key);
    out.append("=\"");
    out.append(value);
    out.append("\",");
    out.append(other_key);
    out.append("=\"");
    out.append(other_value);
    out.append("\"}");
    assert(out@ =~= old(out)@ + labels(key@, value@, other_key@, other_value@));
}

/// Appends the sample of a gauge.
pub(crate) fn push_gauge(out: &mut String, name: &str, value: i64)
    ensures
        final(out)@ == old(out)@ + sample(name@, Seq::empty(), signed_decimal(value as int)),
{
    out.append(name);
    out.append(" ");
    push_signed_decimal(out, value);
    out.append("\n");
    assert(out@ =~= old(out)@ + sample(name@, Seq::empty(), signed_decimal(value as int)));
}

/// Appends the sample of a counter without labels.
pub(crate) fn push_counter(out: &mut String, name: &str, value: u64)
    ensures
        final(out)@ == old(out)@ + sample(name@, Seq::empty(), decimal(value as nat)),
{
    out.append(name);
    out.append(" ");
    push_decimal(out, value);
    out.append("\n");
    assert(out@ =~= old(out)@ + sample(name@, Seq::empty(), decimal(value as nat)));
}

/// Appends a sample with one label.
pub(crate) fn push_labelled(out: &mut String, name: &str, key: &str, label_value: &str, value: u64)
    ensures
        final(out)@ == old(out)@ + sample(name@, label(key@, label_value@), decimal(value as nat)),
{
    out.append(name);
    push_label(out, key, label_value);
    out.append(" ");
    push_decimal(out, value);
    out.append("\n");
    assert(out@ =~= old(out)@ + sample(
        name@,
        label(key@, label_value@),
        decimal(value as nat),
    ));
}

/// Appends a sample of operation `op` with another label.
pub(crate) fn push_of_op(
    out: &mut String,
    name: &str,
    op: &str,
    other_key: &str,
    other_value: &str,
    value: u64,
)
    ensures
        final(out)@ == old(out)@ + sample(
            name@,
            labels("op"@, op@, other_key@, other_value@),
            decimal(value as nat),
        ),
{
    out.append(name);
    push_labels(out, "op", op, other_key, other_value);
    out.append(" ");
    push_decimal(out, value);
    out.append("\n");
    assert(out@ =~= old(out)@ + sample(
        name@,
        labels("op"@, op@, other_key@, other_value@),
        decimal(value as nat),
    ));
}

/// Appends a sample of operation `op` whose value is given as text.
pub(crate) fn push_text_of_op(out: &mut String, name: &str, op: &str, value: &str)
    ensures
        final(out)@ == old(out)@ + sample(name@, label("op"@, op@), value@),
{
    out.append(name);
    push_label(out, "op", op);
    out.append(" ");
    out.append(value);
    out.append("\n");
    assert(out@ =~= old(out)@ + sample(name@, label("op"@, op@), value@));
}

/// The family of live endpoints.
pub open spec fn endpoints_text(c: Counts) -> Seq<char> {
    heading("neb_zstd_endpoints"@, "Live UCX endpoints (client slots)."@, "gauge"@) + sample(
        "neb_zstd_endpoints"@,
        Seq::empty(),
        signed_decimal(c.endpoints as int),
    )
}

/// The family of live contexts.
pub open spec fn contexts_text(c: Counts) -> Seq<char> {
    heading("neb_zstd_contexts"@, "Live per-connection zstd contexts."@, "gauge"@) + sample(
        "neb_zstd_contexts"@,
        Seq::empty(),
        signed_decimal(c.contexts as int),
    )
}

/// The family of accepted connections.
pub open spec fn accepted_text(c: Counts) -> Seq<char> {
    heading(
        "neb_zstd_connections_accepted_total"@,
        "Endpoints accepted and announced."@,
        "counter"@,
    ) + sample("neb_zstd_connections_accepted_total"@, Seq::empty(), decimal(c.accepted as nat))
}

/// The sample of each reason to drop an endpoint.
pub open spec fn dropped_sample(c: Counts) -> spec_fn(int) -> Seq<char> {
    |i: int|
        sample(
            "neb_zstd_connections_dropped_total"@,
            label("reason"@, drop_reason_name(i)),
            decimal(c.dropped[i] as nat),
        )
}

/// The family of dropped connections.
pub open spec fn dropped_text(c: Counts) -> Seq<char> {
    heading(
        "neb_zstd_connections_dropped_total"@,
        "Endpoints dropped, by reason."@,
        "counter"@,
    ) + joined(DROP_REASON_COUNT as nat, dropped_sample(c))
}

/// The sample of each reason to evict a context.
pub open spec fn evicted_sample(c: Counts) -> spec_fn(int) -> Seq<char> {
    |i: int|
        sample(
            "neb_zstd_contexts_evicted_total"@,
            label("reason"@, evict_reason_name(i)),
            decimal(c.evicted[i] as nat),
        )
}

/// The family of evicted contexts.
pub open spec fn evicted_text(c: Counts) -> Seq<char> {
    heading(
        "neb_zstd_contexts_evicted_total"@,
        "Connection contexts evicted, by reason."@,
        "counter"@,
    ) + joined(EVICT_REASON_COUNT as nat, evicted_sample(c))
}

/// The sample of each outcome of the requests of operation `op`.
pub open spec fn outcome_sample(c: OpCounts, op: int) -> spec_fn(int) -> Seq<char> {
    |status: int|
        sample(
            "neb_zstd_requests_total"@,
            labels("op"@, op_name(op), "status"@, status_name(status)),
            decimal(c.outcomes[status] as nat),
        )
}

/// The outcomes of each operation's requests.
pub open spec fn outcome_samples(c: Counts) -> spec_fn(int) -> Seq<char> {
    |op: int| joined(STATUS_COUNT as nat, outcome_sample(c.ops[op], op))
}

/// The family of requests answered.
pub open spec fn requests_text(c: Counts) -> Seq<char> {
    heading("neb_zstd_requests_total"@, "Requests answered, by op and status."@, "counter"@)
        + joined(OP_COUNT as nat, outcome_samples(c))
}

/// The byte counts of each operation's requests.
pub open spec fn bytes_samples(c: Counts) -> spec_fn(int) -> Seq<char> {
    |op: int|
        sample(
            "neb_zstd_request_bytes_total"@,
            labels("op"@, op_name(op), "direction"@, "in"@),
            decimal(c.ops[op].bytes_in as nat),
        ) + sample(
            "neb_zstd_request_bytes_total"@,
            labels("op"@, op_name(op), "direction"@, "out"@),
            decimal(c.ops[op].bytes_out as nat),
        )
}

/// The family of payload bytes.
pub open spec fn bytes_text(c: Counts) -> Seq<char> {
    heading(
        "neb_zstd_request_bytes_total"@,
        "Payload bytes processed. Compression ratio = out/in of op=\"compress\"."@,
        "counter"@,
    ) + joined(OP_COUNT as nat, bytes_samples(c))
}

/// The sample of each duration bucket of operation `op`.
pub open spec fn bucket_sample(c: OpCounts, op: int) -> spec_fn(int) -> Seq<char> {
    |i: int|
        sample(
            "neb_zstd_request_duration_seconds_bucket"@,
            labels("op"@, op_name(op), "le"@, bound_name(i)),
            decimal(c.buckets[i] as nat),
        )
}

/// The duration histogram of operation `op`; `sum` is its sum in seconds.
pub open spec fn histogram_text(c: OpCounts, op: int, sum: Seq<char>) -> Seq<char> {
    joined(BUCKET_COUNT as nat, bucket_sample(c, op)) + sample(
        "neb_zstd_request_duration_seconds_bucket"@,
        labels("op"@, op_name(op), "le"@, "+Inf"@),
        decimal(c.count as nat),
    ) + sample("neb_zstd_request_duration_seconds_sum"@, label("op"@, op_name(op)), sum) + sample(
        "neb_zstd_request_duration_seconds_count"@,
        label("op"@, op_name(op)),
        decimal(c.count as nat),
    )
}

/// The duration histogram of each operation.
pub open spec fn histograms(c: Counts, sums: Seq<String>) -> spec_fn(int) -> Seq<char> {
    |op: int| histogram_text(c.ops[op], op, sums[op]@)
}

/// The family of request durations.
pub open spec fn durations_text(c: Counts, sums: Seq<String>) -> Seq<char> {
    heading(
        "neb_zstd_request_duration_seconds"@,
        "Time spent on the actual zstd work, by op."@,
        "histogram"@,
    ) + joined(OP_COUNT as nat, histograms(c, sums))
}

/// The whole text for the counts `c`; `sums` are the durations of each
/// operation's requests added up, in seconds.
pub open spec fn exposition(c: Counts, sums: Seq<String>) -> Seq<char> {
    endpoints_text(c) + contexts_text(c) + accepted_text(c) + dropped_text(c) + evicted_text(c)
        + requests_text(c) + bytes_text(c) + durations_text(c, sums)
}

} // verus!
