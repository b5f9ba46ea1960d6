//! The lines of the metrics text, one by one.
//!
//! Whatever the counts are, the text has the same lines in the same order; only
//! the values differ. [`row`] says which line stands where, and [`place`] where a
//! line stands.

use vstd::prelude::*;

use crate::exposition::{
    accepted_text, bound_name, bucket_sample, bytes_samples, bytes_text, contexts_text,
    drop_reason_name, dropped_sample, dropped_text, durations_text, endpoints_text,
    evict_reason_name, evicted_sample, evicted_text, exposition, heading, histogram_text,
    histograms, joined, label, labels, op_name, outcome_sample, outcome_samples, requests_text,
    status_name,
};
use crate::metrics::{
    Counts, BUCKET_COUNT, DROP_REASON_COUNT, EVICT_REASON_COUNT, OP_COUNT, STATUS_COUNT,
};
use crate::text::{decimal, law_decimal_round_trip, signed_decimal, spelled_int};

verus! {

/// How many families of metrics there are.
pub open spec fn family_count() -> int {
    8
}

/// How many lines the text has.
pub open spec fn row_count() -> nat {
    120
}

/// The name of family `f`.
pub open spec fn family_name(f: int) -> Seq<char> {
    if f == 0 {
        "neb_zstd_endpoints"@
    } else if f == 1 {
        "neb_zstd_contexts"@
    } else if f == 2 {
        "neb_zstd_connections_accepted_total"@
    } else if f == 3 {
        "neb_zstd_connections_dropped_total"@
    } else if f == 4 {
        "neb_zstd_contexts_evicted_total"@
    } else if f == 5 {
        "neb_zstd_requests_total"@
    } else if f == 6 {
        "neb_zstd_request_bytes_total"@
    } else {
        "neb_zstd_request_duration_seconds"@
    }
}

/// What family `f` is about.
pub open spec fn family_help(f: int) -> Seq<char> {
    if f == 0 {
        "Live UCX endpoints (client slots)."@
    } else if f == 1 {
        "Live per-connection zstd contexts."@
    } else if f == 2 {
        "Endpoints accepted and announced."@
    } else if f == 3 {
        "Endpoints dropped, by reason."@
    } else if f == 4 {
        "Connection contexts evicted, by reason."@
    } else if f == 5 {
        "Requests answered, by op and status."@
    } else if f == 6 {
        "Payload bytes processed. Compression ratio = out/in of op=\"compress\"."@
    } else {
        "Time spent on the actual zstd work, by op."@
    }
}

/// The type of family `f`.
pub open spec fn family_kind(f: int) -> Seq<char> {
    if f <= 1 {
        "gauge"@
    } else if f <= 6 {
        "counter"@
    } else {
        "histogram"@
    }
}

/// What a sample is a sample of: a family and the values of its labels.
pub ghost enum Series {
    Endpoints,
    Contexts,
    Accepted,
    Dropped { reason: int },
    Evicted { reason: int },
    Outcome { op: int, status: int },
    BytesIn { op: int },
    BytesOut { op: int },
    /// One of the bounds; the last stands for infinity.
    Bucket { op: int, bound: int },
    Sum { op: int },
    Count { op: int },
}

impl Series {
    /// The labels have values that there are.
    pub open spec fn is_known(self) -> bool {
        match self {
            Series::Endpoints => true,
            Series::Contexts => true,
            Series::Accepted => true,
            Series::Dropped { reason } => 0 <= reason < DROP_REASON_COUNT,
            Series::Evicted { reason } => 0 <= reason < EVICT_REASON_COUNT,
            Series::Outcome { op, status } => 0 <= op < OP_COUNT && 0 <= status < STATUS_COUNT,
            Series::BytesIn { op } => 0 <= op < OP_COUNT,
            Series::BytesOut { op } => 0 <= op < OP_COUNT,
            Series::Bucket { op, bound } => 0 <= op < OP_COUNT && 0 <= bound <= BUCKET_COUNT,
            Series::Sum { op } => 0 <= op < OP_COUNT,
            Series::Count { op } => 0 <= op < OP_COUNT,
        }
    }

    /// The name of the samples.
    pub open spec fn name(self) -> Seq<char> {
        match self {
            Series::Endpoints => "neb_zstd_endpoints"@,
            Series::Contexts => "neb_zstd_contexts"@,
            Series::Accepted => "neb_zstd_connections_accepted_total"@,
            Series::Dropped { .. } => "neb_zstd_connections_dropped_total"@,
            Series::Evicted { .. } => "neb_zstd_contexts_evicted_total"@,
            Series::Outcome { .. } => "neb_zstd_requests_total"@,
            Series::BytesIn { .. } => "neb_zstd_request_bytes_total"@,
            Series::BytesOut { .. } => "neb_zstd_request_bytes_total"@,
            Series::Bucket { .. } => "neb_zstd_request_duration_seconds_bucket"@,
            Series::Sum { .. } => "neb_zstd_request_duration_seconds_sum"@,
            Series::Count { .. } => "neb_zstd_request_duration_seconds_count"@,
        }
    }

    /// The labels of the samples.
    pub open spec fn labels(self) -> Seq<char> {
        match self {
            Series::Endpoints => Seq::empty(),
            Series::Contexts => Seq::empty(),
            Series::Accepted => Seq::empty(),
            Series::Dropped { reason } => label("reason"@, drop_reason_name(reason)),
            Series::Evicted { reason } => label("reason"@, evict_reason_name(reason)),
            Series::Outcome { op, status } => labels(
                "op"@,
                op_name(op),
                "status"@,
                status_name(status),
            ),
            Series::BytesIn { op } => labels("op"@, op_name(op), "direction"@, "in"@),
            Series::BytesOut { op } => labels("op"@, op_name(op), "direction"@, "out"@),
            Series::Bucket { op, bound } => labels("op"@, op_name(op), "le"@, le_name(bound)),
            Series::Sum { op } => label("op"@, op_name(op)),
            Series::Count { op } => label("op"@, op_name(op)),
        }
    }

    /// What the series is called in the text.
    pub open spec fn text(self) -> Seq<char> {
        self.name() + self.labels()
    }

    /// The value of the sample for the counts `c`.
    pub open spec fn value(self, c: Counts, sums: Seq<String>) -> Seq<char> {
        match self {
            Series::Endpoints => signed_decimal(c.endpoints as int),
            Series::Contexts => signed_decimal(c.contexts as int),
            Series::Accepted => decimal(c.accepted as nat),
            Series::Dropped { reason } => decimal(c.dropped[reason] as nat),
            Series::Evicted { reason } => decimal(c.evicted[reason] as nat),
            Series::Outcome { op, status } => decimal(c.ops[op].outcomes[status] as nat),
            Series::BytesIn { op } => decimal(c.ops[op].bytes_in as nat),
            Series::BytesOut { op } => decimal(c.ops[op].bytes_out as nat),
            Series::Bucket { op, bound } => if bound < BUCKET_COUNT {
                decimal(c.ops[op].buckets[bound] as nat)
            } else {
                decimal(c.ops[op].count as nat)
            },
            Series::Sum { op } => sums[op]@,
            Series::Count { op } => decimal(c.ops[op].count as nat),
        }
    }
}

/// The upper bound of duration bucket `i`; the one behind the last is infinite.
pub open spec fn le_name(i: int) -> Seq<char> {
    if i < BUCKET_COUNT {
        bound_name(i)
    } else {
        "+Inf"@
    }
}

/// A line of the text.
pub ghost enum Row {
    /// The line that says what a family is about.
    Help { family: int },
    /// The line that says of what type a family is.
    Type { family: int },
    /// A sample.
    Sample { series: Series },
}

impl Row {
    /// There is such a family or series.
    pub open spec fn is_known(self) -> bool {
        match self {
            Row::Help { family } => 0 <= family < family_count(),
            Row::Type { family } => 0 <= family < family_count(),
            Row::Sample { series } => series.is_known(),
        }
    }

    /// The line for the counts `c`.
    pub open spec fn text(self, c: Counts, sums: Seq<String>) -> Seq<char> {
        match self {
            Row::Help { family } => "# HELP "@ + family_name(family) + " "@ + family_help(family)
                + "\n"@,
            Row::Type { family } => "# TYPE "@ + family_name(family) + " "@ + family_kind(family)
                + "\n"@,
            Row::Sample { series } => series.text() + " "@ + series.value(c, sums) + "\n"@,
        }
    }
}

/// The first two lines of family `f`, for `k` 0 and 1.
pub open spec fn head(f: int, k: int) -> Row {
    if k == 0 {
        Row::Help { family: f }
    } else {
        Row::Type { family: f }
    }
}

/// Sample `k` of the duration histogram of operation `op`.
pub open spec fn duration_series(op: int, k: int) -> Series {
    if k <= BUCKET_COUNT {
        Series::Bucket { op, bound: k }
    } else if k == 11 {
        Series::Sum { op }
    } else {
        Series::Count { op }
    }
}

/// Line `i` of the text.
pub open spec fn row(i: int) -> Row {
    if i < 2 {
        head(0, i)
    } else if i == 2 {
        Row::Sample { series: Series::Endpoints }
    } else if i < 5 {
        head(1, i - 3)
    } else if i == 5 {
        Row::Sample { series: Series::Contexts }
    } else if i < 8 {
        head(2, i - 6)
    } else if i == 8 {
        Row::Sample { series: Series::Accepted }
    } else if i < 11 {
        head(3, i - 9)
    } else if i < 15 {
        Row::Sample { series: Series::Dropped { reason: i - 11 } }
    } else if i < 17 {
        head(4, i - 15)
    } else if i < 19 {
        Row::Sample { series: Series::Evicted { reason: i - 17 } }
    } else if i < 21 {
        head(5, i - 19)
    } else if i < 41 {
        Row::Sample { series: Series::Outcome { op: (i - 21) / 4, status: (i - 21) % 4 } }
    } else if i < 43 {
        head(6, i - 41)
    } else if i < 53 {
        if (i - 43) % 2 == 0 {
            Row::Sample { series: Series::BytesIn { op: (i - 43) / 2 } }
        } else {
            Row::Sample { series: Series::BytesOut { op: (i - 43) / 2 } }
        }
    } else if i < 55 {
        head(7, i - 53)
    } else {
        Row::Sample { series: duration_series((i - 55) / 13, (i - 55) % 13) }
    }
}

/// The line that family `f` starts at.
pub open spec fn family_start(f: int) -> int {
    if f == 0 {
        0
    } else if f == 1 {
        3
    } else if f == 2 {
        6
    } else if f == 3 {
        9
    } else if f == 4 {
        15
    } else if f == 5 {
        19
    } else if f == 6 {
        41
    } else {
        53
    }
}

/// The place of a line in the text.
pub open spec fn place(row: Row) -> int {
    match row {
        Row::Help { family } => family_start(family),
        Row::Type { family } => family_start(family) + 1,
        Row::Sample { series } => match series {
            Series::Endpoints => 2,
            Series::Contexts => 5,
            Series::Accepted => 8,
            Series::Dropped { reason } => 11 + reason,
            Series::Evicted { reason } => 17 + reason,
            Series::Outcome { op, status } => 21 + 4 * op + status,
            Series::BytesIn { op } => 43 + 2 * op,
            Series::BytesOut { op } => 44 + 2 * op,
            Series::Bucket { op, bound } => 55 + 13 * op + bound,
            Series::Sum { op } => 66 + 13 * op,
            Series::Count { op } => 67 + 13 * op,
        },
    }
}

/// Every line of the catalogue stands in exactly one place, and every place has
/// its line: each family is headed once, and each combination of labels has one
/// sample, also where nothing was counted yet.
pub proof fn law_every_line_has_its_place(r: Row, i: int)
    ensures
        r.is_known() ==> 0 <= place(r) < row_count() && row(place(r)) == r,
        0 <= i < row_count() ==> row(i).is_known() && place(row(i)) == i,
{
}

/// How many of the first `n` lines are samples.
pub open spec fn samples_among(n: nat) -> nat
    decreases n,
{
    if n == 0 {
        0
    } else if row(n - 1) is Sample {
        samples_among((n - 1) as nat) + 1
    } else {
        samples_among((n - 1) as nat)
    }
}

/// Two lines of heading and `m` samples hold `m` samples.
proof fn lemma_samples_of_a_family(n: nat, m: nat)
    requires
        !(row(n as int) is Sample),
        !(row(n as int + 1) is Sample),
        forall|i: int| n + 2 <= i < n + 2 + m ==> #[trigger] row(i) is Sample,
    ensures
        samples_among(n + 2 + m) == samples_among(n) + m,
    decreases m,
{
    if m == 0 {
        reveal_with_fuel(samples_among, 3);
    } else {
        lemma_samples_of_a_family(n, (m - 1) as nat);
        assert(row(n as int + 1 + m) is Sample);
        assert((n + 2 + m - 1) as nat == n + 2 + (m - 1) as nat);
    }
}

/// There are 104 samples: all lines but the two that head each family.
pub proof fn law_samples_are_counted()
    ensures
        samples_among(row_count()) == 104,
        row_count() == 2 * family_count() + 104,
{
    lemma_samples_of_a_family(0, 1);
    lemma_samples_of_a_family(3, 1);
    lemma_samples_of_a_family(6, 1);
    lemma_samples_of_a_family(9, 4);
    lemma_samples_of_a_family(15, 2);
    lemma_samples_of_a_family(19, 20);
    lemma_samples_of_a_family(41, 10);
    lemma_samples_of_a_family(53, 65);
}

/// `part` from its element `by` on.
spec fn shifted(part: spec_fn(int) -> Seq<char>, by: int) -> spec_fn(int) -> Seq<char> {
    |i: int| part(by + i)
}

/// Joining is joining the first `n` and then the other `m`.
proof fn lemma_joined_splits(n: nat, m: nat, part: spec_fn(int) -> Seq<char>)
    ensures
        joined(n + m, part) == joined(n, part) + joined(m, shifted(part, n as int)),
    decreases m,
{
    if m == 0 {
        assert(joined(n, part) + joined(m, shifted(part, n as int)) =~= joined(n, part));
    } else {
        lemma_joined_splits(n, (m - 1) as nat, part);
        assert((n + m - 1) as nat == n + (m - 1) as nat);
        assert(joined(n + m, part) =~= joined(n, part) + joined(m, shifted(part, n as int)));
    }
}

/// Joining depends on the parts that are joined alone.
proof fn lemma_joined_alike(
    n: nat,
    a: spec_fn(int) -> Seq<char>,
    b: spec_fn(int) -> Seq<char>,
)
    requires
        forall|i: int| 0 <= i < n ==> #[trigger] a(i) == b(i),
    ensures
        joined(n, a) == joined(n, b),
    decreases n,
{
    if n > 0 {
        lemma_joined_alike((n - 1) as nat, a, b);
        assert(a(n - 1) == b(n - 1));
    }
}

/// Joining `n` groups of `k` is joining them all.
proof fn lemma_joined_groups(
    n: nat,
    k: nat,
    part: spec_fn(int) -> Seq<char>,
    group: spec_fn(int) -> Seq<char>,
)
    requires
        forall|g: int|
            0 <= g < n ==> #[trigger] group(g) == joined(k, shifted(part, g * k)),
    ensures
        joined(n * k, part) == joined(n, group),
    decreases n,
{
    if n > 0 {
        let fewer = (n - 1) as nat;
        lemma_joined_groups(fewer, k, part, group);
        assert(n * k == fewer * k + k) by (nonlinear_arith)
            requires
                n == fewer + 1,
        ;
        lemma_joined_splits(fewer * k, k, part);
        assert(group(n - 1) == joined(k, shifted(part, (n - 1) * k)));
    } else {
        assert(n * k == 0) by (nonlinear_arith)
            requires
                n == 0,
        ;
    }
}

/// The lines of the text for the counts `c`.
pub open spec fn lines(c: Counts, sums: Seq<String>) -> spec_fn(int) -> Seq<char> {
    |i: int| row(i).text(c, sums)
}

/// The two lines of a heading.
proof fn lemma_heading(f: int, c: Counts, sums: Seq<String>)
    ensures
        heading(family_name(f), family_help(f), family_kind(f)) == head(f, 0).text(c, sums) + head(
            f,
            1,
        ).text(c, sums),
{
    reveal_strlit("\n# TYPE ");
    reveal_strlit("\n");
    reveal_strlit("# TYPE ");
    assert("\n# TYPE "@ =~= "\n"@ + "# TYPE "@);
    assert(heading(family_name(f), family_help(f), family_kind(f)) =~= head(f, 0).text(c, sums)
        + head(f, 1).text(c, sums));
}

/// A family is its heading and the samples behind it.
proof fn lemma_family(f: int, n: nat, samples: spec_fn(int) -> Seq<char>, c: Counts, sums: Seq<String>)
    requires
        0 <= f < family_count(),
        forall|i: int|
            0 <= i < n ==> #[trigger] samples(i) == lines(c, sums)(family_start(f) + 2 + i),
    ensures
        joined(n + 2, shifted(lines(c, sums), family_start(f))) == heading(
            family_name(f),
            family_help(f),
            family_kind(f),
        ) + joined(n, samples),
{
    let part = shifted(lines(c, sums), family_start(f));
    lemma_heading(f, c, sums);
    lemma_joined_splits(2, n, part);
    lemma_joined_alike(n, samples, shifted(part, 2));
    assert(part(0) == head(f, 0).text(c, sums));
    assert(part(1) == head(f, 1).text(c, sums));
    reveal_with_fuel(joined, 3);
    assert(joined(2, part) =~= part(0) + part(1));
}

/// The families with one sample.
proof fn lemma_single_samples(c: Counts, sums: Seq<String>)
    ensures
        joined(3, lines(c, sums)) == endpoints_text(c),
        joined(3, shifted(lines(c, sums), 3)) == contexts_text(c),
        joined(3, shifted(lines(c, sums), 6)) == accepted_text(c),
{
    let all = lines(c, sums);
    lemma_family(0, 1, shifted(all, 2), c, sums);
    lemma_family(1, 1, shifted(all, 5), c, sums);
    lemma_family(2, 1, shifted(all, 8), c, sums);
    lemma_joined_alike(3, all, shifted(all, 0));
    reveal_with_fuel(joined, 2);
    assert(joined(1, shifted(all, 2)) =~= all(2));
    assert(joined(1, shifted(all, 5)) =~= all(5));
    assert(joined(1, shifted(all, 8)) =~= all(8));
    assert(endpoints_text(c) =~= heading(family_name(0), family_help(0), family_kind(0)) + all(2));
    assert(contexts_text(c) =~= heading(family_name(1), family_help(1), family_kind(1)) + all(5));
    assert(accepted_text(c) =~= heading(family_name(2), family_help(2), family_kind(2)) + all(8));
}

/// The families with one label.
proof fn lemma_labelled_samples(c: Counts, sums: Seq<String>)
    ensures
        joined(6, shifted(lines(c, sums), 9)) == dropped_text(c),
        joined(4, shifted(lines(c, sums), 15)) == evicted_text(c),
{
    lemma_family(3, 4, dropped_sample(c), c, sums);
    lemma_family(4, 2, evicted_sample(c), c, sums);
}

/// The outcomes of operation `op`, line by line.
proof fn lemma_outcomes(op: int, c: Counts, sums: Seq<String>)
    requires
        0 <= op < OP_COUNT,
    ensures
        outcome_samples(c)(op) == joined(4, shifted(shifted(lines(c, sums), 21), op * 4)),
{
    let one = shifted(shifted(lines(c, sums), 21), op * 4);
    assert forall|status: int| 0 <= status < 4 implies #[trigger] outcome_sample(c.ops[op], op)(
        status,
    ) == one(status) by {
        assert(row(21 + (op * 4 + status)) == Row::Sample { series: Series::Outcome { op, status } });
    }
    lemma_joined_alike(4, outcome_sample(c.ops[op], op), one);
}

/// The family of requests answered.
proof fn lemma_request_samples(c: Counts, sums: Seq<String>)
    ensures
        joined(22, shifted(lines(c, sums), 19)) == requests_text(c),
{
    let outcomes = shifted(lines(c, sums), 21);
    lemma_family(5, 20, outcomes, c, sums);
    assert forall|op: int| 0 <= op < 5 implies #[trigger] outcome_samples(c)(op) == joined(
        4,
        shifted(outcomes, op * 4),
    ) by {
        lemma_outcomes(op, c, sums);
    }
    lemma_joined_groups(5, 4, outcomes, outcome_samples(c));
}

/// The bytes of operation `op`, line by line.
proof fn lemma_bytes(op: int, c: Counts, sums: Seq<String>)
    requires
        0 <= op < OP_COUNT,
    ensures
        bytes_samples(c)(op) == joined(2, shifted(shifted(lines(c, sums), 43), op * 2)),
{
    let pair = shifted(shifted(lines(c, sums), 43), op * 2);
    assert(row(43 + (op * 2 + 0)) == Row::Sample { series: Series::BytesIn { op } });
    assert(row(43 + (op * 2 + 1)) == Row::Sample { series: Series::BytesOut { op } });
    lemma_joined_pair(pair);
    assert(bytes_samples(c)(op) == pair(0) + pair(1));
}

/// Two parts joined.
proof fn lemma_joined_pair(part: spec_fn(int) -> Seq<char>)
    ensures
        joined(2, part) == part(0) + part(1),
{
    reveal_with_fuel(joined, 3);
    assert(joined(2, part) =~= part(0) + part(1));
}

/// The family of payload bytes.
proof fn lemma_byte_samples(c: Counts, sums: Seq<String>)
    ensures
        joined(12, shifted(lines(c, sums), 41)) == bytes_text(c),
{
    let bytes = shifted(lines(c, sums), 43);
    lemma_family(6, 10, bytes, c, sums);
    assert forall|op: int| 0 <= op < 5 implies #[trigger] bytes_samples(c)(op) == joined(
        2,
        shifted(bytes, op * 2),
    ) by {
        lemma_bytes(op, c, sums);
    }
    lemma_joined_groups(5, 2, bytes, bytes_samples(c));
}

/// The duration histogram of operation `op`, line by line.
proof fn lemma_histogram(op: int, c: Counts, sums: Seq<String>)
    requires
        0 <= op < OP_COUNT,
    ensures
        histograms(c, sums)(op) == joined(13, shifted(shifted(lines(c, sums), 55), op * 13)),
{
    let one = shifted(shifted(lines(c, sums), 55), op * 13);
    assert forall|k: int| 0 <= k < 13 implies one(k) == (Row::Sample {
        series: duration_series(op, k),
    }).text(c, sums) by {
        assert(row(55 + (op * 13 + k)) == Row::Sample { series: duration_series(op, k) });
    }
    let rest = shifted(one, 10);
    assert(rest(0) == one(10) && rest(1) == one(11) && rest(2) == one(12));
    lemma_joined_alike(10, bucket_sample(c.ops[op], op), one);
    lemma_joined_splits(10, 3, one);
    lemma_joined_splits(2, 1, rest);
    lemma_joined_pair(rest);
    assert(joined(3, rest) == rest(0) + rest(1) + rest(2));
    let buckets = joined(10, bucket_sample(c.ops[op], op));
    assert(buckets + (rest(0) + rest(1) + rest(2)) =~= buckets + rest(0) + rest(1) + rest(2));
}

/// The family of request durations.
proof fn lemma_duration_samples(c: Counts, sums: Seq<String>)
    ensures
        joined(67, shifted(lines(c, sums), 53)) == durations_text(c, sums),
{
    let durations = shifted(lines(c, sums), 55);
    lemma_family(7, 65, durations, c, sums);
    assert forall|op: int| 0 <= op < 5 implies #[trigger] histograms(c, sums)(op) == joined(
        13,
        shifted(durations, op * 13),
    ) by {
        lemma_histogram(op, c, sums);
    }
    lemma_joined_groups(5, 13, durations, histograms(c, sums));
}

/// The text is the lines of the catalogue, in order, and nothing else.
pub proof fn law_the_text_is_its_lines(c: Counts, sums: Seq<String>)
    ensures
        exposition(c, sums) == joined(row_count(), lines(c, sums)),
{
    let all = lines(c, sums);
    lemma_single_samples(c, sums);
    lemma_labelled_samples(c, sums);
    lemma_request_samples(c, sums);
    lemma_byte_samples(c, sums);
    lemma_duration_samples(c, sums);
    lemma_joined_splits(3, 3, all);
    lemma_joined_splits(6, 3, all);
    lemma_joined_splits(9, 6, all);
    lemma_joined_splits(15, 4, all);
    lemma_joined_splits(19, 22, all);
    lemma_joined_splits(41, 12, all);
    lemma_joined_splits(53, 67, all);
}

/// `c` occurs nowhere in `s`.
pub open spec fn lacks(s: Seq<char>, c: char) -> bool {
    forall|i: int| 0 <= i < s.len() ==> #[trigger] s[i] != c
}

/// `s` is one line: a line feed ends it, and no other is in it.
pub open spec fn is_line(s: Seq<char>) -> bool {
    s.len() > 0 && s.last() == '\n' && lacks(s.drop_last(), '\n')
}

/// What is nowhere in two texts is nowhere in the two together.
proof fn lemma_lacks_both(a: Seq<char>, b: Seq<char>, c: char)
    requires
        lacks(a, c),
        lacks(b, c),
    ensures
        lacks(a + b, c),
{
}

/// Something on one line and a line feed are a line.
proof fn lemma_ends_line(s: Seq<char>)
    requires
        lacks(s, '\n'),
    ensures
        is_line(s + "\n"@),
{
    reveal_strlit("\n");
    assert((s + "\n"@).drop_last() =~= s);
}

/// Numbers stand on one line.
proof fn lemma_decimal_is_plain(n: nat)
    ensures
        lacks(decimal(n), '\n'),
    decreases n,
{
    if n >= 10 {
        lemma_decimal_is_plain(n / 10);
    }
}

/// Numbers with a sign stand on one line.
proof fn lemma_signed_decimal_is_plain(n: int)
    ensures
        lacks(signed_decimal(n), '\n'),
{
    if n < 0 {
        lemma_decimal_is_plain((-n) as nat);
    } else {
        lemma_decimal_is_plain(n as nat);
    }
}

/// The words of a heading stand on one line.
proof fn lemma_family_words_are_plain(f: int)
    ensures
        lacks(family_name(f), '\n'),
        lacks(family_help(f), '\n'),
        lacks(family_kind(f), '\n'),
{
    reveal_strlit("neb_zstd_endpoints");
    reveal_strlit("neb_zstd_contexts");
    reveal_strlit("neb_zstd_connections_accepted_total");
    reveal_strlit("neb_zstd_connections_dropped_total");
    reveal_strlit("neb_zstd_contexts_evicted_total");
    reveal_strlit("neb_zstd_requests_total");
    reveal_strlit("neb_zstd_request_bytes_total");
    reveal_strlit("neb_zstd_request_duration_seconds");
    reveal_strlit("Live UCX endpoints (client slots).");
    reveal_strlit("Live per-connection zstd contexts.");
    reveal_strlit("Endpoints accepted and announced.");
    reveal_strlit("Endpoints dropped, by reason.");
    reveal_strlit("Connection contexts evicted, by reason.");
    reveal_strlit("Requests answered, by op and status.");
    reveal_strlit("Payload bytes processed. Compression ratio = out/in of op=\"compress\".");
    reveal_strlit("Time spent on the actual zstd work, by op.");
    reveal_strlit("gauge");
    reveal_strlit("counter");
    reveal_strlit("histogram");
}

/// The names of series hold neither line feeds nor braces.
proof fn lemma_series_name_is_plain(series: Series)
    ensures
        lacks(series.name(), '\n'),
        lacks(series.name(), '{'),
{
    reveal_strlit("neb_zstd_endpoints");
    reveal_strlit("neb_zstd_contexts");
    reveal_strlit("neb_zstd_connections_accepted_total");
    reveal_strlit("neb_zstd_connections_dropped_total");
    reveal_strlit("neb_zstd_contexts_evicted_total");
    reveal_strlit("neb_zstd_requests_total");
    reveal_strlit("neb_zstd_request_bytes_total");
    reveal_strlit("neb_zstd_request_duration_seconds_bucket");
    reveal_strlit("neb_zstd_request_duration_seconds_sum");
    reveal_strlit("neb_zstd_request_duration_seconds_count");
}

/// The values of labels hold neither line feeds nor quotes.
proof fn lemma_label_values_are_plain(i: int)
    ensures
        lacks(op_name(i), '\n') && lacks(op_name(i), '"'),
        lacks(status_name(i), '\n') && lacks(status_name(i), '"'),
        lacks(drop_reason_name(i), '\n') && lacks(drop_reason_name(i), '"'),
        lacks(evict_reason_name(i), '\n') && lacks(evict_reason_name(i), '"'),
        lacks(le_name(i), '\n') && lacks(le_name(i), '"'),
{
    reveal_strlit("compress");
    reveal_strlit("decompress");
    reveal_strlit("oneshot");
    reveal_strlit("reset");
    reveal_strlit("invalid");
    reveal_strlit("ok");
    reveal_strlit("bad_request");
    reveal_strlit("zstd_error");
    reveal_strlit("too_large");
    reveal_strlit("transport");
    reveal_strlit("hard_cap");
    reveal_strlit("wrap");
    reveal_strlit("hello");
    reveal_strlit("gc");
    reveal_strlit("endpoint");
    reveal_strlit("0.00005");
    reveal_strlit("0.0001");
    reveal_strlit("0.00025");
    reveal_strlit("0.0005");
    reveal_strlit("0.001");
    reveal_strlit("0.0025");
    reveal_strlit("0.005");
    reveal_strlit("0.01");
    reveal_strlit("0.025");
    reveal_strlit("0.05");
    reveal_strlit("+Inf");
}

/// One label stands on one line.
proof fn lemma_label_is_plain(key: Seq<char>, value: Seq<char>)
    requires
        lacks(key, '\n'),
        lacks(value, '\n'),
    ensures
        lacks(label(key, value), '\n'),
{
    reveal_strlit("{");
    reveal_strlit("=\"");
    reveal_strlit("\"}");
    lemma_lacks_both("{"@, key, '\n');
    lemma_lacks_both("{"@ + key, "=\""@, '\n');
    lemma_lacks_both("{"@ + key + "=\""@, value, '\n');
    lemma_lacks_both("{"@ + key + "=\""@ + value, "\"}"@, '\n');
}

/// Two labels stand on one line.
proof fn lemma_labels_are_plain(
    key: Seq<char>,
    value: Seq<char>,
    other_key: Seq<char>,
    other_value: Seq<char>,
)
    requires
        lacks(key, '\n'),
        lacks(value, '\n'),
        lacks(other_key, '\n'),
        lacks(other_value, '\n'),
    ensures
        lacks(labels(key, value, other_key, other_value), '\n'),
{
    reveal_strlit("{");
    reveal_strlit("=\"");
    reveal_strlit("\",");
    reveal_strlit("\"}");
    let first = "{"@ + key + "=\""@ + value;
    lemma_lacks_both("{"@, key, '\n');
    lemma_lacks_both("{"@ + key, "=\""@, '\n');
    lemma_lacks_both("{"@ + key + "=\""@, value, '\n');
    lemma_lacks_both(first, "\","@, '\n');
    lemma_lacks_both(first + "\","@, other_key, '\n');
    lemma_lacks_both(first + "\","@ + other_key, "=\""@, '\n');
    lemma_lacks_both(first + "\","@ + other_key + "=\""@, other_value, '\n');
    lemma_lacks_both(first + "\","@ + other_key + "=\""@ + other_value, "\"}"@, '\n');
}

/// What a series is called stands on one line.
proof fn lemma_series_text_is_plain(series: Series)
    ensures
        lacks(series.text(), '\n'),
{
    lemma_series_name_is_plain(series);
    reveal_strlit("reason");
    reveal_strlit("op");
    reveal_strlit("status");
    reveal_strlit("direction");
    reveal_strlit("le");
    reveal_strlit("in");
    reveal_strlit("out");
    match series {
        Series::Endpoints => {},
        Series::Contexts => {},
        Series::Accepted => {},
        Series::Dropped { reason } => {
            lemma_label_values_are_plain(reason);
            lemma_label_is_plain("reason"@, drop_reason_name(reason));
        },
        Series::Evicted { reason } => {
            lemma_label_values_are_plain(reason);
            lemma_label_is_plain("reason"@, evict_reason_name(reason));
        },
        Series::Outcome { op, status } => {
            lemma_label_values_are_plain(op);
            lemma_label_values_are_plain(status);
            lemma_labels_are_plain("op"@, op_name(op), "status"@, status_name(status));
        },
        Series::BytesIn { op } => {
            lemma_label_values_are_plain(op);
            lemma_labels_are_plain("op"@, op_name(op), "direction"@, "in"@);
        },
        Series::BytesOut { op } => {
            lemma_label_values_are_plain(op);
            lemma_labels_are_plain("op"@, op_name(op), "direction"@, "out"@);
        },
        Series::Bucket { op, bound } => {
            lemma_label_values_are_plain(op);
            lemma_label_values_are_plain(bound);
            lemma_labels_are_plain("op"@, op_name(op), "le"@, le_name(bound));
        },
        Series::Sum { op } => {
            lemma_label_values_are_plain(op);
            lemma_label_is_plain("op"@, op_name(op));
        },
        Series::Count { op } => {
            lemma_label_values_are_plain(op);
            lemma_label_is_plain("op"@, op_name(op));
        },
    }
    lemma_lacks_both(series.name(), series.labels(), '\n');
}

/// Values stand on one line, if the sums do.
proof fn lemma_value_is_plain(series: Series, c: Counts, sums: Seq<String>)
    requires
        series.is_known(),
        forall|op: int| 0 <= op < OP_COUNT ==> lacks(#[trigger] sums[op]@, '\n'),
    ensures
        lacks(series.value(c, sums), '\n'),
{
    match series {
        Series::Endpoints => lemma_signed_decimal_is_plain(c.endpoints as int),
        Series::Contexts => lemma_signed_decimal_is_plain(c.contexts as int),
        Series::Accepted => lemma_decimal_is_plain(c.accepted as nat),
        Series::Dropped { reason } => lemma_decimal_is_plain(c.dropped[reason] as nat),
        Series::Evicted { reason } => lemma_decimal_is_plain(c.evicted[reason] as nat),
        Series::Outcome { op, status } => lemma_decimal_is_plain(
            c.ops[op].outcomes[status] as nat,
        ),
        Series::BytesIn { op } => lemma_decimal_is_plain(c.ops[op].bytes_in as nat),
        Series::BytesOut { op } => lemma_decimal_is_plain(c.ops[op].bytes_out as nat),
        Series::Bucket { op, bound } => {
            lemma_decimal_is_plain(c.ops[op].buckets[bound] as nat);
            lemma_decimal_is_plain(c.ops[op].count as nat);
        },
        Series::Sum { op } => {
            assert(lacks(sums[op]@, '\n'));
        },
        Series::Count { op } => lemma_decimal_is_plain(c.ops[op].count as nat),
    }
}

/// Every line of the text is one line, as long as the sums hold no line feed.
pub proof fn law_every_line_is_one_line(r: Row, c: Counts, sums: Seq<String>)
    requires
        r.is_known(),
        forall|op: int| 0 <= op < OP_COUNT ==> lacks(#[trigger] sums[op]@, '\n'),
    ensures
        is_line(r.text(c, sums)),
{
    reveal_strlit("# HELP ");
    reveal_strlit("# TYPE ");
    reveal_strlit(" ");
    match r {
        Row::Help { family } => {
            lemma_family_words_are_plain(family);
            let name = "# HELP "@ + family_name(family);
            lemma_lacks_both("# HELP "@, family_name(family), '\n');
            lemma_lacks_both(name, " "@, '\n');
            lemma_lacks_both(name + " "@, family_help(family), '\n');
            lemma_ends_line(name + " "@ + family_help(family));
        },
        Row::Type { family } => {
            lemma_family_words_are_plain(family);
            let name = "# TYPE "@ + family_name(family);
            lemma_lacks_both("# TYPE "@, family_name(family), '\n');
            lemma_lacks_both(name, " "@, '\n');
            lemma_lacks_both(name + " "@, family_kind(family), '\n');
            lemma_ends_line(name + " "@ + family_kind(family));
        },
        Row::Sample { series } => {
            lemma_series_text_is_plain(series);
            lemma_value_is_plain(series, c, sums);
            lemma_lacks_both(series.text(), " "@, '\n');
            lemma_lacks_both(series.text() + " "@, series.value(c, sums), '\n');
            lemma_ends_line(series.text() + " "@ + series.value(c, sums));
        },
    }
}

/// A text without `c` and what follows it, which is empty or starts with `c`, can
/// be told apart.
proof fn lemma_parts_at(a: Seq<char>, x: Seq<char>, b: Seq<char>, y: Seq<char>, c: char)
    requires
        a + x == b + y,
        lacks(a, c),
        lacks(b, c),
        x.len() == 0 || x[0] == c,
        y.len() == 0 || y[0] == c,
    ensures
        a == b,
        x == y,
{
    let whole = a + x;
    if a.len() < b.len() {
        assert(whole[a.len() as int] == b[a.len() as int]);
        assert(x.len() > 0);
        assert(whole[a.len() as int] == x[0]);
    }
    if b.len() < a.len() {
        assert((b + y)[b.len() as int] == a[b.len() as int]);
        assert(y.len() > 0);
        assert((b + y)[b.len() as int] == y[0]);
    }
    assert(a =~= whole.take(a.len() as int));
    assert(b =~= whole.take(b.len() as int));
    assert(x =~= whole.skip(a.len() as int));
    assert(y =~= whole.skip(b.len() as int));
}

/// What follows the same start can be told from the whole.
proof fn lemma_same_start(start: Seq<char>, x: Seq<char>, y: Seq<char>)
    requires
        start + x == start + y,
    ensures
        x == y,
{
    assert(x =~= (start + x).skip(start.len() as int));
    assert(y =~= (start + y).skip(start.len() as int));
}

/// A label can be told from its text.
proof fn lemma_label_tells(key: Seq<char>, value: Seq<char>, other: Seq<char>)
    requires
        label(key, value) == label(key, other),
        lacks(value, '"'),
        lacks(other, '"'),
    ensures
        value == other,
{
    reveal_strlit("\"}");
    let start = "{"@ + key + "=\""@;
    assert(label(key, value) =~= start + (value + "\"}"@));
    assert(label(key, other) =~= start + (other + "\"}"@));
    lemma_same_start(start, value + "\"}"@, other + "\"}"@);
    lemma_parts_at(value, "\"}"@, other, "\"}"@, '"');
}

/// Two labels can be told from their text.
proof fn lemma_labels_tell(
    key: Seq<char>,
    a: Seq<char>,
    b: Seq<char>,
    other_key: Seq<char>,
    x: Seq<char>,
    y: Seq<char>,
)
    requires
        labels(key, a, other_key, x) == labels(key, b, other_key, y),
        lacks(a, '"'),
        lacks(b, '"'),
        lacks(x, '"'),
        lacks(y, '"'),
    ensures
        a == b,
        x == y,
{
    reveal_strlit("\"}");
    reveal_strlit("\",");
    let start = "{"@ + key + "=\""@;
    let between = "\","@ + other_key + "=\""@;
    assert(labels(key, a, other_key, x) =~= start + (a + (between + (x + "\"}"@))));
    assert(labels(key, b, other_key, y) =~= start + (b + (between + (y + "\"}"@))));
    lemma_same_start(start, a + (between + (x + "\"}"@)), b + (between + (y + "\"}"@)));
    lemma_parts_at(a, between + (x + "\"}"@), b, between + (y + "\"}"@), '"');
    lemma_same_start(between, x + "\"}"@, y + "\"}"@);
    lemma_parts_at(x, "\"}"@, y, "\"}"@, '"');
}

/// Labels follow a brace.
proof fn lemma_labels_start(series: Series)
    ensures
        series.labels().len() == 0 || series.labels()[0] == '{',
{
    reveal_strlit("{");
}

/// Operations can be told apart by their labels.
proof fn lemma_ops_are_distinct(i: int, j: int)
    requires
        0 <= i < OP_COUNT,
        0 <= j < OP_COUNT,
        op_name(i) == op_name(j),
    ensures
        i == j,
{
    reveal_strlit("compress");
    reveal_strlit("decompress");
    reveal_strlit("oneshot");
    reveal_strlit("reset");
    reveal_strlit("invalid");
    assert("compress"@.len() == 8);
    assert("decompress"@.len() == 10);
    assert("oneshot"@.len() == 7);
    assert("reset"@.len() == 5);
    assert("invalid"@.len() == 7);
    assert("oneshot"@[0] == 'o');
    assert("invalid"@[0] == 'i');
}

/// Outcomes can be told apart by their labels.
proof fn lemma_statuses_are_distinct(i: int, j: int)
    requires
        0 <= i < STATUS_COUNT,
        0 <= j < STATUS_COUNT,
        status_name(i) == status_name(j),
    ensures
        i == j,
{
    reveal_strlit("ok");
    reveal_strlit("bad_request");
    reveal_strlit("zstd_error");
    reveal_strlit("too_large");
    assert("ok"@.len() == 2);
    assert("bad_request"@.len() == 11);
    assert("zstd_error"@.len() == 10);
    assert("too_large"@.len() == 9);
}

/// Reasons to drop an endpoint can be told apart by their labels.
proof fn lemma_drop_reasons_are_distinct(i: int, j: int)
    requires
        0 <= i < DROP_REASON_COUNT,
        0 <= j < DROP_REASON_COUNT,
        drop_reason_name(i) == drop_reason_name(j),
    ensures
        i == j,
{
    reveal_strlit("transport");
    reveal_strlit("hard_cap");
    reveal_strlit("wrap");
    reveal_strlit("hello");
    assert("transport"@.len() == 9);
    assert("hard_cap"@.len() == 8);
    assert("wrap"@.len() == 4);
    assert("hello"@.len() == 5);
}

/// Reasons to evict a context can be told apart by their labels.
proof fn lemma_evict_reasons_are_distinct(i: int, j: int)
    requires
        0 <= i < EVICT_REASON_COUNT,
        0 <= j < EVICT_REASON_COUNT,
        evict_reason_name(i) == evict_reason_name(j),
    ensures
        i == j,
{
    reveal_strlit("gc");
    reveal_strlit("endpoint");
    assert("gc"@.len() == 2);
    assert("endpoint"@.len() == 8);
}

/// Bounds can be told apart by their labels.
proof fn lemma_bounds_are_distinct(i: int, j: int)
    requires
        0 <= i <= BUCKET_COUNT,
        0 <= j <= BUCKET_COUNT,
        le_name(i) == le_name(j),
    ensures
        i == j,
{
    reveal_strlit("0.00005");
    reveal_strlit("0.0001");
    reveal_strlit("0.00025");
    reveal_strlit("0.0005");
    reveal_strlit("0.001");
    reveal_strlit("0.0025");
    reveal_strlit("0.005");
    reveal_strlit("0.01");
    reveal_strlit("0.025");
    reveal_strlit("0.05");
    reveal_strlit("+Inf");
    assert("0.00005"@.len() == 7);
    assert("0.0001"@.len() == 6);
    assert("0.00025"@.len() == 7);
    assert("0.0005"@.len() == 6);
    assert("0.001"@.len() == 5);
    assert("0.0025"@.len() == 6);
    assert("0.005"@.len() == 5);
    assert("0.01"@.len() == 4);
    assert("0.025"@.len() == 5);
    assert("0.05"@.len() == 4);
    assert("+Inf"@.len() == 4);
    assert("0.00005"@[5] == '0');
    assert("0.0001"@[4] == '0');
    assert("0.0001"@[5] == '1');
    assert("0.00025"@[5] == '2');
    assert("0.0005"@[4] == '0');
    assert("0.0005"@[5] == '5');
    assert("0.001"@[3] == '0');
    assert("0.001"@[4] == '1');
    assert("0.0025"@[4] == '2');
    assert("0.005"@[3] == '0');
    assert("0.005"@[4] == '5');
    assert("0.01"@[0] == '0');
    assert("0.01"@[3] == '1');
    assert("0.025"@[3] == '2');
    assert("0.05"@[0] == '0');
    assert("0.05"@[3] == '5');
    assert("+Inf"@[0] == '+');
}

/// Two series with the same name are of the same kind, but for the two directions
/// of bytes.
proof fn lemma_names_tell(a: Series, b: Series)
    requires
        a.name() == b.name(),
    ensures
        a is Endpoints == b is Endpoints,
        a is Contexts == b is Contexts,
        a is Accepted == b is Accepted,
        a is Dropped == b is Dropped,
        a is Evicted == b is Evicted,
        a is Outcome == b is Outcome,
        (a is BytesIn || a is BytesOut) == (b is BytesIn || b is BytesOut),
        a is Bucket == b is Bucket,
        a is Sum == b is Sum,
        a is Count == b is Count,
{
    reveal_strlit("neb_zstd_endpoints");
    reveal_strlit("neb_zstd_contexts");
    reveal_strlit("neb_zstd_connections_accepted_total");
    reveal_strlit("neb_zstd_connections_dropped_total");
    reveal_strlit("neb_zstd_contexts_evicted_total");
    reveal_strlit("neb_zstd_requests_total");
    reveal_strlit("neb_zstd_request_bytes_total");
    reveal_strlit("neb_zstd_request_duration_seconds_bucket");
    reveal_strlit("neb_zstd_request_duration_seconds_sum");
    reveal_strlit("neb_zstd_request_duration_seconds_count");
    assert("neb_zstd_endpoints"@.len() == 18);
    assert("neb_zstd_contexts"@.len() == 17);
    assert("neb_zstd_connections_accepted_total"@.len() == 35);
    assert("neb_zstd_connections_dropped_total"@.len() == 34);
    assert("neb_zstd_contexts_evicted_total"@.len() == 31);
    assert("neb_zstd_requests_total"@.len() == 23);
    assert("neb_zstd_request_bytes_total"@.len() == 28);
    assert("neb_zstd_request_duration_seconds_bucket"@.len() == 40);
    assert("neb_zstd_request_duration_seconds_sum"@.len() == 37);
    assert("neb_zstd_request_duration_seconds_count"@.len() == 39);
}

/// No two series are called the same: each combination of a name and label values
/// stands for one series.
pub proof fn law_series_are_told_apart(a: Series, b: Series)
    requires
        a.is_known(),
        b.is_known(),
        a.text() == b.text(),
    ensures
        a == b,
{
    lemma_series_name_is_plain(a);
    lemma_series_name_is_plain(b);
    lemma_labels_start(a);
    lemma_labels_start(b);
    lemma_parts_at(a.name(), a.labels(), b.name(), b.labels(), '{');
    lemma_names_tell(a, b);
    reveal_strlit("in");
    reveal_strlit("out");
    match (a, b) {
        (Series::Dropped { reason: i }, Series::Dropped { reason: j }) => {
            lemma_label_values_are_plain(i);
            lemma_label_values_are_plain(j);
            lemma_label_tells("reason"@, drop_reason_name(i), drop_reason_name(j));
            lemma_drop_reasons_are_distinct(i, j);
        },
        (Series::Evicted { reason: i }, Series::Evicted { reason: j }) => {
            lemma_label_values_are_plain(i);
            lemma_label_values_are_plain(j);
            lemma_label_tells("reason"@, evict_reason_name(i), evict_reason_name(j));
            lemma_evict_reasons_are_distinct(i, j);
        },
        (Series::Outcome { op: i, status: k }, Series::Outcome { op: j, status: l }) => {
            lemma_label_values_are_plain(i);
            lemma_label_values_are_plain(j);
            lemma_label_values_are_plain(k);
            lemma_label_values_are_plain(l);
            lemma_labels_tell(
                "op"@,
                op_name(i),
                op_name(j),
                "status"@,
                status_name(k),
                status_name(l),
            );
            lemma_ops_are_distinct(i, j);
            lemma_statuses_are_distinct(k, l);
        },
        (Series::BytesIn { op: i }, Series::BytesIn { op: j }) => {
            lemma_label_values_are_plain(i);
            lemma_label_values_are_plain(j);
            lemma_labels_tell("op"@, op_name(i), op_name(j), "direction"@, "in"@, "in"@);
            lemma_ops_are_distinct(i, j);
        },
        (Series::BytesIn { op: i }, Series::BytesOut { op: j }) => {
            lemma_label_values_are_plain(i);
            lemma_label_values_are_plain(j);
            lemma_labels_tell("op"@, op_name(i), op_name(j), "direction"@, "in"@, "out"@);
        },
        (Series::BytesOut { op: i }, Series::BytesIn { op: j }) => {
            lemma_label_values_are_plain(i);
            lemma_label_values_are_plain(j);
            lemma_labels_tell("op"@, op_name(i), op_name(j), "direction"@, "out"@, "in"@);
        },
        (Series::BytesOut { op: i }, Series::BytesOut { op: j }) => {
            lemma_label_values_are_plain(i);
            lemma_label_values_are_plain(j);
            lemma_labels_tell("op"@, op_name(i), op_name(j), "direction"@, "out"@, "out"@);
            lemma_ops_are_distinct(i, j);
        },
        (Series::Bucket { op: i, bound: k }, Series::Bucket { op: j, bound: l }) => {
            lemma_label_values_are_plain(i);
            lemma_label_values_are_plain(j);
            lemma_label_values_are_plain(k);
            lemma_label_values_are_plain(l);
            lemma_labels_tell("op"@, op_name(i), op_name(j), "le"@, le_name(k), le_name(l));
            lemma_ops_are_distinct(i, j);
            lemma_bounds_are_distinct(k, l);
        },
        (Series::Sum { op: i }, Series::Sum { op: j }) => {
            lemma_label_values_are_plain(i);
            lemma_label_values_are_plain(j);
            lemma_label_tells("op"@, op_name(i), op_name(j));
            lemma_ops_are_distinct(i, j);
        },
        (Series::Count { op: i }, Series::Count { op: j }) => {
            lemma_label_values_are_plain(i);
            lemma_label_values_are_plain(j);
            lemma_label_tells("op"@, op_name(i), op_name(j));
            lemma_ops_are_distinct(i, j);
        },
        _ => {},
    }
}

/// No two families have the same name.
pub proof fn law_families_are_told_apart(f: int, g: int)
    requires
        0 <= f < family_count(),
        0 <= g < family_count(),
        family_name(f) == family_name(g),
    ensures
        f == g,
{
    reveal_strlit("neb_zstd_endpoints");
    reveal_strlit("neb_zstd_contexts");
    reveal_strlit("neb_zstd_connections_accepted_total");
    reveal_strlit("neb_zstd_connections_dropped_total");
    reveal_strlit("neb_zstd_contexts_evicted_total");
    reveal_strlit("neb_zstd_requests_total");
    reveal_strlit("neb_zstd_request_bytes_total");
    reveal_strlit("neb_zstd_request_duration_seconds");
    assert("neb_zstd_endpoints"@.len() == 18);
    assert("neb_zstd_contexts"@.len() == 17);
    assert("neb_zstd_connections_accepted_total"@.len() == 35);
    assert("neb_zstd_connections_dropped_total"@.len() == 34);
    assert("neb_zstd_contexts_evicted_total"@.len() == 31);
    assert("neb_zstd_requests_total"@.len() == 23);
    assert("neb_zstd_request_bytes_total"@.len() == 28);
    assert("neb_zstd_request_duration_seconds"@.len() == 33);
}

/// Samples tell the counts: each count can be read back from its sample, however
/// large it is, and the sum of durations is given as it is handed in.
pub proof fn law_samples_tell_the_counts(
    c: Counts,
    sums: Seq<String>,
    op: int,
    reason: int,
    status: int,
    bound: int,
)
    requires
        0 <= bound < 10,
    ensures
        ({
            let (least, most) = (i64::MIN as int, i64::MAX as int);
            let top = u64::MAX as int;
            let counts = c.ops[op];
            &&& spelled_int(Series::Endpoints.value(c, sums), least, most) == Some(
                c.endpoints as int,
            )
            &&& spelled_int(Series::Contexts.value(c, sums), least, most) == Some(c.contexts as int)
            &&& spelled_int(Series::Accepted.value(c, sums), 0, top) == Some(c.accepted as int)
            &&& spelled_int(Series::Dropped { reason }.value(c, sums), 0, top) == Some(
                c.dropped[reason] as int,
            )
            &&& spelled_int(Series::Evicted { reason }.value(c, sums), 0, top) == Some(
                c.evicted[reason] as int,
            )
            &&& spelled_int(Series::Outcome { op, status }.value(c, sums), 0, top) == Some(
                counts.outcomes[status] as int,
            )
            &&& spelled_int(Series::BytesIn { op }.value(c, sums), 0, top) == Some(
                counts.bytes_in as int,
            )
            &&& spelled_int(Series::BytesOut { op }.value(c, sums), 0, top) == Some(
                counts.bytes_out as int,
            )
            &&& spelled_int(Series::Bucket { op, bound }.value(c, sums), 0, top) == Some(
                counts.buckets[bound] as int,
            )
            &&& spelled_int(Series::Bucket { op, bound: 10 }.value(c, sums), 0, top) == Some(
                counts.count as int,
            )
            &&& spelled_int(Series::Count { op }.value(c, sums), 0, top) == Some(
                counts.count as int,
            )
            &&& Series::Sum { op }.value(c, sums) == sums[op]@
        }),
{
    let top = u64::MAX as int;
    let counts = c.ops[op];
    law_decimal_round_trip(c.endpoints as int, i64::MIN as int, i64::MAX as int);
    law_decimal_round_trip(c.contexts as int, i64::MIN as int, i64::MAX as int);
    law_decimal_round_trip(c.accepted as int, 0, top);
    law_decimal_round_trip(c.dropped[reason] as int, 0, top);
    law_decimal_round_trip(c.evicted[reason] as int, 0, top);
    law_decimal_round_trip(counts.outcomes[status] as int, 0, top);
    law_decimal_round_trip(counts.bytes_in as int, 0, top);
    law_decimal_round_trip(counts.bytes_out as int, 0, top);
    law_decimal_round_trip(counts.buckets[bound] as int, 0, top);
    law_decimal_round_trip(counts.count as int, 0, top);
}

/// A line that carries a sample begins with what it is a sample of; what follows the
/// blank behind that, up to the end of the line, is the sample's value.
pub proof fn law_lines_carry_their_samples(series: Series, c: Counts, sums: Seq<String>)
    ensures
        ({
            let line = Row::Sample { series }.text(c, sums);
            let n = (series.name().len() + series.labels().len()) as int;
            &&& line.len() > n + 1
            &&& series.name().is_prefix_of(line)
            &&& line.subrange(series.name().len() as int, n) == series.labels()
            &&& line[n] == ' '
            &&& line.last() == '\n'
            &&& line.subrange(n + 1, line.len() - 1) == series.value(c, sums)
        }),
{
    reveal_strlit(" ");
    reveal_strlit("\n");
    let line = Row::Sample { series }.text(c, sums);
    let n = (series.name().len() + series.labels().len()) as int;
    assert(line.take(series.name().len() as int) =~= series.name());
    assert(line.subrange(series.name().len() as int, n) =~= series.labels());
    assert(line.subrange(n + 1, line.len() - 1) =~= series.value(c, sums));
}

} // verus!
