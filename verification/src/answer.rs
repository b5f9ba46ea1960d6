//! The answer to a request: what goes back on the wire, and what is counted.

use vstd::prelude::*;

use crate::metrics::{
    Metrics, OP_COUNT, STATUS_BAD_REQUEST_IDX, STATUS_COUNT, STATUS_OK_IDX, STATUS_TOO_LARGE_IDX,
    STATUS_ZSTD_ERROR_IDX,
};
use crate::protocol::{
    response_bytes, response_message, STATUS_MESSAGE_TOO_LARGE, STATUS_OK, STATUS_ZSTD_ERROR,
};

verus! {

/// What came of a request.
pub struct Dispatched {
    /// The operation, as a metrics index.
    pub op_idx: usize,
    /// The outcome, as a metrics index.
    pub status_idx: usize,
    /// Bytes of the request that count as its input.
    pub bytes_in: usize,
    /// By how much the number of live contexts changed.
    pub contexts_added: i64,
    /// Whether the time it took is worth counting.
    pub timed: bool,
    /// The status to answer with.
    pub status: i32,
    /// The payload to answer with.
    pub payload: Vec<u8>,
}

/// The metrics index of a wire status code.
pub open spec fn status_index(code: i32) -> usize {
    if code == STATUS_OK {
        STATUS_OK_IDX
    } else if code == STATUS_ZSTD_ERROR {
        STATUS_ZSTD_ERROR_IDX
    } else if code == STATUS_MESSAGE_TOO_LARGE {
        STATUS_TOO_LARGE_IDX
    } else {
        STATUS_BAD_REQUEST_IDX
    }
}

/// Map a wire status code to its metrics index.
pub fn status_idx(code: i32) -> (r: usize)
    ensures
        r == status_index(code),
        r < STATUS_COUNT,
{
    if code == STATUS_OK {
        STATUS_OK_IDX
    } else if code == STATUS_ZSTD_ERROR {
        STATUS_ZSTD_ERROR_IDX
    } else if code == STATUS_MESSAGE_TOO_LARGE {
        STATUS_TOO_LARGE_IDX
    } else {
        STATUS_BAD_REQUEST_IDX
    }
}

impl Dispatched {
    /// The indices are those of an operation and of an outcome.
    pub open spec fn wf(&self) -> bool {
        &&& self.op_idx < OP_COUNT
        &&& self.status_idx == status_index(self.status)
    }

    /// The request was answered with `status` and nothing else.
    pub open spec fn is_refusal(&self, op_idx: usize, status: i32, bytes_in: int) -> bool {
        &&& self.op_idx == op_idx
        &&& self.status == status
        &&& self.bytes_in == bytes_in
        &&& self.contexts_added == 0
        &&& self.payload@.len() == 0
    }

    /// The answer that refuses a request with `status`.
    pub fn refusal(op_idx: usize, status: i32, bytes_in: usize, timed: bool) -> (r: Self)
        requires
            op_idx < OP_COUNT,
        ensures
            r.wf(),
            r.is_refusal(op_idx, status, bytes_in as int),
            r.timed == timed,
    {
        Dispatched {
            op_idx,
            status_idx: status_idx(status),
            bytes_in,
            contexts_added: 0,
            timed,
            status,
            payload: Vec::new(),
        }
    }

    /// The answer to a request whose zstd work came to `outcome`: the bytes, or
    /// nothing if it failed.
    pub fn answer(
        op_idx: usize,
        bytes_in: usize,
        contexts_added: i64,
        outcome: Option<Vec<u8>>,
    ) -> (r: Self)
        requires
            op_idx < OP_COUNT,
        ensures
            r.wf(),
            r.timed,
            r.op_idx == op_idx,
            r.bytes_in == bytes_in,
            r.contexts_added == contexts_added,
            outcome matches Some(bytes) ==> r.status == STATUS_OK && r.payload == bytes,
            outcome is None ==> r.status == STATUS_ZSTD_ERROR && r.payload@.len() == 0,
    {
        let (status, payload) = match outcome {
            Some(bytes) => (STATUS_OK, bytes),
            None => (STATUS_ZSTD_ERROR, Vec::new()),
        };
        Dispatched {
            op_idx,
            status_idx: status_idx(status),
            bytes_in,
            contexts_added,
            timed: true,
            status,
            payload,
        }
    }

    /// The reply on the wire.
    pub fn reply(&self) -> (message: Vec<u8>)
        ensures
            message@ == response_bytes(self.status, self.payload@),
    {
        response_message(self.status, self.payload.as_slice())
    }

    /// Counts the request; `nanos` is the time that the work on it took.
    pub fn record(&self, metrics: &mut Metrics, nanos: u128)
        requires
            self.wf(),
        ensures
            final(metrics)@ == old(metrics)@.and_contexts(self.contexts_added as int).and_request(
                self.op_idx as int,
                self.status_idx as int,
                self.bytes_in as int,
                self.payload@.len() as int,
                if self.timed {
                    nanos as int
                } else {
                    0
                },
            ),
    {
        metrics.contexts_added(self.contexts_added);
        let counted: u128 = if self.timed {
            nanos
        } else {
            0
        };
        metrics.request(
            self.op_idx,
            self.status_idx,
            self.bytes_in,
            self.payload.len(),
            counted,
        );
    }
}

/// Answers are counted by their status, whatever it is: a good one as good, zstd's
/// failures and oversized requests as such, and every other as a bad request.
pub proof fn law_statuses_have_their_own_counts(code: i32)
    ensures
        status_index(code) < 4,
        status_index(code) == 0 <==> code == 0,
        status_index(code) == 2 <==> code == -2,
        status_index(code) == 3 <==> code == -4,
        status_index(code) == 1 <==> code != 0 && code != -2 && code != -4,
{
}

} // verus!
