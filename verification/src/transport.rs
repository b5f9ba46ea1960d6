//! What the transport layer decides, apart from its calls into UCX.
//!
//! UCX answers a nonblocking operation with a status pointer: null if it is done
//! already, a small negative number if it failed, and else a request that
//! completes later. A blocking operation pumps the network until its request has
//! completed, and cancels it once its time is up.

use vstd::prelude::*;

use crate::text::{
    decimal, law_decimal_round_trip, push_decimal, push_signed_decimal, signed_decimal, spelled_int,
};

verus! {

/// `UCS_OK`.
pub const UCS_OK: i32 = 0;

/// `UCS_INPROGRESS`.
pub const UCS_INPROGRESS: i32 = 1;

/// `UCS_ERR_LAST`, the lowest error status.
pub const UCS_ERR_LAST: i32 = -100;

/// A failed transport operation.
#[derive(Debug)]
pub struct Error {
    /// The UCX status, if the failure has one.
    pub status: Option<i32>,
    pub message: String,
}

impl Error {
    /// The error in words, with its status.
    pub open spec fn text(&self) -> Seq<char> {
        match self.status {
            Some(status) => self.message@ + " (ucx status "@ + signed_decimal(status as int)
                + ")"@,
            None => self.message@,
        }
    }

    /// The error in words, with its status.
    pub fn describe(&self) -> (text: String)
        ensures
            text@ == self.text(),
    {
        let mut text: String = self.message.as_str().to_owned();
        if let Some(status) = self.status {
            text.append(" (ucx status ");
            push_signed_decimal(&mut text, status as i64);
            text.append(")");
        }
        text
    }
}

/// The error of the UCX call `op` that ended with `status`; `text` is what UCX
/// calls that status.
pub fn status_error(op: &str, status: i32, text: &str) -> (e: Error)
    ensures
        e.status == Some(status),
        e.message@ == op@ + " failed: "@ + text@,
{
    let mut message: String = op.to_owned();
    message.append(" failed: ");
    message.append(text);
    Error { status: Some(status), message }
}

/// An error without a UCX status.
pub fn plain_error(message: String) -> (e: Error)
    ensures
        e.status is None,
        e.message@ == message@,
{
    Error { status: None, message }
}

/// Whether a status pointer, as a number, is that of a failure: error statuses
/// are encoded as small negative values.
pub open spec fn is_error_ptr(ptr: int) -> bool {
    UCS_ERR_LAST <= ptr < 0
}

/// Whether a status pointer, as a number, is that of a failure.
pub fn is_err_ptr(ptr: isize) -> (r: bool)
    ensures
        r == is_error_ptr(ptr as int),
{
    ptr < 0 && ptr >= UCS_ERR_LAST as isize
}

/// What became of an operation that was just posted.
#[derive(Debug, Clone, Copy, PartialEq, Eq, Structural)]
pub enum Posted {
    /// It is done.
    Done,
    /// It failed with this status.
    Failed(i32),
    /// It will complete later.
    Pending,
}

/// What the status pointer of a posted operation, as a number, means.
pub open spec fn posted(ptr: int) -> Posted {
    if ptr == 0 {
        Posted::Done
    } else if is_error_ptr(ptr) {
        Posted::Failed(ptr as i32)
    } else {
        Posted::Pending
    }
}

/// What the status pointer of a posted operation, as a number, means.
pub fn classify(ptr: isize) -> (r: Posted)
    ensures
        r == posted(ptr as int),
{
    if ptr == 0 {
        Posted::Done
    } else if is_err_ptr(ptr) {
        Posted::Failed(ptr as i32)
    } else {
        Posted::Pending
    }
}

/// What to do next while waiting for a request.
#[derive(Debug, Clone, Copy, PartialEq, Eq, Structural)]
pub enum WaitStep {
    /// The request has completed: free it and look at how.
    Finish,
    /// Time is up: cancel the request, and keep pumping until it completes.
    Cancel,
    /// Keep pumping.
    Pump,
}

/// A wait for a request. The request is never abandoned: a wait that has timed
/// out goes on until the request, now cancelled, has completed.
pub struct Wait {
    timed_out: bool,
}

impl Wait {
    /// Whether the request has been cancelled.
    pub closed spec fn cancelled(&self) -> bool {
        self.timed_out
    }

    /// A wait that has just begun.
    pub fn new() -> (r: Self)
        ensures
            !r.cancelled(),
    {
        Wait { timed_out: false }
    }

    /// Decides how to go on, given whether the request has completed and whether
    /// its time is up. A request is cancelled once at most.
    pub fn step(&mut self, done: bool, past_deadline: bool) -> (r: WaitStep)
        ensures
            r == (if done {
                WaitStep::Finish
            } else if !old(self).cancelled() && past_deadline {
                WaitStep::Cancel
            } else {
                WaitStep::Pump
            }),
            final(self).cancelled() == (old(self).cancelled() || r == WaitStep::Cancel),
    {
        if done {
            WaitStep::Finish
        } else if !self.timed_out && past_deadline {
            self.timed_out = true;
            WaitStep::Cancel
        } else {
            WaitStep::Pump
        }
    }

    /// What a completed wait for the UCX call `op` comes to: a timeout if the
    /// request was cancelled, else as its status says; `text` is what UCX calls
    /// that status.
    pub fn outcome(&self, op: &str, status: i32, text: &str) -> (r: Result<(), Error>)
        ensures
            r is Ok <==> !self.cancelled() && status == UCS_OK,
            r matches Err(e) ==> if self.cancelled() {
                e.status is None && e.message@ == op@ + " timed out"@
            } else {
                e.status == Some(status) && e.message@ == op@ + " failed: "@ + text@
            },
    {
        if self.timed_out {
            let mut message: String = op.to_owned();
            message.append(" timed out");
            return Err(plain_error(message));
        }
        if status != UCS_OK {
            return Err(status_error(op, status, text));
        }
        Ok(())
    }
}

/// The complaint about a message of `len` bytes that `room` bytes cannot hold.
pub open spec fn oversized_text(len: nat, room: nat) -> Seq<char> {
    "received message ("@ + decimal(len) + " bytes) larger than buffer ("@ + decimal(room)
        + " bytes)"@
}

/// What a completed receive into `room` bytes comes to: the sender's tag and the
/// length of the message, unless it did not fit.
pub fn received(sender_tag: u64, len: usize, room: usize) -> (r: Result<(u64, usize), Error>)
    ensures
        r is Ok <==> len <= room,
        r matches Ok((tag, n)) ==> tag == sender_tag && n == len,
        r matches Err(e) ==> e.status is None && e.message@ == oversized_text(
            len as nat,
            room as nat,
        ),
{
    if len > room {
        let mut message: String = "received message (".to_owned();
        push_decimal(&mut message, len as u64);
        message.append(" bytes) larger than buffer (");
        push_decimal(&mut message, room as u64);
        message.append(" bytes)");
        return Err(plain_error(message));
    }
    Ok((sender_tag, len))
}

/// Whether to stop waiting for an endpoint to close, given the status of its
/// close request and whether its time is up.
pub fn close_is_over(status: i32, past_deadline: bool) -> (r: bool)
    ensures
        r == (status != UCS_INPROGRESS || past_deadline),
{
    status != UCS_INPROGRESS || past_deadline
}

/// Status pointers are told apart: null is done, -100 up to -1 is that failure, and
/// everything else is a request that completes later, be it a very large address.
pub proof fn law_status_pointers_are_told_apart(ptr: isize)
    ensures
        posted(ptr as int) is Done <==> ptr == 0,
        posted(ptr as int) is Failed <==> -100 <= ptr <= -1,
        posted(ptr as int) matches Posted::Failed(status) ==> status == ptr,
{
}

/// Errors tell their status, which can be read back from their text.
pub proof fn law_errors_tell_their_status(e: Error)
    ensures
        e.status is None ==> e.text() == e.message@,
        e.status matches Some(status) ==> exists|digits: Seq<char>|
            e.text() == #[trigger] (e.message@ + " (ucx status "@ + digits + ")"@) && spelled_int(
                digits,
                i32::MIN as int,
                i32::MAX as int,
            ) == Some(status as int),
{
    if let Some(status) = e.status {
        law_decimal_round_trip(status as int, i32::MIN as int, i32::MAX as int);
        let digits = signed_decimal(status as int);
        assert(e.text() == e.message@ + " (ucx status "@ + digits + ")"@);
    }
}

/// The complaint about a message that does not fit tells its length and the room,
/// which can be read back from it.
pub proof fn law_oversized_messages_tell_their_size(len: u64, room: u64)
    ensures
        exists|a: Seq<char>, b: Seq<char>|
            oversized_text(len as nat, room as nat) == #[trigger] (("received message ("@ + a) + (
            (" bytes) larger than buffer ("@ + b) + " bytes)"@)) && spelled_int(
                a,
                0,
                u64::MAX as int,
            ) == Some(len as int) && spelled_int(b, 0, u64::MAX as int) == Some(room as int),
{
    let (a, b) = (decimal(len as nat), decimal(room as nat));
    law_decimal_round_trip(len as int, 0, u64::MAX as int);
    law_decimal_round_trip(room as int, 0, u64::MAX as int);
    assert(oversized_text(len as nat, room as nat) =~= ("received message ("@ + a) + ((
    " bytes) larger than buffer ("@ + b) + " bytes)"@));
}

/// A received message is handed over as it came, exactly if it fits.
pub proof fn law_messages_that_fit_are_received(
    sender_tag: u64,
    len: usize,
    room: usize,
    r: Result<(u64, usize), Error>,
)
    requires
        call_ensures(received, (sender_tag, len, room), r),
    ensures
        r is Ok <==> len <= room,
        r matches Ok(message) ==> message == (sender_tag, len),
        r matches Err(e) ==> e.status is None,
{
}

/// A wait ends well exactly if it was not cut short and the request ended well; a wait
/// that was cut short reads as such, whatever the request ended with, and another
/// failure tells the status.
pub proof fn law_waits_end_as_their_requests(
    wait: Wait,
    op: &str,
    status: i32,
    text: &str,
    r: Result<(), Error>,
)
    requires
        call_ensures(Wait::outcome, (&wait, op, status, text), r),
    ensures
        r is Ok <==> !wait.cancelled() && status == 0,
        wait.cancelled() ==> r is Err && r->Err_0.status is None && r->Err_0.message@ == op@
            + " timed out"@,
        !wait.cancelled() && status != 0 ==> r is Err && r->Err_0.status == Some(status),
{
}

/// A wait for an endpoint to close goes on only while it is closing and has time.
pub proof fn law_closing_takes_its_time(status: i32, past_deadline: bool, over: bool)
    requires
        call_ensures(close_is_over, (status, past_deadline), over),
    ensures
        !over <==> status == 1 && !past_deadline,
{
}

} // verus!
