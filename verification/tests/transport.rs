use neb_offload::transport::{
    classify, close_is_over, is_err_ptr, plain_error, received, status_error, Posted, Wait,
    WaitStep, UCS_INPROGRESS, UCS_OK,
};

#[test]
fn errors_read_as_expected() {
    let e = status_error("ucp_init", -5, "Input/output error");
    assert_eq!(e.status, Some(-5));
    assert_eq!(e.message, "ucp_init failed: Input/output error");
    assert_eq!(
        e.describe(),
        "ucp_init failed: Input/output error (ucx status -5)"
    );
    let e = plain_error("lost".to_string());
    assert_eq!(e.status, None);
    assert_eq!(e.describe(), "lost");
}

#[test]
fn status_pointers_are_told_apart() {
    assert_eq!(classify(0), Posted::Done);
    assert_eq!(classify(-1), Posted::Failed(-1));
    assert_eq!(classify(-100), Posted::Failed(-100));
    assert_eq!(classify(-101), Posted::Pending);
    assert_eq!(classify(0x7f00_1000), Posted::Pending);
    assert_eq!(classify(isize::MIN), Posted::Pending);
    assert!(is_err_ptr(-100));
    assert!(!is_err_ptr(-101));
    assert!(!is_err_ptr(0));
    assert!(!is_err_ptr(1));
}

#[test]
fn a_wait_that_completes_in_time_goes_by_its_status() {
    let mut wait = Wait::new();
    assert_eq!(wait.step(false, false), WaitStep::Pump);
    assert_eq!(wait.step(true, false), WaitStep::Finish);
    assert!(wait.outcome("op", UCS_OK, "Success").is_ok());
    let e = wait.outcome("op", -80, "Endpoint timeout").err().unwrap();
    assert_eq!(e.describe(), "op failed: Endpoint timeout (ucx status -80)");
}

#[test]
fn a_wait_that_times_out_cancels_once_and_still_finishes() {
    let mut wait = Wait::new();
    assert_eq!(wait.step(false, true), WaitStep::Cancel);
    assert_eq!(wait.step(false, true), WaitStep::Pump);
    assert_eq!(wait.step(true, true), WaitStep::Finish);
    let e = wait.outcome("ucp_tag_recv_nbx", UCS_OK, "").err().unwrap();
    assert_eq!(e.status, None);
    assert_eq!(e.message, "ucp_tag_recv_nbx timed out");
}

#[test]
fn a_completed_request_is_never_late() {
    let mut wait = Wait::new();
    assert_eq!(wait.step(true, true), WaitStep::Finish);
    assert!(wait.outcome("op", UCS_OK, "").is_ok());
}

#[test]
fn oversized_messages_are_reported() {
    assert_eq!(received(9, 16, 16).ok(), Some((9, 16)));
    let e = received(9, 17, 16).err().unwrap();
    assert_eq!(e.status, None);
    assert_eq!(
        e.message,
        "received message (17 bytes) larger than buffer (16 bytes)"
    );
}

#[test]
fn closing_is_bounded() {
    assert!(!close_is_over(UCS_INPROGRESS, false));
    assert!(close_is_over(UCS_INPROGRESS, true));
    assert!(close_is_over(UCS_OK, false));
    assert!(close_is_over(-16, false));
}
