use lib::mailbox::{
    check_incoming_request, check_request_size, lock_outcome, check_send_response, dword_len, poll_action,
    read_target_status, sram_words, state_after_cmd_status, status_to_field, DriverState,
    NetworkMboxError, NetworkMboxStatus, PollAction,
};

#[test]
fn status_fields() {
    assert_eq!(status_to_field(NetworkMboxStatus::CmdBusy), 0);
    assert_eq!(status_to_field(NetworkMboxStatus::CmdComplete), 2);
    let s = read_target_status(1, true);
    assert_eq!(s.status, NetworkMboxStatus::DataReady);
    assert!(s.done);
    assert_eq!(read_target_status(7, false).status, NetworkMboxStatus::CmdFailure);
}

#[test]
fn dword_lengths_and_masking() {
    assert_eq!(dword_len(0), 0);
    assert_eq!(dword_len(1), 1);
    assert_eq!(dword_len(4), 1);
    assert_eq!(dword_len(5), 2);
    assert_eq!(sram_words(&[0xAABBCCDD, 0x11223344], 6), vec![0xAABBCCDD, 0x3344]);
    assert_eq!(sram_words(&[0xAABBCCDD, 0x11223344], 8), vec![0xAABBCCDD, 0x11223344]);
    assert_eq!(sram_words(&[0xAABBCCDD], 3), vec![0xBBCCDD]);
}

#[test]
fn poll_decisions() {
    assert_eq!(poll_action(DriverState::RxWait, true, false), PollAction::HandleRequest);
    assert_eq!(poll_action(DriverState::RxWait, false, true), PollAction::Nothing);
    assert_eq!(
        poll_action(DriverState::WaitingForTargetDone, false, true),
        PollAction::HandleTargetDone
    );
    assert_eq!(poll_action(DriverState::Idle, true, true), PollAction::Nothing);
}

#[test]
fn send_checks() {
    assert_eq!(check_request_size(16, 4), Ok(()));
    assert_eq!(check_request_size(17, 4), Err(NetworkMboxError::DataTooLarge));
    assert_eq!(lock_outcome(0), Ok(DriverState::WaitingForTargetDone));
    assert_eq!(lock_outcome(1), Err(NetworkMboxError::Locked));
    assert_eq!(check_send_response(DriverState::TxInProgress, 8, 2), Ok(()));
    assert_eq!(check_send_response(DriverState::RxWait, 8, 2), Err(NetworkMboxError::Failed));
    assert_eq!(check_send_response(DriverState::TxInProgress, 9, 2), Err(NetworkMboxError::DataTooLarge));
    assert_eq!(
        state_after_cmd_status(DriverState::TxInProgress, NetworkMboxStatus::CmdComplete),
        DriverState::RxWait
    );
    assert_eq!(
        state_after_cmd_status(DriverState::TxInProgress, NetworkMboxStatus::DataReady),
        DriverState::TxInProgress
    );
    assert_eq!(check_incoming_request(8, 2, true, true), Ok(DriverState::TxInProgress));
    assert_eq!(check_incoming_request(8, 2, false, true), Err(NetworkMboxError::Failed));
    assert_eq!(check_incoming_request(12, 2, true, true), Err(NetworkMboxError::DataTooLarge));
}
