//! Network mailbox interface types and the decisions of the mailbox driver
//! of the network coprocessor: data framing, status decoding and the
//! driver's request/response state machine.

use vstd::prelude::*;

verus! {

broadcast use {vstd::seq::group_seq_axioms, vstd::slice::group_slice_axioms};

/// Represents the status of a network mailbox command.
#[derive(Debug, Copy, Clone, PartialEq, Eq, Structural)]
pub enum NetworkMboxStatus {
    /// The command is still being processed.
    CmdBusy,
    /// Requested data is ready in the network mailbox.
    DataReady,
    /// Requested command is complete.
    CmdComplete,
    /// The requested command experienced a failure.
    CmdFailure,
}

/// Represents the target status of a network mailbox operation.
#[derive(Debug, Copy, Clone, PartialEq, Eq, Structural)]
pub struct NetworkMboxTargetStatus {
    /// The status of the target's processing.
    pub status: NetworkMboxStatus,
    /// Indicates the target user is done and the status is valid.
    pub done: bool,
}

/// Hardware status flags for the network mailbox.
#[derive(Debug, Copy, Clone, PartialEq, Eq, Structural)]
pub struct NetworkMboxHwStatus {
    /// A correctable ECC single-bit error was detected and corrected.
    pub ecc_single_error: bool,
    /// An uncorrectable ECC double-bit error was detected.
    pub ecc_double_error: bool,
}

/// Errors specific to network mailbox operations.
#[derive(Debug, Copy, Clone, PartialEq, Eq, Structural)]
pub enum NetworkMboxError {
    /// The mailbox is locked by another agent.
    Locked,
    /// The mailbox is not locked (operation requires lock).
    NotLocked,
    /// The data length exceeds the SRAM capacity.
    DataTooLarge,
    /// An invalid argument was provided.
    InvalidArgument,
    /// A hardware error occurred (e.g., ECC double-bit error).
    HardwareError,
    /// The operation failed.
    Failed,
    /// The operation timed out.
    Timeout,
}

/// Field value of a status in the target-status and command-status registers.
pub open spec fn status_field(s: NetworkMboxStatus) -> u32 {
    match s {
        NetworkMboxStatus::CmdBusy => 0,
        NetworkMboxStatus::DataReady => 1,
        NetworkMboxStatus::CmdComplete => 2,
        NetworkMboxStatus::CmdFailure => 3,
    }
}

/// Status named by a register field value; values above 3 read as failure.
pub open spec fn status_from_field(v: u32) -> NetworkMboxStatus {
    if v == 0 {
        NetworkMboxStatus::CmdBusy
    } else if v == 1 {
        NetworkMboxStatus::DataReady
    } else if v == 2 {
        NetworkMboxStatus::CmdComplete
    } else {
        NetworkMboxStatus::CmdFailure
    }
}

/// The register field value of a status.
pub fn status_to_field(status: NetworkMboxStatus) -> (v: u32)
    ensures
        v == status_field(status),
{
    match status {
        NetworkMboxStatus::CmdBusy => 0,
        NetworkMboxStatus::DataReady => 1,
        NetworkMboxStatus::CmdComplete => 2,
        NetworkMboxStatus::CmdFailure => 3,
    }
}

/// Decodes the target-status register from its status field and done bit.
pub fn read_target_status(status_bits: u32, done: bool) -> (r: NetworkMboxTargetStatus)
    ensures
        r.status == status_from_field(status_bits),
        r.done == done,
{
    let status = match status_bits {
        0 => NetworkMboxStatus::CmdBusy,
        1 => NetworkMboxStatus::DataReady,
        2 => NetworkMboxStatus::CmdComplete,
        _ => NetworkMboxStatus::CmdFailure,
    };
    NetworkMboxTargetStatus { status, done }
}

/// Encoding a status into its register field and decoding it gives it back.
pub proof fn lemma_status_field_round_trip(s: NetworkMboxStatus)
    ensures
        status_from_field(status_field(s)) == s,
{
}

/// Number of 32-bit words that hold `dlen` bytes.
pub open spec fn dword_count(dlen: int) -> int {
    (dlen + 3) / 4
}

/// Number of 32-bit words that hold `dlen` bytes.
pub fn dword_len(dlen: usize) -> (n: usize)
    ensures
        n == dword_count(dlen as int),
{
    dlen / 4 + if dlen % 4 == 0 {
        0
    } else {
        1
    }
}

/// Mask that keeps the `dlen % 4` low bytes of the last word when the data
/// length is not a multiple of four, and the whole word otherwise.
pub open spec fn last_word_mask(dlen: int) -> u32 {
    if dlen % 4 == 1 {
        0xff
    } else if dlen % 4 == 2 {
        0xffff
    } else if dlen % 4 == 3 {
        0xff_ffff
    } else {
        0xffff_ffff
    }
}

/// The words that the driver stores in SRAM for `dlen` bytes of `data`:
/// the first `dword_count(dlen)` words, the last one masked to `dlen`.
pub open spec fn sram_words_spec(data: Seq<u32>, dlen: int) -> Seq<u32> {
    let n = dword_count(dlen);
    Seq::new(
        n as nat,
        |i: int|
            if i == n - 1 && dlen % 4 != 0 {
                data[i] & last_word_mask(dlen)
            } else {
                data[i]
            },
    )
}

/// Frames `dlen` bytes of `data` into the words written to mailbox SRAM.
pub fn sram_words(data: &[u32], dlen: usize) -> (r: Vec<u32>)
    requires
        dword_count(dlen as int) <= data@.len(),
    ensures
        r@ == sram_words_spec(data@, dlen as int),
{
    let dw_len = dword_len(dlen);
    let mut out: Vec<u32> = Vec::new();
    let mut i: usize = 0;
    while i < dw_len
        invariant
            dw_len == dword_count(dlen as int),
            dw_len <= data@.len(),
            i <= dw_len,
            out@.len() == i,
            forall|k: int| 0 <= k < i ==> out@[k] == sram_words_spec(data@, dlen as int)[k],
        decreases dw_len - i,
    {
        let rem = dlen % 4;
        if i == dw_len - 1 && rem != 0 {
            let mask: u32 = if rem == 1 {
                0xff
            } else if rem == 2 {
                0xffff
            } else {
                0xff_ffff
            };
            out.push(data[i] & mask);
        } else {
            out.push(data[i]);
        }
        i = i + 1;
    }
    assert(out@ =~= sram_words_spec(data@, dlen as int));
    out
}

/// States of the mailbox driver.
#[derive(Copy, Clone, Debug, PartialEq, Eq, Structural)]
pub enum DriverState {
    /// Driver is idle, not processing any request.
    Idle,
    /// Driver is waiting for an incoming request (receiver/target mode).
    RxWait,
    /// A response is being composed/sent (receiver mode).
    TxInProgress,
    /// A request has been sent and we're waiting for the target to respond (sender mode).
    WaitingForTargetDone,
}

/// What a poll of the driver does next.
#[derive(Copy, Clone, Debug, PartialEq, Eq, Structural)]
pub enum PollAction {
    /// Nothing to do.
    Nothing,
    /// An external request is pending: hand it to the client.
    HandleRequest,
    /// The target finished: hand its response to the client.
    HandleTargetDone,
}

/// The decision of one poll: act on a set execute bit while waiting for
/// requests, on the done bit while waiting for the target.
pub fn poll_action(state: DriverState, execute_set: bool, target_done: bool) -> (a: PollAction)
    ensures
        a == (if state == DriverState::RxWait && execute_set {
            PollAction::HandleRequest
        } else if state == DriverState::WaitingForTargetDone && target_done {
            PollAction::HandleTargetDone
        } else {
            PollAction::Nothing
        }),
{
    match state {
        DriverState::RxWait => {
            if execute_set {
                PollAction::HandleRequest
            } else {
                PollAction::Nothing
            }
        },
        DriverState::WaitingForTargetDone => {
            if target_done {
                PollAction::HandleTargetDone
            } else {
                PollAction::Nothing
            }
        },
        _ => PollAction::Nothing,
    }
}

/// Checks the size of an outgoing request before anything touches the
/// mailbox: its data must fit in SRAM.
pub fn check_request_size(dlen: usize, max_dw: usize) -> (r: Result<(), NetworkMboxError>)
    ensures
        r == (if dword_count(dlen as int) > max_dw {
            Err(NetworkMboxError::DataTooLarge)
        } else {
            Ok(())
        }),
{
    if dword_len(dlen) > max_dw {
        return Err(NetworkMboxError::DataTooLarge);
    }
    Ok(())
}

/// The outcome of the lock read made for a request of the right size
/// (`lock_value` is what the read returned): a free lock (0) is taken and
/// the driver waits for the target; any other value means another agent
/// holds the mailbox.
pub fn lock_outcome(lock_value: u32) -> (r: Result<DriverState, NetworkMboxError>)
    ensures
        r == (if lock_value != 0 {
            Err(NetworkMboxError::Locked)
        } else {
            Ok(DriverState::WaitingForTargetDone)
        }),
{
    if lock_value != 0 {
        return Err(NetworkMboxError::Locked);
    }
    Ok(DriverState::WaitingForTargetDone)
}

/// Checks an outgoing response: it must fit in SRAM and a request must be
/// in progress.
pub fn check_send_response(state: DriverState, dlen: usize, max_dw: usize) -> (r: Result<(), NetworkMboxError>)
    ensures
        r == (if dword_count(dlen as int) > max_dw {
            Err(NetworkMboxError::DataTooLarge)
        } else if state != DriverState::TxInProgress {
            Err(NetworkMboxError::Failed)
        } else {
            Ok(())
        }),
{
    if dword_len(dlen) > max_dw {
        return Err(NetworkMboxError::DataTooLarge);
    }
    if state != DriverState::TxInProgress {
        return Err(NetworkMboxError::Failed);
    }
    Ok(())
}

/// The state after the command status is written: a final status ends the
/// request and the driver waits for the next one.
pub fn state_after_cmd_status(state: DriverState, status: NetworkMboxStatus) -> (s: DriverState)
    ensures
        s == (if status == NetworkMboxStatus::CmdComplete || status == NetworkMboxStatus::CmdFailure {
            DriverState::RxWait
        } else {
            state
        }),
{
    match status {
        NetworkMboxStatus::CmdComplete | NetworkMboxStatus::CmdFailure => DriverState::RxWait,
        _ => state,
    }
}

/// Checks an incoming request before it is handed to the client: it must
/// fit in SRAM, a client must be registered and the receive buffer must be
/// available. On success the driver composes a response.
pub fn check_incoming_request(dlen: usize, max_dw: usize, has_client: bool, has_buffer: bool) -> (r: Result<DriverState, NetworkMboxError>)
    ensures
        r == (if dword_count(dlen as int) > max_dw {
            Err(NetworkMboxError::DataTooLarge)
        } else if !has_client || !has_buffer {
            Err(NetworkMboxError::Failed)
        } else {
            Ok(DriverState::TxInProgress)
        }),
{
    if dword_len(dlen) > max_dw {
        return Err(NetworkMboxError::DataTooLarge);
    }
    if !has_client || !has_buffer {
        return Err(NetworkMboxError::Failed);
    }
    Ok(DriverState::TxInProgress)
}

} // verus!
