//! The decisions around the three ring system calls (setup, register,
//! enter): the arguments each call gets, how a result is read, and the
//! payload sizes the relayed backend must pass across its boundary.

use vstd::layout::size_of;
use vstd::prelude::*;

verus! {

/// Flag of the enter call: wait for completions.
pub const IORING_ENTER_GETEVENTS: u32 = 1;

/// Register opcode: fixed buffers, an array of I/O vectors.
pub const IORING_REGISTER_BUFFERS: u32 = 0;
/// Register opcode: fixed files, an array of file descriptors.
pub const IORING_REGISTER_FILES: u32 = 2;
/// Register opcode: an event file descriptor.
pub const IORING_REGISTER_EVENTFD: u32 = 4;
/// Register opcode: an update of fixed files, file descriptors.
pub const IORING_REGISTER_FILES_UPDATE: u32 = 6;

/// OS error code: resource busy.
pub const EBUSY: i32 = 16;
/// OS error code: interrupted by a signal.
pub const EINTR: i32 = 4;

/// Byte size of a file descriptor.
pub const FD_SIZE: usize = 4;

/// libc's `iovec`, one item of a buffer registration: declared so that its
/// byte size can be taken; nothing inside it is read.
#[verifier::external_type_specification]
#[verifier::external_body]
pub struct ExIovec(libc::iovec);

/// Arguments of one enter call.
#[derive(Clone, Copy, Debug, PartialEq, Eq, Structural)]
pub struct EnterArgs {
    pub to_submit: u32,
    pub min_complete: u32,
    pub flags: u32,
}

/// Submit the `pending` published records without waiting.
pub fn submit_args(pending: u32) -> (r: EnterArgs)
    ensures
        r == (EnterArgs { to_submit: pending, min_complete: 0, flags: 0 }),
{
    EnterArgs { to_submit: pending, min_complete: 0, flags: 0 }
}

/// Submit the `pending` published records and wait until at least `want`
/// completions are available.
pub fn submit_and_wait_args(pending: u32, want: u32) -> (r: EnterArgs)
    ensures
        r == (EnterArgs {
            to_submit: pending,
            min_complete: want,
            flags: if want > 0 { IORING_ENTER_GETEVENTS } else { 0 },
        }),
{
    let flags = if want > 0 { IORING_ENTER_GETEVENTS } else { 0 };
    EnterArgs { to_submit: pending, min_complete: want, flags }
}

/// The call that a background polling thread repeats forever: submit one
/// record, wait for none.
pub fn polling_args() -> (r: EnterArgs)
    ensures
        r == (EnterArgs { to_submit: 1, min_complete: 0, flags: 0 }),
{
    EnterArgs { to_submit: 1, min_complete: 0, flags: 0 }
}

/// How an enter call ended.
#[derive(Clone, Copy, Debug, PartialEq, Eq, Structural)]
pub enum EnterOutcome {
    /// The kernel accepted this many submissions.
    Submitted(usize),
    /// The ring is busy or a signal interrupted the call: try again.
    Retry,
    /// The call failed with this OS error code.
    Failed(i32),
}

/// Whether an OS error code of the enter call is transient.
pub open spec fn is_transient(errno: i32) -> bool {
    errno == EBUSY || errno == EINTR
}

/// Reads the return value of an enter call, and the OS error code that
/// came with it when it is negative.
pub fn enter_outcome(ret: i32, errno: i32) -> (r: EnterOutcome)
    ensures
        ret >= 0 ==> r == EnterOutcome::Submitted(ret as usize),
        ret < 0 && is_transient(errno) ==> r == EnterOutcome::Retry,
        ret < 0 && !is_transient(errno) ==> r == EnterOutcome::Failed(errno),
{
    if ret >= 0 {
        EnterOutcome::Submitted(ret as usize)
    } else if errno == EBUSY || errno == EINTR {
        EnterOutcome::Retry
    } else {
        EnterOutcome::Failed(errno)
    }
}

/// Byte size of one item of the argument array of a register call, as the
/// relayed backend must pass it; `None` for an opcode it cannot relay.
pub open spec fn register_item_size(opcode: u32) -> Option<nat> {
    if opcode == IORING_REGISTER_BUFFERS {
        Some(size_of::<libc::iovec>())
    } else if opcode == IORING_REGISTER_FILES || opcode == IORING_REGISTER_EVENTFD
        || opcode == IORING_REGISTER_FILES_UPDATE {
        Some(FD_SIZE as nat)
    } else {
        None
    }
}

/// Executable form of `register_item_size`. An unknown opcode is a
/// configuration error that the caller must treat as fatal.
pub fn register_arg_size(opcode: u32) -> (r: Option<usize>)
    ensures
        r.is_some() <==> register_item_size(opcode).is_some(),
        r matches Some(n) ==> register_item_size(opcode) == Some(n as nat),
{
    if opcode == IORING_REGISTER_BUFFERS {
        Some(std::mem::size_of::<libc::iovec>())
    } else if opcode == IORING_REGISTER_FILES || opcode == IORING_REGISTER_EVENTFD
        || opcode == IORING_REGISTER_FILES_UPDATE {
        Some(FD_SIZE)
    } else {
        None
    }
}

/// What a call across the relayed backend's boundary produced.
#[derive(Clone, Copy, Debug, PartialEq, Eq, Structural)]
pub enum RelayOutcome {
    /// The boundary call went through; this is the system call's own result.
    Completed(i32),
    /// The boundary call itself failed with this status; the system call's
    /// result is unknown.
    BoundaryFailed(u32),
}

/// Boundary status of a call that went through.
pub const BOUNDARY_SUCCESS: u32 = 0;

/// Tells a failure of the boundary call from the result of the operation.
pub fn relay_outcome(status: u32, ret: i32) -> (r: RelayOutcome)
    ensures
        status == BOUNDARY_SUCCESS ==> r == RelayOutcome::Completed(ret),
        status != BOUNDARY_SUCCESS ==> r == RelayOutcome::BoundaryFailed(status),
{
    if status == BOUNDARY_SUCCESS {
        RelayOutcome::Completed(ret)
    } else {
        RelayOutcome::BoundaryFailed(status)
    }
}

} // verus!
