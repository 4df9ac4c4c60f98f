//! The user-mode system-call vocabulary: the call numbers the kernel
//! dispatches on, and the rule that turns a call's raw return values into a
//! typed result.
//!
//! Issuing a system call traps into the kernel through a register-passing
//! transport that this library does not model; the caller performs the trap
//! and hands the two raw return values to
//! [`convert_syscall_codes_to_result`].

use vstd::prelude::*;

verus! {

/// The system calls the kernel offers, in ABI order starting at zero. The
/// final variant is no call: it only marks the end of the numbering.
#[derive(Clone, Copy, PartialEq, Eq, Structural, Debug)]
pub enum SystemCall {
    Read,
    Write,
    MapUserHeap,
    ProcessExecuteBinary,
    ProcessId,
    ProcessExit,
    ThreadCreate,
    ThreadId,
    ThreadSwitch,
    ThreadSleep,
    ThreadJoin,
    ThreadExit,
    GetSystemTime,
    GetDate,
    SetDate,
    Mkentry,
    LastEntryMarker,
}

/// How many system calls there are: the number of the end marker.
pub const NUM_SYSCALLS: usize = 16;

impl SystemCall {
    /// The ABI number of the call: its position in the declaration order.
    pub open spec fn spec_number(self) -> usize {
        match self {
            SystemCall::Read => 0,
            SystemCall::Write => 1,
            SystemCall::MapUserHeap => 2,
            SystemCall::ProcessExecuteBinary => 3,
            SystemCall::ProcessId => 4,
            SystemCall::ProcessExit => 5,
            SystemCall::ThreadCreate => 6,
            SystemCall::ThreadId => 7,
            SystemCall::ThreadSwitch => 8,
            SystemCall::ThreadSleep => 9,
            SystemCall::ThreadJoin => 10,
            SystemCall::ThreadExit => 11,
            SystemCall::GetSystemTime => 12,
            SystemCall::GetDate => 13,
            SystemCall::SetDate => 14,
            SystemCall::Mkentry => 15,
            SystemCall::LastEntryMarker => 16,
        }
    }

    /// The ABI number handed to the trap instruction. Every real call
    /// numbers below `NUM_SYSCALLS`; exactly the end marker reaches it.
    pub fn number(self) -> (r: usize)
        ensures
            r == self.spec_number(),
            r <= NUM_SYSCALLS,
            (r == NUM_SYSCALLS) == (self is LastEntryMarker),
    {
        match self {
            SystemCall::Read => 0,
            SystemCall::Write => 1,
            SystemCall::MapUserHeap => 2,
            SystemCall::ProcessExecuteBinary => 3,
            SystemCall::ProcessId => 4,
            SystemCall::ProcessExit => 5,
            SystemCall::ThreadCreate => 6,
            SystemCall::ThreadId => 7,
            SystemCall::ThreadSwitch => 8,
            SystemCall::ThreadSleep => 9,
            SystemCall::ThreadJoin => 10,
            SystemCall::ThreadExit => 11,
            SystemCall::GetSystemTime => 12,
            SystemCall::GetDate => 13,
            SystemCall::SetDate => 14,
            SystemCall::Mkentry => 15,
            SystemCall::LastEntryMarker => 16,
        }
    }
}

/// Converts the two raw return values of a system call into a typed
/// `Result`: when `is_ok_f` flags the pair, `err_f` builds the error,
/// otherwise `ok_f` builds the success value.
pub fn convert_syscall_codes_to_result<T, E, D, F, G>(
    code: usize,
    val: usize,
    is_ok_f: D,
    ok_f: F,
    err_f: G,
) -> (r: Result<T, E>) where
    D: Fn(usize, usize) -> bool,
    F: Fn(usize, usize) -> T,
    G: Fn(usize, usize) -> E,

    requires
        call_requires(is_ok_f, (code, val)),
        call_requires(ok_f, (code, val)),
        call_requires(err_f, (code, val)),
    ensures
        r matches Ok(t) ==> call_ensures(is_ok_f, (code, val), false) && call_ensures(
            ok_f,
            (code, val),
            t,
        ),
        r matches Err(e) ==> call_ensures(is_ok_f, (code, val), true) && call_ensures(
            err_f,
            (code, val),
            e,
        ),
{
    if is_ok_f(code, val) {
        Err(err_f(code, val))
    } else {
        Ok(ok_f(code, val))
    }
}

} // verus!
