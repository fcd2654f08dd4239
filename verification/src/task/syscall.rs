//! What the kernel does when a user task traps: the system calls it
//! answers, and what the trap loop does next.

use syscalls::Sysno;
use vstd::prelude::*;

use crate::task::task::TrapFrame;
use crate::utils::same_str;

verus! {

/// Why a user task left user mode.
#[derive(Clone, Copy, Debug, PartialEq, Eq, Structural)]
pub enum EscapeReason {
    /// No reason was recorded.
    NoReason,
    /// A device interrupted.
    IRQ,
    /// The timer interrupted.
    Timer,
    /// The task made a system call.
    SysCall,
}

/// What the trap loop does after a trap was handled.
#[derive(Clone, Copy, Debug, PartialEq, Eq, Structural)]
pub enum UserAction {
    /// Resume the task.
    Resume,
    /// Put the `len` bytes at the user address `addr` on the console, then
    /// resume the task.
    ConsoleWrite { addr: u64, len: u64 },
    /// The task asked for a system call that cannot be answered: a fault
    /// of the task, which is not resumed.
    Fault(SyscallFault),
}

/// Why a system call cannot be answered.
#[derive(Clone, Copy, Debug, PartialEq, Eq, Structural)]
pub enum SyscallFault {
    /// The table of system calls does not know the number.
    UnknownNumber,
    /// The table knows the number, and the call is not implemented.
    NotImplemented,
}

/// The name under which the system call table of the machine that the
/// library is built for knows the number `id`, and nothing where it
/// knows none.
pub uninterp spec fn syscall_name_of(id: usize) -> Option<Seq<char>>;

/// What the system call table knows of the number in a frame's system
/// call slot: nothing of a number beyond the table's range.
pub open spec fn table_name(number: u64) -> Option<Seq<char>> {
    if number <= usize::MAX {
        syscall_name_of(number as usize)
    } else {
        None
    }
}

/// The address that `brk` reports as the start of the heap.
pub const USER_HEAP_BASE: u64 = 0x2_0000_0000;

/// `Sysno::new` and `Sysno::name`: the name under which the system call
/// table knows the number `id`, and nothing where it knows none. The
/// table is a constant of the machine that the library is built for, so
/// the answer depends on the number alone; it is called
/// [`syscall_name_of`], and nothing more is claimed of it.
#[verifier::external_body]
fn syscall_name(id: usize) -> (name: Option<&'static str>)
    ensures
        name is Some <==> syscall_name_of(id) is Some,
        name matches Some(n) ==> syscall_name_of(id) == Some(n@),
{
    Sysno::new(id).map(|sysno| sysno.name())
}

/// What the system call named `name` returns for the arguments `args`,
/// and nothing where the call is not implemented.
pub open spec fn syscall_value(name: Seq<char>, args: [u64; 6]) -> Option<u64> {
    if name == "set_tid_address"@ {
        Some(1u64)
    } else if name == "getuid"@ {
        Some(0u64)
    } else if name == "ioctl"@ {
        Some(u64::MAX)
    } else if name == "dup3"@ {
        Some(4u64)
    } else if name == "getpid"@ {
        Some(1u64)
    } else if name == "rt_sigprocmask"@ {
        Some(0u64)
    } else if name == "rt_sigaction"@ {
        Some(0u64)
    } else if name == "getppid"@ {
        Some(1u64)
    } else if name == "uname"@ {
        Some(0u64)
    } else if name == "getcwd"@ {
        Some(0u64)
    } else if name == "arch_prctl"@ {
        Some(0u64)
    } else if name == "brk"@ {
        if args[0] == 0 {
            Some(USER_HEAP_BASE)
        } else {
            Some(args[0])
        }
    } else if name == "write"@ {
        Some(args[2])
    } else {
        None
    }
}

/// Whether the system call named `name` with the arguments `args` puts
/// bytes on the console: a `write` to the standard output or the
/// standard error.
pub open spec fn writes_console(name: Seq<char>, args: [u64; 6]) -> bool {
    name == "write"@ && (args[0] == 1 || args[0] == 2)
}

/// What is left in the return slot, and what the trap loop does next,
/// after a system call whose number the table knows as `name`, or does
/// not know.
pub open spec fn syscall_outcome(name: Option<Seq<char>>, args: [u64; 6]) -> (Option<u64>,
    UserAction) {
    match name {
        None => (None, UserAction::Fault(SyscallFault::UnknownNumber)),
        Some(name) => match syscall_value(name, args) {
            None => (None, UserAction::Fault(SyscallFault::NotImplemented)),
            Some(value) => (
                Some(value),
                if writes_console(name, args) {
                    UserAction::ConsoleWrite { addr: args[1], len: args[2] }
                } else {
                    UserAction::Resume
                },
            ),
        },
    }
}

/// The frame and what the trap loop does next after the task left user
/// mode with `frame` for `reason`.
pub open spec fn escape_outcome(frame: TrapFrame, reason: EscapeReason) -> (TrapFrame, UserAction) {
    if reason == EscapeReason::SysCall {
        let outcome = syscall_outcome(table_name(frame.syscall), frame.args);
        (
            match outcome.0 {
                Some(value) => TrapFrame { ret: value, ..frame },
                None => frame,
            },
            outcome.1,
        )
    } else {
        (frame, UserAction::Resume)
    }
}

/// Computes [`syscall_value`].
pub fn syscall_return(name: &str, args: &[u64; 6]) -> (value: Option<u64>)
    ensures
        value == syscall_value(name@, *args),
{
    if same_str(name, "set_tid_address") {
        Some(1)
    } else if same_str(name, "getuid") {
        Some(0)
    } else if same_str(name, "ioctl") {
        Some(u64::MAX)
    } else if same_str(name, "dup3") {
        Some(4)
    } else if same_str(name, "getpid") {
        Some(1)
    } else if same_str(name, "rt_sigprocmask") {
        Some(0)
    } else if same_str(name, "rt_sigaction") {
        Some(0)
    } else if same_str(name, "getppid") {
        Some(1)
    } else if same_str(name, "uname") {
        Some(0)
    } else if same_str(name, "getcwd") {
        Some(0)
    } else if same_str(name, "arch_prctl") {
        Some(0)
    } else if same_str(name, "brk") {
        if args[0] == 0 {
            Some(USER_HEAP_BASE)
        } else {
            Some(args[0])
        }
    } else if same_str(name, "write") {
        Some(args[2])
    } else {
        None
    }
}

/// Answers a system call whose number the table knows as `name`, or does
/// not know: writes the return value into the frame's return slot, where
/// there is one, and says what the trap loop does next. Nothing else in
/// the frame changes.
///
/// A number that the table does not know, and a call that is known but
/// not implemented, are faults of the task: the frame stays as it is,
/// and the fault says which of the two it was.
pub fn answer_syscall(frame: &mut TrapFrame, name: Option<&str>) -> (action: UserAction)
    ensures
        action == syscall_outcome(
            match name {
                Some(n) => Some(n@),
                None => None,
            },
            old(frame).args,
        ).1,
        *final(frame) == match syscall_outcome(
            match name {
                Some(n) => Some(n@),
                None => None,
            },
            old(frame).args,
        ).0 {
            Some(value) => TrapFrame { ret: value, ..*old(frame) },
            None => *old(frame),
        },
{
    match name {
        None => UserAction::Fault(SyscallFault::UnknownNumber),
        Some(name) => {
            let args = frame.args;
            match syscall_return(name, &args) {
                None => UserAction::Fault(SyscallFault::NotImplemented),
                Some(value) => {
                    frame.ret = value;
                    if same_str(name, "write") && (args[0] == 1 || args[0] == 2) {
                        UserAction::ConsoleWrite { addr: args[1], len: args[2] }
                    } else {
                        UserAction::Resume
                    }
                },
            }
        },
    }
}

/// Handles one exit of a user task from user mode. A system call is
/// looked up in the system call table by the number in the frame's
/// system call slot and answered as [`answer_syscall`] says. Any other
/// exit changes nothing and resumes the task.
pub fn handle_escape(frame: &mut TrapFrame, reason: EscapeReason) -> (action: UserAction)
    ensures
        action == escape_outcome(*old(frame), reason).1,
        *final(frame) == escape_outcome(*old(frame), reason).0,
{
    match reason {
        EscapeReason::SysCall => {
            let name = if frame.syscall <= usize::MAX as u64 {
                syscall_name(frame.syscall as usize)
            } else {
                None
            };
            answer_syscall(frame, name)
        },
        _ => UserAction::Resume,
    }
}

} // verus!
