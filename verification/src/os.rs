//! Process controller: deliver control signals to the managed process,
//! preferring process-group delivery (the negated pid, so the signal reaches
//! children of wrapper scripts) with direct-pid fallback on any group
//! failure. A failed delivery is reported to the caller, never swallowed.

use vstd::prelude::*;

verus! {

/// Control signals the process controller delivers.
#[derive(Copy, Clone, Debug, PartialEq, Eq, Structural)]
pub enum Sig {
    /// Graceful termination request.
    Term,

    /// Unconditional termination.
    Kill,

    /// Suspend the process.
    Stop,

    /// Resume the process.
    Cont,
}

/// Relies on nix::sys::signal::kill: delivers the signal to the process (or,
/// for a negative argument, the process group) named by the raw id, and
/// reports whether the operating system accepted the delivery. The outcome
/// depends on the processes alive at the call, so nothing more is promised.
#[verifier::external_body]
fn send_signal(pid_raw: i32, sig: Sig) -> (r: bool)
{
    let signal = match sig {
        Sig::Term => nix::sys::signal::Signal::SIGTERM,
        Sig::Kill => nix::sys::signal::Signal::SIGKILL,
        Sig::Stop => nix::sys::signal::Signal::SIGSTOP,
        Sig::Cont => nix::sys::signal::Signal::SIGCONT,
    };
    nix::sys::signal::kill(nix::unistd::Pid::from_raw(pid_raw), signal).is_ok()
}

/// Whether a failed process-group delivery escalates to a direct-pid
/// attempt: it always does, whatever the group failure was.
pub fn escalate_to_direct(group_ok: bool) -> (r: bool)
    ensures
        r == !group_ok,
{
    !group_ok
}

/// The delivery targets tried for a pid, in order: the process group first
/// (negated pid, reaching children of wrapper scripts), then the pid itself.
pub fn signal_targets(pid: u32) -> (r: Vec<i32>)
    requires
        1 <= pid <= crate::server::MAX_PID,
    ensures
        r@.len() == 2,
        r@[0] == -(pid as int),
        r@[1] == pid as int,
{
    let direct: i32 = pid as i32;
    let group: i32 = -direct;
    let mut targets: Vec<i32> = Vec::new();
    targets.push(group);
    targets.push(direct);
    targets
}

/// Deliver a signal to the process group derived from `pid`; if group
/// delivery fails for any reason, fall back to signaling the pid directly.
/// Reports whether either delivery succeeded.
pub fn unix_signal(pid: u32, signal: Sig) -> (r: bool)
    requires
        1 <= pid <= crate::server::MAX_PID,
{
    let direct: i32 = pid as i32;
    let group_ok = send_signal(-direct, signal);
    if escalate_to_direct(group_ok) {
        send_signal(direct, signal)
    } else {
        true
    }
}

/// Force kill the process group, falling back to the pid directly.
pub fn force_kill(pid: u32) -> (r: bool)
    requires
        1 <= pid <= crate::server::MAX_PID,
{
    unix_signal(pid, Sig::Kill)
}

/// Gracefully stop the process group, falling back to the pid directly.
pub fn kill_gracefully(pid: u32) -> (r: bool)
    requires
        1 <= pid <= crate::server::MAX_PID,
{
    unix_signal(pid, Sig::Term)
}

/// Suspend the process group, falling back to the pid directly; pauses the
/// process instead of stopping it, trading faster resume for held memory.
pub fn freeze(pid: u32) -> (r: bool)
    requires
        1 <= pid <= crate::server::MAX_PID,
{
    unix_signal(pid, Sig::Stop)
}

/// Resume the process group, falling back to the pid directly.
pub fn unfreeze(pid: u32) -> (r: bool)
    requires
        1 <= pid <= crate::server::MAX_PID,
{
    unix_signal(pid, Sig::Cont)
}

} // verus!
