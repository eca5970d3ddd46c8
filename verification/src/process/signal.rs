//! Signals.

use vstd::prelude::*;

verus! {

/// The number of a signal.
pub type SignalType = u8;

/// Hangup.
pub const SIGHUP: SignalType = 1;

/// Terminal interrupt.
pub const SIGINT: SignalType = 2;

/// Terminal quit.
pub const SIGQUIT: SignalType = 3;

/// Illegal instruction.
pub const SIGILL: SignalType = 4;

/// Trace/breakpoint trap.
pub const SIGTRAP: SignalType = 5;

/// Process abort.
pub const SIGABRT: SignalType = 6;

/// Access to an undefined portion of a memory object.
pub const SIGBUS: SignalType = 7;

/// Erroneous arithmetic operation.
pub const SIGFPE: SignalType = 8;

/// Kill.
pub const SIGKILL: SignalType = 9;

/// User-defined signal 1.
pub const SIGUSR1: SignalType = 10;

/// Invalid memory reference.
pub const SIGSEGV: SignalType = 11;

/// User-defined signal 2.
pub const SIGUSR2: SignalType = 12;

/// Write on a pipe with no one to read it.
pub const SIGPIPE: SignalType = 13;

/// Alarm clock.
pub const SIGALRM: SignalType = 14;

/// Termination.
pub const SIGTERM: SignalType = 15;

/// Child process terminated, stopped or continued.
pub const SIGCHLD: SignalType = 17;

/// Continue executing, if stopped.
pub const SIGCONT: SignalType = 18;

/// Stop executing.
pub const SIGSTOP: SignalType = 19;

/// Terminal stop.
pub const SIGTSTP: SignalType = 20;

/// The number of signals.
pub const SIGNALS_COUNT: usize = 29;

/// What a signal does to a process that has no handler for it.
#[derive(Clone, Copy, Debug, PartialEq, Eq, Structural)]
pub enum SignalAction {
    /// The process is terminated.
    Terminate,
    /// The signal is ignored.
    Ignore,
    /// The process is stopped.
    Stop,
    /// The process continues, if it is stopped.
    Continue,
}

/// What signal `sig` does by default.
pub open spec fn default_action(sig: SignalType) -> SignalAction {
    if sig == SIGCHLD {
        SignalAction::Ignore
    } else if sig == SIGCONT {
        SignalAction::Continue
    } else if sig == SIGSTOP || sig == SIGTSTP {
        SignalAction::Stop
    } else {
        SignalAction::Terminate
    }
}

/// Returns what signal `sig` does by default.
pub fn get_default_action(sig: SignalType) -> (a: SignalAction)
    ensures
        a == default_action(sig),
{
    if sig == SIGCHLD {
        SignalAction::Ignore
    } else if sig == SIGCONT {
        SignalAction::Continue
    } else if sig == SIGSTOP || sig == SIGTSTP {
        SignalAction::Stop
    } else {
        SignalAction::Terminate
    }
}

/// Tells whether a process can have a handler for signal `sig`.
pub open spec fn catchable(sig: SignalType) -> bool {
    sig != SIGKILL && sig != SIGSTOP
}

/// Tells whether a process can have a handler for signal `sig`.
pub fn can_catch(sig: SignalType) -> (b: bool)
    ensures
        b == catchable(sig),
{
    sig != SIGKILL && sig != SIGSTOP
}

} // verus!
