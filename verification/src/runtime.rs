//! Exit-code signalling for the runtime shell.
//!
//! The shell's entry point, panic handler and test runner live outside the
//! verified core: they do port I/O and never return. What is decided here is
//! the value side of that interface: which four-byte code stands for which
//! outcome on the hardware exit-code channel.

use vstd::prelude::*;

verus! {

/// Exit codes understood by the emulator's debug-exit device; the
/// surrounding execution environment maps `Success` to a successful
/// process exit by convention.
#[derive(Debug, Clone, Copy, PartialEq, Eq, Structural)]
pub enum QemuExitCode {
    Success,
    Failed,
}

impl QemuExitCode {
    /// The four-byte value that stands for this code on the exit-code port.
    pub open spec fn spec_code(self) -> u32 {
        match self {
            QemuExitCode::Success => 0x10,
            QemuExitCode::Failed => 0x11,
        }
    }

    /// Returns the value to write to the hardware exit-code port.
    pub fn code(self) -> (r: u32)
        ensures
            r == self.spec_code(),
    {
        match self {
            QemuExitCode::Success => 0x10,
            QemuExitCode::Failed => 0x11,
        }
    }
}

/// How a run of registered test procedures ended: either every procedure
/// returned normally, or one of them raised an unrecoverable fault and the
/// panic path took over.
#[derive(Debug, Clone, Copy, PartialEq, Eq, Structural)]
pub enum RunOutcome {
    Completed,
    Panicked,
}

/// Decides the exit code that the runtime shell raises on the hardware
/// exit-code channel: success exactly when every test procedure completed,
/// failure exactly when a fault aborted the run.
pub fn exit_code_for(outcome: RunOutcome) -> (r: QemuExitCode)
    ensures
        r == QemuExitCode::Success <==> outcome == RunOutcome::Completed,
        r == QemuExitCode::Failed <==> outcome == RunOutcome::Panicked,
{
    match outcome {
        RunOutcome::Completed => QemuExitCode::Success,
        RunOutcome::Panicked => QemuExitCode::Failed,
    }
}

} // verus!
