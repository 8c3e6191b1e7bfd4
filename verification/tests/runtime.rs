use vga_text::runtime::{exit_code_for, QemuExitCode, RunOutcome};

#[test]
fn exit_codes_match_the_device_contract() {
    assert_eq!(QemuExitCode::Success.code(), 0x10);
    assert_eq!(QemuExitCode::Failed.code(), 0x11);
}

#[test]
fn panic_path_raises_the_failure_exit_code() {
    assert_eq!(exit_code_for(RunOutcome::Panicked), QemuExitCode::Failed);
    assert_eq!(exit_code_for(RunOutcome::Panicked).code(), 0x11);
}

#[test]
fn completed_run_raises_the_success_exit_code() {
    assert_eq!(exit_code_for(RunOutcome::Completed), QemuExitCode::Success);
    assert_eq!(exit_code_for(RunOutcome::Completed).code(), 0x10);
}
