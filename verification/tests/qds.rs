use estros::qds::QDScheduler;
use estros::scheduler::{CpuSchedulerError, Process};

#[test]
fn quick_scheduler_without_a_process_has_nothing_to_schedule() {
    let mut s: QDScheduler<u8> = QDScheduler::new();
    assert_eq!(s.schedule().err(), Some(CpuSchedulerError::NoProcesses));
}

#[test]
fn quick_scheduler_always_launches_under_pid_zero() {
    let mut s: QDScheduler<u8> = QDScheduler::new();
    assert_eq!(s.launch_process(Process::with_entry(0x1000, 1)), Ok(0));
    assert_eq!(s.launch_process(Process::with_entry(0x2000, 2)), Ok(0));
    assert_eq!(s.kill_process(0), Ok(()));
    assert_eq!(s.kill_process(0), Err(CpuSchedulerError::InvalidPid(0)));
    assert_eq!(s.kill_process(5), Err(CpuSchedulerError::InvalidPid(5)));
    assert_eq!(s.schedule().err(), Some(CpuSchedulerError::NoProcesses));
}
