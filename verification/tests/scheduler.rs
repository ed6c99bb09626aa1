use estros::rng::{Rng, XORShiftRng};
use estros::scheduler::{CpuSchedulerError, Process, RoundRobinScheduler};
use estros::threads::SchedulerThread;

fn process_at(start: u64) -> Process<u32> {
    Process::with_entry(start, start as u32)
}

#[test]
fn empty_scheduler_has_nothing_to_schedule() {
    let mut s: RoundRobinScheduler<u32> = RoundRobinScheduler::new();
    assert_eq!(s.schedule().err(), Some(CpuSchedulerError::NoProcesses));
    assert!(!s.has_pid(0));
}

#[test]
fn launched_process_gets_the_first_free_draw() {
    let mut s = RoundRobinScheduler::new();
    let mut rng = XORShiftRng::new(69420);
    let pid = s.launch_process(process_at(0x1000), &mut rng).unwrap();
    assert_eq!(pid, 74005201765938);
    assert!(s.has_pid(pid));
    let p = s.get_process(pid).unwrap();
    assert_eq!(p.memory, 0x1000);
    assert_eq!(p.threads.len(), 1);
    assert_eq!(p.threads.get(1).unwrap().state.elr, 0x1000);
}

#[test]
fn used_pids_are_skipped() {
    let mut s = RoundRobinScheduler::new();
    let mut rng = XORShiftRng::new(0);
    // a zero generator draws 0 forever; the first pid is 0
    assert_eq!(s.launch_process(process_at(1), &mut rng), Ok(0));
    let mut rng = XORShiftRng::new(69420);
    let a = s.launch_process(process_at(2), &mut rng).unwrap();
    let mut rng = XORShiftRng::new(69420);
    // the same seed draws `a` first; it is taken, so the next draw is used
    let b = s.launch_process(process_at(3), &mut rng).unwrap();
    assert_eq!(a, 74005201765938);
    assert_eq!(b, 9497832976310012990);
    assert_eq!(rng.rand_u64(), 6550716635657414054);
}

#[test]
fn schedule_goes_round_robin() {
    let mut s = RoundRobinScheduler::new();
    let mut rng = XORShiftRng::new(69420);
    let a = s.launch_process(process_at(0xa000), &mut rng).unwrap();
    let b = s.launch_process(process_at(0xb000), &mut rng).unwrap();
    // the robin starts at position 0, so the first pick is position 1
    let (p1, t1, th1) = s.schedule().unwrap();
    assert_eq!((p1, t1, th1.state.elr), (b, 1, 0xb000));
    let (p2, _, th2) = s.schedule().unwrap();
    assert_eq!((p2, th2.state.elr), (a, 0xa000));
    let (p3, _, _) = s.schedule().unwrap();
    assert_eq!(p3, b);
}

#[test]
fn threads_of_a_process_take_turns_in_id_order() {
    let mut s = RoundRobinScheduler::new();
    let mut rng = XORShiftRng::new(5);
    let pid = s.launch_process(process_at(0x100), &mut rng).unwrap();
    let t2 = s.get_process_mut(pid).unwrap().threads.spawn(SchedulerThread::at(0x200));
    let t3 = s.get_process_mut(pid).unwrap().threads.spawn(SchedulerThread::at(0x300));
    assert_eq!((t2, t3), (2, 3));
    let picks: Vec<u64> = (0..4).map(|_| s.schedule().unwrap().1).collect();
    assert_eq!(picks, vec![2, 3, 1, 2]);
}

#[test]
fn killed_process_is_gone() {
    let mut s = RoundRobinScheduler::new();
    let mut rng = XORShiftRng::new(69420);
    let a = s.launch_process(process_at(1), &mut rng).unwrap();
    let b = s.launch_process(process_at(2), &mut rng).unwrap();
    assert_eq!(s.kill_process(a), Ok(()));
    assert_eq!(s.get_process(a).err(), Some(CpuSchedulerError::InvalidPid(a)));
    assert_eq!(s.kill_process(a), Err(CpuSchedulerError::InvalidPid(a)));
    assert!(s.get_process(b).is_ok());
    assert!(s.get_process_mut(a).is_err());
}

#[test]
fn scheduling_needs_a_process_with_a_thread() {
    let mut s: RoundRobinScheduler<u32> = RoundRobinScheduler::new();
    assert!(!s.can_schedule());
    let mut rng = XORShiftRng::new(7);
    let pid = s.launch_process(process_at(0x1000), &mut rng).unwrap();
    assert!(s.can_schedule());
    s.get_process_mut(pid).unwrap().threads.remove(1).unwrap();
    assert!(!s.can_schedule());
}

#[test]
fn launch_keeps_earlier_processes_in_place() {
    let mut s: RoundRobinScheduler<u32> = RoundRobinScheduler::new();
    let mut rng = XORShiftRng::new(11);
    let first = s.launch_process(process_at(0x1000), &mut rng).unwrap();
    let second = s.launch_process(process_at(0x2000), &mut rng).unwrap();
    assert_ne!(first, second);
    assert_eq!(s.get_process(first).unwrap().memory, 0x1000);
    assert_eq!(s.get_process(second).unwrap().memory, 0x2000);
    s.kill_process(first).unwrap();
    assert!(s.get_process(first).is_err());
    assert_eq!(s.get_process(second).unwrap().memory, 0x2000);
}
