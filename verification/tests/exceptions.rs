use estros::cpu_state::State;
use estros::exceptions::{decode_esr, switch_thread, EC_SVC64};
use estros::rng::XORShiftRng;
use estros::scheduler::{Process, RoundRobinScheduler};
use estros::threads::SchedulerThread;

#[test]
fn syndrome_fields() {
    let esr: u64 = (21 << 26) | 0x42;
    assert_eq!(decode_esr(esr), (EC_SVC64, 0x42));
    assert_eq!(decode_esr(u64::MAX), (0x3f, 0x1FF_FFFF));
    assert_eq!(decode_esr(1 << 25), (0, 0));
}

#[test]
fn switch_records_state_and_loads_next_thread() {
    let mut s = RoundRobinScheduler::new();
    let mut rng = XORShiftRng::new(69420);
    let pid = s.launch_process(Process::with_entry(0x1000, ()), &mut rng).unwrap();
    s.get_process_mut(pid).unwrap().threads.spawn(SchedulerThread::at(0x2000));
    let mut state = State::default();
    state.x[5] = 55;
    state.elr = 0x1004;
    let (p, t) = switch_thread(&mut s, &mut state, pid, 1);
    assert_eq!((p, t), (pid, 2));
    assert_eq!(state.elr, 0x2000);
    let saved = s.get_process(pid).unwrap().threads.get(1).unwrap().state;
    assert_eq!((saved.elr, saved.x[5]), (0x1004, 55));
    let (_, t) = switch_thread(&mut s, &mut state, pid, 2);
    assert_eq!(t, 1);
    assert_eq!(state.elr, 0x1004);
    assert_eq!(state.x[5], 55);
}

#[test]
fn switch_from_unknown_thread_only_schedules() {
    let mut s = RoundRobinScheduler::new();
    let mut rng = XORShiftRng::new(3);
    let pid = s.launch_process(Process::with_entry(0x1000, ()), &mut rng).unwrap();
    let mut state = State::default();
    state.elr = 0xffff;
    let (p, t) = switch_thread(&mut s, &mut state, pid.wrapping_add(1), 9);
    assert_eq!((p, t), (pid, 1));
    assert_eq!(state.elr, 0x1000);
}
