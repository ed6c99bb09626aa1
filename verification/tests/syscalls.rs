use estros::cpu_state::State;
use estros::rng::XORShiftRng;
use estros::scheduler::{Process, RoundRobinScheduler};
use estros::syscalls::{
    exit, handle_syscall, kill_thread, read_message, read_message_result, spawn_thread, syscall_call,
    syscall_err, uart_write_result, write_to_uart, SyscallError, SyscallOutcome, UserTransfer,
};

fn one_process() -> (RoundRobinScheduler<()>, u64) {
    let mut s = RoundRobinScheduler::new();
    let mut rng = XORShiftRng::new(69420);
    let pid = s.launch_process(Process::with_entry(0x4000, ()), &mut rng).unwrap();
    (s, pid)
}

fn regs(x0: u64, x1: u64, x2: u64) -> State {
    let mut st = State::default();
    st.x[0] = x0;
    st.x[1] = x1;
    st.x[2] = x2;
    st
}

#[test]
fn results_go_to_x0() {
    let mut st = regs(5, 6, 7);
    syscall_call(&mut st, None);
    assert_eq!(st.x[0], 5);
    syscall_call(&mut st, Some(Ok(42)));
    assert_eq!(st.x[0], 42);
    syscall_call(&mut st, syscall_err(3));
    assert_eq!(st.x[0], 3);
    assert_eq!(st.x[1], 6);
    assert_eq!(syscall_err(9), Some(Err(SyscallError { code: 9 })));
}

#[test]
fn noop_and_unknown_numbers_change_nothing() {
    let (mut s, pid) = one_process();
    for iss in [0u64, 8, 100, u64::MAX] {
        let mut st = regs(1, 2, 3);
        assert!(handle_syscall(&mut st, iss, pid, 1, &mut s).is_none());
        assert_eq!(st.x[0], 1);
    }
}

#[test]
fn get_pid_and_get_tid() {
    let (mut s, pid) = one_process();
    let mut st = regs(0, 0, 0);
    handle_syscall(&mut st, 4, pid, 7, &mut s);
    assert_eq!(st.x[0], pid);
    handle_syscall(&mut st, 5, pid, 7, &mut s);
    assert_eq!(st.x[0], 7);
}

#[test]
fn spawn_then_kill_thread() {
    let (mut s, pid) = one_process();
    let mut st = regs(0x5000, 77, 0);
    handle_syscall(&mut st, 6, pid, 1, &mut s);
    assert_eq!(st.x[0], 2);
    let t = s.get_process(pid).unwrap().threads.get(2).unwrap().state;
    assert_eq!((t.elr, t.x[0], t.x[1]), (0x5000, 77, 0));
    let mut st = regs(2, 0, 0);
    handle_syscall(&mut st, 7, pid, 1, &mut s);
    assert_eq!(st.x[0], 0);
    assert!(s.get_process(pid).unwrap().threads.get(2).is_err());
    // killing it again: no such thread
    let mut st = regs(2, 0, 0);
    handle_syscall(&mut st, 7, pid, 1, &mut s);
    assert_eq!(st.x[0], 1);
}

#[test]
fn thread_calls_on_missing_process() {
    let (mut s, pid) = one_process();
    let mut st = regs(1, 0, 0);
    assert_eq!(kill_thread(&mut st, pid + 1, 0, &mut s), Some(Err(SyscallError { code: 2 })));
    assert_eq!(spawn_thread(&mut st, pid + 1, 0, &mut s), Some(Err(SyscallError { code: 1 })));
    assert_eq!(s.get_process(pid).unwrap().threads.len(), 1);
}

#[test]
fn exit_removes_the_process() {
    let (mut s, pid) = one_process();
    let mut st = regs(9, 0, 0);
    assert_eq!(exit(&mut st, pid, 1, &mut s), Some(Ok(1)));
    assert!(s.get_process(pid).is_err());
    let (mut s, pid) = one_process();
    handle_syscall(&mut st, 2, pid, 1, &mut s);
    assert_eq!(st.x[0], 1);
    assert!(!s.has_pid(pid));
}

#[test]
fn read_message_hands_back_a_copy_out() {
    let (mut s, pid) = one_process();
    let mut st = regs(0, 0xdead, 4);
    match handle_syscall(&mut st, 3, pid, 1, &mut s) {
        Some(UserTransfer::CopyOut { addr, data }) => {
            assert_eq!(addr, 0xdead);
            assert_eq!(data, b"this".to_vec());
            syscall_call(&mut st, read_message_result(true, data.len() as u64));
            assert_eq!(st.x[0], 4);
        }
        _ => panic!("expected a copy"),
    }
    let mut st = regs(0, 0xdead, 4);
    match read_message(&mut st, pid, &mut s) {
        SyscallOutcome::Transfer(UserTransfer::CopyOut { data, .. }) => assert_eq!(data, b" is ".to_vec()),
        _ => panic!("expected a copy"),
    }
    assert_eq!(read_message_result(false, 4), Some(Err(SyscallError { code: 2 })));
}

#[test]
fn read_message_errors() {
    let (mut s, pid) = one_process();
    let mut st = regs(3, 0, 4);
    assert!(handle_syscall(&mut st, 3, pid, 1, &mut s).is_none());
    assert_eq!(st.x[0], 1);
    let mut st = regs(0, 0, 4);
    assert!(matches!(read_message(&mut st, pid + 1, &mut s), SyscallOutcome::Done(None)));
    assert!(handle_syscall(&mut st, 3, pid + 1, 1, &mut s).is_none());
    assert_eq!(st.x[0], 0);
}

#[test]
fn write_to_uart_hands_back_a_print() {
    let (mut s, pid) = one_process();
    let mut st = regs(0x100, 12, 0);
    match handle_syscall(&mut st, 1, pid, 1, &mut s) {
        Some(UserTransfer::Print { addr, len }) => assert_eq!((addr, len), (0x100, 12)),
        _ => panic!("expected a print"),
    }
    assert!(matches!(write_to_uart(&mut st, pid + 1, &s), SyscallOutcome::Done(None)));
    assert_eq!(uart_write_result(true), Some(Ok(0)));
    assert_eq!(uart_write_result(false), Some(Err(SyscallError { code: 1 })));
}
