//! System calls: the dispatch table, the calls themselves, and how a call's
//! result is handed back in register `x0`.
//!
//! Two calls move bytes between the kernel and the caller's memory. For
//! those the dispatcher returns the transfer to perform; the platform layer
//! performs it and completes the call with `syscall_call` and the result that
//! `uart_write_result` or `read_message_result` gives for the outcome.
use vstd::prelude::*;
use crate::cpu_state::State;
use crate::messages::read_step;
use crate::scheduler::RoundRobinScheduler;
use crate::threads::SchedulerThread;

verus! {

/// The error a system call reports; its code is handed back in `x0`.
#[derive(Debug, PartialEq, Eq, Structural)]
pub struct SyscallError {
    pub code: u64,
}

/// What a system call hands back: nothing (registers untouched), a value or
/// an error code, both returned in `x0`.
pub type SyscallResult = Option<Result<u64, SyscallError>>;

pub fn syscall_err(code: u64) -> (r: SyscallResult)
    ensures
        r == Some(Err::<u64, SyscallError>(SyscallError { code })),
{
    Some(Err(SyscallError { code }))
}

/// The general purpose registers after a call's result is handed back.
pub open spec fn result_regs(x: Seq<u64>, ret: SyscallResult) -> Seq<u64> {
    match ret {
        Some(Ok(v)) => x.update(0, v),
        Some(Err(e)) => x.update(0, e.code),
        None => x,
    }
}

/// Hands a call's result back: a value or an error code goes to `x0`.
pub fn syscall_call(state: &mut State, ret: SyscallResult)
    ensures
        final(state).x@ == result_regs(old(state).x@, ret),
        final(state).elr == old(state).elr,
        ret is None ==> *final(state) == *old(state),
{
    if let Some(ret) = ret {
        match ret {
            Err(err) => {
                let code = err.code;
                state.x[0] = code;
            },
            Ok(ret) => {
                state.x[0] = ret;
            },
        }
    }
}

/// A transfer between the kernel and the calling process's memory that a
/// system call needs the platform layer to perform.
pub enum UserTransfer {
    /// Print the `len` bytes at `addr` in the caller's memory.
    Print { addr: u64, len: u64 },
    /// Copy `data` to `addr` in the caller's memory.
    CopyOut { addr: u64, data: Vec<u8> },
}

/// What a system call comes to: a result to hand back, or a transfer that
/// must be performed first.
pub enum SyscallOutcome {
    Done(SyscallResult),
    Transfer(UserTransfer),
}

/// `new` is `old` with at most the process at position `i` changed; its pid,
/// thread position and address space stay.
pub open spec fn only_process_changed<M>(old: RoundRobinScheduler<M>, new: RoundRobinScheduler<M>, i: int) -> bool {
    &&& new.robin() == old.robin()
    &&& new.metas().len() == old.metas().len()
    &&& forall|j: int| 0 <= j < old.metas().len() && j != i ==> #[trigger] new.metas()[j] == old.metas()[j]
    &&& new.metas()[i].pid == old.metas()[i].pid
    &&& new.metas()[i].tid_robin == old.metas()[i].tid_robin
    &&& new.metas()[i].process.memory == old.metas()[i].process.memory
}

/// Position of `pid` among the scheduled processes.
pub open spec fn proc_index<M>(m: RoundRobinScheduler<M>, pid: u64) -> int {
    m.pids().index_of(pid)
}

/// Ends a process: `exit` removes the calling process.
pub fn exit<M>(state: &mut State, pid: u64, tid: u64, scheduler: &mut RoundRobinScheduler<M>) -> (r: SyscallResult)
    requires
        old(scheduler).wf(),
        old(scheduler).pids().contains(pid),
    ensures
        r == Some(Ok::<u64, SyscallError>(1)),
        *final(state) == *old(state),
        final(scheduler).wf(),
        final(scheduler).robin() == old(scheduler).robin(),
        final(scheduler).metas() == old(scheduler).metas().remove(proc_index(*old(scheduler), pid)),
{
    match scheduler.kill_process(pid) {
        Ok(()) => {},
        Err(_) => {},
    }
    Some(Ok(1))
}

/// The result `kill_thread` hands back.
pub open spec fn kill_thread_result<M>(m: RoundRobinScheduler<M>, pid: u64, tid: u64) -> SyscallResult {
    if !m.pids().contains(pid) {
        Some(Err(SyscallError { code: 2 }))
    } else if !m.metas()[proc_index(m, pid)].process.threads@.contains_key(tid) {
        Some(Err(SyscallError { code: 1 }))
    } else {
        Some(Ok(0))
    }
}

/// The scheduler after `kill_thread`: the thread is gone from the process.
pub open spec fn kill_thread_effect<M>(m0: RoundRobinScheduler<M>, pid: u64, tid: u64, m1: RoundRobinScheduler<M>) -> bool {
    if !m0.pids().contains(pid) {
        m1 == m0
    } else {
        let i = proc_index(m0, pid);
        let p0 = m0.metas()[i].process;
        let p1 = m1.metas()[i].process;
        &&& only_process_changed(m0, m1, i)
        &&& p1.threads@ == p0.threads@.remove(tid)
        &&& p1.threads.last_tid() == p0.threads.last_tid()
        &&& p1.message_store == p0.message_store
    }
}

/// Kills thread `x0` of the calling process.
///
/// Errors: 1 when the process has no such thread, 2 when there is no such
/// process. Returns 0.
pub fn kill_thread<M>(state: &mut State, pid: u64, tid: u64, scheduler: &mut RoundRobinScheduler<M>) -> (r: SyscallResult)
    requires
        old(scheduler).wf(),
    ensures
        *final(state) == *old(state),
        final(scheduler).wf(),
        r == kill_thread_result(*old(scheduler), pid, old(state).x@[0]),
        kill_thread_effect(*old(scheduler), pid, old(state).x@[0], *final(scheduler)),
{
    let tid = state.x[0];
    proof {
        if scheduler.pids().contains(pid) {
            assert(scheduler.metas()[proc_index(*scheduler, pid)].process.wf());
        }
    }
    let proc = match scheduler.get_process_mut(pid) {
        Ok(p) => p,
        Err(_) => return syscall_err(2),
    };
    if proc.threads.remove(tid).is_err() {
        return syscall_err(1);
    }
    Some(Ok(0))
}

/// The result `spawn_thread` hands back: the new thread's id.
pub open spec fn spawn_thread_result<M>(m: RoundRobinScheduler<M>, pid: u64) -> SyscallResult {
    if !m.pids().contains(pid) {
        Some(Err(SyscallError { code: 1 }))
    } else {
        Some(Ok((m.metas()[proc_index(m, pid)].process.threads.last_tid() + 1) as u64))
    }
}

/// The scheduler after `spawn_thread`: the process has a new thread that
/// starts at `location` with `arg` in `x0` and every other register zero.
pub open spec fn spawn_thread_effect<M>(m0: RoundRobinScheduler<M>, pid: u64, location: u64, arg: u64, m1: RoundRobinScheduler<M>) -> bool {
    if !m0.pids().contains(pid) {
        m1 == m0
    } else {
        let i = proc_index(m0, pid);
        let p0 = m0.metas()[i].process;
        let p1 = m1.metas()[i].process;
        let t = (p0.threads.last_tid() + 1) as u64;
        let thread = p1.threads@[t];
        &&& only_process_changed(m0, m1, i)
        &&& !p0.threads@.contains_key(t)
        &&& p1.threads@ == p0.threads@.insert(t, thread)
        &&& p1.threads.last_tid() == t
        &&& thread.state.elr == location
        &&& thread.state.x@[0] == arg
        &&& forall|k: int| 1 <= k < 30 ==> thread.state.x@[k] == 0
        &&& p1.message_store == p0.message_store
    }
}

/// Starts a thread in the calling process at `x0`, with `x1` passed in its
/// `x0`.
///
/// Errors: 1 when there is no such process. Returns the new thread's id.
pub fn spawn_thread<M>(state: &mut State, pid: u64, tid: u64, scheduler: &mut RoundRobinScheduler<M>) -> (r: SyscallResult)
    requires
        old(scheduler).wf(),
        old(scheduler).pids().contains(pid) ==>
            old(scheduler).metas()[proc_index(*old(scheduler), pid)].process.threads.last_tid() < u64::MAX,
    ensures
        *final(state) == *old(state),
        final(scheduler).wf(),
        r == spawn_thread_result(*old(scheduler), pid),
        spawn_thread_effect(*old(scheduler), pid, old(state).x@[0], old(state).x@[1], *final(scheduler)),
        old(scheduler).pids().contains(pid) ==> (r matches Some(Ok(t)) && {
            let i = proc_index(*old(scheduler), pid);
            &&& !old(scheduler).metas()[i].process.threads@.contains_key(t)
            &&& final(scheduler).metas()[i].process.threads@.contains_key(t)
            &&& final(scheduler).metas()[i].process.threads@.dom() == old(scheduler).metas()[i].process.threads@.dom().insert(t)
        }),
{
    let location = state.x[0];
    let arg = state.x[1];
    proof {
        if scheduler.pids().contains(pid) {
            assert(scheduler.metas()[proc_index(*scheduler, pid)].process.wf());
        }
    }
    let proc = match scheduler.get_process_mut(pid) {
        Ok(p) => p,
        Err(_) => return syscall_err(1),
    };
    let mut thread = SchedulerThread::at(location);
    thread.state.x[0] = arg;
    let tid = proc.threads.spawn(thread);
    Some(Ok(tid))
}

/// `spawn_thread` hands back the id of the thread it adds: an id the
/// process did not hold, larger than every id it held, and the one key its
/// thread map gains.
pub proof fn lemma_spawn_thread_returns_new_tid<M>(m0: RoundRobinScheduler<M>, pid: u64, location: u64, arg: u64, m1: RoundRobinScheduler<M>)
    requires
        m0.wf(),
        m0.pids().contains(pid),
        m0.metas()[proc_index(m0, pid)].process.threads.last_tid() < u64::MAX,
        spawn_thread_effect(m0, pid, location, arg, m1),
    ensures
        spawn_thread_result(m0, pid) matches Some(Ok(t)) && {
            let i = proc_index(m0, pid);
            let before = m0.metas()[i].process.threads@;
            let after = m1.metas()[i].process.threads@;
            &&& !before.contains_key(t)
            &&& forall|u: u64| #[trigger] before.contains_key(u) ==> u < t
            &&& after.dom() == before.dom().insert(t)
            &&& after[t].state.elr == location
            &&& after[t].state.x@[0] == arg
        },
{
    let i = proc_index(m0, pid);
    assert(m0.metas()[i].process.wf());
    m0.metas()[i].process.threads.lemma_entries();
    let t = (m0.metas()[i].process.threads.last_tid() + 1) as u64;
    assert(m1.metas()[i].process.threads@.dom() =~= m0.metas()[i].process.threads@.dom().insert(t));
}

/// Reads from message `x0` of the calling process at most `x2` bytes, to be
/// copied to `x1` in its memory.
///
/// Without such a process nothing is handed back. Errors: 1 when there is no
/// such message; after the copy, 2 when it failed (see `read_message_result`).
pub fn read_message<M>(state: &mut State, pid: u64, scheduler: &mut RoundRobinScheduler<M>) -> (r: SyscallOutcome)
    requires
        old(scheduler).wf(),
    ensures
        *final(state) == *old(state),
        final(scheduler).wf(),
        read_message_effect(*old(scheduler), pid, old(state).x@[0], old(state).x@[1], old(state).x@[2], r, *final(scheduler)),
{
    let mid = state.x[0];
    let process_pointer = state.x[1];
    let len = state.x[2];
    proof {
        if scheduler.pids().contains(pid) {
            assert(scheduler.metas()[proc_index(*scheduler, pid)].process.wf());
        }
    }
    let process = match scheduler.get_process_mut(pid) {
        Ok(p) => p,
        Err(_) => return SyscallOutcome::Done(None),
    };
    let buff = match process.message_store.read_message(mid, len as usize) {
        Ok(b) => b,
        Err(_) => return SyscallOutcome::Done(Some(Err(SyscallError { code: 1 }))),
    };
    SyscallOutcome::Transfer(UserTransfer::CopyOut { addr: process_pointer, data: buff })
}

/// What `read_message` comes to, and the scheduler after it: the message
/// store of the process has done the read.
pub open spec fn read_message_effect<M>(
    m0: RoundRobinScheduler<M>,
    pid: u64,
    mid: u64,
    addr: u64,
    len: u64,
    r: SyscallOutcome,
    m1: RoundRobinScheduler<M>,
) -> bool {
    if !m0.pids().contains(pid) {
        m1 == m0 && r == SyscallOutcome::Done(None)
    } else {
        let i = proc_index(m0, pid);
        let p0 = m0.metas()[i].process;
        let p1 = m1.metas()[i].process;
        let store = p0.message_store@;
        &&& only_process_changed(m0, m1, i)
        &&& p1.threads == p0.threads
        &&& p1.message_store.next_id() == p0.message_store.next_id()
        &&& if !store.contains_key(mid) {
            &&& r == SyscallOutcome::Done(Some(Err::<u64, SyscallError>(SyscallError { code: 1 })))
            &&& p1.message_store@ == store
        } else {
            let step = read_step(store[mid]@, len as usize as nat);
            &&& r matches SyscallOutcome::Transfer(UserTransfer::CopyOut { addr: a, data }) && a == addr && data@ == step.0
            &&& p1.message_store@.remove(mid) == store.remove(mid)
            &&& p1.message_store@.contains_key(mid) <==> !step.1
            &&& p1.message_store@.contains_key(mid) ==> p1.message_store@[mid]@ == step.2
        }
    }
}

/// The result of `read_message` once its bytes were (or failed to be) copied:
/// the number of bytes read, or error 2.
pub fn read_message_result(copied: bool, read: u64) -> (r: SyscallResult)
    ensures
        r == if copied { Some(Ok::<u64, SyscallError>(read)) } else { Some(Err(SyscallError { code: 2 })) },
{
    if !copied {
        Some(Err(SyscallError { code: 2 }))
    } else {
        Some(Ok(read))
    }
}

/// Prints `x1` bytes at `x0` in the calling process's memory. Without such a
/// process nothing is handed back; otherwise the print is to be performed
/// (see `uart_write_result`).
pub fn write_to_uart<M>(state: &mut State, pid: u64, scheduler: &RoundRobinScheduler<M>) -> (r: SyscallOutcome)
    requires
        scheduler.wf(),
    ensures
        *final(state) == *old(state),
        r == if scheduler.pids().contains(pid) {
            SyscallOutcome::Transfer(UserTransfer::Print { addr: old(state).x@[0], len: old(state).x@[1] })
        } else {
            SyscallOutcome::Done(None)
        },
{
    match scheduler.get_process(pid) {
        Ok(_) => SyscallOutcome::Transfer(UserTransfer::Print { addr: state.x[0], len: state.x[1] }),
        Err(_) => SyscallOutcome::Done(None),
    }
}

/// The result of `write_to_uart` once the caller's bytes were (or failed to
/// be) read: 0, or error 1.
pub fn uart_write_result(read_ok: bool) -> (r: SyscallResult)
    ensures
        r == if read_ok { Some(Ok::<u64, SyscallError>(0)) } else { Some(Err(SyscallError { code: 1 })) },
{
    if !read_ok {
        Some(Err(SyscallError { code: 1 }))
    } else {
        Some(Ok(0))
    }
}

/// How a call's outcome is completed by the dispatcher: a result goes to the
/// registers, a transfer is handed to the platform layer.
pub open spec fn dispatched(out: SyscallOutcome, x0: Seq<u64>, x1: Seq<u64>, r: Option<UserTransfer>) -> bool {
    match out {
        SyscallOutcome::Done(res) => r is None && x1 == result_regs(x0, res),
        SyscallOutcome::Transfer(t) => r == Some(t) && x1 == x0,
    }
}

/// Runs system call number `iss` for thread `tid` of process `pid`:
/// 0 does nothing, 1 is `write_to_uart`, 2 `exit`, 3 `read_message`, 4 hands
/// back the pid, 5 the tid, 6 is `spawn_thread` and 7 `kill_thread`; other
/// numbers do nothing. The result goes to `x0`; a transfer the call needs is
/// returned.
pub fn handle_syscall<M>(state: &mut State, iss: u64, pid: u64, tid: u64, scheduler: &mut RoundRobinScheduler<M>) -> (r: Option<UserTransfer>)
    requires
        old(scheduler).wf(),
        iss == 2 ==> old(scheduler).pids().contains(pid),
        iss == 6 && old(scheduler).pids().contains(pid) ==>
            old(scheduler).metas()[proc_index(*old(scheduler), pid)].process.threads.last_tid() < u64::MAX,
    ensures
        final(scheduler).wf(),
        final(state).elr == old(state).elr,
        iss == 0 || iss >= 8 ==> r is None && *final(state) == *old(state) && *final(scheduler) == *old(scheduler),
        iss == 1 ==> {
            &&& *final(scheduler) == *old(scheduler)
            &&& dispatched(
                if old(scheduler).pids().contains(pid) {
                    SyscallOutcome::Transfer(UserTransfer::Print { addr: old(state).x@[0], len: old(state).x@[1] })
                } else {
                    SyscallOutcome::Done(None)
                },
                old(state).x@, final(state).x@, r)
        },
        iss == 2 ==> {
            &&& r is None
            &&& final(state).x@ == old(state).x@.update(0, 1)
            &&& final(scheduler).robin() == old(scheduler).robin()
            &&& final(scheduler).metas() == old(scheduler).metas().remove(proc_index(*old(scheduler), pid))
        },
        iss == 3 ==> exists|out: SyscallOutcome| {
            &&& read_message_effect(*old(scheduler), pid, old(state).x@[0], old(state).x@[1], old(state).x@[2], out, *final(scheduler))
            &&& dispatched(out, old(state).x@, final(state).x@, r)
        },
        iss == 4 ==> r is None && final(state).x@ == old(state).x@.update(0, pid) && *final(scheduler) == *old(scheduler),
        iss == 5 ==> r is None && final(state).x@ == old(state).x@.update(0, tid) && *final(scheduler) == *old(scheduler),
        iss == 6 ==> {
            &&& r is None
            &&& final(state).x@ == result_regs(old(state).x@, spawn_thread_result(*old(scheduler), pid))
            &&& spawn_thread_effect(*old(scheduler), pid, old(state).x@[0], old(state).x@[1], *final(scheduler))
        },
        iss == 7 ==> {
            &&& r is None
            &&& final(state).x@ == result_regs(old(state).x@, kill_thread_result(*old(scheduler), pid, old(state).x@[0]))
            &&& kill_thread_effect(*old(scheduler), pid, old(state).x@[0], *final(scheduler))
        },
{
    let outcome = match iss {
        0 => SyscallOutcome::Done(None),
        1 => write_to_uart(state, pid, scheduler),
        2 => SyscallOutcome::Done(exit(state, pid, tid, scheduler)),
        3 => read_message(state, pid, scheduler),
        4 => SyscallOutcome::Done(Some(Ok(pid))),
        5 => SyscallOutcome::Done(Some(Ok(tid))),
        6 => SyscallOutcome::Done(spawn_thread(state, pid, tid, scheduler)),
        7 => SyscallOutcome::Done(kill_thread(state, pid, tid, scheduler)),
        _ => return None,
    };
    let ghost out = outcome;
    let ghost x0 = old(state).x@;
    match outcome {
        SyscallOutcome::Done(ret) => {
            syscall_call(state, ret);
            assert(dispatched(out, x0, state.x@, None));
            None
        },
        SyscallOutcome::Transfer(t) => {
            assert(dispatched(out, x0, state.x@, Some(t)));
            Some(t)
        },
    }
}

} // verus!
