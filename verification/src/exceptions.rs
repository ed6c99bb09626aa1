//! Decisions of the handler for synchronous exceptions taken from user
//! space: decoding the syndrome register, and switching to the next thread
//! once the exception is dealt with.
use vstd::prelude::*;
use crate::cpu_state::State;
use crate::scheduler::{ProcessMeta, RoundRobinScheduler};
use crate::syscalls::{only_process_changed, proc_index};
use crate::threads::SchedulerThread;

verus! {

/// Exception class of a supervisor call from AArch64 user space.
pub const EC_SVC64: u64 = 21;

/// Splits an exception syndrome into its exception class (bits 26 to 31) and
/// its instruction specific syndrome (bits 0 to 24).
pub fn decode_esr(esr: u64) -> (r: (u64, u64))
    ensures
        r.0 == (esr / 0x400_0000) % 0x40,
        r.1 == esr % 0x200_0000,
{
    let ec = (esr >> 26u64) & 0x3f;
    let iss = esr & 0x1FF_FFFF;
    assert((esr >> 26u64) & 0x3f == (esr / 0x400_0000) % 0x40) by (bit_vector);
    assert(esr & 0x1FF_FFFF == esr % 0x200_0000) by (bit_vector);
    (ec, iss)
}

/// The scheduler after the state a thread left user space with is recorded:
/// when the process and the thread exist the thread now holds `state`,
/// otherwise nothing changed.
pub open spec fn state_reported<M>(m0: RoundRobinScheduler<M>, pid: u64, tid: u64, state: State, m1: RoundRobinScheduler<M>) -> bool {
    if m0.pids().contains(pid) && m0.metas()[proc_index(m0, pid)].process.threads@.contains_key(tid) {
        let i = proc_index(m0, pid);
        let p0 = m0.metas()[i].process;
        let p1 = m1.metas()[i].process;
        &&& only_process_changed(m0, m1, i)
        &&& p1.threads@ == p0.threads@.insert(tid, SchedulerThread { state })
        &&& p1.threads.last_tid() == p0.threads.last_tid()
        &&& p1.message_store == p0.message_store
    } else {
        m1.metas() == m0.metas() && m1.robin() == m0.robin()
    }
}

/// Recording the state a thread left user space with stores that whole
/// state (every register and the return address) as the thread of that
/// process, under its id; the process keeps its pid, its other threads and
/// its messages, and no other process changes. Where the process or the
/// thread does not exist, nothing changes.
pub proof fn lemma_reported_state_is_stored<M>(m0: RoundRobinScheduler<M>, pid: u64, tid: u64, state: State, m1: RoundRobinScheduler<M>)
    requires
        m0.wf(),
        state_reported(m0, pid, tid, state, m1),
    ensures
        m0.pids().contains(pid) && m0.metas()[proc_index(m0, pid)].process.threads@.contains_key(tid) ==> {
            let i = proc_index(m0, pid);
            let before = m0.metas()[i].process.threads@;
            let after = m1.metas()[i].process.threads@;
            &&& m1.metas()[i].pid == pid
            &&& after[tid] == SchedulerThread { state }
            &&& after[tid].state.x@ == state.x@
            &&& after[tid].state.elr == state.elr
            &&& after.dom() == before.dom()
            &&& forall|u: u64| #[trigger] before.contains_key(u) && u != tid ==> after[u] == before[u]
            &&& m1.metas()[i].process.message_store == m0.metas()[i].process.message_store
            &&& forall|j: int| 0 <= j < m0.metas().len() && j != i ==> #[trigger] m1.metas()[j] == m0.metas()[j]
        },
        !(m0.pids().contains(pid) && m0.metas()[proc_index(m0, pid)].process.threads@.contains_key(tid)) ==>
            m1.metas() == m0.metas() && m1.robin() == m0.robin(),
{
    if m0.pids().contains(pid) && m0.metas()[proc_index(m0, pid)].process.threads@.contains_key(tid) {
        let i = proc_index(m0, pid);
        assert(m0.pids()[i] == pid);
        let before = m0.metas()[i].process.threads@;
        let after = m1.metas()[i].process.threads@;
        assert(after.dom() =~= before.dom());
    }
}

/// Records the state thread `tid` of process `pid` left user space with,
/// schedules the next thread, loads its state, and returns its pid and tid.
pub fn switch_thread<M>(scheduler: &mut RoundRobinScheduler<M>, state: &mut State, pid: u64, tid: u64) -> (r: (u64, u64))
    requires
        old(scheduler).wf(),
        old(scheduler).metas().len() > 0,
        old(scheduler).metas()[old(scheduler).next_index()].process.threads@.len() > 0,
    ensures
        final(scheduler).wf(),
        exists|m1: RoundRobinScheduler<M>| {
            let i = m1.next_index();
            let m = m1.metas()[i];
            let t = (m.tid_robin + 1) % (m.process.threads@.len() as int);
            &&& #[trigger] state_reported(*old(scheduler), pid, tid, *old(state), m1)
            &&& (old(scheduler).pids().contains(pid)
                && old(scheduler).metas()[proc_index(*old(scheduler), pid)].process.threads@.contains_key(tid)
                ==> m1.metas()[proc_index(*old(scheduler), pid)].process.threads@[tid].state == *old(state))
            &&& r == (m.pid, m.process.threads.entries()[t].0)
            &&& *final(state) == m.process.threads.entries()[t].1.state
            &&& final(scheduler).robin() == i
            &&& final(scheduler).metas() == m1.metas().update(i, ProcessMeta { tid_robin: t as usize, ..m })
        },
{
    proof {
        if scheduler.pids().contains(pid) {
            assert(scheduler.metas()[proc_index(*scheduler, pid)].process.wf());
        }
    }
    let ghost m0 = *scheduler;
    if let Ok(proc) = scheduler.get_process_mut(pid) {
        let _ = proc.threads.report_thread_state(tid, *state);
    }
    let ghost m1 = *scheduler;
    proof {
        if m0.pids().contains(pid) && !m0.metas()[proc_index(m0, pid)].process.threads@.contains_key(tid) {
            assert(m1.metas() =~= m0.metas());
        }
    }
    assert(state_reported(m0, pid, tid, *old(state), m1));
    proof {
        let j = m0.next_index();
        assert(m1.metas().len() == m0.metas().len());
        if m0.pids().contains(pid) && j == proc_index(m0, pid) {
            let t0 = m0.metas()[j].process.threads;
            let t1 = m1.metas()[j].process.threads;
            if t0@.contains_key(tid) {
                assert(t1@.dom() =~= t0@.dom());
            }
        }
    }
    let (next_pid, next_tid, thread) = match scheduler.schedule() {
        Ok(ok) => ok,
        Err(_) => return (pid, tid),
    };
    *state = thread.state;
    (next_pid, next_tid)
}

} // verus!
