//! Processes and the round-robin scheduler that picks the next thread to run.
use vstd::prelude::*;
use crate::messages::{greeting, MessageStore};
use crate::rng::{advance_n, nth_draw, Rng};
use crate::threads::{SchedulerThread, ThreadStore, Tid};

verus! {

/// Errors of the scheduler.
#[derive(Debug, PartialEq, Eq, Structural)]
pub enum CpuSchedulerError {
    /// No process has the given pid.
    InvalidPid(u64),
    /// No thread has the given tid.
    InvalidTid(u64),
    /// There is no process to schedule.
    NoProcesses,
    /// The memory of a process could not be set up.
    ProcessMemoryError,
}

/// A process: its messages, its threads, and the address space `memory`
/// (the translation tables and the memory of its segments) that the
/// platform layer builds and activates.
pub struct Process<M> {
    pub message_store: MessageStore,
    pub threads: ThreadStore,
    pub memory: M,
}

impl<M> Process<M> {
    pub open spec fn wf(&self) -> bool {
        self.message_store.wf() && self.threads.wf()
    }

    /// A freshly loaded process: the initial message store and one thread,
    /// id 1, that starts at `start_address`.
    pub fn with_entry(start_address: u64, memory: M) -> (p: Process<M>)
        ensures
            p.wf(),
            p.threads@ == Map::<Tid, SchedulerThread>::empty().insert(1, p.threads@[1]),
            p.threads@[1].state.elr == start_address,
            forall|i: int| 0 <= i < 30 ==> p.threads@[1].state.x@[i] == 0,
            p.threads.last_tid() == 1,
            p.message_store.next_id() == 0,
            p.message_store@.dom() == set![0u64],
            p.message_store@[0]@ == (greeting(), 0nat),
            p.memory == memory,
    {
        let mut threads = ThreadStore::new();
        threads.spawn(SchedulerThread::at(start_address));
        Process { message_store: MessageStore::new(), threads, memory }
    }
}

/// A scheduled process: its pid, the position of the thread it ran last
/// (in thread-id order), and the process.
pub struct ProcessMeta<M> {
    pub pid: u64,
    pub tid_robin: usize,
    pub process: Process<M>,
}

impl<M> ProcessMeta<M> {
    /// Moves on to the next thread position, wrapping around.
    fn get_next_robin(&mut self) -> (robin: usize)
        requires
            old(self).process.wf(),
            old(self).tid_robin < usize::MAX,
            old(self).process.threads@.len() > 0,
        ensures
            robin == (old(self).tid_robin + 1) % (old(self).process.threads@.len() as int),
            *final(self) == (ProcessMeta { tid_robin: robin, ..*old(self) }),
    {
        let mut robin = self.tid_robin + 1;
        robin = robin % self.process.threads.len();
        self.tid_robin = robin;
        robin
    }
}

/// Round-robin scheduling over processes, and over the threads of each
/// process in thread-id order.
pub struct RoundRobinScheduler<M> {
    processes: Vec<ProcessMeta<M>>,
    current_robin: usize,
}

impl<M> RoundRobinScheduler<M> {
    /// The scheduled processes in launch order.
    pub closed spec fn metas(&self) -> Seq<ProcessMeta<M>> {
        self.processes@
    }

    /// The position of the process scheduled last.
    pub closed spec fn robin(&self) -> usize {
        self.current_robin
    }

    /// The pids in launch order.
    pub open spec fn pids(&self) -> Seq<u64> {
        self.metas().map_values(|m: ProcessMeta<M>| m.pid)
    }

    /// Pids are unique, every process is well formed, and the positions can
    /// be moved on without overflow.
    pub open spec fn wf(&self) -> bool {
        &&& forall|i: int, j: int| 0 <= i < j < self.metas().len() ==> self.metas()[i].pid != self.metas()[j].pid
        &&& forall|i: int| 0 <= i < self.metas().len() ==> #[trigger] self.metas()[i].process.wf()
        &&& forall|i: int| 0 <= i < self.metas().len() ==> #[trigger] self.metas()[i].tid_robin < usize::MAX
        &&& self.robin() < usize::MAX
    }

    /// The position `schedule` picks next.
    pub open spec fn next_index(&self) -> int {
        (self.robin() + 1) % (self.metas().len() as int)
    }

    pub fn new() -> (s: RoundRobinScheduler<M>)
        ensures
            s.wf(),
            s.metas() == Seq::<ProcessMeta<M>>::empty(),
            s.robin() == 0,
    {
        RoundRobinScheduler { processes: Vec::new(), current_robin: 0 }
    }

    /// Moves on to the next process position, wrapping around; `None` when
    /// there is no process.
    fn get_next_robin(&mut self) -> (r: Option<usize>)
        requires
            old(self).wf(),
        ensures
            old(self).metas().len() == 0 ==> r is None && *final(self) == *old(self),
            old(self).metas().len() > 0 ==> {
                &&& r == Some(old(self).next_index() as usize)
                &&& final(self).robin() == old(self).next_index()
                &&& final(self).metas() == old(self).metas()
            },
            final(self).wf(),
    {
        let mut robin = self.current_robin + 1;
        robin = if self.processes.len() != 0 {
            robin % self.processes.len()
        } else {
            return None;
        };
        self.current_robin = robin;
        Some(robin)
    }

    /// Whether `schedule` can run: there is a process, and the one it picks
    /// next has a thread.
    pub fn can_schedule(&self) -> (b: bool)
        requires
            self.wf(),
        ensures
            b == (self.metas().len() > 0 && self.metas()[self.next_index()].process.threads@.len() > 0),
    {
        if self.processes.len() == 0 {
            return false;
        }
        let i = (self.current_robin + 1) % self.processes.len();
        assert(self.metas()[i as int].process.wf());
        self.processes[i].process.threads.len() > 0
    }

    /// Whether some process has pid `looking_for`.
    pub fn has_pid(&self, looking_for: u64) -> (b: bool)
        ensures
            b == self.pids().contains(looking_for),
    {
        let mut i: usize = 0;
        while i < self.processes.len()
            invariant
                i <= self.metas().len(),
                forall|j: int| 0 <= j < i ==> self.metas()[j].pid != looking_for,
            decreases self.metas().len() - i,
        {
            if self.processes[i].pid == looking_for {
                assert(self.pids()[i as int] == looking_for);
                return true;
            }
            i = i + 1;
        }
        proof {
            if self.pids().contains(looking_for) {
                let j = self.pids().index_of(looking_for);
                assert(self.metas()[j].pid == looking_for);
            }
        }
        false
    }

    /// The position of the last process with pid `pid`.
    fn get_index_by_pid(&self, pid: u64) -> (r: Option<usize>)
        ensures
            match r {
                Some(i) => {
                    &&& i < self.metas().len()
                    &&& self.metas()[i as int].pid == pid
                    &&& forall|j: int| i < j < self.metas().len() ==> self.metas()[j].pid != pid
                },
                None => !self.pids().contains(pid),
            },
    {
        let mut index: Option<usize> = None;
        let mut i: usize = 0;
        while i < self.processes.len()
            invariant
                i <= self.metas().len(),
                match index {
                    Some(k) => k < i && self.metas()[k as int].pid == pid
                        && forall|j: int| k < j < i ==> self.metas()[j].pid != pid,
                    None => forall|j: int| 0 <= j < i ==> self.metas()[j].pid != pid,
                },
            decreases self.metas().len() - i,
        {
            if self.processes[i].pid == pid {
                index = Some(i);
            }
            i = i + 1;
        }
        proof {
            if index is None && self.pids().contains(pid) {
                let j = self.pids().index_of(pid);
                assert(self.metas()[j].pid == pid);
            }
        }
        index
    }

    pub fn get_process(&self, pid: u64) -> (r: Result<&Process<M>, CpuSchedulerError>)
        requires
            self.wf(),
        ensures
            match r {
                Ok(p) => self.pids().contains(pid) && *p == self.metas()[self.pids().index_of(pid)].process,
                Err(e) => !self.pids().contains(pid) && e == CpuSchedulerError::InvalidPid(pid),
            },
    {
        let mut i: usize = 0;
        while i < self.processes.len()
            invariant
                self.wf(),
                i <= self.metas().len(),
                forall|j: int| 0 <= j < i ==> self.metas()[j].pid != pid,
            decreases self.metas().len() - i,
        {
            if self.processes[i].pid == pid {
                proof {
                    self.lemma_pid_position(i as int);
                }
                return Ok(&self.processes[i].process);
            }
            i = i + 1;
        }
        proof {
            if self.pids().contains(pid) {
                let j = self.pids().index_of(pid);
                assert(self.metas()[j].pid == pid);
            }
        }
        Err(CpuSchedulerError::InvalidPid(pid))
    }

    /// With unique pids, the position holding `pid` is its index in `pids`.
    pub proof fn lemma_pid_position(&self, i: int)
        requires
            self.wf(),
            0 <= i < self.metas().len(),
        ensures
            self.pids().contains(self.metas()[i].pid),
            self.pids().index_of(self.metas()[i].pid) == i,
    {
        let pid = self.metas()[i].pid;
        assert(self.pids()[i] == pid);
        let j = self.pids().index_of(pid);
        assert(self.metas()[j].pid == pid);
        if j < i {
            assert(self.metas()[j].pid != self.metas()[i].pid);
        } else if i < j {
            assert(self.metas()[i].pid != self.metas()[j].pid);
        }
    }

    pub fn get_process_mut(&mut self, pid: u64) -> (r: Result<&mut Process<M>, CpuSchedulerError>)
        requires
            old(self).wf(),
        ensures
            match r {
                Ok(p) => {
                    let i = old(self).pids().index_of(pid);
                    &&& old(self).pids().contains(pid)
                    &&& *p == old(self).metas()[i].process
                    &&& final(self).robin() == old(self).robin()
                    &&& final(self).metas() == old(self).metas().update(i, ProcessMeta { process: *final(p), ..old(self).metas()[i] })
                    &&& final(p).wf() ==> final(self).wf()
                },
                Err(e) => {
                    &&& !old(self).pids().contains(pid)
                    &&& e == CpuSchedulerError::InvalidPid(pid)
                    &&& *final(self) == *old(self)
                },
            },
    {
        match self.get_index_by_pid(pid) {
            Some(i) => {
                proof {
                    self.lemma_pid_position(i as int);
                }
                let meta = &mut self.processes[i];
                Ok(&mut meta.process)
            },
            None => Err(CpuSchedulerError::InvalidPid(pid)),
        }
    }

    /// Picks the next process in round-robin order, moves that process on to
    /// its next thread (in thread-id order, wrapping around), and returns the
    /// pid, the thread id and the thread.
    pub fn schedule(&mut self) -> (r: Result<(u64, u64, SchedulerThread), CpuSchedulerError>)
        requires
            old(self).wf(),
            old(self).metas().len() > 0 ==> old(self).metas()[old(self).next_index()].process.threads@.len() > 0,
        ensures
            final(self).wf(),
            match r {
                Ok((pid, tid, thread)) => {
                    let i = old(self).next_index();
                    let m = old(self).metas()[i];
                    let t = (m.tid_robin + 1) % (m.process.threads@.len() as int);
                    &&& old(self).metas().len() > 0
                    &&& pid == m.pid
                    &&& (tid, thread) == m.process.threads.entries()[t]
                    &&& final(self).robin() == i
                    &&& final(self).metas() == old(self).metas().update(i, ProcessMeta { tid_robin: t as usize, ..m })
                },
                Err(e) => {
                    &&& old(self).metas().len() == 0
                    &&& e == CpuSchedulerError::NoProcesses
                    &&& *final(self) == *old(self)
                },
            },
    {
        let index = match self.get_next_robin() {
            Some(i) => i,
            None => return Err(CpuSchedulerError::NoProcesses),
        };
        assert(self.metas()[index as int].process.wf());
        let ghost m1 = self.metas();
        let (pid, tid, thread) = {
            let procmeta = &mut self.processes[index];
            let robin = procmeta.get_next_robin();
            let entries = procmeta.process.threads.iter();
            proof {
                procmeta.process.threads.lemma_entries();
            }
            let (tid, thread) = entries[robin];
            (procmeta.pid, tid, thread)
        };
        proof {
            assert forall|a: int, b: int| 0 <= a < b < self.metas().len() implies self.metas()[a].pid != self.metas()[b].pid by {
                assert(self.metas()[a].pid == m1[a].pid);
                assert(self.metas()[b].pid == m1[b].pid);
            }
            assert forall|a: int| 0 <= a < self.metas().len() implies #[trigger] self.metas()[a].process.wf() by {
                assert(self.metas()[a].process == m1[a].process);
            }
        }
        Ok((pid, tid, thread))
    }

    /// Adds `process` under a pid drawn from `rng`: draws are repeated while
    /// the value drawn is the pid of a scheduled process.
    pub fn launch_process<R: Rng>(&mut self, process: Process<M>, rng: &mut R) -> (r: Result<u64, CpuSchedulerError>)
        requires
            old(self).wf(),
            process.wf(),
            exists|n: nat| !old(self).pids().contains(#[trigger] nth_draw(*old(rng), n)),
        ensures
            final(self).wf(),
            final(self).robin() == old(self).robin(),
            match r {
                Ok(pid) => exists|k: nat| {
                    &&& pid == nth_draw(*old(rng), k)
                    &&& !old(self).pids().contains(pid)
                    &&& forall|j: nat| j < k ==> old(self).pids().contains(#[trigger] nth_draw(*old(rng), j))
                    &&& *final(rng) == advance_n(*old(rng), k + 1)
                    &&& final(self).metas() == old(self).metas().push(ProcessMeta { pid, tid_robin: 0, process })
                },
                Err(_) => false,
            },
    {
        let ghost r0 = *rng;
        let ghost n = choose|n: nat| !self.pids().contains(#[trigger] nth_draw(r0, n));
        let mut pid = rng.rand_u64();
        let ghost mut k: nat = 0;
        assert(advance_n(r0, 1) == advance_n(r0, 0).advanced());
        while self.has_pid(pid)
            invariant
                *self == *old(self),
                pid == nth_draw(r0, k),
                *rng == advance_n(r0, k + 1),
                k <= n,
                !self.pids().contains(nth_draw(r0, n)),
                forall|j: nat| j < k ==> self.pids().contains(#[trigger] nth_draw(r0, j)),
            decreases n - k,
        {
            pid = rng.rand_u64();
            proof {
                k = k + 1;
                assert(advance_n(r0, k + 1) == advance_n(r0, k).advanced());
            }
        }
        let ghost old_metas = self.metas();
        self.processes.push(ProcessMeta { pid, tid_robin: 0, process });
        proof {
            assert forall|a: int, b: int| 0 <= a < b < self.metas().len() implies self.metas()[a].pid != self.metas()[b].pid by {
                if b == old_metas.len() {
                    assert(old_metas[a].pid == self.pids()[a]);
                    assert(self.pids()[a] == old(self).pids()[a]);
                }
            }
        }
        Ok(pid)
    }

    /// Removes the process with pid `pid` (the last one, should pids repeat).
    pub fn kill_process(&mut self, pid: u64) -> (r: Result<(), CpuSchedulerError>)
        requires
            old(self).wf(),
        ensures
            final(self).wf(),
            final(self).robin() == old(self).robin(),
            match r {
                Ok(()) => {
                    &&& old(self).pids().contains(pid)
                    &&& final(self).metas() == old(self).metas().remove(old(self).pids().index_of(pid))
                    &&& !final(self).pids().contains(pid)
                },
                Err(e) => {
                    &&& !old(self).pids().contains(pid)
                    &&& e == CpuSchedulerError::InvalidPid(pid)
                    &&& *final(self) == *old(self)
                },
            },
    {
        let index = match self.get_index_by_pid(pid) {
            Some(i) => i,
            None => return Err(CpuSchedulerError::InvalidPid(pid)),
        };
        proof {
            self.lemma_pid_position(index as int);
            self.metas().remove_ensures(index as int);
        }
        self.processes.remove(index);
        proof {
            assert forall|k: int| 0 <= k < self.metas().len() implies self.metas()[k].pid != pid by {
                if k < index {
                    assert(old(self).metas()[k].pid != old(self).metas()[index as int].pid);
                } else {
                    assert(old(self).metas()[index as int].pid != old(self).metas()[k + 1].pid);
                }
            }
            if self.pids().contains(pid) {
                let j = self.pids().index_of(pid);
                assert(self.metas()[j].pid == pid);
            }
        }
        Ok(())
    }
}

/// A launched process is found under its pid, and every process scheduled
/// before keeps its pid, its position and its state.
pub proof fn lemma_launch_then_get<M>(
    before: RoundRobinScheduler<M>,
    after: RoundRobinScheduler<M>,
    pid: u64,
    process: Process<M>,
)
    requires
        before.wf(),
        after.wf(),
        !before.pids().contains(pid),
        after.metas() == before.metas().push(ProcessMeta { pid, tid_robin: 0, process }),
    ensures
        after.pids().contains(pid),
        after.metas()[after.pids().index_of(pid)].process == process,
        forall|q: u64| #[trigger] before.pids().contains(q) ==> {
            &&& after.pids().contains(q)
            &&& after.pids().index_of(q) == before.pids().index_of(q)
            &&& after.metas()[after.pids().index_of(q)] == before.metas()[before.pids().index_of(q)]
        },
{
    let n = before.metas().len() as int;
    after.lemma_pid_position(n);
    assert forall|q: u64| #[trigger] before.pids().contains(q) implies {
        &&& after.pids().contains(q)
        &&& after.pids().index_of(q) == before.pids().index_of(q)
        &&& after.metas()[after.pids().index_of(q)] == before.metas()[before.pids().index_of(q)]
    } by {
        let i = before.pids().index_of(q);
        assert(before.pids()[i] == q);
        after.lemma_pid_position(i);
        assert(after.metas()[i] == before.metas()[i]);
    }
}

/// A killed process is no longer found, and every other process keeps its
/// pid and its state.
pub proof fn lemma_kill_keeps_others<M>(before: RoundRobinScheduler<M>, after: RoundRobinScheduler<M>, pid: u64)
    requires
        before.wf(),
        after.wf(),
        before.pids().contains(pid),
        after.metas() == before.metas().remove(before.pids().index_of(pid)),
    ensures
        !after.pids().contains(pid),
        forall|q: u64| #[trigger] before.pids().contains(q) && q != pid ==> {
            &&& after.pids().contains(q)
            &&& after.metas()[after.pids().index_of(q)] == before.metas()[before.pids().index_of(q)]
        },
{
    let k = before.pids().index_of(pid);
    assert(before.pids()[k] == pid);
    before.lemma_pid_position(k);
    before.metas().remove_ensures(k);
    if after.pids().contains(pid) {
        let j = after.pids().index_of(pid);
        assert(after.pids()[j] == pid);
        if j < k {
            assert(before.metas()[j].pid != before.metas()[k].pid);
        } else {
            assert(before.metas()[k].pid != before.metas()[j + 1].pid);
        }
    }
    assert forall|q: u64| #[trigger] before.pids().contains(q) && q != pid implies {
        &&& after.pids().contains(q)
        &&& after.metas()[after.pids().index_of(q)] == before.metas()[before.pids().index_of(q)]
    } by {
        let i = before.pids().index_of(q);
        assert(before.pids()[i] == q);
        before.lemma_pid_position(i);
        assert(i != k);
        let j = if i < k { i } else { i - 1 };
        assert(after.metas()[j] == before.metas()[i]);
        assert(after.pids()[j] == q);
        after.lemma_pid_position(j);
    }
}

} // verus!
