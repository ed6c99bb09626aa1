//! The quick and dirty scheduler: at most one process, always under pid 0,
//! which is scheduled on its thread 0.
use vstd::prelude::*;
use std::collections::BTreeMap;
use crate::scheduler::{CpuSchedulerError, Process};
use crate::threads::SchedulerThread;

verus! {

pub struct QDScheduler<M> {
    processes: BTreeMap<u64, Process<M>>,
}

impl<M> View for QDScheduler<M> {
    type V = Map<u64, Process<M>>;

    closed spec fn view(&self) -> Map<u64, Process<M>> {
        self.processes@
    }
}

impl<M> QDScheduler<M> {
    /// The map is ordered and every process in it is well formed.
    pub closed spec fn wf(&self) -> bool {
        forall|pid: u64| #[trigger] self.processes@.contains_key(pid) ==> self.processes@[pid].wf()
    }

    pub fn new() -> (s: QDScheduler<M>)
        ensures
            s.wf(),
            s@ == Map::<u64, Process<M>>::empty(),
    {
        QDScheduler { processes: BTreeMap::new() }
    }

    /// Picks process 0 and its thread 0.
    pub fn schedule(&mut self) -> (r: Result<(u64, u64, SchedulerThread), CpuSchedulerError>)
        requires
            old(self).wf(),
            old(self)@.contains_key(0) ==> old(self)@[0].threads@.contains_key(0),
        ensures
            *final(self) == *old(self),
            match r {
                Ok((pid, tid, thread)) => {
                    &&& old(self)@.contains_key(0)
                    &&& pid == 0
                    &&& tid == 0
                    &&& thread == old(self)@[0].threads@[0]
                },
                Err(e) => !old(self)@.contains_key(0) && e == CpuSchedulerError::NoProcesses,
            },
    {
        match self.processes.get(&0) {
            None => Err(CpuSchedulerError::NoProcesses),
            Some(process) => match process.threads.get(0) {
                Ok(thread) => Ok((0, 0, *thread)),
                Err(_) => Err(CpuSchedulerError::NoProcesses),
            },
        }
    }

    /// Puts `process` under pid 0, in place of the process there.
    pub fn launch_process(&mut self, process: Process<M>) -> (r: Result<u64, CpuSchedulerError>)
        requires
            old(self).wf(),
            process.wf(),
        ensures
            final(self).wf(),
            r == Ok::<u64, CpuSchedulerError>(0),
            final(self)@ == old(self)@.insert(0, process),
    {
        let pid: u64 = 0;
        self.processes.insert(pid, process);
        Ok(pid)
    }

    /// Removes the process with pid `pid`.
    pub fn kill_process(&mut self, pid: u64) -> (r: Result<(), CpuSchedulerError>)
        requires
            old(self).wf(),
        ensures
            final(self).wf(),
            final(self)@ == old(self)@.remove(pid),
            r is Ok <==> old(self)@.contains_key(pid),
            r matches Err(e) ==> e == CpuSchedulerError::InvalidPid(pid),
    {
        match self.processes.remove(&pid) {
            Some(_) => Ok(()),
            None => Err(CpuSchedulerError::InvalidPid(pid)),
        }
    }
}

} // verus!
