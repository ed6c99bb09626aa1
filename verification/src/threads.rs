//! The threads of a process, kept under thread ids that are handed out in
//! increasing order and never reused.
use vstd::prelude::*;
use crate::cpu_state::State;
use crate::ordered_map::OrderedMap;

verus! {

/// Thread id.
pub type Tid = u64;

/// Errors of the thread store.
#[derive(Debug, PartialEq, Eq, Structural)]
pub enum ThreadError {
    /// No thread has the given id.
    InvalidTid,
}

impl ThreadError {
    /// The message the error is displayed with.
    pub fn message(&self) -> (m: &'static str)
        ensures
            m@ == "Invalid Tid"@,
    {
        "Invalid Tid"
    }
}

/// A thread as the scheduler keeps it: the user-space state it resumes with.
#[derive(Clone, Copy)]
pub struct SchedulerThread {
    pub state: State,
}

impl SchedulerThread {
    /// A thread that starts executing at `location` with every register zero.
    pub fn at(location: u64) -> (t: SchedulerThread)
        ensures
            t.state.elr == location,
            forall|i: int| 0 <= i < 30 ==> t.state.x@[i] == 0,
    {
        SchedulerThread { state: State { elr: location, ..State::default() } }
    }
}

impl Default for SchedulerThread {
    fn default() -> (t: SchedulerThread)
        ensures
            t.state.elr == 0,
            forall|i: int| 0 <= i < 30 ==> t.state.x@[i] == 0,
    {
        SchedulerThread { state: State::default() }
    }
}

/// The threads of one process, by thread id.
#[derive(Clone)]
pub struct ThreadStore {
    running_tid: Tid,
    threads: OrderedMap<SchedulerThread>,
}

impl View for ThreadStore {
    type V = Map<Tid, SchedulerThread>;

    closed spec fn view(&self) -> Map<Tid, SchedulerThread> {
        self.threads@
    }
}

impl ThreadStore {
    /// The last thread id handed out (0 before the first spawn).
    pub closed spec fn last_tid(&self) -> Tid {
        self.running_tid
    }

    /// The threads in increasing thread-id order.
    pub closed spec fn entries(&self) -> Seq<(Tid, SchedulerThread)> {
        self.threads.entries()
    }

    /// Well-formedness: ids are ordered and none exceeds the last id handed out.
    pub closed spec fn wf(&self) -> bool {
        &&& self.threads.wf()
        &&& forall|i: int| 0 <= i < self.threads.keys@.len() ==> self.threads.keys@[i] <= self.running_tid
    }

    /// The ordered entries list exactly the threads of the store, each once,
    /// in strictly increasing id order.
    pub proof fn lemma_entries(&self)
        requires
            self.wf(),
        ensures
            self.entries().len() == self@.len(),
            self@.dom().finite(),
            forall|i: int, j: int| 0 <= i < j < self.entries().len() ==> self.entries()[i].0 < self.entries()[j].0,
            forall|i: int| 0 <= i < self.entries().len() ==> {
                &&& #[trigger] self@.contains_key(self.entries()[i].0)
                &&& self@[self.entries()[i].0] == self.entries()[i].1
            },
            forall|t: Tid| #[trigger] self@.contains_key(t) ==> exists|i: int|
                0 <= i < self.entries().len() && self.entries()[i].0 == t,
            forall|t: Tid| #[trigger] self@.contains_key(t) ==> 0 < t <= self.last_tid() || t == 0,
    {
        self.threads.lemma_dom_len();
        assert forall|i: int| 0 <= i < self.entries().len() implies {
            &&& #[trigger] self@.contains_key(self.entries()[i].0)
            &&& self@[self.entries()[i].0] == self.entries()[i].1
        } by {
            self.threads.lemma_position(i);
        }
        assert forall|t: Tid| #[trigger] self@.contains_key(t) implies exists|i: int|
            0 <= i < self.entries().len() && self.entries()[i].0 == t by {
            let i = self.threads.keys@.index_of(t);
            assert(self.entries()[i].0 == t);
        }
    }

    pub fn new() -> (s: ThreadStore)
        ensures
            s.wf(),
            s@ == Map::<Tid, SchedulerThread>::empty(),
            s.last_tid() == 0,
    {
        ThreadStore { running_tid: 0, threads: OrderedMap::new() }
    }

    /// Hands out the next thread id.
    fn next_tid(&mut self) -> (t: Tid)
        requires
            old(self).last_tid() < u64::MAX,
        ensures
            t == old(self).last_tid() + 1,
            final(self).last_tid() == t,
            final(self).threads == old(self).threads,
    {
        self.running_tid = self.running_tid + 1;
        return self.running_tid;
    }

    /// The threads with their ids, in increasing id order.
    pub fn iter(&self) -> (r: Vec<(Tid, SchedulerThread)>)
        requires
            self.wf(),
        ensures
            r@ == self.entries(),
    {
        let mut r: Vec<(Tid, SchedulerThread)> = Vec::new();
        let mut i: usize = 0;
        while i < self.threads.keys.len()
            invariant
                self.wf(),
                i <= self.threads.keys@.len(),
                r@ == self.entries().subrange(0, i as int),
            decreases self.threads.keys@.len() - i,
        {
            r.push((self.threads.keys[i], self.threads.vals[i]));
            i = i + 1;
            assert(r@ =~= self.entries().subrange(0, i as int));
        }
        assert(r@ =~= self.entries());
        r
    }

    /// The threads, in increasing id order, for in-place update; the ids stay.
    pub fn iter_mut(&mut self) -> (r: &mut [SchedulerThread])
        requires
            old(self).wf(),
        ensures
            r@.len() == old(self).entries().len(),
            forall|i: int| 0 <= i < r@.len() ==> r@[i] == old(self).entries()[i].1,
            final(r)@.len() == r@.len() ==> {
                &&& final(self).wf()
                &&& final(self).last_tid() == old(self).last_tid()
                &&& final(self).entries().len() == old(self).entries().len()
                &&& forall|i: int| 0 <= i < final(r)@.len() ==> final(self).entries()[i] == (old(self).entries()[i].0, final(r)@[i])
            },
    {
        self.threads.vals.as_mut_slice()
    }

    pub fn get(&self, tid: Tid) -> (r: Result<&SchedulerThread, ThreadError>)
        requires
            self.wf(),
        ensures
            match r {
                Ok(t) => self@.contains_key(tid) && *t == self@[tid],
                Err(e) => !self@.contains_key(tid) && e == ThreadError::InvalidTid,
            },
    {
        match self.threads.get(tid) {
            Some(t) => Ok(t),
            None => Err(ThreadError::InvalidTid),
        }
    }

    pub fn get_mut(&mut self, tid: Tid) -> (r: Result<&mut SchedulerThread, ThreadError>)
        requires
            old(self).wf(),
        ensures
            match r {
                Ok(t) => {
                    &&& old(self)@.contains_key(tid)
                    &&& *t == old(self)@[tid]
                    &&& final(self).wf()
                    &&& final(self).last_tid() == old(self).last_tid()
                    &&& final(self)@ == old(self)@.insert(tid, *final(t))
                },
                Err(e) => {
                    &&& !old(self)@.contains_key(tid)
                    &&& e == ThreadError::InvalidTid
                    &&& *final(self) == *old(self)
                },
            },
    {
        match self.threads.get_mut(tid) {
            Some(t) => Ok(t),
            None => Err(ThreadError::InvalidTid),
        }
    }

    pub fn remove(&mut self, tid: Tid) -> (r: Result<(), ThreadError>)
        requires
            old(self).wf(),
        ensures
            final(self).wf(),
            final(self)@ == old(self)@.remove(tid),
            final(self).last_tid() == old(self).last_tid(),
            r is Ok <==> old(self)@.contains_key(tid),
            r matches Err(e) ==> e == ThreadError::InvalidTid,
    {
        let ghost old_self = *self;
        let removed = self.threads.remove(tid);
        proof {
            self.lemma_keys_bounded(old_self);
        }
        match removed {
            Some(_) => Ok(()),
            None => Err(ThreadError::InvalidTid),
        }
    }

    /// After a removal, the keys that remain were keys before.
    proof fn lemma_keys_bounded(&self, before: ThreadStore)
        requires
            before.wf(),
            self.threads.wf(),
            self.running_tid == before.running_tid,
            self.threads@.dom().subset_of(before.threads@.dom()),
        ensures
            self.wf(),
    {
        assert forall|i: int| 0 <= i < self.threads.keys@.len() implies self.threads.keys@[i] <= self.running_tid by {
            let k = self.threads.keys@[i];
            assert(self.threads@.contains_key(k));
            let j = before.threads.keys@.index_of(k);
            assert(before.threads.keys@.contains(k));
        }
    }

    /// Adds a thread under a fresh id, larger than every id handed out
    /// before, and returns that id.
    pub fn spawn(&mut self, thread: SchedulerThread) -> (t: Tid)
        requires
            old(self).wf(),
            old(self).last_tid() < u64::MAX,
        ensures
            final(self).wf(),
            t == old(self).last_tid() + 1,
            !old(self)@.contains_key(t),
            final(self).last_tid() == t,
            final(self)@ == old(self)@.insert(t, thread),
            final(self).entries() == old(self).entries().push((t, thread)),
    {
        let ghost old_self = *self;
        let tid = self.next_tid();
        proof {
            assert(!self.threads.keys@.contains(tid)) by {
                if self.threads.keys@.contains(tid) {
                    let j = self.threads.keys@.index_of(tid);
                    assert(self.threads.keys@[j] <= old_self.running_tid);
                }
            }
        }
        proof {
            assert forall|j: int| 0 <= j < self.threads.keys@.len() implies self.threads.keys@[j] < tid by {
                assert(old_self.threads.keys@[j] <= old_self.running_tid);
            }
        }
        self.threads.insert(tid, thread);
        proof {
            self.lemma_appended(old_self, tid, thread);
        }
        tid
    }

    /// Records the state a thread left user space with.
    pub fn report_thread_state(&mut self, tid: u64, state: State) -> (r: Result<(), ThreadError>)
        requires
            old(self).wf(),
        ensures
            final(self).wf(),
            final(self).last_tid() == old(self).last_tid(),
            r is Ok <==> old(self)@.contains_key(tid),
            r is Ok ==> final(self)@ == old(self)@.insert(tid, SchedulerThread { state }),
            r matches Err(e) ==> e == ThreadError::InvalidTid && *final(self) == *old(self),
    {
        let thread = match self.get_mut(tid) {
            Ok(t) => t,
            Err(e) => return Err(e),
        };
        thread.state = state;
        Ok(())
    }

    /// The id handed to the thread spawned last (0 before any).
    pub fn running_tid(&self) -> (t: Tid)
        ensures
            t == self.last_tid(),
    {
        self.running_tid
    }

    /// The number of threads.
    pub fn len(&self) -> (n: usize)
        requires
            self.wf(),
        ensures
            n == self@.len(),
    {
        self.threads.len()
    }

    /// Inserting an id larger than all others appends the entry.
    proof fn lemma_appended(&self, before: ThreadStore, tid: Tid, thread: SchedulerThread)
        requires
            before.wf(),
            self.threads.wf(),
            tid == before.running_tid + 1,
            self.running_tid == tid,
            self.threads.keys@ == before.threads.keys@.push(tid),
            self.threads.vals@ == before.threads.vals@.push(thread),
        ensures
            self.wf(),
            self.entries() == before.entries().push((tid, thread)),
    {
        assert(self.entries() =~= before.entries().push((tid, thread)));
    }
}

/// Step `k` of `states` keeps the last id handed out or moves it on by one,
/// as every operation of the store does (`spawn` moves it on, the others
/// keep it).
pub open spec fn id_step_at(states: Seq<ThreadStore>, k: int) -> bool {
    ||| states[k].last_tid() == states[k - 1].last_tid()
    ||| states[k].last_tid() == states[k - 1].last_tid() + 1
}

proof fn lemma_last_tid_monotone(states: Seq<ThreadStore>, i: int, j: int)
    requires
        forall|k: int| 1 <= k < states.len() ==> #[trigger] id_step_at(states, k),
        0 <= i <= j < states.len(),
    ensures
        states[i].last_tid() <= states[j].last_tid(),
    decreases j - i,
{
    if i < j {
        lemma_last_tid_monotone(states, i, j - 1);
        assert(id_step_at(states, j));
    }
}

/// Thread ids are never reused: along any run of operations on a store, the
/// last id handed out never goes down, and the id a `spawn` hands out (the
/// new last id) is larger than every id the store held at any earlier point,
/// removed ids included.
pub proof fn lemma_thread_ids_never_reused(states: Seq<ThreadStore>)
    requires
        forall|k: int| 0 <= k < states.len() ==> #[trigger] states[k].wf(),
        forall|k: int| 1 <= k < states.len() ==> #[trigger] id_step_at(states, k),
    ensures
        forall|i: int, j: int| 0 <= i <= j < states.len() ==> #[trigger] states[i].last_tid() <= #[trigger] states[j].last_tid(),
        forall|i: int, j: int, t: Tid|
            0 <= i < j < states.len() && #[trigger] states[i]@.contains_key(t)
                && #[trigger] states[j].last_tid() == states[j - 1].last_tid() + 1 ==> t < states[j].last_tid(),
{
    assert forall|i: int, j: int| 0 <= i <= j < states.len() implies #[trigger] states[i].last_tid() <= #[trigger] states[j].last_tid() by {
        lemma_last_tid_monotone(states, i, j);
    }
    assert forall|i: int, j: int, t: Tid|
        0 <= i < j < states.len() && #[trigger] states[i]@.contains_key(t)
            && #[trigger] states[j].last_tid() == states[j - 1].last_tid() + 1 implies t < states[j].last_tid() by {
        states[i].lemma_entries();
        lemma_last_tid_monotone(states, i, j - 1);
    }
}

/// The change in the number of threads a run of operations makes:
/// `ops[k].0` is 1 where step `k` added a thread, -1 where it removed one,
/// and 0 where it kept the ids.
pub open spec fn net_count(ops: Seq<(int, Tid)>) -> int
    decreases ops.len(),
{
    if ops.len() == 0 {
        0
    } else {
        net_count(ops.drop_last()) + ops.last().0
    }
}

/// Step `k` of `states` is the operation `ops[k - 1]`: a spawn adds the id
/// `ops[k - 1].1`, which was not there; a successful remove takes that id
/// out; any other operation keeps the ids.
pub open spec fn count_step_at(states: Seq<ThreadStore>, ops: Seq<(int, Tid)>, k: int) -> bool {
    let a = states[k - 1];
    let b = states[k];
    let op = ops[k - 1];
    &&& op.0 == 1 ==> !a@.contains_key(op.1) && b@.dom() == a@.dom().insert(op.1)
    &&& op.0 == -1 ==> a@.contains_key(op.1) && b@.dom() == a@.dom().remove(op.1)
    &&& op.0 == 0 ==> b@.dom() == a@.dom()
    &&& -1 <= op.0 <= 1
}

/// The number of threads after a run of spawns, successful removes and
/// other operations is the number before, plus the spawns, minus the
/// removes.
pub proof fn lemma_thread_count(states: Seq<ThreadStore>, ops: Seq<(int, Tid)>)
    requires
        states.len() == ops.len() + 1,
        forall|k: int| 0 <= k < states.len() ==> #[trigger] states[k].wf(),
        forall|k: int| 1 <= k < states.len() ==> #[trigger] count_step_at(states, ops, k),
    ensures
        states.last()@.len() == states[0]@.len() + net_count(ops),
    decreases ops.len(),
{
    if ops.len() > 0 {
        let n = ops.len() as int;
        let s2 = states.drop_last();
        let o2 = ops.drop_last();
        assert forall|k: int| 1 <= k < s2.len() implies #[trigger] count_step_at(s2, o2, k) by {
            assert(count_step_at(states, ops, k));
        }
        assert forall|k: int| 0 <= k < s2.len() implies #[trigger] s2[k].wf() by {
            assert(states[k].wf());
        }
        lemma_thread_count(s2, o2);
        let a = states[n - 1];
        let b = states[n];
        assert(a.wf());
        assert(b.wf());
        a.lemma_entries();
        b.lemma_entries();
        assert(count_step_at(states, ops, n));
        assert(s2.last() == a);
    }
}

} // verus!
