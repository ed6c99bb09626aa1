//! Messages waiting to be read by a process, and the store that keeps them
//! under message ids.
use vstd::prelude::*;
use crate::ordered_map::OrderedMap;
use vstd::string::StringSliceAdditionalSpecFns;

verus! {

/// Message id.
pub type Mid = u64;

/// Errors of the message store.
#[derive(Debug, PartialEq, Eq, Structural)]
pub enum MessageError {
    /// No message has the given id.
    InvalidMid,
}

impl MessageError {
    /// The message the error is displayed with.
    pub fn message(&self) -> (m: &'static str)
        ensures
            m@ == "Invalid Mid"@,
    {
        "Invalid Mid"
    }
}

/// The bytes of a message that have not been read yet.
pub open spec fn unread(m: (Seq<u8>, nat)) -> Seq<u8> {
    m.0.subrange(m.1 as int, m.0.len() as int)
}

/// How many bytes a read of at most `amt` bytes takes from `m`.
pub open spec fn chunk_len(m: (Seq<u8>, nat), amt: nat) -> nat {
    if amt < unread(m).len() { amt } else { unread(m).len() }
}

/// A read of at most `amt` bytes: the bytes it returns, whether it empties
/// the message (which it does exactly when `amt` covers every unread byte),
/// and the message afterwards.
pub open spec fn read_step(m: (Seq<u8>, nat), amt: nat) -> (Seq<u8>, bool, (Seq<u8>, nat)) {
    (unread(m).take(chunk_len(m, amt) as int), amt >= unread(m).len(), (m.0, m.1 + chunk_len(m, amt)))
}

/// Two reads in a row, the first of which leaves bytes unread, return what
/// one read of the combined length returns, and leave the message in the
/// same state.
pub proof fn lemma_reads_concatenate(m: (Seq<u8>, nat), a: nat, b: nat)
    requires
        m.1 <= m.0.len(),
        !read_step(m, a).1,
    ensures
        read_step(m, a).0 + read_step(read_step(m, a).2, b).0 == read_step(m, a + b).0,
        read_step(read_step(m, a).2, b).1 == read_step(m, a + b).1,
        read_step(read_step(m, a).2, b).2 == read_step(m, a + b).2,
{
    let first = read_step(m, a);
    let second = read_step(first.2, b);
    let whole = read_step(m, a + b);
    assert(first.0 + second.0 =~= whole.0);
}

/// A read that uses a message up returns every unread byte and leaves the
/// read position at the end.
pub proof fn lemma_emptying_read_returns_rest(m: (Seq<u8>, nat), amt: nat)
    requires
        m.1 <= m.0.len(),
        read_step(m, amt).1,
    ensures
        read_step(m, amt).0 == unread(m),
        read_step(m, amt).2.1 == m.0.len(),
{
    assert(read_step(m, amt).0 =~= unread(m));
}

/// The first read of a message returns its first bytes, at most `amt` of
/// them, and uses the message up exactly when `amt` covers all of it.
pub proof fn lemma_first_read(data: Seq<u8>, amt: nat)
    ensures
        read_step((data, 0nat), amt).0 == data.take(if amt < data.len() { amt as int } else { data.len() as int }),
        read_step((data, 0nat), amt).1 <==> amt >= data.len(),
{
    assert(unread((data, 0nat)) =~= data);
}

/// The text of the message every store starts with.
pub open spec fn greeting() -> Seq<u8> {
    "this is a message which is being read".spec_bytes()
}

/// A message: its bytes and how far they have been read.
pub struct Message {
    data: Vec<u8>,
    read_pointer: usize,
}

impl View for Message {
    /// The bytes and the read position.
    type V = (Seq<u8>, nat);

    closed spec fn view(&self) -> (Seq<u8>, nat) {
        (self.data@, self.read_pointer as nat)
    }
}

impl Message {
    /// The read position never passes the end of the bytes.
    pub closed spec fn wf(&self) -> bool {
        self.read_pointer <= self.data@.len()
    }

    pub proof fn lemma_wf(&self)
        requires
            self.wf(),
        ensures
            self@.1 <= self@.0.len(),
    {
    }

    /// A message holding `data`, none of it read.
    pub fn new(data: Vec<u8>) -> (m: Message)
        ensures
            m.wf(),
            m@ == (data@, 0nat),
    {
        Message { data, read_pointer: 0 }
    }

    /// The number of bytes not read yet.
    pub fn remaining(&self) -> (n: usize)
        requires
            self.wf(),
        ensures
            n == unread(self@).len(),
    {
        self.data.len() - self.read_pointer
    }

    /// The number of bytes of the message.
    pub fn len(&self) -> (n: usize)
        ensures
            n == self@.0.len(),
    {
        self.data.len()
    }

    /// Reads at most `amt` bytes and says whether the message is now used up.
    pub fn read_bytes(&mut self, amt: usize) -> (r: (Vec<u8>, bool))
        requires
            old(self).wf(),
        ensures
            final(self).wf(),
            (r.0@, r.1, final(self)@) == read_step(old(self)@, amt as nat),
    {
        let is_empty;
        let total = self.data.len();
        let rem = self.remaining();
        let to_read = if amt < rem {
            is_empty = false;
            amt
        } else {
            is_empty = true;
            rem
        };
        let mut allocation: Vec<u8> = Vec::with_capacity(to_read);
        assert(unread(self@).len() == self.data@.len() - self.read_pointer);
        let start = self.read_pointer;
        let end = start + to_read;
        let mut i: usize = start;
        while i < end
            invariant
                self.wf(),
                start == self.read_pointer,
                end == start + to_read,
                end <= self.data@.len(),
                start <= i <= end,
                allocation@ == self.data@.subrange(start as int, i as int),
            decreases end - i,
        {
            allocation.push(self.data[i]);
            i = i + 1;
            assert(allocation@ =~= self.data@.subrange(start as int, i as int));
        }
        self.read_pointer = self.read_pointer + to_read;
        assert(allocation@ =~= unread(old(self)@).take(to_read as int));
        (allocation, is_empty)
    }
}

/// Messages by id, with the id the next pushed message gets.
pub struct MessageStore {
    next_mid: Mid,
    data: OrderedMap<Message>,
}

impl View for MessageStore {
    type V = Map<Mid, Message>;

    closed spec fn view(&self) -> Map<Mid, Message> {
        self.data@
    }
}

impl Default for MessageStore {
    /// An empty store whose next message gets id 0.
    fn default() -> (s: MessageStore)
        ensures
            s.wf(),
            s.next_id() == 0,
            s@ == Map::<Mid, Message>::empty(),
    {
        MessageStore { next_mid: 0, data: OrderedMap::new() }
    }
}

impl MessageStore {
    /// The id the next pushed message is stored under.
    pub closed spec fn next_id(&self) -> Mid {
        self.next_mid
    }

    /// Every stored message is well formed.
    pub closed spec fn wf(&self) -> bool {
        &&& self.data.wf()
        &&& forall|i: int| 0 <= i < self.data.vals@.len() ==> #[trigger] self.data.vals@[i].wf()
    }

    pub proof fn lemma_messages_wf(&self, mid: Mid)
        requires
            self.wf(),
            self@.contains_key(mid),
        ensures
            self@[mid].wf(),
    {
        let i = self.data.keys@.index_of(mid);
        self.data.lemma_position(i);
    }

    /// A store holding the greeting message under id 0; the next pushed
    /// message also gets id 0 and takes its place.
    pub fn new() -> (s: MessageStore)
        ensures
            s.wf(),
            s.next_id() == 0,
            s@.dom() == set![0u64],
            s@[0]@ == (greeting(), 0nat),
    {
        let mut bytes: Vec<u8> = Vec::new();
        bytes.extend_from_slice("this is a message which is being read".as_bytes());
        proof {
            assert(bytes@ =~= greeting());
        }
        let mut data = OrderedMap::new();
        data.insert(0, Message::new(bytes));
        let s = MessageStore { next_mid: 0, data };
        proof {
            assert(s.data@.dom() =~= set![0u64]);
            s.data.lemma_position(0);
        }
        s
    }

    /// Stores `message` under the next id and moves the next id on.
    pub fn push_message(&mut self, message: Message)
        requires
            old(self).wf(),
            message.wf(),
            old(self).next_id() < u64::MAX,
        ensures
            final(self).wf(),
            final(self)@ == old(self)@.insert(old(self).next_id(), message),
            final(self).next_id() == old(self).next_id() + 1,
    {
        let ghost old_data = self.data;
        self.data.insert(self.next_mid, message);
        proof {
            self.lemma_insert_wf(old_data, old(self).next_mid, message);
        }
        self.next_mid = self.next_mid + 1;
    }

    /// Inserting a well-formed message keeps every stored message well formed.
    proof fn lemma_insert_wf(&self, before: OrderedMap<Message>, mid: Mid, message: Message)
        requires
            before.wf(),
            forall|i: int| 0 <= i < before.vals@.len() ==> #[trigger] before.vals@[i].wf(),
            self.data.wf(),
            self.data@ == before@.insert(mid, message),
            message.wf(),
        ensures
            forall|i: int| 0 <= i < self.data.vals@.len() ==> #[trigger] self.data.vals@[i].wf(),
    {
        assert forall|i: int| 0 <= i < self.data.vals@.len() implies #[trigger] self.data.vals@[i].wf() by {
            self.data.lemma_position(i);
            let k = self.data.keys@[i];
            if k != mid {
                assert(before@.contains_key(k));
                let j = before.keys@.index_of(k);
                before.lemma_position(j);
            }
        }
    }

    fn get_message_mut(&mut self, mid: &Mid) -> (r: Result<&mut Message, MessageError>)
        requires
            old(self).wf(),
        ensures
            match r {
                Ok(m) => {
                    &&& old(self)@.contains_key(*mid)
                    &&& *m == old(self)@[*mid]
                    &&& m.wf()
                    &&& final(m).wf() ==> final(self).wf()
                    &&& final(self)@ == old(self)@.insert(*mid, *final(m))
                    &&& final(self).next_id() == old(self).next_id()
                },
                Err(e) => {
                    &&& !old(self)@.contains_key(*mid)
                    &&& e == MessageError::InvalidMid
                    &&& *final(self) == *old(self)
                },
            },
    {
        proof {
            if self@.contains_key(*mid) {
                self.lemma_messages_wf(*mid);
                self.data.lemma_position(self.data.keys@.index_of(*mid));
            }
        }
        match self.data.get_mut(*mid) {
            Some(m) => Ok(m),
            None => Err(MessageError::InvalidMid),
        }
    }

    /// Reads at most `len` bytes of message `mid`; a message is dropped from
    /// the store once a read reaches its end.
    pub fn read_message(&mut self, mid: Mid, len: usize) -> (r: Result<Vec<u8>, MessageError>)
        requires
            old(self).wf(),
        ensures
            final(self).wf(),
            final(self).next_id() == old(self).next_id(),
            match r {
                Ok(bytes) => {
                    let step = read_step(old(self)@[mid]@, len as nat);
                    &&& old(self)@.contains_key(mid)
                    &&& bytes@ == step.0
                    &&& final(self)@.remove(mid) == old(self)@.remove(mid)
                    &&& final(self)@.contains_key(mid) <==> !step.1
                    &&& final(self)@.contains_key(mid) ==> final(self)@[mid]@ == step.2
                },
                Err(e) => {
                    &&& !old(self)@.contains_key(mid)
                    &&& e == MessageError::InvalidMid
                    &&& final(self)@ == old(self)@
                },
            },
    {
        let message = match self.get_message_mut(&mid) {
            Ok(m) => m,
            Err(_) => return Err(MessageError::InvalidMid),
        };
        let (allocation, is_empty) = message.read_bytes(len);
        if is_empty {
            let ghost before = self.data;
            let removed = self.data.remove(mid);
            proof {
                self.lemma_remove_wf(before, mid);
                assert(self.data@ =~= before@.remove(mid));
            }
        }
        proof {
            assert(self@.remove(mid) =~= old(self)@.remove(mid));
        }
        Ok(allocation)
    }

    /// Removing a message keeps every remaining message well formed.
    proof fn lemma_remove_wf(&self, before: OrderedMap<Message>, mid: Mid)
        requires
            before.wf(),
            forall|i: int| 0 <= i < before.vals@.len() ==> #[trigger] before.vals@[i].wf(),
            self.data.wf(),
            self.data@ == before@.remove(mid),
        ensures
            forall|i: int| 0 <= i < self.data.vals@.len() ==> #[trigger] self.data.vals@[i].wf(),
    {
        assert forall|i: int| 0 <= i < self.data.vals@.len() implies #[trigger] self.data.vals@[i].wf() by {
            self.data.lemma_position(i);
            let k = self.data.keys@[i];
            assert(before@.contains_key(k));
            let j = before.keys@.index_of(k);
            before.lemma_position(j);
        }
    }
}

} // verus!
