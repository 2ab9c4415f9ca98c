//! Messages, notifications and the per-process mailbox.

use vstd::prelude::*;

use crate::process::ProcessId;

verus! {

/// Messages a mailbox can hold.
pub const QUEUE_CAPACITY: usize = 16;

/// Payload words of a message.
pub const DATA_FIELDS: usize = 8;

/// A typed IPC message.
///
/// The kernel overwrites `sender` when the message crosses the system-call
/// boundary, so user code cannot forge it.
#[derive(Copy, Clone, Debug)]
pub struct Message {
    /// PID of the sender, stamped by the kernel.
    pub sender: ProcessId,
    /// Application-defined payload.
    pub data: [u64; DATA_FIELDS],
}

impl Message {
    pub fn new(sender: ProcessId) -> (r: Self)
        ensures
            r.sender == sender,
            forall|i: int| 0 <= i < DATA_FIELDS ==> r.data@[i] == 0,
    {
        Message { sender, data: [0; DATA_FIELDS] }
    }

    /// Writes payload word `offset`; an offset past the payload is ignored.
    pub fn set_data(&mut self, offset: usize, value: u64)
        ensures
            final(self).sender == old(self).sender,
            offset < DATA_FIELDS ==> final(self).data@ == old(self).data@.update(
                offset as int,
                value,
            ),
            offset >= DATA_FIELDS ==> *final(self) == *old(self),
    {
        if offset < DATA_FIELDS {
            self.data[offset] = value;
        }
    }

    /// Reads payload word `offset`; an offset past the payload reads as zero.
    pub fn get_data(&self, offset: usize) -> (r: u64)
        ensures
            r == (if offset < DATA_FIELDS { self.data@[offset as int] } else { 0 }),
    {
        if offset < DATA_FIELDS {
            self.data[offset]
        } else {
            0
        }
    }
}

/// Payload-free event signal: a sender and a word of event bits.
#[derive(Copy, Clone, Debug)]
pub struct Notification {
    pub sender: ProcessId,
    /// Bitmask of the signalled events.
    pub word: u64,
}

/// Fixed-capacity FIFO message queue over a circular buffer.
#[derive(Debug)]
pub struct MessageQueue {
    pub messages: [Option<Message>; QUEUE_CAPACITY],
    pub head: usize,
    pub tail: usize,
    pub count: usize,
    /// Pending notification bits, ORed together by `notify`.
    pub pending_notification: u64,
}

/// Buffer position `i` places after `head`.
pub open spec fn ring_slot(head: int, i: int) -> int {
    if head + i < QUEUE_CAPACITY {
        head + i
    } else {
        head + i - QUEUE_CAPACITY
    }
}

impl View for MessageQueue {
    type V = Seq<Message>;

    /// The queued messages, oldest first.
    closed spec fn view(&self) -> Seq<Message> {
        Seq::new(self.count as nat, |i: int| self.messages@[ring_slot(self.head as int, i)]->0)
    }
}

/// What taking the notification word `pending` gives.
pub open spec fn taken_word(pending: u64) -> Option<u64> {
    if pending == 0 {
        None
    } else {
        Some(pending)
    }
}

/// Notification bits that are posted one after the other are taken together,
/// each bit once: what is taken holds the bits of both words, and taking again
/// gives nothing.
pub proof fn law_notifications_merge(pending: u64, first: u64, second: u64)
    ensures
        taken_word(pending | first | second) == taken_word(pending | second | first),
        first != 0 ==> taken_word(pending | first) is Some,
        taken_word(pending | first | second) matches Some(w) ==> w & first == first && w & second
            == second && w & pending == pending,
        taken_word(0) is None,
{
    assert((pending | first | second) == (pending | second | first) && (first != 0 ==> pending | first
        != 0) && (pending | first | second) & first == first && (pending | first | second) & second
        == second && (pending | first | second) & pending == pending) by (bit_vector);
}

impl MessageQueue {
    /// The ring indices are consistent and exactly the queued slots are filled.
    pub closed spec fn wf(&self) -> bool {
        &&& self.head < QUEUE_CAPACITY
        &&& self.count <= QUEUE_CAPACITY
        &&& self.tail == ring_slot(self.head as int, self.count as int)
        &&& forall|i: int|
            0 <= i < self.count ==> (#[trigger] self.messages@[ring_slot(
                self.head as int,
                i,
            )]) is Some
    }

    pub fn new() -> (r: Self)
        ensures
            r.wf(),
            r@ == Seq::<Message>::empty(),
            r.head == 0,
            r.tail == 0,
            forall|i: int| 0 <= i < QUEUE_CAPACITY ==> (#[trigger] r.messages@[i]) is None,
            r.pending_notification == 0,
    {
        MessageQueue {
            messages: [None; QUEUE_CAPACITY],
            head: 0,
            tail: 0,
            count: 0,
            pending_notification: 0,
        }
    }

    /// Appends `message`; `false` and no change if the queue is full.
    pub fn send(&mut self, message: Message) -> (r: bool)
        requires
            old(self).wf(),
        ensures
            final(self).wf(),
            r == (old(self)@.len() < QUEUE_CAPACITY),
            r ==> final(self)@ == old(self)@.push(message),
            !r ==> *final(self) == *old(self),
            final(self).pending_notification == old(self).pending_notification,
    {
        if self.count >= QUEUE_CAPACITY {
            return false;
        }
        let tail: usize = self.tail;
        self.messages[tail] = Some(message);
        self.tail = (tail + 1) % QUEUE_CAPACITY;
        self.count = self.count + 1;
        assert(self@ =~= old(self)@.push(message));
        true
    }

    /// Removes and returns the oldest message.
    pub fn receive(&mut self) -> (r: Option<Message>)
        requires
            old(self).wf(),
        ensures
            final(self).wf(),
            old(self)@.len() == 0 ==> r is None && *final(self) == *old(self),
            old(self)@.len() > 0 ==> r == Some(old(self)@[0]) && final(self)@
                == old(self)@.drop_first(),
            final(self).pending_notification == old(self).pending_notification,
    {
        if self.count == 0 {
            return None;
        }
        let head: usize = self.head;
        let msg = self.messages[head];
        self.messages[head] = None;
        self.head = (head + 1) % QUEUE_CAPACITY;
        self.count = self.count - 1;
        assert(old(self)@[0] == old(self).messages@[ring_slot(head as int, 0)]->0);
        assert(self@ =~= old(self)@.drop_first());
        assert forall|i: int| 0 <= i < self.count implies (#[trigger] self.messages@[ring_slot(
            self.head as int,
            i,
        )]) is Some by {
            assert(old(self).messages@[ring_slot(head as int, i + 1)] is Some);
        }
        msg
    }

    /// Posts notification bits by ORing `word` into the pending word.
    pub fn notify(&mut self, word: u64)
        ensures
            final(self)@ == old(self)@,
            old(self).wf() ==> final(self).wf(),
            final(self).pending_notification == old(self).pending_notification | word,
    {
        self.pending_notification = self.pending_notification | word;
    }

    /// Takes the pending notification word, leaving none pending.
    pub fn poll_notification(&mut self) -> (r: Option<u64>)
        ensures
            final(self)@ == old(self)@,
            old(self).wf() ==> final(self).wf(),
            final(self).pending_notification == 0,
            r == taken_word(old(self).pending_notification),
    {
        if self.pending_notification == 0 {
            return None;
        }
        let w: u64 = self.pending_notification;
        self.pending_notification = 0;
        Some(w)
    }

    pub fn is_empty(&self) -> (r: bool)
        ensures
            r == (self@.len() == 0),
    {
        self.count == 0
    }

    pub fn is_full(&self) -> (r: bool)
        ensures
            r == (self@.len() >= QUEUE_CAPACITY),
    {
        self.count >= QUEUE_CAPACITY
    }

    pub fn len(&self) -> (r: usize)
        ensures
            r == self@.len(),
    {
        self.count
    }
}

} // verus!
