//! Ring buffer of the most recent IPC and lifecycle events.

use vstd::prelude::*;

verus! {

/// Events the log keeps.
pub const AUDIT_CAPACITY: usize = 64;

/// Kind of a logged event.
#[derive(Copy, Clone, Debug, PartialEq, Eq, Structural)]
pub enum AuditKind {
    Send,
    Receive,
    Block,
    Unblock,
    Terminate,
}

/// One logged event.
#[derive(Copy, Clone, Debug, PartialEq, Eq, Structural)]
pub struct AuditEntry {
    pub tick: u64,
    pub kind: AuditKind,
    pub sender: u32,
    pub target: u32,
}

/// The last `AUDIT_CAPACITY` events.
#[derive(Debug)]
pub struct AuditLog {
    pub entries: [AuditEntry; AUDIT_CAPACITY],
    pub head: usize,
    pub count: usize,
}

/// Buffer position `i` places after `head`.
pub open spec fn audit_slot(head: int, i: int) -> int {
    if head + i < AUDIT_CAPACITY {
        head + i
    } else {
        head + i - AUDIT_CAPACITY
    }
}

/// The log `events` after `e` is recorded: the oldest event makes room.
pub open spec fn recorded(events: Seq<AuditEntry>, e: AuditEntry) -> Seq<AuditEntry> {
    if events.len() < AUDIT_CAPACITY {
        events.push(e)
    } else {
        events.drop_first().push(e)
    }
}

impl View for AuditLog {
    type V = Seq<AuditEntry>;

    /// The events, oldest first.
    closed spec fn view(&self) -> Seq<AuditEntry> {
        Seq::new(self.count as nat, |i: int| self.entries@[audit_slot(self.head as int, i)])
    }
}

impl AuditLog {
    pub closed spec fn wf(&self) -> bool {
        &&& self.head < AUDIT_CAPACITY
        &&& self.count <= AUDIT_CAPACITY
    }

    /// Nothing was logged: the ring starts at its first place, and every place
    /// holds a send event of tick 0 between nobody.
    pub open spec fn is_blank(&self) -> bool {
        &&& self.head == 0
        &&& self.count == 0
        &&& forall|i: int|
            0 <= i < AUDIT_CAPACITY ==> #[trigger] self.entries@[i] == (AuditEntry {
                tick: 0,
                kind: AuditKind::Send,
                sender: 0,
                target: 0,
            })
    }

    pub fn new() -> (r: Self)
        ensures
            r.wf(),
            r.is_blank(),
            r@ == Seq::<AuditEntry>::empty(),
    {
        AuditLog {
            entries: [AuditEntry {
                tick: 0,
                kind: AuditKind::Send,
                sender: 0,
                target: 0,
            };AUDIT_CAPACITY],
            head: 0,
            count: 0,
        }
    }

    /// Records `entry`, forgetting the oldest event if the log is full.
    pub fn push(&mut self, entry: AuditEntry)
        requires
            old(self).wf(),
        ensures
            final(self).wf(),
            final(self)@ == recorded(old(self)@, entry),
    {
        let idx: usize = (self.head + self.count) % AUDIT_CAPACITY;
        self.entries[idx] = entry;
        if self.count < AUDIT_CAPACITY {
            self.count = self.count + 1;
        } else {
            self.head = (self.head + 1) % AUDIT_CAPACITY;
        }
        assert(self@ =~= recorded(old(self)@, entry));
    }

    /// The events, oldest first.
    pub fn iter(&self) -> (r: Vec<AuditEntry>)
        requires
            self.wf(),
        ensures
            r@ == self@,
    {
        let mut out: Vec<AuditEntry> = Vec::new();
        let mut i: usize = 0;
        while i < self.count
            invariant
                self.wf(),
                i <= self.count,
                out@ =~= self@.take(i as int),
            decreases self.count - i,
        {
            out.push(self.entries[(self.head + i) % AUDIT_CAPACITY]);
            i = i + 1;
        }
        assert(self@.take(self.count as int) =~= self@);
        out
    }
}

/// Whatever was logged before, an event that was just recorded is the last one,
/// and the log never exceeds its capacity.
pub proof fn law_recorded_is_last(events: Seq<AuditEntry>, e: AuditEntry)
    requires
        events.len() <= AUDIT_CAPACITY,
    ensures
        recorded(events, e).last() == e,
        recorded(events, e).len() <= AUDIT_CAPACITY,
        forall|k: int|
            0 <= k < recorded(events, e).len() - 1 ==> #[trigger] recorded(events, e)[k] == events[k
                + events.len() - (recorded(events, e).len() - 1)],
{
}

} // verus!
