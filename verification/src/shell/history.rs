//! Lines entered before.

use vstd::prelude::*;
use vstd::slice::slice_subrange;

use crate::service_registry::same_bytes;
use crate::shell::line_editor::LINE_MAX;

verus! {

/// Lines the history keeps.
pub const HISTORY_CAP: usize = 32;

/// The most recent lines in a ring.
#[derive(Debug)]
pub struct History {
    pub entries: [[u8; LINE_MAX]; HISTORY_CAP],
    pub lens: [usize; HISTORY_CAP],
    /// Lines that are kept.
    pub count: usize,
    /// Slot of the next line.
    pub next: usize,
}

/// Slot of the line of the given age, 0 for the most recent one.
pub open spec fn slot_of_age(next: int, age: int) -> int {
    if age < next {
        next - 1 - age
    } else {
        next - 1 - age + HISTORY_CAP
    }
}

/// The part of a line that is kept.
pub open spec fn kept(line: Seq<u8>) -> Seq<u8> {
    if line.len() <= LINE_MAX {
        line
    } else {
        line.take(LINE_MAX as int)
    }
}

/// The lines after `line` is entered, most recent first. Empty lines and
/// repetitions of the most recent line are not kept, and the oldest line makes
/// room when the history is full.
pub open spec fn entered(lines: Seq<Seq<u8>>, line: Seq<u8>) -> Seq<Seq<u8>> {
    if line.len() == 0 || (lines.len() > 0 && lines[0] == line) {
        lines
    } else if lines.len() < HISTORY_CAP {
        seq![kept(line)] + lines
    } else {
        seq![kept(line)] + lines.drop_last()
    }
}

impl View for History {
    type V = Seq<Seq<u8>>;

    /// The lines, most recent first.
    open spec fn view(&self) -> Seq<Seq<u8>> {
        Seq::new(self.count as nat, |age: int| self.line(slot_of_age(self.next as int, age)))
    }
}

impl History {
    /// The line in slot `i`.
    pub open spec fn line(&self, i: int) -> Seq<u8> {
        self.entries@[i]@.take(self.lens@[i] as int)
    }

    pub open spec fn wf(&self) -> bool {
        &&& self.count <= HISTORY_CAP
        &&& self.next < HISTORY_CAP
        &&& forall|i: int| 0 <= i < HISTORY_CAP ==> (#[trigger] self.lens@[i]) <= LINE_MAX
    }

    pub fn new() -> (r: Self)
        ensures
            r.wf(),
            r@ == Seq::<Seq<u8>>::empty(),
    {
        let r = History {
            entries: [[0;LINE_MAX];HISTORY_CAP],
            lens: [0;HISTORY_CAP],
            count: 0,
            next: 0,
        };
        assert(r@ =~= Seq::<Seq<u8>>::empty());
        r
    }

    /// Enters a line. Empty lines and repetitions of the most recent line are
    /// ignored.
    pub fn push(&mut self, line: &[u8])
        requires
            old(self).wf(),
        ensures
            final(self).wf(),
            final(self)@ == entered(old(self)@, line@),
    {
        if line.len() == 0 {
            return ;
        }
        if let Some(last) = self.get(0) {
            if same_bytes(last, line) {
                return ;
            }
        }
        let n: usize = if line.len() < LINE_MAX {
            line.len()
        } else {
            LINE_MAX
        };
        let mut entry: [u8; LINE_MAX] = [0;LINE_MAX];
        let mut i: usize = 0;
        while i < n
            invariant
                i <= n,
                n <= LINE_MAX,
                n <= line@.len(),
                forall|k: int| 0 <= k < i ==> entry@[k] == line@[k],
            decreases n - i,
        {
            entry[i] = line[i];
            i = i + 1;
        }
        let at: usize = self.next;
        self.entries[at] = entry;
        self.lens[at] = n;
        self.next = (at + 1) % HISTORY_CAP;
        if self.count < HISTORY_CAP {
            self.count = self.count + 1;
        }
        proof {
            assert(entry@.take(n as int) =~= kept(line@));
            assert(self.line(at as int) == kept(line@));
            let want = entered(old(self)@, line@);
            assert forall|age: int| 0 <= age < self.count implies self@[age] == want[age] by {
                let s = slot_of_age(self.next as int, age);
                if age == 0 {
                    assert(s == at);
                } else {
                    assert(s == slot_of_age(old(self).next as int, age - 1));
                    assert(self.line(s) == old(self).line(s));
                    assert(want[age] == old(self)@[age - 1]);
                }
            }
            assert(self@ =~= want);
        }
    }

    /// The line of the given age, 0 for the most recent one.
    pub fn get(&self, age: usize) -> (r: Option<&[u8]>)
        requires
            self.wf(),
        ensures
            match r {
                Some(line) => age < self@.len() && line@ == self@[age as int],
                None => age >= self@.len(),
            },
    {
        if age >= self.count {
            return None;
        }
        let i: usize = (self.next + HISTORY_CAP - 1 - age) % HISTORY_CAP;
        assert(i == slot_of_age(self.next as int, age as int));
        let r = slice_subrange(&self.entries[i], 0, self.lens[i]);
        assert(r@ =~= self.line(i as int));
        Some(r)
    }

    pub fn len(&self) -> (r: usize)
        ensures
            r == self@.len(),
    {
        self.count
    }

    pub fn is_empty(&self) -> (r: bool)
        ensures
            r == (self@.len() == 0),
    {
        self.count == 0
    }
}

/// A line that is entered can be recalled as the most recent one, up to the
/// bytes that are kept.
pub proof fn law_entered_line_is_recalled(lines: Seq<Seq<u8>>, line: Seq<u8>)
    requires
        line.len() > 0,
    ensures
        entered(lines, line).len() > 0,
        line.len() <= LINE_MAX ==> entered(lines, line)[0] == line,
{
}

/// The history never holds more lines than it has room for, and the lines kept
/// before stay in their order.
pub proof fn law_history_is_bounded(lines: Seq<Seq<u8>>, line: Seq<u8>)
    requires
        lines.len() <= HISTORY_CAP,
    ensures
        entered(lines, line).len() <= HISTORY_CAP,
        entered(lines, line) != lines ==> forall|age: int|
            0 < age < entered(lines, line).len() ==> #[trigger] entered(lines, line)[age]
                == lines[age - 1],
{
}

/// Entering a line again right away changes nothing, and neither does an empty
/// line. Of a long line the first 256 bytes are kept.
pub proof fn law_repeated_line_is_kept_once(lines: Seq<Seq<u8>>, line: Seq<u8>)
    ensures
        line.len() == 0 ==> entered(lines, line) == lines,
        line.len() <= 256 ==> entered(entered(lines, line), line) == entered(lines, line),
        line.len() > 0 && !(lines.len() > 0 && lines[0] == line) ==> {
            &&& entered(lines, line)[0].is_prefix_of(line)
            &&& line.len() > 256 ==> entered(lines, line)[0].len() == 256
            &&& lines.len() < 32 ==> entered(lines, line).len() == lines.len() + 1
        },
{
}

} // verus!
