//! A line of text with a cursor.

use vstd::prelude::*;
use vstd::slice::slice_subrange;

verus! {

/// Bytes of the line buffer; one of them is never used.
pub const LINE_MAX: usize = 256;

/// Line buffer with a movable cursor.
#[derive(Debug)]
pub struct LineEditor {
    pub buf: [u8; LINE_MAX],
    pub len: usize,
    pub cursor: usize,
}

impl View for LineEditor {
    type V = Seq<u8>;

    /// The text of the line.
    open spec fn view(&self) -> Seq<u8> {
        self.buf@.take(self.len as int)
    }
}

/// The part of `text` that fits in a line.
pub open spec fn fitting(text: Seq<u8>) -> Seq<u8> {
    if text.len() < LINE_MAX {
        text
    } else {
        text.take(LINE_MAX - 1)
    }
}

impl LineEditor {
    pub open spec fn wf(&self) -> bool {
        self.cursor <= self.len < LINE_MAX
    }

    pub fn new() -> (r: Self)
        ensures
            r.wf(),
            r@ == Seq::<u8>::empty(),
            r.cursor == 0,
            forall|i: int| 0 <= i < LINE_MAX ==> #[trigger] r.buf@[i] == 0,
    {
        let r = LineEditor { buf: [0;LINE_MAX], len: 0, cursor: 0 };
        assert(r@ =~= Seq::<u8>::empty());
        r
    }

    /// Inserts `b` at the cursor; `false` if the line is full.
    pub fn insert(&mut self, b: u8) -> (r: bool)
        requires
            old(self).wf(),
        ensures
            final(self).wf(),
            r == (old(self)@.len() < LINE_MAX - 1),
            r ==> final(self)@ == old(self)@.insert(old(self).cursor as int, b)
                && final(self).cursor == old(self).cursor + 1,
            !r ==> *final(self) == *old(self),
    {
        if self.len >= LINE_MAX - 1 {
            return false;
        }
        let mut i: usize = self.len;
        while i > self.cursor
            invariant
                self.len == old(self).len,
                self.cursor == old(self).cursor,
                self.cursor <= i <= self.len < LINE_MAX - 1,
                forall|k: int| 0 <= k <= i && k < self.len ==> self.buf@[k] == old(self).buf@[k],
                forall|k: int| i < k <= self.len ==> self.buf@[k] == old(self).buf@[k - 1],
            decreases i,
        {
            self.buf[i] = self.buf[i - 1];
            i = i - 1;
        }
        let c: usize = self.cursor;
        self.buf[c] = b;
        self.cursor = c + 1;
        self.len = self.len + 1;
        assert(self@ =~= old(self)@.insert(old(self).cursor as int, b));
        true
    }

    /// Removes the byte at `at`.
    fn remove_at(&mut self, at: usize)
        requires
            at < old(self).len < LINE_MAX,
        ensures
            final(self)@ == old(self)@.remove(at as int),
            final(self).len == old(self).len - 1,
            final(self).cursor == old(self).cursor,
    {
        let mut i: usize = at;
        while i < self.len - 1
            invariant
                self.len == old(self).len,
                self.cursor == old(self).cursor,
                at <= i < self.len < LINE_MAX,
                forall|k: int| 0 <= k < at ==> self.buf@[k] == old(self).buf@[k],
                forall|k: int| at <= k < i ==> self.buf@[k] == old(self).buf@[k + 1],
                forall|k: int| i < k < self.len ==> self.buf@[k] == old(self).buf@[k],
            decreases self.len - i,
        {
            self.buf[i] = self.buf[i + 1];
            i = i + 1;
        }
        self.len = self.len - 1;
        assert(self@ =~= old(self)@.remove(at as int));
    }

    /// Removes the byte before the cursor; `false` at the start of the line.
    pub fn backspace(&mut self) -> (r: bool)
        requires
            old(self).wf(),
        ensures
            final(self).wf(),
            r == (old(self).cursor > 0),
            r ==> final(self)@ == old(self)@.remove(old(self).cursor - 1) && final(self).cursor
                == old(self).cursor - 1,
            !r ==> *final(self) == *old(self),
    {
        if self.cursor == 0 {
            return false;
        }
        self.cursor = self.cursor - 1;
        let at: usize = self.cursor;
        self.remove_at(at);
        true
    }

    /// Removes the byte at the cursor; `false` at the end of the line.
    pub fn delete_forward(&mut self) -> (r: bool)
        requires
            old(self).wf(),
        ensures
            final(self).wf(),
            r == (old(self).cursor < old(self)@.len()),
            r ==> final(self)@ == old(self)@.remove(old(self).cursor as int) && final(self).cursor
                == old(self).cursor,
            !r ==> *final(self) == *old(self),
    {
        if self.cursor >= self.len {
            return false;
        }
        let at: usize = self.cursor;
        self.remove_at(at);
        true
    }

    /// Moves the cursor back; `false` at the start of the line.
    pub fn move_left(&mut self) -> (r: bool)
        requires
            old(self).wf(),
        ensures
            final(self).wf(),
            r == (old(self).cursor > 0),
            *final(self) == (LineEditor {
                cursor: if r {
                    (old(self).cursor - 1) as usize
                } else {
                    old(self).cursor
                },
                ..*old(self)
            }),
    {
        if self.cursor == 0 {
            return false;
        }
        self.cursor = self.cursor - 1;
        true
    }

    /// Moves the cursor on; `false` at the end of the line.
    pub fn move_right(&mut self) -> (r: bool)
        requires
            old(self).wf(),
        ensures
            final(self).wf(),
            r == (old(self).cursor < old(self)@.len()),
            *final(self) == (LineEditor {
                cursor: if r {
                    (old(self).cursor + 1) as usize
                } else {
                    old(self).cursor
                },
                ..*old(self)
            }),
    {
        if self.cursor >= self.len {
            return false;
        }
        self.cursor = self.cursor + 1;
        true
    }

    /// Moves the cursor to the start of the line.
    pub fn home(&mut self)
        requires
            old(self).wf(),
        ensures
            final(self).wf(),
            *final(self) == (LineEditor { cursor: 0, ..*old(self) }),
    {
        self.cursor = 0;
    }

    /// Moves the cursor to the end of the line.
    pub fn end(&mut self)
        requires
            old(self).wf(),
        ensures
            final(self).wf(),
            *final(self) == (LineEditor { cursor: old(self).len, ..*old(self) }),
    {
        self.cursor = self.len;
    }

    /// Empties the line.
    pub fn clear(&mut self)
        ensures
            final(self).wf(),
            final(self)@ == Seq::<u8>::empty(),
            final(self).cursor == 0,
    {
        self.len = 0;
        self.cursor = 0;
        assert(self@ =~= Seq::<u8>::empty());
    }

    /// The text of the line.
    pub fn as_bytes(&self) -> (r: &[u8])
        requires
            self.wf(),
        ensures
            r@ == self@,
    {
        slice_subrange(&self.buf, 0, self.len)
    }

    /// Replaces the line by `src`, cut off if it does not fit, and moves the
    /// cursor to its end.
    pub fn load(&mut self, src: &[u8])
        ensures
            final(self).wf(),
            final(self)@ == fitting(src@),
            final(self).cursor == final(self)@.len(),
    {
        let n: usize = if src.len() < LINE_MAX - 1 {
            src.len()
        } else {
            LINE_MAX - 1
        };
        let mut i: usize = 0;
        while i < n
            invariant
                i <= n,
                n <= LINE_MAX - 1,
                n <= src@.len(),
                forall|k: int| 0 <= k < i ==> self.buf@[k] == src@[k],
            decreases n - i,
        {
            self.buf[i] = src[i];
            i = i + 1;
        }
        self.len = n;
        self.cursor = n;
        assert(self@ =~= fitting(src@));
    }

    pub fn is_empty(&self) -> (r: bool)
        requires
            self.wf(),
        ensures
            r == (self@.len() == 0),
    {
        self.len == 0
    }
}

/// Removing what was just inserted restores the line.
pub proof fn law_backspace_undoes_insert(line: Seq<u8>, cursor: int, b: u8)
    requires
        0 <= cursor <= line.len(),
    ensures
        line.insert(cursor, b).remove(cursor) == line,
{
    assert(line.insert(cursor, b).remove(cursor) =~= line);
}

/// A line that is loaded is cut off after 255 bytes, and is the whole text if
/// that is shorter.
pub proof fn law_loaded_line_is_cut_off(text: Seq<u8>)
    ensures
        fitting(text).is_prefix_of(text),
        text.len() <= 255 ==> fitting(text) == text,
        text.len() > 255 ==> fitting(text).len() == 255,
{
}

} // verus!
