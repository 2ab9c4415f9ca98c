//! Crash records that survive a warm reset.
//!
//! A fixed page of memory holds a header and a ring of records. A magic number
//! in the header tells a log from memory that was never initialised, and one in
//! each record tells a record from an empty slot.

use vstd::prelude::*;

use crate::memory::ram::Ram;
use crate::memory::PhysMemory;

verus! {

/// Physical address of the crash log page.
pub const CRASH_LOG_PHYS: u64 = 0x4000;

/// Marks an initialised log.
pub const HEADER_MAGIC: u64 = 0xC0DE_CAFE_DEAD_BEEF;

/// Marks a valid record.
pub const RECORD_MAGIC: u64 = 0xE440_DEAD_CAFE_0001;

/// Records the log keeps.
pub const MAX_RECORDS: usize = 16;

/// One crash.
#[derive(Copy, Clone, Debug, PartialEq, Eq, Structural)]
pub struct ErrorRecord {
    /// `RECORD_MAGIC` in a valid record.
    pub magic: u64,
    /// Exception vector.
    pub vector: u64,
    /// Tick at which the fault happened.
    pub tick: u64,
    /// Process that was running.
    pub pid: u64,
    pub rip: u64,
    pub rsp: u64,
    pub rflags: u64,
    /// Faulting address of a page fault, otherwise 0.
    pub cr2: u64,
}

/// Contents of the crash log page.
#[derive(Debug)]
pub struct CrashLog {
    pub header_magic: u64,
    /// Slot the next record goes to.
    pub write_index: u64,
    /// Records written since the log was initialised.
    pub count: u64,
    pub records: [ErrorRecord; MAX_RECORDS],
}

impl ErrorRecord {
    /// The content of a cleared slot.
    pub open spec fn blank() -> Self {
        ErrorRecord { magic: 0, vector: 0, tick: 0, pid: 0, rip: 0, rsp: 0, rflags: 0, cr2: 0 }
    }
}

/// Number of records the log holds.
pub open spec fn held(count: u64) -> int {
    if count < MAX_RECORDS {
        count as int
    } else {
        MAX_RECORDS as int
    }
}

/// Slot of the `i`-th oldest record.
#[verifier::opaque]
pub open spec fn record_slot(write_index: u64, count: u64, i: int) -> int {
    (write_index + 16 - held(count) + i) % 16
}

proof fn lemma_record_slot(write_index: u64, count: u64, i: int)
    requires
        0 <= i < held(count),
    ensures
        record_slot(write_index, count, i) == (write_index % 16 + 16 - held(count) + i) % 16,
        0 <= record_slot(write_index, count, i) < 16,
        i == held(count) - 1 ==> record_slot(write_index, count, i) == (write_index + 15) % 16,
{
    reveal(record_slot);
}

/// A new record goes to the slot that `record_slot` then counts as the newest;
/// while the ring is not full, the older records keep their slots.
proof fn lemma_slots_after_write(before: CrashLog, after: CrashLog, i: int)
    requires
        after.write_index == (before.write_index + 1) % 16,
        before.count < MAX_RECORDS,
        after.count == before.count + 1,
        0 <= i < before.count,
    ensures
        record_slot(after.write_index, after.count, i) == record_slot(
            before.write_index,
            before.count,
            i,
        ),
        record_slot(before.write_index, before.count, i) != before.write_index % 16,
        0 <= record_slot(before.write_index, before.count, i) < 16,
{
    reveal(record_slot);
    let w = before.write_index as int;
    let d = i - before.count;
    assert(-16 < d < 0);
    assert((w + 16 + d) % 16 == (w % 16 + 16 + d) % 16);
}

/// The valid ones among the `n` oldest records, oldest first.
pub open spec fn valid_records(log: CrashLog, n: int) -> Seq<ErrorRecord>
    decreases n,
{
    if n <= 0 {
        Seq::empty()
    } else {
        let rest = valid_records(log, n - 1);
        let rec = log.records@[record_slot(log.write_index, log.count, n - 1)];
        if rec.magic == RECORD_MAGIC {
            rest.push(rec)
        } else {
            rest
        }
    }
}

impl CrashLog {
    /// The records a reader finds, oldest first.
    pub open spec fn readable(&self) -> Seq<ErrorRecord> {
        if self.header_magic == HEADER_MAGIC {
            valid_records(*self, held(self.count))
        } else {
            Seq::empty()
        }
    }

    /// The log is all zero.
    pub open spec fn is_blank(&self) -> bool {
        &&& self.header_magic == 0
        &&& self.write_index == 0
        &&& self.count == 0
        &&& forall|i: int| 0 <= i < MAX_RECORDS ==> self.records@[i] == ErrorRecord::blank()
    }

    /// An all-zero page.
    pub fn blank() -> (r: Self)
        ensures
            r.is_blank(),
    {
        CrashLog {
            header_magic: 0,
            write_index: 0,
            count: 0,
            records: [ErrorRecord {
                magic: 0,
                vector: 0,
                tick: 0,
                pid: 0,
                rip: 0,
                rsp: 0,
                rflags: 0,
                cr2: 0,
            };MAX_RECORDS],
        }
    }
}

/// Takes all valid records, oldest first, and clears the log if there was any
/// record. Also gives the number of records written since the log was
/// initialised, or 0 without a log.
pub fn drain(log: &mut CrashLog) -> (r: (Vec<ErrorRecord>, u64))
    ensures
        r.0@ == old(log).readable(),
        if old(log).header_magic == HEADER_MAGIC && old(log).count > 0 {
            r.1 == old(log).count && final(log).is_blank()
        } else {
            r.1 == 0 && *final(log) == *old(log)
        },
{
    let mut out: Vec<ErrorRecord> = Vec::new();
    if log.header_magic != HEADER_MAGIC || log.count == 0 {
        return (out, 0);
    }
    let total: u64 = log.count;
    let count: usize = if total < MAX_RECORDS as u64 {
        total as usize
    } else {
        MAX_RECORDS
    };
    let mut i: usize = 0;
    while i < count
        invariant
            *log == *old(log),
            count == held(log.count),
            i <= count <= MAX_RECORDS,
            out@ == valid_records(*log, i as int),
        decreases count - i,
    {
        proof {
            lemma_record_slot(log.write_index, log.count, i as int);
        }
        let slot: usize = ((log.write_index % 16) as usize + 16 - count + i) % 16;
        let rec = log.records[slot];
        if rec.magic == RECORD_MAGIC {
            out.push(rec);
        }
        i = i + 1;
    }
    *log = CrashLog::blank();
    (out, total)
}

/// Starts an empty log.
pub fn init(log: &mut CrashLog)
    ensures
        final(log).header_magic == HEADER_MAGIC,
        final(log).write_index == 0,
        final(log).count == 0,
        final(log).records == old(log).records,
        final(log).readable() == Seq::<ErrorRecord>::empty(),
{
    log.header_magic = HEADER_MAGIC;
    log.write_index = 0;
    log.count = 0;
}

/// Adds a record, replacing the oldest one if the ring is full.
pub fn write(log: &mut CrashLog, record: ErrorRecord)
    ensures
        written(*old(log), *final(log), record),
{
    let w: u64 = log.write_index % 16;
    let idx: usize = w as usize;
    let mut stamped = record;
    stamped.magic = RECORD_MAGIC;
    log.records[idx] = stamped;
    log.write_index = (w + 1) % 16;
    log.count = log.count.saturating_add(1);
    log.header_magic = HEADER_MAGIC;
}

/// `after` is `before` with `record` added.
pub open spec fn written(before: CrashLog, after: CrashLog, record: ErrorRecord) -> bool {
    &&& after.header_magic == HEADER_MAGIC
    &&& after.records@ == before.records@.update(
        (before.write_index % 16) as int,
        ErrorRecord { magic: RECORD_MAGIC, ..record },
    )
    &&& after.write_index == (before.write_index + 1) % 16
    &&& after.count == if before.count < u64::MAX {
        before.count + 1
    } else {
        u64::MAX as int
    }
}

proof fn lemma_older_records(before: CrashLog, after: CrashLog, record: ErrorRecord, n: int)
    requires
        written(before, after, record),
        before.count < MAX_RECORDS,
        0 <= n <= before.count,
    ensures
        valid_records(after, n) == valid_records(before, n),
    decreases n,
{
    if n > 0 {
        lemma_older_records(before, after, record, n - 1);
        lemma_slots_after_write(before, after, n - 1);
    }
}

/// A record that was just written is the newest one a reader finds; while the
/// ring is not full, the records before it are still there.
pub proof fn law_written_record_is_read(before: CrashLog, after: CrashLog, record: ErrorRecord)
    requires
        written(before, after, record),
    ensures
        after.readable().len() > 0,
        after.readable().last() == (ErrorRecord { magic: RECORD_MAGIC, ..record }),
        before.header_magic == HEADER_MAGIC && before.count < MAX_RECORDS ==> after.readable()
            == before.readable().push(ErrorRecord { magic: RECORD_MAGIC, ..record }),
{
    let n = held(after.count);
    lemma_record_slot(after.write_index, after.count, n - 1);
    assert(((before.write_index + 1) % 16 + 15) % 16 == before.write_index % 16);
    if before.count < MAX_RECORDS {
        lemma_older_records(before, after, record, before.count as int);
    }
}

// ── The page ─────────────────────────────────────────────────────────────────
/// The words of a record.
pub open spec fn record_words(r: ErrorRecord) -> Seq<u64> {
    seq![r.magic, r.vector, r.tick, r.pid, r.rip, r.rsp, r.rflags, r.cr2]
}

/// The words of the page: a header of eight words, of which three are used, and
/// then the records.
pub open spec fn log_words(log: CrashLog) -> Seq<u64> {
    Seq::new(
        136,
        |k: int|
            if k == 0 {
                log.header_magic
            } else if k == 1 {
                log.write_index
            } else if k == 2 {
                log.count
            } else if k < 8 {
                0
            } else {
                record_words(log.records@[(k - 8) / 8])[(k - 8) % 8]
            },
    )
}

/// The page in memory `m` holds `log`.
pub open spec fn page_holds(m: Ram, log: CrashLog) -> bool {
    &&& log.header_magic == m.word(CRASH_LOG_PHYS as int)
    &&& log.write_index == m.word(CRASH_LOG_PHYS + 8)
    &&& log.count == m.word(CRASH_LOG_PHYS + 16)
    &&& forall|i: int|
        0 <= i < MAX_RECORDS ==> is_record_at(m, CRASH_LOG_PHYS + 64 + 64 * i, #[trigger] log.records@[i])
}

/// The record at `addr` is `r`.
pub open spec fn is_record_at(m: Ram, addr: int, r: ErrorRecord) -> bool {
    r == ErrorRecord {
        magic: m.word(addr),
        vector: m.word(addr + 8),
        tick: m.word(addr + 16),
        pid: m.word(addr + 24),
        rip: m.word(addr + 32),
        rsp: m.word(addr + 40),
        rflags: m.word(addr + 48),
        cr2: m.word(addr + 56),
    }
}

/// Reads the log from its page.
pub fn read_page(mem: &PhysMemory) -> (r: CrashLog)
    requires
        mem.wf(),
    ensures
        page_holds(mem@, r),
{
    let mut log = CrashLog::blank();
    log.header_magic = mem.read_u64(CRASH_LOG_PHYS);
    log.write_index = mem.read_u64(CRASH_LOG_PHYS + 8);
    log.count = mem.read_u64(CRASH_LOG_PHYS + 16);
    let mut i: usize = 0;
    while i < MAX_RECORDS
        invariant
            mem.wf(),
            i <= MAX_RECORDS,
            log.header_magic == mem@.word(CRASH_LOG_PHYS as int),
            log.write_index == mem@.word(CRASH_LOG_PHYS + 8),
            log.count == mem@.word(CRASH_LOG_PHYS + 16),
            forall|k: int|
                0 <= k < i ==> is_record_at(
                    mem@,
                    CRASH_LOG_PHYS + 64 + 64 * k,
                    #[trigger] log.records@[k],
                ),
        decreases MAX_RECORDS - i,
    {
        let addr: u64 = CRASH_LOG_PHYS + 64 + 64 * i as u64;
        log.records[i] = ErrorRecord {
            magic: mem.read_u64(addr),
            vector: mem.read_u64(addr + 8),
            tick: mem.read_u64(addr + 16),
            pid: mem.read_u64(addr + 24),
            rip: mem.read_u64(addr + 32),
            rsp: mem.read_u64(addr + 40),
            rflags: mem.read_u64(addr + 48),
            cr2: mem.read_u64(addr + 56),
        };
        i = i + 1;
    }
    log
}

/// Word `k` of the page.
fn word_of(log: &CrashLog, k: usize) -> (r: u64)
    requires
        k < 136,
    ensures
        r == log_words(*log)[k as int],
{
    if k == 0 {
        return log.header_magic;
    }
    if k == 1 {
        return log.write_index;
    }
    if k == 2 {
        return log.count;
    }
    if k < 8 {
        return 0;
    }
    let record = log.records[(k - 8) / 8];
    let f: usize = (k - 8) % 8;
    if f == 0 {
        record.magic
    } else if f == 1 {
        record.vector
    } else if f == 2 {
        record.tick
    } else if f == 3 {
        record.pid
    } else if f == 4 {
        record.rip
    } else if f == 5 {
        record.rsp
    } else if f == 6 {
        record.rflags
    } else {
        record.cr2
    }
}

/// Writes the log to its page.
pub fn write_page(log: &CrashLog, mem: &mut PhysMemory)
    requires
        old(mem).wf(),
    ensures
        final(mem).wf(),
        final(mem)@ == crate::memory::ram::with_words(
            old(mem)@,
            CRASH_LOG_PHYS as int,
            log_words(*log),
        ),
{
    let ghost ws = log_words(*log);
    let mut k: usize = 0;
    while k < 136
        invariant
            mem.wf(),
            k <= 136,
            ws == log_words(*log),
            mem@ == crate::memory::ram::with_words(
                old(mem)@,
                CRASH_LOG_PHYS as int,
                ws.take(k as int),
            ),
        decreases 136 - k,
    {
        mem.write_u64(CRASH_LOG_PHYS + 8 * k as u64, word_of(log, k));
        assert(ws.take(k + 1).drop_last() =~= ws.take(k as int));
        k = k + 1;
    }
    assert(ws.take(136) =~= ws);
}

/// A log that was written to its page is read from it as it was, so that it
/// survives a reset that keeps memory.
pub proof fn law_log_survives_in_its_page(m: Ram, log: CrashLog, read: CrashLog)
    requires
        m.covers(CRASH_LOG_PHYS as int, 1088),
        page_holds(
            crate::memory::ram::with_words(m, CRASH_LOG_PHYS as int, log_words(log)),
            read,
        ),
    ensures
        read.header_magic == log.header_magic,
        read.write_index == log.write_index,
        read.count == log.count,
        read.records@ == log.records@,
{
    let ws = log_words(log);
    let base = CRASH_LOG_PHYS as int;
    crate::memory::ram::lemma_with_words(m, base, ws, 0);
    crate::memory::ram::lemma_with_words(m, base, ws, 1);
    crate::memory::ram::lemma_with_words(m, base, ws, 2);
    assert forall|i: int| 0 <= i < MAX_RECORDS implies read.records@[i] == log.records@[i] by {
        assert(is_record_at(
            crate::memory::ram::with_words(m, base, ws),
            base + 64 + 64 * i,
            read.records@[i],
        ));
        assert forall|f: int| 0 <= f < 8 implies crate::memory::ram::with_words(m, base, ws).word(
            base + 64 + 64 * i + 8 * f,
        ) == #[trigger] record_words(log.records@[i])[f] by {
            crate::memory::ram::lemma_with_words(m, base, ws, 8 + 8 * i + f);
            assert(base + 8 * (8 + 8 * i + f) == base + 64 + 64 * i + 8 * f);
            assert((8 * i + f) / 8 == i && (8 * i + f) % 8 == f);
        }
        let w = record_words(log.records@[i]);
        assert(w[0] == read.records@[i].magic);
        assert(w[1] == read.records@[i].vector);
        assert(w[2] == read.records@[i].tick);
        assert(w[3] == read.records@[i].pid);
        assert(w[4] == read.records@[i].rip);
        assert(w[5] == read.records@[i].rsp);
        assert(w[6] == read.records@[i].rflags);
        assert(w[7] == read.records@[i].cr2);
    }
    assert(read.records@ =~= log.records@);
}

proof fn lemma_only_valid(log: CrashLog, n: int, i: int)
    requires
        0 <= i < valid_records(log, n).len(),
    ensures
        valid_records(log, n)[i].magic == RECORD_MAGIC,
    decreases n,
{
    if n > 0 {
        let rest = valid_records(log, n - 1);
        if i < rest.len() {
            lemma_only_valid(log, n - 1, i);
            assert(valid_records(log, n)[i] == rest[i]);
        }
    }
}

/// Nothing is read from a page that does not start with the log's mark, and no
/// record that does not carry the mark of a record; at most sixteen are read.
pub proof fn law_only_marked_records_are_read(log: CrashLog, i: int)
    requires
        0 <= i < log.readable().len(),
    ensures
        log.header_magic == HEADER_MAGIC,
        log.readable()[i].magic == RECORD_MAGIC,
        log.readable().len() <= 16,
        log.readable().len() <= log.count,
{
    lemma_only_valid(log, held(log.count), i);
    lemma_valid_len(log, held(log.count));
}

proof fn lemma_valid_len(log: CrashLog, n: int)
    requires
        0 <= n,
    ensures
        valid_records(log, n).len() <= n,
    decreases n,
{
    if n > 0 {
        lemma_valid_len(log, n - 1);
    }
}

} // verus!
