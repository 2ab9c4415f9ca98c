//! Service registry: maps short names to the processes that provide them.
//!
//! Names are byte strings that end at the first NUL. The registry holds up to
//! sixteen services whose names have at most fifteen bytes.

use vstd::prelude::*;
use vstd::slice::slice_subrange;

verus! {

/// Services that can be registered at the same time.
pub const MAX_SERVICES: usize = 16;

/// Bytes of a stored name, the closing NUL included.
pub const NAME_LEN: usize = 16;

/// One slot of the registry.
#[derive(Copy, Clone, Debug)]
pub struct ServiceEntry {
    pub name: [u8; NAME_LEN],
    pub pid: u32,
    pub used: bool,
}

/// The registered services.
#[derive(Debug)]
pub struct ServiceRegistry {
    pub entries: [ServiceEntry; MAX_SERVICES],
}

/// Position of the first NUL of `s` at or after `from`, its length if there is none.
pub open spec fn nul_index(s: Seq<u8>, from: int) -> int
    decreases s.len() - from,
{
    if from >= s.len() || s[from] == 0 {
        from
    } else {
        nul_index(s, from + 1)
    }
}

/// The bytes of `s` before its first NUL.
pub open spec fn trimmed(s: Seq<u8>) -> Seq<u8> {
    s.take(nul_index(s, 0))
}

/// `i` is the first used slot whose name is `key`.
pub open spec fn first_named(entries: Seq<ServiceEntry>, key: Seq<u8>, i: int) -> bool {
    &&& 0 <= i < entries.len()
    &&& named(entries[i], key)
    &&& forall|j: int| 0 <= j < i ==> !named(#[trigger] entries[j], key)
}

/// Slot `e` is used and its name is `key`.
pub open spec fn named(e: ServiceEntry, key: Seq<u8>) -> bool {
    e.used && trimmed(e.name@) == key
}

/// No used slot has the name `key`.
pub open spec fn unnamed(entries: Seq<ServiceEntry>, key: Seq<u8>) -> bool {
    forall|j: int| 0 <= j < entries.len() ==> !named(#[trigger] entries[j], key)
}

/// `i` is the first free slot.
pub open spec fn first_unused(entries: Seq<ServiceEntry>, i: int) -> bool {
    &&& 0 <= i < entries.len()
    &&& !entries[i].used
    &&& forall|j: int| 0 <= j < i ==> (#[trigger] entries[j]).used
}

/// Every slot is used.
pub open spec fn all_used(entries: Seq<ServiceEntry>) -> bool {
    forall|j: int| 0 <= j < entries.len() ==> (#[trigger] entries[j]).used
}

/// `i` is the first used slot that belongs to `pid`.
pub open spec fn first_owned(entries: Seq<ServiceEntry>, pid: u32, i: int) -> bool {
    &&& 0 <= i < entries.len()
    &&& entries[i].used && entries[i].pid == pid
    &&& forall|j: int| 0 <= j < i ==> !((#[trigger] entries[j]).used && entries[j].pid == pid)
}

/// No used slot belongs to `pid`.
pub open spec fn unowned(entries: Seq<ServiceEntry>, pid: u32) -> bool {
    forall|j: int| 0 <= j < entries.len() ==> !((#[trigger] entries[j]).used && entries[j].pid == pid)
}

/// `name` is `key`, cut to fifteen bytes and padded with NULs.
pub open spec fn stores_name(name: Seq<u8>, key: Seq<u8>) -> bool {
    &&& name.len() == NAME_LEN
    &&& forall|k: int|
        0 <= k < NAME_LEN ==> #[trigger] name[k] == if k < key.len() && k < NAME_LEN - 1 {
            key[k]
        } else {
            0
        }
}

/// Outcome `r` of registering `pid` under the name `key`.
pub open spec fn registered(
    before: Seq<ServiceEntry>,
    after: Seq<ServiceEntry>,
    key: Seq<u8>,
    pid: u32,
    r: bool,
) -> bool {
    if key.len() == 0 {
        !r && after == before
    } else if !unnamed(before, key) {
        &&& r
        &&& exists|i: int|
            #![trigger first_named(before, key, i)]
            first_named(before, key, i) && after == before.update(
                i,
                ServiceEntry { pid, ..before[i] },
            )
    } else if !all_used(before) {
        &&& r
        &&& exists|i: int|
            #![trigger first_unused(before, i)]
            first_unused(before, i) && after == before.update(i, after[i]) && stores_name(
                after[i].name@,
                key,
            ) && after[i].pid == pid && after[i].used
    } else {
        !r && after == before
    }
}

/// The process registered under the name `key`.
pub open spec fn provider(entries: Seq<ServiceEntry>, key: Seq<u8>) -> Option<u32> {
    if unnamed(entries, key) {
        None
    } else {
        Some(entries[choose|i: int| first_named(entries, key, i)].pid)
    }
}

/// Outcome `r` of removing the first service of `pid`.
pub open spec fn unregistered(
    before: Seq<ServiceEntry>,
    after: Seq<ServiceEntry>,
    pid: u32,
    r: bool,
) -> bool {
    if unowned(before, pid) {
        !r && after == before
    } else {
        &&& r
        &&& exists|i: int|
            #![trigger first_owned(before, pid, i)]
            first_owned(before, pid, i) && after == before.update(
                i,
                ServiceEntry { used: false, ..before[i] },
            )
    }
}

/// Every service of `pid` is removed, and every other slot is as it was.
pub open spec fn all_unregistered(
    before: Seq<ServiceEntry>,
    after: Seq<ServiceEntry>,
    pid: u32,
) -> bool {
    &&& after.len() == before.len()
    &&& unowned(after, pid)
    &&& forall|i: int|
        0 <= i < before.len() ==> #[trigger] after[i] == if before[i].used && before[i].pid == pid {
            ServiceEntry { used: false, ..before[i] }
        } else {
            before[i]
        }
}

proof fn lemma_first_named_unique(entries: Seq<ServiceEntry>, key: Seq<u8>, i: int, j: int)
    requires
        first_named(entries, key, i),
        first_named(entries, key, j),
    ensures
        i == j,
{
}

proof fn lemma_nul_index_bounds(s: Seq<u8>, from: int)
    requires
        0 <= from <= s.len(),
    ensures
        from <= nul_index(s, from) <= s.len(),
        forall|k: int| from <= k < nul_index(s, from) ==> s[k] != 0,
        nul_index(s, from) < s.len() ==> s[nul_index(s, from)] == 0,
    decreases s.len() - from,
{
    if from < s.len() && s[from] != 0 {
        lemma_nul_index_bounds(s, from + 1);
    }
}

proof fn lemma_nul_index_at(s: Seq<u8>, from: int, end: int)
    requires
        0 <= from <= end <= s.len(),
        forall|k: int| from <= k < end ==> s[k] != 0,
        end < s.len() ==> s[end] == 0,
    ensures
        nul_index(s, from) == end,
    decreases end - from,
{
    if from < end {
        lemma_nul_index_at(s, from + 1, end);
    }
}

/// A stored name of at most fifteen bytes reads back as it was registered.
proof fn lemma_stored_name(name: Seq<u8>, raw: Seq<u8>)
    requires
        stores_name(name, trimmed(raw)),
        trimmed(raw).len() < NAME_LEN,
    ensures
        trimmed(name) == trimmed(raw),
{
    let key = trimmed(raw);
    lemma_nul_index_bounds(raw, 0);
    assert forall|k: int| 0 <= k < key.len() implies name[k] != 0 by {
        assert(key[k] == raw[k]);
    }
    lemma_nul_index_at(name, 0, key.len() as int);
    assert(trimmed(name) =~= key);
}

/// A process registered under a name of at most fifteen bytes is found under it.
pub proof fn law_registered_is_found(
    before: Seq<ServiceEntry>,
    after: Seq<ServiceEntry>,
    name: Seq<u8>,
    pid: u32,
)
    requires
        registered(before, after, trimmed(name), pid, true),
        trimmed(name).len() < NAME_LEN,
    ensures
        provider(after, trimmed(name)) == Some(pid),
{
    let key = trimmed(name);
    if !unnamed(before, key) {
        let i = choose|i: int|
            #![trigger first_named(before, key, i)]
            first_named(before, key, i) && after == before.update(
                i,
                ServiceEntry { pid, ..before[i] },
            );
        assert forall|j: int| 0 <= j < i implies !named(#[trigger] after[j], key) by {
            assert(!named(before[j], key));
        }
        assert(first_named(after, key, i));
        assert(named(after[i], key));
        let k = choose|k: int| first_named(after, key, k);
        lemma_first_named_unique(after, key, i, k);
    } else {
        let i = choose|i: int|
            #![trigger first_unused(before, i)]
            first_unused(before, i) && after == before.update(i, after[i]) && stores_name(
                after[i].name@,
                key,
            ) && after[i].pid == pid && after[i].used;
        lemma_stored_name(after[i].name@, name);
        assert forall|j: int| 0 <= j < i implies !named(#[trigger] after[j], key) by {
            assert(!named(before[j], key));
        }
        assert(first_named(after, key, i));
        assert(named(after[i], key));
        let k = choose|k: int| first_named(after, key, k);
        lemma_first_named_unique(after, key, i, k);
    }
}

/// Registering a name of at most fifteen bytes leaves every other name with the
/// provider it had.
pub proof fn law_other_names_unaffected(
    before: Seq<ServiceEntry>,
    after: Seq<ServiceEntry>,
    name: Seq<u8>,
    pid: u32,
    r: bool,
    other: Seq<u8>,
)
    requires
        registered(before, after, trimmed(name), pid, r),
        trimmed(name).len() < NAME_LEN,
        other != trimmed(name),
    ensures
        provider(after, other) == provider(before, other),
{
    let key = trimmed(name);
    if after != before {
        let i = if !unnamed(before, key) {
            choose|i: int|
                #![trigger first_named(before, key, i)]
                first_named(before, key, i) && after == before.update(
                    i,
                    ServiceEntry { pid, ..before[i] },
                )
        } else {
            choose|i: int|
                #![trigger first_unused(before, i)]
                first_unused(before, i) && after == before.update(i, after[i]) && stores_name(
                    after[i].name@,
                    key,
                ) && after[i].pid == pid && after[i].used
        };
        if unnamed(before, key) {
            lemma_stored_name(after[i].name@, name);
        }
        assert(!named(before[i], other) && !named(after[i], other));
        assert forall|j: int| 0 <= j < before.len() implies named(#[trigger] after[j], other)
            == named(before[j], other) by {}
        if unnamed(before, other) {
            assert forall|j: int| 0 <= j < after.len() implies !named(#[trigger] after[j], other) by {
                assert(!named(before[j], other));
            }
        } else {
            lemma_first_named_exists(before, other);
            let k = choose|k: int| first_named(before, other, k);
            assert forall|j: int| 0 <= j < k implies !named(#[trigger] after[j], other) by {
                assert(!named(before[j], other));
            }
            assert(named(after[k], other));
            assert(first_named(after, other, k));
            let l = choose|l: int| first_named(after, other, l);
            lemma_first_named_unique(after, other, k, l);
        }
    }
}

/// Once all services of a process are removed, no name leads to it any more,
/// and every name that led to another process still does.
pub proof fn law_unregistered_is_not_found(
    before: Seq<ServiceEntry>,
    after: Seq<ServiceEntry>,
    pid: u32,
    key: Seq<u8>,
)
    requires
        all_unregistered(before, after, pid),
    ensures
        provider(after, key) != Some(pid),
        provider(before, key) != Some(pid) ==> provider(after, key) == provider(before, key),
{
    if !unnamed(after, key) {
        lemma_first_named_exists(after, key);
        let k = choose|k: int| first_named(after, key, k);
        assert(after[k].used);
        assert(named(before[k], key));
    }
    if !unnamed(before, key) {
        lemma_first_named_exists(before, key);
        let k = choose|k: int| first_named(before, key, k);
        if before[k].pid != pid {
            assert(after[k] == before[k]);
            assert forall|j: int| 0 <= j < k implies !named(#[trigger] after[j], key) by {
                assert(!named(before[j], key));
            }
            assert(first_named(after, key, k));
            assert(named(after[k], key));
            let l = choose|l: int| first_named(after, key, l);
            lemma_first_named_unique(after, key, k, l);
        }
    }
}

proof fn lemma_first_named_exists(entries: Seq<ServiceEntry>, key: Seq<u8>)
    requires
        !unnamed(entries, key),
    ensures
        exists|i: int| first_named(entries, key, i),
{
    let j = choose|j: int| 0 <= j < entries.len() && named(#[trigger] entries[j], key);
    lemma_first_named_upto(entries, key, j);
}

proof fn lemma_first_named_upto(entries: Seq<ServiceEntry>, key: Seq<u8>, j: int)
    requires
        0 <= j < entries.len(),
        named(entries[j], key),
    ensures
        exists|i: int| first_named(entries, key, i),
    decreases j,
{
    if forall|k: int| 0 <= k < j ==> !named(#[trigger] entries[k], key) {
        assert(first_named(entries, key, j));
    } else {
        let k = choose|k: int| 0 <= k < j && named(#[trigger] entries[k], key);
        lemma_first_named_upto(entries, key, k);
    }
}

/// The bytes of `name` before its first NUL.
pub fn trim_name(name: &[u8]) -> (r: &[u8])
    ensures
        r@ == trimmed(name@),
{
    let mut end: usize = 0;
    while end < name.len() && name[end] != 0
        invariant
            0 <= end <= name@.len(),
            nul_index(name@, 0) == nul_index(name@, end as int),
        decreases name@.len() - end,
    {
        end = end + 1;
    }
    slice_subrange(name, 0, end)
}

/// Whether two byte strings are equal.
pub fn same_bytes(a: &[u8], b: &[u8]) -> (r: bool)
    ensures
        r == (a@ == b@),
{
    if a.len() != b.len() {
        return false;
    }
    let mut i: usize = 0;
    while i < a.len()
        invariant
            a@.len() == b@.len(),
            i <= a@.len(),
            forall|k: int| 0 <= k < i ==> a@[k] == b@[k],
        decreases a@.len() - i,
    {
        if a[i] != b[i] {
            return false;
        }
        i = i + 1;
    }
    assert(a@ =~= b@);
    true
}

impl ServiceRegistry {
    /// A registry without services.
    pub fn new() -> (r: Self)
        ensures
            forall|i: int| 0 <= i < MAX_SERVICES ==> !(#[trigger] r.entries@[i]).used,
    {
        ServiceRegistry {
            entries: [ServiceEntry { name: [0;NAME_LEN], pid: 0, used: false };MAX_SERVICES],
        }
    }

    fn find_named(&self, key: &[u8]) -> (r: Option<usize>)
        ensures
            match r {
                Some(i) => first_named(self.entries@, key@, i as int),
                None => unnamed(self.entries@, key@),
            },
    {
        let mut i: usize = 0;
        while i < MAX_SERVICES
            invariant
                i <= MAX_SERVICES,
                forall|j: int| 0 <= j < i ==> !named(#[trigger] self.entries@[j], key@),
            decreases MAX_SERVICES - i,
        {
            if self.entries[i].used && same_bytes(trim_name(&self.entries[i].name), key) {
                return Some(i);
            }
            i = i + 1;
        }
        None
    }
}

/// Registers `pid` under `name`, replacing an earlier registration of that name.
///
/// `false`, and no change, if the name is empty or a new name finds no free slot.
pub fn register(registry: &mut ServiceRegistry, name: &[u8], pid: u32) -> (r: bool)
    ensures
        registered(old(registry).entries@, final(registry).entries@, trimmed(name@), pid, r),
{
    let key = trim_name(name);
    if key.len() == 0 {
        return false;
    }
    if let Some(i) = registry.find_named(key) {
        assert(named(registry.entries@[i as int], key@));
        registry.entries[i].pid = pid;
        return true;
    }
    let mut i: usize = 0;
    while i < MAX_SERVICES
        invariant
            i <= MAX_SERVICES,
            *registry == *old(registry),
            key@ == trimmed(name@),
            key@.len() > 0,
            unnamed(registry.entries@, key@),
            forall|j: int| 0 <= j < i ==> (#[trigger] registry.entries@[j]).used,
        decreases MAX_SERVICES - i,
    {
        if !registry.entries[i].used {
            let mut stored: [u8; NAME_LEN] = [0;NAME_LEN];
            let mut k: usize = 0;
            while k < key.len() && k < NAME_LEN - 1
                invariant
                    k <= key@.len(),
                    k <= NAME_LEN - 1,
                    forall|m: int| 0 <= m < k ==> stored@[m] == key@[m],
                    forall|m: int| k <= m < NAME_LEN ==> stored@[m] == 0,
                decreases NAME_LEN - k,
            {
                stored[k] = key[k];
                k = k + 1;
            }
            registry.entries[i] = ServiceEntry { name: stored, pid, used: true };
            proof {
                assert(first_unused(old(registry).entries@, i as int));
                assert(stores_name(registry.entries@[i as int].name@, key@));
                assert(!old(registry).entries@[i as int].used);
            }
            return true;
        }
        i = i + 1;
    }
    false
}

/// The process registered under `name`.
pub fn lookup(registry: &ServiceRegistry, name: &[u8]) -> (r: Option<u32>)
    ensures
        r == provider(registry.entries@, trimmed(name@)),
{
    let key = trim_name(name);
    match registry.find_named(key) {
        Some(i) => {
            proof {
                assert(named(registry.entries@[i as int], key@));
                let k = choose|k: int| first_named(registry.entries@, key@, k);
                lemma_first_named_unique(registry.entries@, key@, i as int, k);
            }
            Some(registry.entries[i].pid)
        },
        None => None,
    }
}

/// Removes the first service of `pid`; whether there was one.
pub fn unregister_pid(registry: &mut ServiceRegistry, pid: u32) -> (r: bool)
    ensures
        unregistered(old(registry).entries@, final(registry).entries@, pid, r),
{
    let mut i: usize = 0;
    while i < MAX_SERVICES
        invariant
            i <= MAX_SERVICES,
            *registry == *old(registry),
            forall|j: int|
                0 <= j < i ==> !((#[trigger] registry.entries@[j]).used && registry.entries@[j].pid
                    == pid),
        decreases MAX_SERVICES - i,
    {
        if registry.entries[i].used && registry.entries[i].pid == pid {
            registry.entries[i].used = false;
            proof {
                assert(first_owned(old(registry).entries@, pid, i as int));
                assert(old(registry).entries@[i as int].used);
            }
            return true;
        }
        i = i + 1;
    }
    false
}

/// Removes every service of `pid`.
pub fn unregister_all(registry: &mut ServiceRegistry, pid: u32)
    ensures
        all_unregistered(old(registry).entries@, final(registry).entries@, pid),
{
    let mut i: usize = 0;
    while i < MAX_SERVICES
        invariant
            i <= MAX_SERVICES,
            forall|j: int|
                0 <= j < i ==> #[trigger] registry.entries@[j] == if old(registry).entries@[j].used
                    && old(registry).entries@[j].pid == pid {
                    ServiceEntry { used: false, ..old(registry).entries@[j] }
                } else {
                    old(registry).entries@[j]
                },
            forall|j: int|
                i <= j < MAX_SERVICES ==> #[trigger] registry.entries@[j] == old(
                    registry,
                ).entries@[j],
        decreases MAX_SERVICES - i,
    {
        if registry.entries[i].used && registry.entries[i].pid == pid {
            registry.entries[i].used = false;
        }
        i = i + 1;
    }
}

/// A name ends at its first NUL, if it has one: what comes after it makes no
/// difference.
pub proof fn law_name_ends_at_the_first_nul(s: Seq<u8>, rest: Seq<u8>)
    ensures
        trimmed(s).is_prefix_of(s),
        forall|k: int| 0 <= k < trimmed(s).len() ==> #[trigger] trimmed(s)[k] != 0,
        trimmed(s).len() < s.len() ==> s[trimmed(s).len() as int] == 0,
        trimmed(s + seq![0u8] + rest) == trimmed(s),
{
    lemma_nul_index_bounds(s, 0);
    let t = s + seq![0u8] + rest;
    lemma_nul_index_bounds(t, 0);
    let n = nul_index(s, 0);
    if nul_index(t, 0) < n {
        assert(t[nul_index(t, 0)] == s[nul_index(t, 0)]);
    }
    if nul_index(t, 0) > n {
        assert(t[n] == if n < s.len() {
            s[n]
        } else {
            0u8
        });
    }
    assert(trimmed(t) =~= trimmed(s));
}

/// Registering under a name fails only if the name is empty, or if it is new and
/// every slot is in use; and then nothing changes.
pub proof fn law_registering_fails_only_when_full(
    before: Seq<ServiceEntry>,
    after: Seq<ServiceEntry>,
    key: Seq<u8>,
    pid: u32,
    i: int,
)
    requires
        registered(before, after, key, pid, false),
    ensures
        after == before,
        key.len() == 0 || (0 <= i < before.len() ==> before[i].used && trimmed(before[i].name@)
            != key),
{
    if key.len() > 0 && 0 <= i < before.len() {
        assert(before[i].used);
        assert(!named(before[i], key));
    }
}

/// A stored name is sixteen bytes of which the last is NUL: the first fifteen bytes
/// of a longer name, and NULs behind a shorter one.
pub proof fn law_stored_name_ends_with_nul(name: Seq<u8>, key: Seq<u8>, k: int)
    requires
        stores_name(name, key),
        0 <= k < 15,
    ensures
        name.len() == 16,
        name[15] == 0,
        k < key.len() ==> name[k] == key[k],
        k >= key.len() ==> name[k] == 0,
{
}

} // verus!
