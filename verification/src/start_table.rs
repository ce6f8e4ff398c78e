//! The start-time table of the off-CPU sampler: a bounded map from a packed
//! task identity to the monotonic timestamp at which the task went off CPU.
//!
//! In the kernel this table is an associative map of finite capacity
//! whose oldest entries give way when it is full; this model makes the
//! eviction explicit, so that the contracts can say exactly which entry is
//! lost and what a later lookup of it returns.

use vstd::prelude::*;

verus! {

/// How many tasks can be tracked at once.
pub const START_TABLE_CAPACITY: usize = 10240;

/// True when no key appears twice in `s`.
pub open spec fn keys_distinct(s: Seq<(u64, u64)>) -> bool {
    forall|i: int, j: int|
        0 <= i < j < s.len() ==> (#[trigger] s[i]).0 != (#[trigger] s[j]).0
}

/// True when some entry of `s` carries the key `k`.
pub open spec fn seq_has_key(s: Seq<(u64, u64)>, k: u64) -> bool {
    exists|i: int| 0 <= i < s.len() && (#[trigger] s[i]).0 == k
}

/// The value stored under `k`, if any.
pub open spec fn seq_lookup(s: Seq<(u64, u64)>, k: u64) -> Option<u64> {
    if seq_has_key(s, k) {
        let i = choose|i: int| 0 <= i < s.len() && (#[trigger] s[i]).0 == k;
        Some(s[i].1)
    } else {
        None
    }
}

/// With distinct keys, any entry that carries `k` decides the lookup.
proof fn lemma_lookup_at(s: Seq<(u64, u64)>, k: u64, i: int)
    requires
        keys_distinct(s),
        0 <= i < s.len(),
        s[i].0 == k,
    ensures
        seq_lookup(s, k) == Some(s[i].1),
{
    let j = choose|j: int| 0 <= j < s.len() && (#[trigger] s[j]).0 == k;
    if i != j {
        assert(s[i].0 != s[j].0);
    }
}

/// Dropping the entry at `i` keeps the keys distinct and leaves every other
/// key's lookup unchanged; the dropped key is gone.
proof fn lemma_remove_entry(s: Seq<(u64, u64)>, i: int)
    requires
        keys_distinct(s),
        0 <= i < s.len(),
    ensures
        keys_distinct(s.remove(i)),
        !seq_has_key(s.remove(i), s[i].0),
        forall|k: u64| k != s[i].0 ==> seq_lookup(s.remove(i), k) == seq_lookup(s, k),
{
    let t = s.remove(i);
    assert(t.len() == s.len() - 1);
    assert forall|j: int| 0 <= j < t.len() implies t[j] == (if j < i {
        s[j]
    } else {
        s[j + 1]
    }) by {
        s.remove_ensures(i);
    }
    assert forall|k: u64| k != s[i].0 implies seq_lookup(t, k) == seq_lookup(s, k) by {
        if seq_has_key(t, k) {
            let j = choose|j: int| 0 <= j < t.len() && (#[trigger] t[j]).0 == k;
            let j0 = if j < i { j } else { j + 1 };
            assert(s[j0] == t[j]);
            lemma_lookup_at(s, k, j0);
            lemma_lookup_at(t, k, j);
        } else if seq_has_key(s, k) {
            let j = choose|j: int| 0 <= j < s.len() && (#[trigger] s[j]).0 == k;
            let j1 = if j < i { j } else { j - 1 };
            assert(t[j1] == s[j]);
        }
    }
    if seq_has_key(t, s[i].0) {
        let j = choose|j: int| 0 <= j < t.len() && (#[trigger] t[j]).0 == s[i].0;
        let j0 = if j < i { j } else { j + 1 };
        assert(s[j0] == t[j]);
        assert(j0 != i);
        assert(s[j0].0 != s[i].0);
    }
}

/// Appending a fresh key keeps the keys distinct, binds it to `v`, and
/// leaves every other key's lookup unchanged.
proof fn lemma_push_entry(s: Seq<(u64, u64)>, k: u64, v: u64)
    requires
        keys_distinct(s),
        !seq_has_key(s, k),
    ensures
        keys_distinct(s.push((k, v))),
        seq_lookup(s.push((k, v)), k) == Some(v),
        forall|k2: u64| k2 != k ==> seq_lookup(s.push((k, v)), k2) == seq_lookup(s, k2),
{
    let t = s.push((k, v));
    assert forall|i: int, j: int| 0 <= i < j < t.len() implies (#[trigger] t[i]).0 != (
    #[trigger] t[j]).0 by {
        if j < s.len() {
            assert(t[i] == s[i] && t[j] == s[j]);
        } else {
            assert(t[j] == (k, v) && t[i] == s[i]);
        }
    }
    assert(t[s.len() as int].0 == k);
    lemma_lookup_at(t, k, s.len() as int);
    assert forall|k2: u64| k2 != k implies seq_lookup(t, k2) == seq_lookup(s, k2) by {
        if seq_has_key(s, k2) {
            let i = choose|i: int| 0 <= i < s.len() && (#[trigger] s[i]).0 == k2;
            assert(t[i] == s[i]);
            lemma_lookup_at(s, k2, i);
            lemma_lookup_at(t, k2, i);
        } else if seq_has_key(t, k2) {
            let i = choose|i: int| 0 <= i < t.len() && (#[trigger] t[i]).0 == k2;
            assert(i < s.len() ==> s[i] == t[i]);
        }
    }
}

/// Bounded map from packed task identity to go-off timestamp.
pub struct StartTable {
    entries: Vec<(u64, u64)>,
}

impl StartTable {
    /// The entries, oldest first.
    pub closed spec fn spec_entries(&self) -> Seq<(u64, u64)> {
        self.entries@
    }

    /// Structural invariant: no key twice, never over capacity.
    pub open spec fn wf(&self) -> bool {
        &&& keys_distinct(self.spec_entries())
        &&& self.spec_entries().len() <= START_TABLE_CAPACITY
    }

    /// Whether `k` is currently tracked.
    pub open spec fn spec_has(&self, k: u64) -> bool {
        seq_has_key(self.spec_entries(), k)
    }

    /// The timestamp stored under `k`, if any.
    pub open spec fn spec_get(&self, k: u64) -> Option<u64> {
        seq_lookup(self.spec_entries(), k)
    }

    /// How many tasks are tracked.
    pub open spec fn spec_len(&self) -> nat {
        self.spec_entries().len()
    }

    /// The key that has been tracked the longest.
    pub open spec fn spec_oldest(&self) -> u64
        recommends
            self.spec_len() > 0,
    {
        self.spec_entries()[0].0
    }

    /// An empty table.
    pub fn new() -> (t: StartTable)
        ensures
            t.wf(),
            t.spec_len() == 0,
            forall|k: u64| !t.spec_has(k),
    {
        StartTable { entries: Vec::new() }
    }

    /// The index of the entry carrying `k`, if one exists.
    fn find(&self, k: u64) -> (r: Option<usize>)
        ensures
            match r {
                Some(i) => i < self.spec_entries().len() && self.spec_entries()[i as int].0 == k,
                None => !self.spec_has(k),
            },
    {
        let mut i: usize = 0;
        while i < self.entries.len()
            invariant
                i <= self.entries@.len(),
                forall|j: int| 0 <= j < i ==> (#[trigger] self.entries@[j]).0 != k,
            decreases self.entries@.len() - i,
        {
            if self.entries[i].0 == k {
                return Some(i);
            }
            i = i + 1;
        }
        None
    }

    /// Looks a task up without changing the table.
    pub fn get(&self, k: u64) -> (r: Option<u64>)
        requires
            self.wf(),
        ensures
            r == self.spec_get(k),
    {
        match self.find(k) {
            Some(i) => {
                proof {
                    lemma_lookup_at(self.spec_entries(), k, i as int);
                }
                Some(self.entries[i].1)
            },
            None => None,
        }
    }

    /// Records that task `k` went off CPU at `v`, overwriting any earlier
    /// record for `k`. When the table is full and `k` is new, the oldest
    /// entry is evicted to make room — a later resume of that task will
    /// find nothing.
    pub fn insert(&mut self, k: u64, v: u64)
        requires
            old(self).wf(),
        ensures
            final(self).wf(),
            final(self).spec_get(k) == Some(v),
            final(self).spec_len() == (if old(self).spec_has(k) || old(self).spec_len()
                == START_TABLE_CAPACITY {
                old(self).spec_len()
            } else {
                old(self).spec_len() + 1
            }),
            forall|k2: u64|
                k2 != k ==> final(self).spec_get(k2) == (if old(self).spec_len()
                    == START_TABLE_CAPACITY && !old(self).spec_has(k) && k2 == old(
                    self,
                ).spec_oldest() {
                    None::<u64>
                } else {
                    old(self).spec_get(k2)
                }),
    {
        let ghost pre = self.entries@;
        match self.find(k) {
            Some(i) => {
                proof {
                    lemma_remove_entry(pre, i as int);
                }
                self.entries.remove(i);
                proof {
                    lemma_push_entry(self.entries@, k, v);
                }
                self.entries.push((k, v));
            },
            None => {
                if self.entries.len() >= START_TABLE_CAPACITY {
                    proof {
                        lemma_remove_entry(pre, 0);
                    }
                    self.entries.remove(0);
                }
                proof {
                    lemma_push_entry(self.entries@, k, v);
                }
                self.entries.push((k, v));
            },
        }
    }

    /// Forgets task `k`; every other entry is untouched.
    pub fn remove(&mut self, k: u64)
        requires
            old(self).wf(),
        ensures
            final(self).wf(),
            !final(self).spec_has(k),
            final(self).spec_len() == (if old(self).spec_has(k) {
                old(self).spec_len() - 1
            } else {
                old(self).spec_len() as int
            }),
            forall|k2: u64| k2 != k ==> final(self).spec_get(k2) == old(self).spec_get(k2),
    {
        match self.find(k) {
            Some(i) => {
                proof {
                    lemma_remove_entry(self.entries@, i as int);
                }
                self.entries.remove(i);
            },
            None => {},
        }
    }
}

/// The packed map key of a task identity, pid in the high half.
pub open spec fn spec_task_key(pid: u32, tgid: u32) -> u64 {
    (pid * 0x1_0000_0000 + tgid) as u64
}

/// Two identities with the same packed key are the same identity.
pub proof fn lemma_task_key_injective(pid1: u32, tgid1: u32, pid2: u32, tgid2: u32)
    requires
        spec_task_key(pid1, tgid1) == spec_task_key(pid2, tgid2),
    ensures
        pid1 == pid2 && tgid1 == tgid2,
{
}

/// Packs a task identity into a single map key, pid in the high half.
pub fn task_key(pid: u32, tgid: u32) -> (k: u64)
    ensures
        k == spec_task_key(pid, tgid),
{
    (pid as u64) * 0x1_0000_0000 + (tgid as u64)
}

} // verus!
