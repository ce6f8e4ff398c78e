//! User-space snapshot of a kernel stack-trace table: stack id to the
//! captured instruction pointers, leaf first.
//!
//! During a session the kernel only ever adds entries and never invalidates
//! a key, so the snapshot is append-only, and reading the same id twice
//! yields the same trace — that stability is stated and proved here.

use vstd::prelude::*;

verus! {

/// True when no stack id appears twice in `s`.
pub open spec fn ids_distinct(s: Seq<(u32, Vec<u64>)>) -> bool {
    forall|i: int, j: int|
        0 <= i < j < s.len() ==> (#[trigger] s[i]).0 != (#[trigger] s[j]).0
}

/// True when some entry of `s` carries the id `k`.
pub open spec fn seq_has_id(s: Seq<(u32, Vec<u64>)>, k: u32) -> bool {
    exists|i: int| 0 <= i < s.len() && (#[trigger] s[i]).0 == k
}

/// The instruction pointers stored under `k`; empty when `k` is absent.
pub open spec fn seq_trace(s: Seq<(u32, Vec<u64>)>, k: u32) -> Seq<u64> {
    if seq_has_id(s, k) {
        let i = choose|i: int| 0 <= i < s.len() && (#[trigger] s[i]).0 == k;
        s[i].1@
    } else {
        Seq::empty()
    }
}

/// With distinct ids, any entry that carries `k` decides the trace.
proof fn lemma_trace_at(s: Seq<(u32, Vec<u64>)>, k: u32, i: int)
    requires
        ids_distinct(s),
        0 <= i < s.len(),
        s[i].0 == k,
    ensures
        seq_has_id(s, k),
        seq_trace(s, k) == s[i].1@,
{
    let j = choose|j: int| 0 <= j < s.len() && (#[trigger] s[j]).0 == k;
    if i != j {
        assert(s[i].0 != s[j].0);
    }
}

/// Snapshot of one kernel stack-trace table.
pub struct StackTable {
    entries: Vec<(u32, Vec<u64>)>,
}

impl StackTable {
    /// The recorded entries.
    pub closed spec fn spec_entries(&self) -> Seq<(u32, Vec<u64>)> {
        self.entries@
    }

    /// Structural invariant: each id is recorded at most once.
    pub open spec fn wf(&self) -> bool {
        ids_distinct(self.spec_entries())
    }

    /// Whether the table has an entry for `k`.
    pub open spec fn spec_has(&self, k: u32) -> bool {
        seq_has_id(self.spec_entries(), k)
    }

    /// The trace recorded under `k`; empty when `k` is absent.
    pub open spec fn spec_trace(&self, k: u32) -> Seq<u64> {
        seq_trace(self.spec_entries(), k)
    }

    /// An empty snapshot.
    pub fn new() -> (t: StackTable)
        ensures
            t.wf(),
            forall|k: u32| !t.spec_has(k),
    {
        StackTable { entries: Vec::new() }
    }

    /// Whether an entry for `k` was already recorded.
    pub fn has(&self, k: u32) -> (r: bool)
        ensures
            r == self.spec_has(k),
    {
        let mut i: usize = 0;
        while i < self.entries.len()
            invariant
                i <= self.entries@.len(),
                forall|j: int| 0 <= j < i ==> (#[trigger] self.entries@[j]).0 != k,
            decreases self.entries@.len() - i,
        {
            if self.entries[i].0 == k {
                return true;
            }
            i = i + 1;
        }
        false
    }

    /// Records the trace the kernel captured under a fresh id. Every entry
    /// already present keeps exactly the trace it had: the snapshot only
    /// grows.
    pub fn add(&mut self, k: u32, ips: Vec<u64>)
        requires
            old(self).wf(),
            !old(self).spec_has(k),
        ensures
            final(self).wf(),
            final(self).spec_has(k),
            final(self).spec_trace(k) == ips@,
            forall|k2: u32| k2 != k ==> final(self).spec_has(k2) == old(self).spec_has(k2),
            forall|k2: u32| k2 != k ==> final(self).spec_trace(k2) == old(self).spec_trace(k2),
    {
        let ghost pre = self.entries@;
        self.entries.push((k, ips));
        proof {
            let post = self.entries@;
            assert forall|i: int, j: int| 0 <= i < j < post.len() implies (#[trigger] post[i]).0
                != (#[trigger] post[j]).0 by {
                if j < pre.len() {
                    assert(post[i] == pre[i] && post[j] == pre[j]);
                } else {
                    assert(post[i] == pre[i]);
                }
            }
            lemma_trace_at(post, k, pre.len() as int);
            assert forall|k2: u32| k2 != k implies final(self).spec_has(k2) == old(self).spec_has(
                k2,
            ) && final(self).spec_trace(k2) == old(self).spec_trace(k2) by {
                if seq_has_id(pre, k2) {
                    let i = choose|i: int| 0 <= i < pre.len() && (#[trigger] pre[i]).0 == k2;
                    assert(post[i] == pre[i]);
                    lemma_trace_at(pre, k2, i);
                    lemma_trace_at(post, k2, i);
                } else if seq_has_id(post, k2) {
                    let i = choose|i: int| 0 <= i < post.len() && (#[trigger] post[i]).0 == k2;
                    assert(i < pre.len() ==> pre[i] == post[i]);
                }
            }
        }
    }

    /// The trace recorded under `k`, or an empty one when `k` is absent.
    pub fn get(&self, k: u32) -> (r: Vec<u64>)
        requires
            self.wf(),
        ensures
            r@ == self.spec_trace(k),
    {
        let mut i: usize = 0;
        while i < self.entries.len()
            invariant
                self.wf(),
                i <= self.entries@.len(),
                forall|j: int| 0 <= j < i ==> (#[trigger] self.entries@[j]).0 != k,
            decreases self.entries@.len() - i,
        {
            if self.entries[i].0 == k {
                proof {
                    lemma_trace_at(self.spec_entries(), k, i as int);
                }
                let r = self.entries[i].1.clone();
                proof {
                    assert(r@ =~= self.entries@[i as int].1@);
                }
                return r;
            }
            i = i + 1;
        }
        Vec::new()
    }
}

/// The instruction pointers a record's stack id stands for: none when the
/// capture failed (`id < 0`), none when the table has no such entry, else
/// the recorded trace.
pub open spec fn spec_stack_trace(t: &StackTable, id: i64) -> Seq<u64> {
    if id < 0 {
        Seq::empty()
    } else {
        t.spec_trace(id as u32)
    }
}

/// Expands a record's stack id into the instruction pointers it stands
/// for. A failed capture (`id < 0`) and an id the table does not know both
/// yield an empty stack, and the sample is still usable with whichever
/// side is present.
pub fn stacktrace_from_id(table: &StackTable, id: i64) -> (r: Vec<u64>)
    requires
        table.wf(),
    ensures
        r@ == spec_stack_trace(table, id),
        id < 0 ==> r@.len() == 0,
{
    if id < 0 {
        return Vec::new();
    }
    table.get(id as u32)
}

/// Law: expanding a stack id is a function of the snapshot and the id
/// alone, and recording further ids does not disturb it — so a stack id
/// read by user space yields identical instruction pointers across
/// repeated reads, however many other entries arrive in between.
pub proof fn lemma_repeated_reads_identical(t1: StackTable, t2: StackTable, id: i64)
    requires
        t1.wf(),
        forall|k2: u32| t2.spec_has(k2) == t1.spec_has(k2),
        forall|k2: u32| t2.spec_trace(k2) == t1.spec_trace(k2),
    ensures
        spec_stack_trace(&t2, id) == spec_stack_trace(&t1, id),
{
}

} // verus!
