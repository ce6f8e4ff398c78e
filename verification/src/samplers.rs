//! The decision logic of the two kernel samplers, as functions from plain
//! values to plain values.
//!
//! The kernel side runs these decisions inside perf-event and tracepoint
//! programs; here the same algorithms are stated over the record types and
//! the start-time table so that their guarantees — a record's fields, when
//! an off-CPU record is emitted at all, and that a blocked duration is
//! positive — are proved rather than hoped for.

use vstd::prelude::*;
use crate::records::{OffCpuSample, Sample};
use crate::start_table::{StartTable, START_TABLE_CAPACITY, task_key, spec_task_key};

verus! {

/// A failed stack capture is recorded as -1.
pub open spec fn stack_id_or_fail(o: Option<i64>) -> i64 {
    match o {
        Some(id) => id,
        None => -1i64,
    }
}

/// The go-off timestamp the resuming task finds, after the suspending task
/// was recorded: fresh `now` if the two are the same task, nothing if the
/// recording just evicted it, else whatever the table held.
pub open spec fn spec_resume_start(t: &StartTable, prev_pid: u32, next_pid: u32, now: u64) -> Option<
    u64,
> {
    let pk = spec_task_key(prev_pid, 0);
    let nk = spec_task_key(next_pid, 0);
    if nk == pk {
        Some(now)
    } else if t.spec_len() == START_TABLE_CAPACITY && !t.spec_has(pk) && nk == t.spec_oldest() {
        None
    } else {
        t.spec_get(nk)
    }
}

/// Whether a switch event emits an off-CPU record: a go-off moment is
/// found for the resuming task, and strictly before `now` — so the
/// blocked duration of every emitted record is positive.
pub open spec fn spec_emits(t: &StartTable, prev_pid: u32, next_pid: u32, now: u64) -> bool {
    spec_resume_start(t, prev_pid, next_pid, now) matches Some(st) && st < now
}

/// One scheduler-switch event, as the off-CPU sampler handles it: record
/// `now` as the moment `prev_pid` went off CPU, and if a go-off moment
/// strictly before `now` is on record for `next_pid`, consume it and emit
/// an off-CPU record carrying the positive blocked duration and the
/// captured stacks. A task that resumes without a recorded go-off — first
/// switch after load, or its entry was evicted — produces no record; nor
/// does a degenerate switch whose blocked time would be zero (a task
/// handed to itself, or a clock that did not advance), whose entry stays
/// for a later resume.
pub fn on_sched_switch(
    table: &mut StartTable,
    prev_pid: u32,
    next_pid: u32,
    now: u64,
    kstack: Option<i64>,
    ustack: Option<i64>,
    next_comm: [u8; 16],
) -> (r: Option<OffCpuSample>)
    requires
        old(table).wf(),
    ensures
        final(table).wf(),
        r is Some <==> spec_emits(old(table), prev_pid, next_pid, now),
        r matches Some(s) ==> {
            &&& s.pid == next_pid
            &&& s.tgid == 0
            &&& s.off_ns == now - spec_resume_start(
                old(table),
                prev_pid,
                next_pid,
                now,
            )->Some_0
            &&& s.off_ns > 0
            &&& s.kstack_id == stack_id_or_fail(kstack)
            &&& s.ustack_id == stack_id_or_fail(ustack)
            &&& s.comm@ == next_comm@
        },
        forall|k: u64|
            final(table).spec_has(k) ==> k == spec_task_key(prev_pid, 0) || old(
                table,
            ).spec_has(k),
        final(table).spec_len() == {
            let pk = spec_task_key(prev_pid, 0);
            let grown: nat = if old(table).spec_has(pk) || old(table).spec_len()
                == START_TABLE_CAPACITY {
                old(table).spec_len()
            } else {
                old(table).spec_len() + 1
            };
            if spec_emits(old(table), prev_pid, next_pid, now) {
                (grown - 1) as nat
            } else {
                grown
            }
        },
        forall|k: u64|
            final(table).spec_get(k) == {
                let pk = spec_task_key(prev_pid, 0);
                let nk = spec_task_key(next_pid, 0);
                if spec_emits(old(table), prev_pid, next_pid, now) && k == nk {
                    None::<u64>
                } else if k == pk {
                    Some(now)
                } else if old(table).spec_len() == START_TABLE_CAPACITY && !old(table).spec_has(pk)
                    && k == old(table).spec_oldest() {
                    None::<u64>
                } else {
                    old(table).spec_get(k)
                }
            },
{
    let ghost pre = *table;
    let prev_key = task_key(prev_pid, 0);
    let next_key = task_key(next_pid, 0);
    table.insert(prev_key, now);
    let ghost mid = *table;
    let looked_up = table.get(next_key);
    match looked_up {
        Some(start) => {
            if start >= now {
                proof {
                    assert forall|k: u64|
                        table.spec_has(k) implies k == spec_task_key(prev_pid, 0)
                        || pre.spec_has(k) by {
                        if k != prev_key {
                            assert(table.spec_get(k) is Some);
                            assert(table.spec_get(k) == pre.spec_get(k) || table.spec_get(k)
                                is None);
                            assert(pre.spec_get(k) is Some);
                        }
                    }
                }
                return None;
            }
            table.remove(next_key);
            let off_ns = now - start;
            let r = Some(
                OffCpuSample {
                    pid: next_pid,
                    tgid: 0,
                    off_ns,
                    kstack_id: match kstack {
                        Some(id) => id,
                        None => -1,
                    },
                    ustack_id: match ustack {
                        Some(id) => id,
                        None => -1,
                    },
                    comm: next_comm,
                },
            );
            proof {
                assert forall|k: u64| table.spec_has(k) implies k == spec_task_key(prev_pid, 0)
                    || pre.spec_has(k) by {
                    if k != prev_key && k != next_key {
                        assert(table.spec_get(k) is Some);
                        assert(table.spec_get(k) == mid.spec_get(k));
                        assert(mid.spec_get(k) == pre.spec_get(k) || mid.spec_get(k)
                            is None);
                        assert(pre.spec_get(k) is Some);
                    }
                }
            }
            r
        },
        None => {
            proof {
                assert forall|k: u64| table.spec_has(k) implies k == spec_task_key(prev_pid, 0)
                    || pre.spec_has(k) by {
                    if k != prev_key {
                        assert(table.spec_get(k) is Some);
                        assert(table.spec_get(k) == pre.spec_get(k) || table.spec_get(k)
                            is None);
                        assert(pre.spec_get(k) is Some);
                    }
                }
            }
            None
        },
    }
}

/// One timer fire of the on-CPU sampler: assemble the record for the task
/// and CPU that were running, storing -1 for whichever stack capture
/// failed. Because the counter is scoped to one process on one CPU, the
/// caller passes exactly the target's pid and the sampled CPU, and the
/// record carries them through unchanged.
pub fn on_timer_fire(
    pid: u32,
    cpu: u32,
    comm: [i8; 16],
    kstack: Option<i64>,
    ustack: Option<i64>,
) -> (s: Sample)
    ensures
        s.pid == pid,
        s.cpu == cpu,
        s.comm@ == comm@,
        s.kstack_id == stack_id_or_fail(kstack),
        s.ustack_id == stack_id_or_fail(ustack),
{
    Sample {
        pid,
        cpu,
        comm,
        kstack_id: match kstack {
            Some(id) => id,
            None => -1,
        },
        ustack_id: match ustack {
            Some(id) => id,
            None => -1,
        },
    }
}

} // verus!
