//! Records on the wire, the start-time table, and the sampler decisions.

use larkspur::records::{decode_off_cpu, decode_sample, encode_off_cpu, encode_sample, OffCpuSample, Sample, TaskIdent, COMM_LEN, OFF_CPU_SAMPLE_BYTES, SAMPLE_BYTES};
use larkspur::samplers::{on_sched_switch, on_timer_fire};
use larkspur::stack_tables::{stacktrace_from_id, StackTable};
use larkspur::start_table::{task_key, StartTable};

fn comm_i8(tag: &str) -> [i8; COMM_LEN] {
    let mut c = [0i8; COMM_LEN];
    for (i, b) in tag.bytes().enumerate() {
        c[i] = b as i8;
    }
    c
}

fn comm_u8(tag: &str) -> [u8; 16] {
    let mut c = [0u8; 16];
    for (i, b) in tag.bytes().enumerate() {
        c[i] = b;
    }
    c
}

#[test]
fn sample_round_trip() {
    let s = Sample {
        pid: 4242,
        cpu: 3,
        comm: comm_i8("hot"),
        kstack_id: 17,
        ustack_id: -1,
    };
    let bytes = encode_sample(&s);
    assert_eq!(bytes.len(), SAMPLE_BYTES);
    let d = decode_sample(&bytes).expect("full record must decode");
    assert_eq!(d, s);
}

#[test]
fn off_cpu_round_trip() {
    let s = OffCpuSample {
        pid: 99,
        tgid: 0,
        off_ns: 2_000_000_123,
        kstack_id: -1,
        ustack_id: 8,
        comm: comm_u8("reader"),
    };
    let bytes = encode_off_cpu(&s);
    assert_eq!(bytes.len(), OFF_CPU_SAMPLE_BYTES);
    let d = decode_off_cpu(&bytes).expect("full record must decode");
    assert_eq!(d, s);
}

#[test]
fn sample_layout_is_packed_little_endian() {
    let s = Sample {
        pid: 0x01020304,
        cpu: 0x0a0b0c0d,
        comm: [0i8; 16],
        kstack_id: 1,
        ustack_id: 2,
    };
    let bytes = encode_sample(&s);
    assert_eq!(&bytes[0..4], &[0x04, 0x03, 0x02, 0x01]);
    assert_eq!(&bytes[4..8], &[0x0d, 0x0c, 0x0b, 0x0a]);
    assert_eq!(&bytes[8..24], &[0u8; 16]);
    assert_eq!(&bytes[24..32], &[1, 0, 0, 0, 0, 0, 0, 0]);
    assert_eq!(&bytes[32..40], &[2, 0, 0, 0, 0, 0, 0, 0]);
}

#[test]
fn partial_record_never_decodes() {
    let s = Sample { pid: 1, cpu: 0, comm: [0i8; 16], kstack_id: -1, ustack_id: -1 };
    let mut bytes = encode_sample(&s);
    bytes.pop();
    assert!(decode_sample(&bytes).is_none());
    assert!(decode_off_cpu(&bytes).is_none());
    assert!(decode_off_cpu(&[]).is_none());
}

#[test]
fn task_key_packs_pid_high() {
    assert_eq!(task_key(1, 0), 0x1_0000_0000);
    assert_eq!(task_key(0xffff_ffff, 0xffff_ffff), u64::MAX);
    assert_eq!(TaskIdent { pid: 7, tgid: 7 }, TaskIdent { pid: 7, tgid: 7 });
}

#[test]
fn start_table_insert_get_remove() {
    let mut t = StartTable::new();
    assert_eq!(t.get(5), None);
    t.insert(5, 100);
    t.insert(6, 200);
    assert_eq!(t.get(5), Some(100));
    t.insert(5, 150);
    assert_eq!(t.get(5), Some(150));
    assert_eq!(t.get(6), Some(200));
    t.remove(5);
    assert_eq!(t.get(5), None);
    assert_eq!(t.get(6), Some(200));
}

#[test]
fn switch_emits_record_with_blocked_time() {
    let mut t = StartTable::new();
    // Task 7 goes off CPU at t=1000 while task 3 resumes unseen.
    let first = on_sched_switch(&mut t, 7, 3, 1000, None, None, comm_u8("a"));
    assert!(first.is_none());
    // Task 7 resumes at t=3500: one record, 2500 ns off CPU.
    let rec = on_sched_switch(&mut t, 9, 7, 3500, Some(4), Some(-1), comm_u8("b"))
        .expect("resume with recorded go-off must emit");
    assert_eq!(rec.pid, 7);
    assert_eq!(rec.tgid, 0);
    assert_eq!(rec.off_ns, 2500);
    assert!(rec.off_ns > 0);
    assert_eq!(rec.kstack_id, 4);
    assert_eq!(rec.ustack_id, -1);
    assert_eq!(rec.comm, comm_u8("b"));
}

#[test]
fn switch_consumes_the_entry() {
    let mut t = StartTable::new();
    assert!(on_sched_switch(&mut t, 7, 3, 1000, None, None, comm_u8("a")).is_none());
    assert!(on_sched_switch(&mut t, 9, 7, 2000, None, None, comm_u8("b")).is_some());
    // The entry was deleted at resume: a second resume finds nothing.
    assert!(on_sched_switch(&mut t, 11, 7, 3000, None, None, comm_u8("c")).is_none());
}

#[test]
fn resume_without_entry_emits_nothing() {
    // An evicted or never-recorded task resumes: no off-CPU record.
    let mut t = StartTable::new();
    let r = on_sched_switch(&mut t, 1, 2, 500, Some(1), Some(2), comm_u8("x"));
    assert!(r.is_none());
    // Its own go-off was still recorded.
    assert_eq!(t.get(task_key(1, 0)), Some(500));
}

#[test]
fn switch_to_self_emits_nothing() {
    // A degenerate switch hands the CPU back to the same task: the
    // freshly written go-off would give a zero blocked time, so no
    // record; the go-off stays for the real resume later.
    let mut t = StartTable::new();
    assert!(on_sched_switch(&mut t, 5, 5, 100, None, None, comm_u8("x")).is_none());
    assert_eq!(t.get(task_key(5, 0)), Some(100));
    let rec = on_sched_switch(&mut t, 9, 5, 250, None, None, comm_u8("x"))
        .expect("real resume must emit");
    assert_eq!(rec.off_ns, 150);
}

#[test]
fn zero_blocked_time_is_not_emitted() {
    // A clock that did not advance between off-switch and resume would
    // give off_ns == 0; the record is suppressed and the entry kept.
    let mut t = StartTable::new();
    assert!(on_sched_switch(&mut t, 5, 3, 100, None, None, comm_u8("a")).is_none());
    assert!(on_sched_switch(&mut t, 7, 5, 100, None, None, comm_u8("b")).is_none());
    let rec = on_sched_switch(&mut t, 9, 5, 300, None, None, comm_u8("c"))
        .expect("later resume must emit");
    assert!(rec.off_ns > 0);
    assert_eq!(rec.off_ns, 200);
}

#[test]
fn failed_stack_capture_records_minus_one() {
    let s = on_timer_fire(42, 2, comm_i8("hot"), None, Some(9));
    assert_eq!(s.pid, 42);
    assert_eq!(s.cpu, 2);
    assert_eq!(s.kstack_id, -1);
    assert_eq!(s.ustack_id, 9);
    assert_eq!(s.comm, comm_i8("hot"));
}

#[test]
fn stack_table_reads_are_stable() {
    let mut t = StackTable::new();
    t.add(7, vec![0xdead, 0xbeef]);
    let first = stacktrace_from_id(&t, 7);
    t.add(8, vec![0x1]);
    let second = stacktrace_from_id(&t, 7);
    assert_eq!(first, vec![0xdead, 0xbeef]);
    assert_eq!(first, second);
}

#[test]
fn negative_and_unknown_stack_ids_are_empty() {
    let mut t = StackTable::new();
    t.add(1, vec![0x10]);
    assert!(stacktrace_from_id(&t, -1).is_empty());
    assert!(stacktrace_from_id(&t, 2).is_empty());
    assert_eq!(stacktrace_from_id(&t, 1), vec![0x10]);
}
