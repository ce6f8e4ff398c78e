//! Fixed-layout sample records exchanged across the kernel/user boundary.
//!
//! The byte layout is the interface: packed, little-endian, fields in
//! declaration order. `encode_*` and `decode_*` are two sides of the same
//! layout, and the round-trip lemmas state that they are inverses.

use vstd::prelude::*;
use vstd::bytes::*;
use vstd::slice::*;

verus! {

/// Number of bytes of a command name, as the kernel reports it.
pub const COMM_LEN: usize = 16;

/// Wire size of an on-CPU record.
pub const SAMPLE_BYTES: usize = 40;

/// Wire size of an off-CPU record.
pub const OFF_CPU_SAMPLE_BYTES: usize = 48;

/// One on-CPU sample: the task and CPU a timer fire caught, plus the two
/// stack-table handles. A stack id of -1 means the capture failed.
#[derive(Clone, Copy, Debug, PartialEq, Eq)]
pub struct Sample {
    pub pid: u32,
    pub cpu: u32,
    pub comm: [i8; 16],
    pub kstack_id: i64,
    pub ustack_id: i64,
}

/// One off-CPU sample: the task that just resumed, how long it was off the
/// CPU, and its stacks at resume time. `tgid` may be recorded as zero.
#[derive(Clone, Copy, Debug, PartialEq, Eq)]
pub struct OffCpuSample {
    pub pid: u32,
    pub tgid: u32,
    pub off_ns: u64,
    pub kstack_id: i64,
    pub ustack_id: i64,
    pub comm: [u8; 16],
}

/// Task identity as the kernel sees it: `pid` is the thread, `tgid` the
/// process. In the off-CPU path `tgid` may be unknown and set to zero.
#[derive(Clone, Copy, Debug, PartialEq, Eq, Hash, Structural)]
pub struct TaskIdent {
    pub pid: u32,
    pub tgid: u32,
}

/// The little-endian bytes of an on-CPU record.
pub open spec fn spec_sample_bytes(s: Sample) -> Seq<u8> {
    spec_u32_to_le_bytes(s.pid) + spec_u32_to_le_bytes(s.cpu)
        + Seq::new(16, |i: int| s.comm@[i] as u8) + spec_u64_to_le_bytes(s.kstack_id as u64)
        + spec_u64_to_le_bytes(s.ustack_id as u64)
}

/// The little-endian bytes of an off-CPU record.
pub open spec fn spec_off_cpu_bytes(s: OffCpuSample) -> Seq<u8> {
    spec_u32_to_le_bytes(s.pid) + spec_u32_to_le_bytes(s.tgid) + spec_u64_to_le_bytes(s.off_ns)
        + spec_u64_to_le_bytes(s.kstack_id as u64) + spec_u64_to_le_bytes(s.ustack_id as u64)
        + s.comm@
}

/// Whether the fields of `s` are exactly what the record bytes `b` spell.
pub open spec fn sample_matches_bytes(s: Sample, b: Seq<u8>) -> bool {
    &&& b.len() == 40
    &&& s.pid == spec_u32_from_le_bytes(b.subrange(0, 4))
    &&& s.cpu == spec_u32_from_le_bytes(b.subrange(4, 8))
    &&& s.comm@ == Seq::new(16, |i: int| b[8 + i] as i8)
    &&& s.kstack_id == spec_u64_from_le_bytes(b.subrange(24, 32)) as i64
    &&& s.ustack_id == spec_u64_from_le_bytes(b.subrange(32, 40)) as i64
}

/// Whether the fields of `s` are exactly what the record bytes `b` spell.
pub open spec fn off_cpu_matches_bytes(s: OffCpuSample, b: Seq<u8>) -> bool {
    &&& b.len() == 48
    &&& s.pid == spec_u32_from_le_bytes(b.subrange(0, 4))
    &&& s.tgid == spec_u32_from_le_bytes(b.subrange(4, 8))
    &&& s.off_ns == spec_u64_from_le_bytes(b.subrange(8, 16))
    &&& s.kstack_id == spec_u64_from_le_bytes(b.subrange(16, 24)) as i64
    &&& s.ustack_id == spec_u64_from_le_bytes(b.subrange(24, 32)) as i64
    &&& s.comm@ == b.subrange(32, 48)
}

/// Serializes an on-CPU record into its wire bytes.
pub fn encode_sample(s: &Sample) -> (out: Vec<u8>)
    ensures
        out@ == spec_sample_bytes(*s),
        out@.len() == 40,
{
    let mut out: Vec<u8> = Vec::new();
    let mut piece = u32_to_le_bytes(s.pid);
    out.append(&mut piece);
    let mut piece = u32_to_le_bytes(s.cpu);
    out.append(&mut piece);
    for i in 0..16usize
        invariant
            out@ == spec_u32_to_le_bytes(s.pid) + spec_u32_to_le_bytes(s.cpu) + Seq::new(
                i as nat,
                |j: int| s.comm@[j] as u8,
            ),
    {
        out.push(s.comm[i] as u8);
        proof {
            assert(out@ =~= spec_u32_to_le_bytes(s.pid) + spec_u32_to_le_bytes(s.cpu) + Seq::new(
                (i + 1) as nat,
                |j: int| s.comm@[j] as u8,
            ));
        }
    }
    let mut piece = u64_to_le_bytes(s.kstack_id as u64);
    out.append(&mut piece);
    let mut piece = u64_to_le_bytes(s.ustack_id as u64);
    out.append(&mut piece);
    proof {
        lemma_auto_spec_u32_to_from_le_bytes();
        lemma_auto_spec_u64_to_from_le_bytes();
        assert(out@ =~= spec_sample_bytes(*s));
    }
    out
}

/// Serializes an off-CPU record into its wire bytes.
pub fn encode_off_cpu(s: &OffCpuSample) -> (out: Vec<u8>)
    ensures
        out@ == spec_off_cpu_bytes(*s),
        out@.len() == 48,
{
    let mut out: Vec<u8> = Vec::new();
    let mut piece = u32_to_le_bytes(s.pid);
    out.append(&mut piece);
    let mut piece = u32_to_le_bytes(s.tgid);
    out.append(&mut piece);
    let mut piece = u64_to_le_bytes(s.off_ns);
    out.append(&mut piece);
    let mut piece = u64_to_le_bytes(s.kstack_id as u64);
    out.append(&mut piece);
    let mut piece = u64_to_le_bytes(s.ustack_id as u64);
    out.append(&mut piece);
    for i in 0..16usize
        invariant
            out@ == spec_u32_to_le_bytes(s.pid) + spec_u32_to_le_bytes(s.tgid)
                + spec_u64_to_le_bytes(s.off_ns) + spec_u64_to_le_bytes(s.kstack_id as u64)
                + spec_u64_to_le_bytes(s.ustack_id as u64) + s.comm@.take(i as int),
    {
        out.push(s.comm[i]);
        proof {
            assert(s.comm@.take(i as int).push(s.comm@[i as int]) =~= s.comm@.take(i + 1));
        }
    }
    proof {
        lemma_auto_spec_u32_to_from_le_bytes();
        lemma_auto_spec_u64_to_from_le_bytes();
        assert(s.comm@.take(16) =~= s.comm@);
        assert(out@ =~= spec_off_cpu_bytes(*s));
    }
    out
}

/// Reads an on-CPU record back from its wire bytes. Returns `None` exactly
/// when `b` is not the size of one record: a partial record never decodes.
pub fn decode_sample(b: &[u8]) -> (r: Option<Sample>)
    ensures
        r is Some <==> b@.len() == 40,
        r matches Some(s) ==> sample_matches_bytes(s, b@),
{
    if b.len() != SAMPLE_BYTES {
        return None;
    }
    let pid = u32_from_le_bytes(slice_subrange(b, 0, 4));
    let cpu = u32_from_le_bytes(slice_subrange(b, 4, 8));
    let mut comm: [i8; 16] = vstd::array::array_fill_for_copy_types(0i8);
    for i in 0..16usize
        invariant
            b@.len() == 40,
            comm@.len() == 16,
            forall|j: int| 0 <= j < i ==> comm@[j] == b@[8 + j] as i8,
    {
        comm[i] = *slice_index_get(b, 8 + i) as i8;
    }
    let kstack_id = u64_from_le_bytes(slice_subrange(b, 24, 32)) as i64;
    let ustack_id = u64_from_le_bytes(slice_subrange(b, 32, 40)) as i64;
    let s = Sample { pid, cpu, comm, kstack_id, ustack_id };
    proof {
        assert(s.comm@ =~= Seq::new(16, |i: int| b@[8 + i] as i8));
    }
    Some(s)
}

/// Reads an off-CPU record back from its wire bytes. Returns `None` exactly
/// when `b` is not the size of one record: a partial record never decodes.
pub fn decode_off_cpu(b: &[u8]) -> (r: Option<OffCpuSample>)
    ensures
        r is Some <==> b@.len() == 48,
        r matches Some(s) ==> off_cpu_matches_bytes(s, b@),
{
    if b.len() != OFF_CPU_SAMPLE_BYTES {
        return None;
    }
    let pid = u32_from_le_bytes(slice_subrange(b, 0, 4));
    let tgid = u32_from_le_bytes(slice_subrange(b, 4, 8));
    let off_ns = u64_from_le_bytes(slice_subrange(b, 8, 16));
    let kstack_id = u64_from_le_bytes(slice_subrange(b, 16, 24)) as i64;
    let ustack_id = u64_from_le_bytes(slice_subrange(b, 24, 32)) as i64;
    let mut comm: [u8; 16] = vstd::array::array_fill_for_copy_types(0u8);
    for i in 0..16usize
        invariant
            b@.len() == 48,
            comm@.len() == 16,
            forall|j: int| 0 <= j < i ==> comm@[j] == b@[32 + j],
    {
        comm[i] = *slice_index_get(b, 32 + i);
    }
    let s = OffCpuSample { pid, tgid, off_ns, kstack_id, ustack_id, comm };
    proof {
        assert(s.comm@ =~= b@.subrange(32, 48));
    }
    Some(s)
}

/// Casting an `i64` through `u64` and back is the identity.
proof fn lemma_i64_u64_round_trip(x: i64)
    ensures
        (x as u64) as i64 == x,
{
    assert((x as u64) as i64 == x) by (bit_vector);
}

/// Law: encoding an on-CPU record and decoding the bytes yields the same
/// record, field for field.
pub proof fn lemma_sample_round_trip(s: Sample)
    ensures
        sample_matches_bytes(s, spec_sample_bytes(s)),
{
    let b = spec_sample_bytes(s);
    lemma_auto_spec_u32_to_from_le_bytes();
    lemma_auto_spec_u64_to_from_le_bytes();
    assert(b.subrange(0, 4) =~= spec_u32_to_le_bytes(s.pid));
    assert(b.subrange(4, 8) =~= spec_u32_to_le_bytes(s.cpu));
    assert(b.subrange(24, 32) =~= spec_u64_to_le_bytes(s.kstack_id as u64));
    assert(b.subrange(32, 40) =~= spec_u64_to_le_bytes(s.ustack_id as u64));
    lemma_i64_u64_round_trip(s.kstack_id);
    lemma_i64_u64_round_trip(s.ustack_id);
    assert forall|i: int| 0 <= i < 16 implies s.comm@[i] == b[8 + i] as i8 by {
        assert(b[8 + i] == s.comm@[i] as u8);
        let c = s.comm@[i];
        assert((c as u8) as i8 == c) by (bit_vector);
    }
    assert(s.comm@ =~= Seq::new(16, |i: int| b[8 + i] as i8));
}

/// Law: encoding an off-CPU record and decoding the bytes yields the same
/// record, field for field.
pub proof fn lemma_off_cpu_round_trip(s: OffCpuSample)
    ensures
        off_cpu_matches_bytes(s, spec_off_cpu_bytes(s)),
{
    let b = spec_off_cpu_bytes(s);
    lemma_auto_spec_u32_to_from_le_bytes();
    lemma_auto_spec_u64_to_from_le_bytes();
    assert(b.subrange(0, 4) =~= spec_u32_to_le_bytes(s.pid));
    assert(b.subrange(4, 8) =~= spec_u32_to_le_bytes(s.tgid));
    assert(b.subrange(8, 16) =~= spec_u64_to_le_bytes(s.off_ns));
    assert(b.subrange(16, 24) =~= spec_u64_to_le_bytes(s.kstack_id as u64));
    assert(b.subrange(24, 32) =~= spec_u64_to_le_bytes(s.ustack_id as u64));
    lemma_i64_u64_round_trip(s.kstack_id);
    lemma_i64_u64_round_trip(s.ustack_id);
    assert(b.subrange(32, 48) =~= s.comm@);
}

} // verus!
