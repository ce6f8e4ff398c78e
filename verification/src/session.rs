//! The collector session: its state machine, its deadline arithmetic,
//! and the per-record pipeline from stack ids to folded lines.
//!
//! A record's kernel side is fully determined by the loaded symbol
//! table, and its folded line is stated exactly. The user side goes
//! through the DWARF symbolizer, so its folded line is pinned in shape —
//! one line, the record's weight — with the frame names as the
//! symbolizer reported them. A side whose stack is missing (`id = -1`,
//! or an id the tables do not know) is simply not emitted, and the other
//! side still is.

use vstd::prelude::*;
use vstd::string::*;
use crate::fold::{Folder, count_char, lemma_count_char_zero, lemma_folded_line_shape, spec_folded_line};
use crate::kstack::{
    KStackResolver, KstackSymbol, SymRange, entry_matches_line, lemma_parsed_name_is_clean,
    spec_owner, spec_parse_ksym_line,
};
use crate::records::OffCpuSample;
use crate::stack_tables::{StackTable, spec_stack_trace, stacktrace_from_id};
use crate::ustack::{Resolver, UstackSymbol, spec_user_frame_name, user_frame_name, user_group_ok};

verus! {

/// The two session modes: timer-driven on-CPU sampling at a frequency,
/// or off-CPU blocking measurement at the scheduler switch.
#[derive(Clone, Copy, Debug, PartialEq, Eq, Structural)]
pub enum SessionKind {
    OnCpu { frequency: u64 },
    OffCpu,
}

impl SessionKind {
    /// The weight one record of this mode contributes to its folded
    /// lines: on-CPU lines count samples, off-CPU lines count the
    /// blocked nanoseconds.
    pub fn record_weight(&self, off_ns: u64) -> (w: u64)
        ensures
            *self matches SessionKind::OnCpu { .. } ==> w == 1,
            *self is OffCpu ==> w == off_ns,
    {
        match self {
            SessionKind::OnCpu { .. } => 1,
            SessionKind::OffCpu => off_ns,
        }
    }
}

/// The session's life: load the kernel artifact, attach it, drain the
/// ring buffer, stop at the deadline, done.
#[derive(Clone, Copy, Debug, PartialEq, Eq, Structural)]
pub enum SessionState {
    Idle,
    Loading,
    Attached,
    Draining,
    Stopping,
    Done,
}

/// The state after one step: the linear successor when the step worked,
/// `Stopping` on any failure, and `Done` stays `Done`.
pub open spec fn spec_next_state(s: SessionState, ok: bool) -> SessionState {
    if !ok {
        SessionState::Stopping
    } else {
        match s {
            SessionState::Idle => SessionState::Loading,
            SessionState::Loading => SessionState::Attached,
            SessionState::Attached => SessionState::Draining,
            SessionState::Draining => SessionState::Stopping,
            SessionState::Stopping => SessionState::Done,
            SessionState::Done => SessionState::Done,
        }
    }
}

/// Advances the session one step; transitions are linear and any
/// failure jumps to `Stopping`.
pub fn next_state(s: SessionState, ok: bool) -> (r: SessionState)
    ensures
        r == spec_next_state(s, ok),
{
    if !ok {
        return SessionState::Stopping;
    }
    match s {
        SessionState::Idle => SessionState::Loading,
        SessionState::Loading => SessionState::Attached,
        SessionState::Attached => SessionState::Draining,
        SessionState::Draining => SessionState::Stopping,
        SessionState::Stopping => SessionState::Done,
        SessionState::Done => SessionState::Done,
    }
}

/// The drain deadline: session start plus the duration in seconds, in
/// nanoseconds. `None` when that leaves the clock's range.
pub fn deadline_ns(start_ns: u64, duration_s: u64) -> (r: Option<u64>)
    ensures
        r matches Some(d) ==> d == start_ns + duration_s * 1_000_000_000,
        r is None <==> start_ns + duration_s * 1_000_000_000 > u64::MAX,
{
    match duration_s.checked_mul(1_000_000_000) {
        Some(total) => start_ns.checked_add(total),
        None => {
            proof {
                assert(duration_s * 1_000_000_000 > u64::MAX) by (nonlinear_arith)
                    requires
                        duration_s > 0xffff_ffff_ffff_ffffu64 / 1_000_000_000,
                ;
            }
            None
        },
    }
}

/// Whether the drain loop is past its deadline.
pub fn past_deadline(now_ns: u64, deadline: u64) -> (r: bool)
    ensures
        r == (now_ns >= deadline),
{
    now_ns >= deadline
}

/// The perf-counter scopes an on-CPU session opens: one per online CPU,
/// each restricted to the target process on that CPU — so no unrelated
/// process can contribute a sample, and a record's `pid` and `cpu` can
/// only be the target's pid and a CPU that was online at session start.
pub fn attach_scopes(pid: u32, cpus: &Vec<u32>) -> (r: Vec<(u32, u32)>)
    ensures
        r@.len() == cpus@.len(),
        forall|i: int|
            0 <= i < cpus@.len() ==> (#[trigger] r@[i]).0 == pid && r@[i].1 == cpus@[i],
{
    let mut out: Vec<(u32, u32)> = Vec::new();
    let mut i: usize = 0;
    while i < cpus.len()
        invariant
            i <= cpus@.len(),
            out@.len() == i,
            forall|j: int| 0 <= j < i ==> (#[trigger] out@[j]).0 == pid && out@[j].1 == cpus@[j],
        decreases cpus@.len() - i,
    {
        out.push((pid, cpus[i]));
        i = i + 1;
    }
    out
}

/// Whether an off-CPU record belongs to the profiled process. The
/// off-CPU sampler records every task; user space keeps only the target.
pub fn off_cpu_matches_target(s: &OffCpuSample, target_pid: u32) -> (r: bool)
    ensures
        r == (s.pid == target_pid),
{
    s.pid == target_pid
}

/// The folded name of a kernel frame: the symbol's name, or `unknown`
/// when none resolved — unknown kernel frames collapse together.
pub open spec fn spec_kernel_frame_name(s: KstackSymbol) -> Seq<char> {
    match s.function {
        Some(f) => f@,
        None => "unknown"@,
    }
}

/// The folded name of one kernel frame.
pub fn kernel_frame_name(s: &KstackSymbol) -> (r: String)
    ensures
        r@ == spec_kernel_frame_name(*s),
{
    match &s.function {
        Some(f) => f.clone(),
        None => String::from_str("unknown"),
    }
}

/// The name the loaded symbol table gives an address: the owning
/// symbol's name, or `unknown`.
pub open spec fn spec_kernel_name_of(syms: Seq<SymRange>, addr: u64) -> Seq<char> {
    match spec_owner(syms, addr) {
        Some(i) => syms[i].name@,
        None => "unknown"@,
    }
}

/// The folded frame names of a kernel stack: one name per captured
/// address, reversed so that the root caller comes first and the leaf
/// last.
pub open spec fn spec_kernel_names(syms: Seq<SymRange>, addrs: Seq<u64>) -> Seq<Seq<char>> {
    Seq::new(addrs.len(), |i: int| spec_kernel_name_of(syms, addrs[addrs.len() - 1 - i]))
}

/// Resolves and orders a kernel stack for folding: the captured
/// addresses come leaf first, the folded line wants the root first.
pub fn kernel_stack_names(kres: &KStackResolver, addrs: &Vec<u64>) -> (r: Vec<String>)
    requires
        kres.wf(),
    ensures
        r@.map_values(|f: String| f@) == spec_kernel_names(kres.spec_syms(), addrs@),
{
    let mut out: Vec<String> = Vec::new();
    let n = addrs.len();
    let mut i: usize = 0;
    while i < n
        invariant
            kres.wf(),
            n == addrs@.len(),
            i <= n,
            out@.len() == i,
            forall|j: int|
                0 <= j < i ==> (#[trigger] out@[j])@ == spec_kernel_name_of(
                    kres.spec_syms(),
                    addrs@[n - 1 - j],
                ),
        decreases n - i,
    {
        let sym = kres.symbolize_addr(addrs[n - 1 - i]);
        let name = kernel_frame_name(&sym);
        out.push(name);
        i = i + 1;
    }
    proof {
        assert(out@.map_values(|f: String| f@) =~= spec_kernel_names(kres.spec_syms(), addrs@));
    }
    out
}

/// The folded names of one symbolized address, physical frame first.
pub open spec fn spec_group_names(g: Seq<UstackSymbol>) -> Seq<Seq<char>> {
    Seq::new(g.len(), |i: int| spec_user_frame_name(g[i]))
}

/// The folded names of a symbolized user stack before reordering: the
/// leaf address's frames first, each group physical frame first.
pub open spec fn spec_flat_user_names(groups: Seq<Seq<UstackSymbol>>) -> Seq<Seq<char>>
    decreases groups.len(),
{
    if groups.len() == 0 {
        Seq::empty()
    } else {
        spec_flat_user_names(groups.drop_last()) + spec_group_names(groups.last())
    }
}

/// The names of one user folded line: the flattened frame names,
/// reversed whole, so the root caller's frame comes first and, inside
/// one physical frame, the innermost inlined call precedes its caller.
pub open spec fn spec_user_line_names(groups: Seq<Seq<UstackSymbol>>) -> Seq<Seq<char>> {
    spec_flat_user_names(groups).reverse()
}

/// Orders and names a symbolized user stack for folding.
pub fn user_stack_names(groups: &Vec<Vec<UstackSymbol>>) -> (r: Vec<String>)
    ensures
        r@.map_values(|f: String| f@) == spec_user_line_names(
            groups@.map_values(|g: Vec<UstackSymbol>| g@),
        ),
        (forall|k: int| 0 <= k < groups@.len() ==> (#[trigger] groups@[k])@.len() >= 1)
            ==> r@.len() >= groups@.len(),
{
    let ghost gviews = groups@.map_values(|g: Vec<UstackSymbol>| g@);
    let mut forward: Vec<String> = Vec::new();
    let mut k: usize = 0;
    while k < groups.len()
        invariant
            gviews == groups@.map_values(|g: Vec<UstackSymbol>| g@),
            k <= groups@.len(),
            forward@.map_values(|f: String| f@) == spec_flat_user_names(gviews.take(k as int)),
            forward@.len() >= k || exists|j: int| 0 <= j < k && (#[trigger] gviews[j]).len() == 0,
        decreases groups@.len() - k,
    {
        let g = &groups[k];
        let ghost pre = forward@.map_values(|f: String| f@);
        let mut i: usize = 0;
        while i < g.len()
            invariant
                pre == spec_flat_user_names(gviews.take(k as int)),
                k < groups@.len(),
                gviews == groups@.map_values(|g2: Vec<UstackSymbol>| g2@),
                g == groups@[k as int],
                i <= g@.len(),
                forward@.len() == pre.len() + i,
                forward@.map_values(|f: String| f@) == pre + spec_group_names(g@).take(i as int),
            decreases g@.len() - i,
        {
            let name = user_frame_name(&g[i]);
            let ghost before = forward@;
            forward.push(name);
            proof {
                let target = pre + spec_group_names(g@).take(i + 1);
                assert forall|j: int|
                    0 <= j < forward@.len() implies forward@.map_values(|f: String| f@)[j]
                    == #[trigger] target[j] by {
                    if j < before.len() {
                        assert(forward@[j] == before[j]);
                        assert(before.map_values(|f: String| f@)[j] == (pre + spec_group_names(
                            g@,
                        ).take(i as int))[j]);
                    } else {
                        assert(forward@[j]@ == spec_user_frame_name(g@[i as int]));
                        assert(target[j] == spec_group_names(g@)[i as int]);
                    }
                }
                assert(forward@.map_values(|f: String| f@) =~= target);
            }
            i = i + 1;
        }
        proof {
            assert(spec_group_names(g@).take(g@.len() as int) =~~= spec_group_names(g@));
            assert(gviews.take(k + 1).drop_last() =~= gviews.take(k as int));
            assert(gviews.take(k + 1).last() == g@);
            assert(forward@.map_values(|f: String| f@) =~~= spec_flat_user_names(
                gviews.take(k + 1),
            ));
        }
        k = k + 1;
    }
    proof {
        assert(gviews.take(groups@.len() as int) =~= gviews);
    }
    let n = forward.len();
    let mut out: Vec<String> = Vec::new();
    let mut i: usize = 0;
    while i < n
        invariant
            n == forward@.len(),
            forward@.map_values(|f: String| f@) == spec_flat_user_names(gviews),
            i <= n,
            out@.len() == i,
            forall|j: int|
                0 <= j < i ==> (#[trigger] out@[j])@ == spec_flat_user_names(gviews)[n - 1 - j],
        decreases n - i,
    {
        let name = forward[n - 1 - i].clone();
        out.push(name);
        i = i + 1;
    }
    proof {
        assert(out@.map_values(|f: String| f@) =~~= spec_user_line_names(gviews));
    }
    out
}

/// True when no character of `l` is a newline — the shape of a line cut
/// from the symbol file.
pub open spec fn newline_free(l: Seq<char>) -> bool {
    forall|k: int| 0 <= k < l.len() ==> #[trigger] l[k] != '\n'
}

/// Law: a kernel folded line is well formed. When the symbol table was
/// loaded from newline-free lines, every frame name of a kernel stack is
/// nonempty and free of separators — a parsed symbol name is one
/// whitespace-free token, and the unresolved name is a fixed word — so
/// the folded line holds no empty frame, exactly one space, and its one
/// newline at the end, with the weight as the single last token.
pub proof fn lemma_kernel_line_well_formed(
    syms: Seq<SymRange>,
    lines: Seq<String>,
    addrs: Seq<u64>,
    weight: u64,
)
    requires
        addrs.len() >= 1,
        syms.len() == lines.len(),
        forall|i: int| 0 <= i < lines.len() ==> entry_matches_line(#[trigger] syms[i], lines[i]@),
        forall|i: int| 0 <= i < lines.len() ==> newline_free((#[trigger] lines[i])@),
    ensures
        ({
            let fs = spec_kernel_names(syms, addrs);
            &&& forall|i: int| 0 <= i < fs.len() ==> (#[trigger] fs[i]).len() > 0
            &&& count_char(spec_folded_line(fs, weight), ' ') == 1
            &&& count_char(spec_folded_line(fs, weight), '\n') == 1
            &&& spec_folded_line(fs, weight).last() == '\n'
        }),
{
    let fs = spec_kernel_names(syms, addrs);
    assert forall|i: int|
        0 <= i < fs.len() implies (#[trigger] fs[i]).len() > 0 && count_char(fs[i], ' ') == 0
        && count_char(fs[i], '\n') == 0 by {
        let a = addrs[addrs.len() - 1 - i];
        match spec_owner(syms, a) {
            Some(j) => {
                assert(entry_matches_line(syms[j], lines[j]@));
                lemma_parsed_name_is_clean(lines[j]@);
                let name = spec_parse_ksym_line(lines[j]@)->Some_0.1;
                assert(syms[j].name@ == name);
                assert(forall|k: int| 0 <= k < name.len() ==> name[k] != ' ');
                lemma_count_char_zero(name, ' ');
                lemma_count_char_zero(name, '\n');
            },
            None => {
                reveal_strlit("unknown");
                assert(fs[i] == "unknown"@);
                assert(forall|k: int| 0 <= k < "unknown"@.len() ==> "unknown"@[k] != ' ');
                lemma_count_char_zero("unknown"@, ' ');
                lemma_count_char_zero("unknown"@, '\n');
            },
        }
    }
    lemma_folded_line_shape(fs, weight);
}

/// Folds one record's two stacks into the output: the kernel line, then
/// the user line, each with the record's weight, and each only when its
/// stack has frames — a missing side never suppresses the other. The
/// kernel line is exactly the symbol table's names, root first; the user
/// line carries one name per frame the symbolizer reported.
#[verifier::rlimit(100)]
#[verifier::spinoff_prover]
pub fn process_record(
    folder: &mut Folder,
    kind: &SessionKind,
    off_ns: u64,
    kstack_id: i64,
    ustack_id: i64,
    ktable: &StackTable,
    utable: &StackTable,
    kres: &KStackResolver,
    ures: &Resolver,
)
    requires
        ktable.wf(),
        utable.wf(),
        kres.wf(),
        ures.wf(),
    ensures
        ({
            let weight: u64 = if *kind matches SessionKind::OnCpu { .. } {
                1u64
            } else {
                off_ns
            };
            let ktrace = spec_stack_trace(ktable, kstack_id);
            let utrace = spec_stack_trace(utable, ustack_id);
            let kpart: Seq<char> = if ktrace.len() == 0 {
                Seq::empty()
            } else {
                spec_folded_line(spec_kernel_names(kres.spec_syms(), ktrace), weight)
            };
            &&& (utrace.len() == 0 ==> final(folder).spec_out() == old(folder).spec_out() + kpart)
            &&& (utrace.len() > 0 ==> exists|groups: Seq<Seq<UstackSymbol>>|
                {
                    &&& groups.len() == utrace.len()
                    &&& (forall|k: int|
                        0 <= k < groups.len() ==> user_group_ok(
                            ures.spec_maps(),
                            utrace[k],
                            #[trigger] groups[k],
                        ))
                    &&& final(folder).spec_out() == old(folder).spec_out() + kpart
                        + spec_folded_line(spec_user_line_names(groups), weight)
                })
        }),
{
    let weight = kind.record_weight(off_ns);
    let kaddrs = stacktrace_from_id(ktable, kstack_id);
    let knames = kernel_stack_names(kres, &kaddrs);
    proof {
        assert(knames@.map_values(|f: String| f@).len() == knames@.len());
        assert(knames@.len() == spec_stack_trace(ktable, kstack_id).len());
    }
    folder.push_stack(&knames, weight);
    let uaddrs = stacktrace_from_id(utable, ustack_id);
    let ugroups = ures.symbolize_stack(&uaddrs);
    let unames = user_stack_names(&ugroups);
    proof {
        if uaddrs@.len() > 0 {
            assert(forall|k: int|
                0 <= k < ugroups@.len() ==> (#[trigger] ugroups@[k])@.len() >= 1);
        }
    }
    folder.push_stack(&unames, weight);
    proof {
        let utrace = spec_stack_trace(utable, ustack_id);
        let groups = ugroups@.map_values(|g: Vec<UstackSymbol>| g@);
        if utrace.len() > 0 {
            assert(groups.len() == utrace.len());
            assert forall|k: int|
                0 <= k < groups.len() implies user_group_ok(
                ures.spec_maps(),
                utrace[k],
                #[trigger] groups[k],
            ) by {
                assert(user_group_ok(ures.spec_maps(), uaddrs@[k], (ugroups@[k])@));
                assert(groups[k] == (ugroups@[k])@);
            }
            assert(unames@.len() >= ugroups@.len());
            assert(unames@.len() > 0);
            assert(unames@.map_values(|f: String| f@) == spec_user_line_names(groups));
        }
    }
}

} // verus!
