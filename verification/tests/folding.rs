//! Folded-line construction and the per-record pipeline.

use larkspur::fold::{fold_line, Folder};
use larkspur::kstack::KStackResolver;
use larkspur::session::{
    attach_scopes, deadline_ns, kernel_stack_names, next_state, off_cpu_matches_target,
    past_deadline, process_record, user_stack_names, SessionKind, SessionState,
};
use larkspur::records::OffCpuSample;
use larkspur::stack_tables::StackTable;
use larkspur::ustack::{Resolver, Segment, UstackSymbol};

fn names(v: &[&str]) -> Vec<String> {
    v.iter().map(|s| s.to_string()).collect()
}

#[test]
fn folded_line_has_one_weight_token() {
    let line = fold_line(&names(&["main", "work", "hot"]), 7);
    assert_eq!(line.as_str(), "main;work;hot 7\n");
    // No empty frames, exactly one space, one trailing newline.
    assert_eq!(line.matches(' ').count(), 1);
    assert_eq!(line.matches('\n').count(), 1);
    assert!(line.split(';').all(|part| !part.is_empty()));
    let line = fold_line(&names(&["solo"]), 1);
    assert_eq!(line.as_str(), "solo 1\n");
}

#[test]
fn fresh_folder_is_empty() {
    // A session that drains no records (duration zero) emits nothing.
    let f = Folder::new();
    assert_eq!(f.into_output().as_str(), "");
}

#[test]
fn empty_stacks_are_not_emitted() {
    let mut f = Folder::new();
    f.push_stack(&Vec::new(), 5);
    assert_eq!(f.into_output().as_str(), "");
    let mut f = Folder::new();
    f.push_stack(&names(&["a"]), 5);
    f.push_stack(&Vec::new(), 5);
    f.push_stack(&names(&["b", "c"]), 2);
    assert_eq!(f.into_output().as_str(), "a 5\nb;c 2\n");
}

#[test]
fn kernel_stack_is_reversed_to_root_first() {
    let kres = KStackResolver::new(&vec![
        "100 T leaf_fn".to_string(),
        "200 T mid_fn".to_string(),
        "300 T root_fn".to_string(),
    ])
    .expect("table");
    // Captured leaf first: leaf at 0x150, caller at 0x250, root at 0x350.
    let frames = kernel_stack_names(&kres, &vec![0x150, 0x250, 0x350]);
    let texts: Vec<&str> = frames.iter().map(|s| s.as_str()).collect();
    assert_eq!(texts, vec!["root_fn", "mid_fn", "leaf_fn"]);
}

#[test]
fn unknown_kernel_frames_collapse() {
    let kres = KStackResolver::new(&vec!["100 T only".to_string()]).expect("table");
    let frames = kernel_stack_names(&kres, &vec![0x50]);
    assert_eq!(frames[0].as_str(), "unknown");
}

fn frame(name: Option<&str>, offset: u64, inline: bool) -> UstackSymbol {
    UstackSymbol {
        function: name.map(|s| s.to_string()),
        file: None,
        line: None,
        offset,
        inline,
    }
}

#[test]
fn user_stack_reversal_puts_inline_leaf_before_its_caller() {
    // Leaf physical frame `outer` with `inner` inlined into it, called
    // from `main`: the folded order is main, then inner before outer.
    let groups = vec![
        vec![frame(Some("outer"), 0x10, false), frame(Some("inner"), 0x10, true)],
        vec![frame(Some("main"), 0x20, false)],
    ];
    let out = user_stack_names(&groups);
    let texts: Vec<&str> = out.iter().map(|s| s.as_str()).collect();
    assert_eq!(texts, vec!["main", "inner", "outer"]);
    let folded = fold_line(&out, 1);
    assert!(folded.as_str().contains("inner;outer"));
}

#[test]
fn unresolved_user_frames_fold_as_hex() {
    let groups = vec![vec![frame(None, 0x401200, false)]];
    let out = user_stack_names(&groups);
    assert_eq!(out[0].as_str(), "0x401200");
}

#[test]
fn empty_reported_names_fold_as_hex() {
    // A folded line must hold no empty frame: an empty symbolizer name
    // counts as no name and keeps the offset instead.
    let groups = vec![vec![frame(Some(""), 0x30, false)]];
    let out = user_stack_names(&groups);
    assert_eq!(out[0].as_str(), "0x30");
    let line = fold_line(&out, 2);
    assert_eq!(line.as_str(), "0x30 2\n");
}

fn no_symbols_resolver() -> Resolver {
    Resolver::new(
        1,
        vec![Segment {
            base: 0x400000,
            size: 0x10000,
            file_offset: 0,
            path: "/nonexistent/larkspur/bin".to_string(),
            debug_path: None,
        }],
    )
}

#[test]
fn on_cpu_record_folds_both_sides_with_weight_one() {
    let mut ktable = StackTable::new();
    ktable.add(1, vec![0x150, 0x250]);
    let mut utable = StackTable::new();
    utable.add(2, vec![0x401200]);
    let kres = KStackResolver::new(&vec![
        "100 T do_work".to_string(),
        "200 T enter".to_string(),
    ])
    .expect("table");
    let ures = no_symbols_resolver();
    let mut folder = Folder::new();
    process_record(
        &mut folder,
        &SessionKind::OnCpu { frequency: 99 },
        0,
        1,
        2,
        &ktable,
        &utable,
        &kres,
        &ures,
    );
    let out = folder.into_output();
    assert_eq!(out.as_str(), "enter;do_work 1\n0x1200 1\n");
}

#[test]
fn missing_side_still_emits_the_other() {
    // kstack_id = -1: only the user line appears; no crash.
    let ktable = StackTable::new();
    let mut utable = StackTable::new();
    utable.add(2, vec![0x401200]);
    let kres = KStackResolver::new(&vec!["100 T k".to_string()]).expect("table");
    let ures = no_symbols_resolver();
    let mut folder = Folder::new();
    process_record(
        &mut folder,
        &SessionKind::OnCpu { frequency: 99 },
        0,
        -1,
        2,
        &ktable,
        &utable,
        &kres,
        &ures,
    );
    let out = folder.into_output();
    assert_eq!(out.as_str(), "0x1200 1\n");

    // ustack_id = -1: only the kernel line appears.
    let mut ktable = StackTable::new();
    ktable.add(5, vec![0x100]);
    let mut folder = Folder::new();
    process_record(
        &mut folder,
        &SessionKind::OnCpu { frequency: 99 },
        0,
        5,
        -1,
        &ktable,
        &utable,
        &kres,
        &ures,
    );
    assert_eq!(folder.into_output().as_str(), "k 1\n");

    // Both missing: nothing at all.
    let mut folder = Folder::new();
    process_record(
        &mut folder,
        &SessionKind::OnCpu { frequency: 99 },
        0,
        -1,
        -1,
        &ktable,
        &utable,
        &kres,
        &ures,
    );
    assert_eq!(folder.into_output().as_str(), "");
}

#[test]
fn off_cpu_record_weighs_its_blocked_nanoseconds() {
    let mut ktable = StackTable::new();
    ktable.add(9, vec![0x150]);
    let utable = StackTable::new();
    let kres = KStackResolver::new(&vec!["100 T pipe_read".to_string()]).expect("table");
    let ures = no_symbols_resolver();
    let mut folder = Folder::new();
    process_record(
        &mut folder,
        &SessionKind::OffCpu,
        1_900_000_000,
        9,
        -1,
        &ktable,
        &utable,
        &kres,
        &ures,
    );
    assert_eq!(folder.into_output().as_str(), "pipe_read 1900000000\n");
}

#[test]
fn off_cpu_filter_keeps_only_the_target() {
    let rec = OffCpuSample {
        pid: 7,
        tgid: 0,
        off_ns: 1,
        kstack_id: -1,
        ustack_id: -1,
        comm: [0u8; 16],
    };
    assert!(off_cpu_matches_target(&rec, 7));
    assert!(!off_cpu_matches_target(&rec, 8));
}

#[test]
fn session_states_advance_linearly_and_fail_to_stopping() {
    let mut s = SessionState::Idle;
    let order = [
        SessionState::Loading,
        SessionState::Attached,
        SessionState::Draining,
        SessionState::Stopping,
        SessionState::Done,
        SessionState::Done,
    ];
    for expect in order {
        s = next_state(s, true);
        assert_eq!(s, expect);
    }
    assert_eq!(next_state(SessionState::Attached, false), SessionState::Stopping);
}

#[test]
fn deadline_arithmetic() {
    assert_eq!(deadline_ns(1_000, 2), Some(2_000_001_000));
    assert_eq!(deadline_ns(0, 0), Some(0));
    assert_eq!(deadline_ns(u64::MAX, 1), None);
    assert!(!past_deadline(5, 10));
    assert!(past_deadline(10, 10));
    assert_eq!(SessionKind::OnCpu { frequency: 99 }.record_weight(123), 1);
    assert_eq!(SessionKind::OffCpu.record_weight(123), 123);
}

#[test]
fn every_attachment_is_scoped_to_the_target() {
    let scopes = attach_scopes(42, &vec![0, 1, 3]);
    assert_eq!(scopes, vec![(42, 0), (42, 1), (42, 3)]);
}
