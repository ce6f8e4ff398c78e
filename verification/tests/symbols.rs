//! Kernel-symbol parsing and lookup, user-address mapping, and the
//! build-id machinery.

use larkspur::kstack::{fallback, parse_ksym_line, KStackResolver, KstackSymbol, KsymsError};
use larkspur::render::{addr_to_hex, u64_to_dec, u64_to_hex};
use larkspur::ustack::{
    debug_path_candidates, frames_from_raw, read_build_id, symbolize_elf, unresolved_frame,
    user_frame_name, RawSym, Resolver, Segment, UstackSymbol,
};

fn lines(v: &[&str]) -> Vec<String> {
    v.iter().map(|s| s.to_string()).collect()
}

#[test]
fn render_numbers() {
    assert_eq!(u64_to_dec(0).as_str(), "0");
    assert_eq!(u64_to_dec(99).as_str(), "99");
    assert_eq!(u64_to_dec(u64::MAX).as_str(), "18446744073709551615");
    assert_eq!(u64_to_hex(0).as_str(), "0");
    assert_eq!(u64_to_hex(0x401200).as_str(), "401200");
    assert_eq!(addr_to_hex(0xdeadbeef).as_str(), "0xdeadbeef");
}

#[test]
fn ksym_line_parses_fields() {
    let r = parse_ksym_line("ffffffff81000000 T _stext").expect("plain line");
    assert_eq!(r.0, 0xffffffff81000000);
    assert_eq!(r.1.as_str(), "_stext");
    assert!(r.2.is_none());

    let r = parse_ksym_line("ffffffffc0a00000 t nf_ct_find [nf_conntrack]").expect("module line");
    assert_eq!(r.0, 0xffffffffc0a00000);
    assert_eq!(r.1.as_str(), "nf_ct_find");
    assert_eq!(r.2.as_deref(), Some("nf_conntrack"));
}

#[test]
fn ksym_line_rejects_garbage() {
    assert!(parse_ksym_line("").is_none());
    assert!(parse_ksym_line("zzzz T name").is_none());
    assert!(parse_ksym_line("ffffffff81000000 T").is_none());
    assert!(parse_ksym_line("ffffffff81000000 T a [m] extra").is_none());
    assert!(parse_ksym_line("ffffffff810000000000000000 T too_long").is_none());
}

#[test]
fn resolver_load_errors_name_the_offence() {
    assert!(matches!(
        KStackResolver::new(&lines(&["not a symbol line"])),
        Err(KsymsError::BadLine)
    ));
    assert!(matches!(
        KStackResolver::new(&lines(&["100 T b", "50 T a"])),
        Err(KsymsError::OutOfOrder)
    ));
    assert!(matches!(
        KStackResolver::new(&lines(&["100 T caf\u{e9}"])),
        Err(KsymsError::NotAscii)
    ));
}

#[test]
fn lookup_finds_the_owning_range() {
    let res = KStackResolver::new(&lines(&[
        "100 T alpha",
        "200 T beta",
        "300 t gamma [mods]",
    ]))
    .expect("well-formed table");
    let s = res.symbolize_addr(0x150);
    assert_eq!(s.function.as_deref(), Some("alpha"));
    assert_eq!(s.module, None);
    assert_eq!(s.offset, 0x150);
    let s = res.symbolize_addr(0x300);
    assert_eq!(s.function.as_deref(), Some("gamma"));
    assert_eq!(s.module.as_deref(), Some("mods"));
    // The last range reaches the top of the address space.
    let s = res.symbolize_addr(0xffff_ffff_0000_0000);
    assert_eq!(s.function.as_deref(), Some("gamma"));
}

#[test]
fn lookup_is_monotone_inside_a_range() {
    let res = KStackResolver::new(&lines(&["100 T alpha", "200 T beta"])).expect("table");
    let lo = res.symbolize_addr(0x100);
    let hi = res.symbolize_addr(0x1ff);
    assert_eq!(lo.function, hi.function);
}

#[test]
fn range_end_belongs_to_the_next_symbol() {
    let res = KStackResolver::new(&lines(&["100 T alpha", "200 T beta"])).expect("table");
    // 0x200 is alpha's end and beta's start: it is beta's.
    let s = res.symbolize_addr(0x200);
    assert_eq!(s.function.as_deref(), Some("beta"));
}

#[test]
fn below_the_first_symbol_is_unresolved() {
    let res = KStackResolver::new(&lines(&["100 T alpha"])).expect("table");
    let s = res.symbolize_addr(0x50);
    assert!(s.function.is_none());
    assert!(s.module.is_none());
    assert_eq!(s.offset, 0x50);
    assert_eq!(s.to_string_lossy(), "0x50");
}

#[test]
fn kstack_symbol_display() {
    let s = KstackSymbol {
        offset: 0x10,
        function: Some("fun".to_string()),
        module: Some("m".to_string()),
    };
    assert_eq!(s.to_string_lossy(), "fun in [m]");
    let s = KstackSymbol { offset: 0x10, function: Some("fun".to_string()), module: None };
    assert_eq!(s.to_string_lossy(), "fun");
    assert_eq!(fallback(0xab).to_string_lossy(), "0xab");
}

fn seg(base: u64, size: u64, file_offset: u64, path: &str) -> Segment {
    Segment { base, size, file_offset, path: path.to_string(), debug_path: None }
}

#[test]
fn runtime_address_maps_to_elf_offset() {
    let r = Resolver::new(1, vec![seg(0x400000, 0x1000, 0x200, "/tmp/a.out")]);
    let (path, off) = r.runtime_addr_to_offset(0x400500).expect("inside the segment");
    assert_eq!(path.as_str(), "/tmp/a.out");
    assert_eq!(off, 0x700);
}

#[test]
fn address_above_all_segments_keeps_the_address() {
    let r = Resolver::new(1, vec![seg(0x400000, 0x1000, 0, "/tmp/a.out")]);
    assert!(r.runtime_addr_to_offset(0x500000).is_none());
    let frames = r.symbolize_addr(0x500000);
    assert_eq!(frames.len(), 1);
    assert!(frames[0].function.is_none());
    assert_eq!(frames[0].offset, 0x500000);
    assert_eq!(user_frame_name(&frames[0]).as_str(), "0x500000");
}

#[test]
fn unreadable_binary_yields_hex_frames() {
    // A mapped path that does not exist: symbolization fails, the offset
    // survives as a hex frame instead of a crash.
    let r = Resolver::new(1, vec![seg(0x400000, 0x1000, 0, "/nonexistent/larkspur/bin")]);
    let frames = r.symbolize_addr(0x400123);
    assert_eq!(frames.len(), 1);
    assert!(frames[0].function.is_none());
    assert_eq!(frames[0].offset, 0x123);
    assert_eq!(user_frame_name(&frames[0]).as_str(), "0x123");
}

#[test]
fn symbolizing_the_same_offset_twice_is_identical() {
    let r = Resolver::new(1, vec![seg(0x400000, 0x1000, 0, "/nonexistent/larkspur/bin")]);
    let once = r.symbolize_addr(0x400123);
    let again = r.symbolize_addr(0x400123);
    assert_eq!(once.len(), again.len());
    for (a, b) in once.iter().zip(again.iter()) {
        assert_eq!(a.function, b.function);
        assert_eq!(a.file, b.file);
        assert_eq!(a.line, b.line);
        assert_eq!(a.offset, b.offset);
        assert_eq!(a.inline, b.inline);
    }
}

#[test]
fn inline_chain_expands_behind_the_physical_frame() {
    let raw = RawSym {
        name: "outer".to_string(),
        code: Some(("a.c".to_string(), Some(10))),
        inlined: vec![
            ("mid".to_string(), Some(("b.c".to_string(), Some(20)))),
            ("inner".to_string(), None),
        ],
    };
    let frames = frames_from_raw(0x40, &raw);
    assert_eq!(frames.len(), 3);
    assert_eq!(frames[0].function.as_deref(), Some("outer"));
    assert!(!frames[0].inline);
    assert_eq!(frames[0].line, Some(10));
    // An inlined call with its own source position keeps it.
    assert_eq!(frames[1].function.as_deref(), Some("mid"));
    assert!(frames[1].inline);
    assert_eq!(frames[1].file.as_deref(), Some("b.c"));
    assert_eq!(frames[1].line, Some(20));
    // One without shares the physical frame's.
    assert_eq!(frames[2].function.as_deref(), Some("inner"));
    assert_eq!(frames[2].file.as_deref(), Some("a.c"));
    assert_eq!(frames[2].line, Some(10));
    for f in &frames {
        assert_eq!(f.offset, 0x40);
    }
}

#[test]
fn symbolize_elf_without_symbols_returns_one_unresolved_frame() {
    let r = unresolved_frame(0x77);
    assert!(r.function.is_none());
    assert_eq!(r.offset, 0x77);
    let frames = symbolize_elf(
        &blazesym::symbolize::Symbolizer::new(),
        "/nonexistent/larkspur/bin",
        0x99,
        None,
    );
    assert_eq!(frames.len(), 1);
    assert!(frames[0].function.is_none());
    assert_eq!(frames[0].offset, 0x99);
}

#[test]
fn ustack_symbol_display() {
    let s = UstackSymbol {
        function: Some("f".to_string()),
        file: Some("x.c".to_string()),
        line: Some(12),
        offset: 0x5,
        inline: false,
    };
    assert_eq!(s.to_string_lossy(), "f at x.c:12");
    let s = UstackSymbol { function: Some("f".to_string()), file: None, line: None, offset: 5, inline: false };
    assert_eq!(s.to_string_lossy(), "f");
    let s = UstackSymbol { function: None, file: None, line: None, offset: 0x1f, inline: false };
    assert_eq!(s.to_string_lossy(), "0x1f");
}

/// A minimal ELF64 image with one PT_NOTE header carrying a GNU
/// build-id note.
fn elf_with_build_id(desc: &[u8]) -> Vec<u8> {
    let mut b = Vec::new();
    // ELF header, 64 bytes.
    b.extend_from_slice(&[0x7f, b'E', b'L', b'F', 2, 1, 1, 0]);
    b.extend_from_slice(&[0u8; 8]);
    b.extend_from_slice(&2u16.to_le_bytes()); // e_type: EXEC
    b.extend_from_slice(&62u16.to_le_bytes()); // e_machine: x86-64
    b.extend_from_slice(&1u32.to_le_bytes()); // e_version
    b.extend_from_slice(&0u64.to_le_bytes()); // e_entry
    b.extend_from_slice(&64u64.to_le_bytes()); // e_phoff
    b.extend_from_slice(&0u64.to_le_bytes()); // e_shoff
    b.extend_from_slice(&0u32.to_le_bytes()); // e_flags
    b.extend_from_slice(&64u16.to_le_bytes()); // e_ehsize
    b.extend_from_slice(&56u16.to_le_bytes()); // e_phentsize
    b.extend_from_slice(&1u16.to_le_bytes()); // e_phnum
    b.extend_from_slice(&0u16.to_le_bytes()); // e_shentsize
    b.extend_from_slice(&0u16.to_le_bytes()); // e_shnum
    b.extend_from_slice(&0u16.to_le_bytes()); // e_shstrndx
    assert_eq!(b.len(), 64);
    // One program header: PT_NOTE at offset 120.
    let note_off = 64u64 + 56;
    let note_size = 12 + 4 + desc.len() as u64;
    b.extend_from_slice(&4u32.to_le_bytes()); // p_type: PT_NOTE
    b.extend_from_slice(&4u32.to_le_bytes()); // p_flags
    b.extend_from_slice(&note_off.to_le_bytes()); // p_offset
    b.extend_from_slice(&0u64.to_le_bytes()); // p_vaddr
    b.extend_from_slice(&0u64.to_le_bytes()); // p_paddr
    b.extend_from_slice(&note_size.to_le_bytes()); // p_filesz
    b.extend_from_slice(&note_size.to_le_bytes()); // p_memsz
    b.extend_from_slice(&4u64.to_le_bytes()); // p_align
    assert_eq!(b.len(), 120);
    // The note: namesz, descsz, type, "GNU\0", desc.
    b.extend_from_slice(&4u32.to_le_bytes());
    b.extend_from_slice(&(desc.len() as u32).to_le_bytes());
    b.extend_from_slice(&3u32.to_le_bytes());
    b.extend_from_slice(b"GNU\0");
    b.extend_from_slice(desc);
    b
}

#[test]
fn build_id_is_found_and_hex_encoded() {
    let image = elf_with_build_id(&[0xab, 0xcd, 0x01, 0x23]);
    let id = read_build_id(&image).expect("note must be found");
    assert_eq!(id.as_str(), "abcd0123");
}

#[test]
fn build_id_of_garbage_is_none() {
    assert!(read_build_id(&vec![0u8; 16]).is_none());
    assert!(read_build_id(&Vec::new()).is_none());
}

#[test]
fn debug_candidates_in_probe_order() {
    let id = "abcd0123".to_string();
    let c = debug_path_candidates("/usr/bin/tool", Some(&id));
    assert_eq!(c.len(), 2);
    assert_eq!(c[0].as_str(), "/usr/lib/debug/.build-id/ab/cd0123.debug");
    assert_eq!(c[1].as_str(), "/usr/lib/debug/usr/bin/tool");
    let c = debug_path_candidates("relative", Some(&id));
    assert_eq!(c.len(), 1);
    assert_eq!(c[0].as_str(), "/usr/lib/debug/.build-id/ab/cd0123.debug");
    let c = debug_path_candidates("/usr/bin/tool", None);
    assert_eq!(c.len(), 1);
    assert_eq!(c[0].as_str(), "/usr/lib/debug/usr/bin/tool");
    let short = "a".to_string();
    let c = debug_path_candidates("relative", Some(&short));
    assert!(c.is_empty());
}
