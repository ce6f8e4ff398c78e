//! User-space symbol resolution: per-process memory-map lookup, ELF-offset
//! symbolization with inline expansion, and the debug-info fallback by
//! GNU build-id.
//!
//! The DWARF/ELF symbolization itself is the work of blazesym, reached
//! through trusted wrappers; everything around the calls — address
//! arithmetic, note filtering, path building, frame expansion — is
//! verified. A symbolization result depends on what is on disk, so the
//! wrappers promise nothing of its content, and the verified functions
//! state what holds of every outcome.

use vstd::prelude::*;
use vstd::string::*;
use blazesym::symbolize::{source, CodeInfo, Input, Symbolized, Symbolizer};
use crate::render::{spec_hex_addr, addr_to_hex, u64_to_dec, hex_char};
use crate::kstack::opt_str_view;

verus! {

/// The note type tag of a GNU build-id note.
pub const GNU_BUILD_ID_TYPE: u32 = 3;

/// One resolved user-space frame. `inline` marks frames recovered from
/// inlined-call information rather than a physical frame.
pub struct UstackSymbol {
    pub function: Option<String>,
    pub file: Option<String>,
    pub line: Option<u32>,
    pub offset: u64,
    pub inline: bool,
}

/// What `to_string_lossy` spells: name with source position when both
/// are known, bare name otherwise, hex offset when nothing resolved.
pub open spec fn spec_ustack_display(s: UstackSymbol) -> Seq<char> {
    match s.function {
        Some(f) => match (s.file, s.line) {
            (Some(file), Some(line)) => f@ + " at "@ + file@ + ":"@ + crate::render::dec_digits(
                line as int,
            ),
            _ => f@,
        },
        None => spec_hex_addr(s.offset as int),
    }
}

impl UstackSymbol {
    /// Renders the frame for a human.
    pub fn to_string_lossy(&self) -> (r: String)
        ensures
            r@ == spec_ustack_display(*self),
    {
        match (&self.function, &self.file, self.line) {
            (Some(f), Some(file), Some(line)) => {
                proof {
                    reveal_strlit(" at ");
                    reveal_strlit(":");
                }
                let mut r = f.clone();
                r.append(" at ");
                r.append(file.as_str());
                r.append(":");
                let digits = u64_to_dec(line as u64);
                r.append(digits.as_str());
                r
            },
            (Some(f), _, _) => f.clone(),
            (None, _, _) => addr_to_hex(self.offset),
        }
    }
}

/// The name a user frame contributes to a folded line: the function
/// name, or the hex offset when no name resolved. An empty reported
/// name counts as no name — a folded line never holds an empty frame.
pub open spec fn spec_user_frame_name(s: UstackSymbol) -> Seq<char> {
    match s.function {
        Some(f) => if f@.len() == 0 {
            spec_hex_addr(s.offset as int)
        } else {
            f@
        },
        None => spec_hex_addr(s.offset as int),
    }
}

/// The folded-line name of one user frame; never empty.
pub fn user_frame_name(s: &UstackSymbol) -> (r: String)
    ensures
        r@ == spec_user_frame_name(*s),
        r@.len() > 0,
{
    match &s.function {
        Some(f) => {
            if f.as_str().unicode_len() == 0 {
                addr_to_hex(s.offset)
            } else {
                f.clone()
            }
        },
        None => addr_to_hex(s.offset),
    }
}

/// One mapped segment of the target process, snapshotted at session
/// start: where it sits in memory, where its bytes sit in the mapped
/// file, and — found once at session start — the matching debug-info
/// file, if any.
pub struct Segment {
    pub base: u64,
    pub size: u64,
    pub file_offset: u64,
    pub path: String,
    pub debug_path: Option<String>,
}

/// Machine limit on a sensible segment: its file range does not wrap.
pub open spec fn seg_ok(s: Segment) -> bool {
    s.file_offset + s.size <= u64::MAX
}

/// Whether the segment at `i` holds the runtime address `addr`.
pub open spec fn seg_holds(maps: Seq<Segment>, i: int, addr: u64) -> bool {
    maps[i].base <= addr < maps[i].base + maps[i].size
}

/// The first segment holding `addr`, if any.
pub open spec fn spec_segment_of(maps: Seq<Segment>, addr: u64) -> Option<int> {
    if exists|i: int|
        0 <= i < maps.len() && seg_holds(maps, i, addr) && (forall|j: int|
            0 <= j < i ==> !seg_holds(maps, j, addr)) {
        Some(
            choose|i: int|
                0 <= i < maps.len() && seg_holds(maps, i, addr) && (forall|j: int|
                    0 <= j < i ==> !seg_holds(maps, j, addr)),
        )
    } else {
        None
    }
}

/// The ELF offset a runtime address maps to inside its segment.
pub open spec fn spec_elf_offset(s: Segment, addr: u64) -> int {
    addr - s.base + s.file_offset
}

/// Raw result of symbolizing one offset: the symbol blazesym found, its
/// source position (file and line together, present exactly when the
/// symbolizer reported one), and the inlined-call chain, innermost call
/// last, each inlined call with its own source position when one was
/// reported.
pub struct RawSym {
    pub name: String,
    pub code: Option<(String, Option<u32>)>,
    pub inlined: Vec<(String, Option<(String, Option<u32>)>)>,
}

/// The file of a source position, as a character sequence.
pub open spec fn code_file(o: Option<(String, Option<u32>)>) -> Option<Seq<char>> {
    match o {
        Some(p) => Some(p.0@),
        None => None,
    }
}

/// The line of a source position.
pub open spec fn code_line(o: Option<(String, Option<u32>)>) -> Option<u32> {
    match o {
        Some(p) => p.1,
        None => None,
    }
}

/// A note read from an ELF image.
pub struct ElfNote {
    pub name: String,
    pub n_type: u32,
    pub desc: Vec<u8>,
}

/// Relies on blazesym `Symbolizer::new`: a fresh symbolizer whose
/// internal ELF caches persist across calls.
#[verifier::external_body]
fn new_symbolizer() -> Symbolizer {
    Symbolizer::new()
}

#[verifier::external_type_specification]
#[verifier::external_body]
pub struct ExSymbolizer(Symbolizer);

/// Relies on blazesym `Symbolizer::symbolize` over an ELF source with
/// virtual-offset input: each `Sym` carries the found symbol's name, its
/// source position and its inlined-call chain (innermost last), each
/// inlined call with its own source position when one was reported;
/// inputs blazesym cannot place report `Unknown` and are dropped here.
/// `None` when blazesym reports an error. What comes back depends on the
/// file at `path` on disk, so nothing is promised of the content.
#[verifier::external_body]
fn blazesym_symbolize(symbolizer: &Symbolizer, path: &str, offset: u64) -> Option<Vec<RawSym>> {
    let src = source::Source::Elf(source::Elf::new(path));
    let syms = symbolizer.symbolize(&src, Input::VirtOffset(&[offset])).ok()?;
    let cv = |c: Option<&CodeInfo>| c.map(|c| (c.to_path().to_string_lossy().into_owned(), c.line));
    let mut out = Vec::new();
    for s in syms {
        if let Symbolized::Sym(s) = s {
            let inlined = s.inlined.iter().map(|f| (f.name.to_string(), cv(f.code_info.as_ref()))).collect();
            out.push(RawSym { name: s.name.into_owned(), code: cv(s.code_info.as_deref()), inlined });
        }
    }
    Some(out)
}

/// The notes of the ELF image spelled by a byte sequence — name, type
/// tag and payload each, those of the build-id note section first, then
/// those of the `PT_NOTE` program headers — or nothing when the bytes do
/// not parse as ELF. A pure function of the bytes, computed by goblin.
pub uninterp spec fn spec_elf_notes(b: Seq<u8>) -> Option<Seq<(Seq<char>, u32, Seq<u8>)>>;

/// The parsed notes as plain name/type/payload tuples.
pub open spec fn notes_view(notes: Seq<ElfNote>) -> Seq<(Seq<char>, u32, Seq<u8>)> {
    notes.map_values(|n: ElfNote| (n.name@, n.n_type, n.desc@))
}

/// Relies on goblin `Elf::parse`, `iter_note_sections` and
/// `iter_note_headers`: the notes of the ELF image in `bytes`, those of
/// the build-id note section first, then those of the `PT_NOTE` program
/// headers. `None` when goblin cannot parse the image. The parse is a
/// function of the bytes alone; its result carries the name
/// `spec_elf_notes`.
#[verifier::external_body]
fn elf_notes(bytes: &Vec<u8>) -> (r: Option<Vec<ElfNote>>)
    ensures
        r is Some <==> spec_elf_notes(bytes@) is Some,
        r matches Some(v) ==> Some(notes_view(v@)) == spec_elf_notes(bytes@),
{
    let elf = goblin::elf::Elf::parse(bytes).ok()?;
    let mut out = Vec::new();
    let iters = [elf.iter_note_sections(bytes, Some(".note.gnu.build-id")), elf.iter_note_headers(bytes)];
    for notes in iters {
        for n in notes.into_iter().flatten().flatten() {
            out.push(ElfNote { name: n.name.to_string(), n_type: n.n_type, desc: n.desc.to_vec() });
        }
    }
    Some(out)
}

/// The lowercase hex spelling of a byte sequence, two digits per byte.
pub open spec fn hex_seq(b: Seq<u8>) -> Seq<char>
    decreases b.len(),
{
    if b.len() == 0 {
        Seq::empty()
    } else {
        hex_seq(b.drop_last()) + seq![
            hex_char(b.last() as int / 16),
            hex_char(b.last() as int % 16),
        ]
    }
}

/// A hex spelling is twice as long as its bytes, and pure ASCII.
pub proof fn lemma_hex_seq_shape(b: Seq<u8>)
    ensures
        hex_seq(b).len() == 2 * b.len(),
        vstd::utf8::is_ascii_chars(hex_seq(b)),
    decreases b.len(),
{
    if b.len() > 0 {
        lemma_hex_seq_shape(b.drop_last());
        assert forall|i: int| 0 <= i < hex_seq(b).len() implies '\0' <= #[trigger] hex_seq(
            b,
        )[i] <= '\u{7f}' by {
            if i >= hex_seq(b.drop_last()).len() {
                assert(hex_seq(b)[i] == hex_char(b.last() as int / 16) || hex_seq(b)[i]
                    == hex_char(b.last() as int % 16));
            }
        }
    }
}

/// Relies on hex `encode`: two lowercase hexadecimal digits per byte, in
/// byte order.
#[verifier::external_body]
fn hex_encode(b: &Vec<u8>) -> (r: String)
    ensures
        r@ == hex_seq(b@),
{
    hex::encode(b)
}

/// Whether a note tuple carries the GNU build-id.
pub open spec fn note_is_build_id(n: (Seq<char>, u32, Seq<u8>)) -> bool {
    n.0 == "GNU"@ && n.1 == GNU_BUILD_ID_TYPE
}

/// The payload of the first GNU build-id note, if one is present.
pub open spec fn spec_first_build_id(ns: Seq<(Seq<char>, u32, Seq<u8>)>) -> Option<Seq<u8>>
    decreases ns.len(),
{
    if ns.len() == 0 {
        None
    } else if note_is_build_id(ns[0]) {
        Some(ns[0].2)
    } else {
        spec_first_build_id(ns.drop_first())
    }
}

/// The first GNU build-id note's payload, if one is present.
pub fn find_gnu_build_id(notes: &Vec<ElfNote>) -> (r: Option<Vec<u8>>)
    ensures
        r is Some <==> spec_first_build_id(notes_view(notes@)) is Some,
        r matches Some(d) ==> Some(d@) == spec_first_build_id(notes_view(notes@)),
{
    let gnu = String::from_str("GNU");
    proof {
        reveal_strlit("GNU");
        assert(notes_view(notes@).skip(0) =~= notes_view(notes@));
    }
    let mut i: usize = 0;
    while i < notes.len()
        invariant
            gnu@ == "GNU"@,
            i <= notes@.len(),
            spec_first_build_id(notes_view(notes@)) == spec_first_build_id(
                notes_view(notes@).skip(i as int),
            ),
        decreases notes@.len() - i,
    {
        let n = &notes[i];
        proof {
            let v = notes_view(notes@);
            assert(v[i as int] == (notes@[i as int].name@, notes@[i as int].n_type, notes@[
                i as int].desc@));
            assert(v.skip(i as int)[0] == v[i as int]);
            assert(v.skip(i as int).drop_first() =~= v.skip(i + 1));
        }
        if n.name.eq(&gnu) && n.n_type == GNU_BUILD_ID_TYPE {
            return Some(n.desc.clone());
        }
        i = i + 1;
    }
    proof {
        assert(notes_view(notes@).skip(notes@.len() as int) =~= Seq::<(
            Seq<char>,
            u32,
            Seq<u8>,
        )>::empty());
    }
    None
}

/// Reads the GNU build-id out of an ELF image and spells it in hex:
/// `Some` exactly when the image parses and its notes hold a GNU note
/// with the build-id type, and then the lowercase hex spelling of the
/// first such note's payload — an even number of ASCII characters.
pub fn read_build_id(bytes: &Vec<u8>) -> (r: Option<String>)
    ensures
        r is Some <==> (spec_elf_notes(bytes@) matches Some(ns) && spec_first_build_id(
            ns,
        ) is Some),
        r matches Some(s) ==> s@ == hex_seq(
            spec_first_build_id(spec_elf_notes(bytes@)->Some_0)->Some_0,
        ),
        r matches Some(s) ==> s@.len() % 2 == 0 && vstd::utf8::is_ascii_chars(s@),
{
    let notes = match elf_notes(bytes) {
        Some(n) => n,
        None => {
            return None;
        },
    };
    proof {
        assert(notes_view(notes@) == spec_elf_notes(bytes@)->Some_0);
    }
    match find_gnu_build_id(&notes) {
        Some(d) => {
            let s = hex_encode(&d);
            proof {
                lemma_hex_seq_shape(d@);
            }
            Some(s)
        },
        None => None,
    }
}

/// The debug-file path a build-id names: the first two hex characters
/// are the directory, the rest the file name.
pub open spec fn spec_build_id_path(id: Seq<char>) -> Seq<char> {
    "/usr/lib/debug/.build-id/"@ + id.take(2) + "/"@ + id.skip(2) + ".debug"@
}

/// The debug-file path mirroring an absolute binary path.
pub open spec fn spec_abs_debug_path(p: Seq<char>) -> Seq<char> {
    "/usr/lib/debug"@ + p
}

/// The candidate debug-info files for a binary, in the order they are to
/// be probed: by build-id first (when one at least two characters long
/// is known), then by mirrored absolute path.
pub open spec fn spec_debug_candidates(orig: Seq<char>, id: Option<Seq<char>>) -> Seq<Seq<char>> {
    let by_id: Seq<Seq<char>> = match id {
        Some(s) => if s.len() >= 2 {
            seq![spec_build_id_path(s)]
        } else {
            Seq::empty()
        },
        None => Seq::empty(),
    };
    let by_path: Seq<Seq<char>> = if orig.len() > 0 && orig[0] == '/' {
        seq![spec_abs_debug_path(orig)]
    } else {
        Seq::empty()
    };
    by_id + by_path
}

/// Builds the debug-file candidates for `original`, in probe order. The
/// caller tests which of them exists; the first that does is the debug
/// file to symbolize against.
pub fn debug_path_candidates(original: &str, build_id: Option<&String>) -> (r: Vec<String>)
    ensures
        r@.map_values(|p: String| p@) == spec_debug_candidates(original@, opt_ref_view(build_id)),
{
    let mut out: Vec<String> = Vec::new();
    match build_id {
        Some(id) => {
            let id_len = id.as_str().unicode_len();
            if id_len >= 2 {
                proof {
                    reveal_strlit("/usr/lib/debug/.build-id/");
                    reveal_strlit("/");
                    reveal_strlit(".debug");
                }
                let mut p = String::from_str("/usr/lib/debug/.build-id/");
                p.append(id.as_str().substring_char(0, 2));
                p.append("/");
                p.append(id.as_str().substring_char(2, id_len));
                p.append(".debug");
                proof {
                    assert(id@.subrange(0, 2) =~= id@.take(2));
                    assert(id@.subrange(2, id@.len() as int) =~= id@.skip(2));
                }
                out.push(p);
            }
        },
        None => {},
    }
    if original.unicode_len() > 0 {
        let c = original.get_char(0);
        if c == '/' {
            proof {
                reveal_strlit("/usr/lib/debug");
            }
            let mut p = String::from_str("/usr/lib/debug");
            p.append(original);
            out.push(p);
        }
    }
    proof {
        assert(out@.map_values(|p: String| p@) =~= spec_debug_candidates(
            original@,
            opt_ref_view(build_id),
        ));
    }
    out
}

/// The view of an optional borrowed string.
pub open spec fn opt_ref_view(m: Option<&String>) -> Option<Seq<char>> {
    match m {
        Some(s) => Some(s@),
        None => None,
    }
}

/// Whether `out` is exactly the frame expansion of one raw symbol at
/// `offset`: the physical frame first, then one inline frame per inlined
/// call, each with its own source position, or the physical frame's
/// when no inline-specific one exists.
pub open spec fn raw_frames_match(offset: u64, raw: RawSym, out: Seq<UstackSymbol>) -> bool {
    &&& out.len() == 1 + raw.inlined@.len()
    &&& out[0].function matches Some(f) && f@ == raw.name@
    &&& opt_str_view(out[0].file) == code_file(raw.code)
    &&& out[0].line == code_line(raw.code)
    &&& out[0].offset == offset
    &&& out[0].inline == false
    &&& forall|k: int|
        0 <= k < raw.inlined@.len() ==> {
            &&& (#[trigger] out[1 + k]).function matches Some(f) && f@ == raw.inlined@[k].0@
            &&& opt_str_view(out[1 + k].file) == code_file(
                if raw.inlined@[k].1 is Some {
                    raw.inlined@[k].1
                } else {
                    raw.code
                },
            )
            &&& out[1 + k].line == code_line(
                if raw.inlined@[k].1 is Some {
                    raw.inlined@[k].1
                } else {
                    raw.code
                },
            )
            &&& out[1 + k].offset == offset
            &&& out[1 + k].inline == true
        }
}

/// Whether `out` is the concatenated frame expansion of a whole list of
/// raw symbols at `offset`.
pub open spec fn is_expansion(offset: u64, raws: Seq<RawSym>, out: Seq<UstackSymbol>) -> bool
    decreases raws.len(),
{
    if raws.len() == 0 {
        out.len() == 0
    } else {
        exists|k: int|
            1 <= k <= out.len() && raw_frames_match(offset, raws[0], out.take(k)) && is_expansion(
                offset,
                raws.drop_first(),
                out.skip(k),
            )
    }
}

/// Appending one more raw symbol's frames extends an expansion.
proof fn lemma_expansion_extend(
    offset: u64,
    raws: Seq<RawSym>,
    out: Seq<UstackSymbol>,
    raw: RawSym,
    fr: Seq<UstackSymbol>,
)
    requires
        is_expansion(offset, raws, out),
        raw_frames_match(offset, raw, fr),
    ensures
        is_expansion(offset, raws.push(raw), out + fr),
    decreases raws.len(),
{
    if raws.len() == 0 {
        let k = fr.len() as int;
        assert(out + fr =~= fr);
        assert(raws.push(raw)[0] == raw);
        assert((out + fr).take(k) =~= fr);
        assert((out + fr).skip(k) =~= Seq::<UstackSymbol>::empty());
        assert(raws.push(raw).drop_first() =~= raws);
        assert(1 <= k <= (out + fr).len());
        assert(is_expansion(offset, raws.push(raw).drop_first(), (out + fr).skip(k)));
    } else {
        let k = choose|k: int|
            1 <= k <= out.len() && raw_frames_match(offset, raws[0], out.take(k))
                && is_expansion(offset, raws.drop_first(), out.skip(k));
        lemma_expansion_extend(offset, raws.drop_first(), out.skip(k), raw, fr);
        assert(raws.push(raw).drop_first() =~= raws.drop_first().push(raw));
        assert((out + fr).take(k) =~= out.take(k));
        assert((out + fr).skip(k) =~= out.skip(k) + fr);
        assert(raws.push(raw)[0] == raws[0]);
        assert(1 <= k <= (out + fr).len());
        assert(raw_frames_match(offset, raws.push(raw)[0], (out + fr).take(k)));
        assert(is_expansion(offset, raws.push(raw).drop_first(), (out + fr).skip(k)));
    }
}

/// Splits a source position into its frame fields.
fn split_code(o: &Option<(String, Option<u32>)>) -> (r: (Option<String>, Option<u32>))
    ensures
        opt_str_view(r.0) == code_file(*o),
        r.1 == code_line(*o),
{
    match o {
        Some(p) => (Some(p.0.clone()), p.1),
        None => (None, None),
    }
}

/// Expands one raw symbol into its frames: the physical frame, then its
/// inlined calls in order, each marked `inline` and carrying its own
/// source position when one was reported, else the physical frame's.
pub fn frames_from_raw(offset: u64, raw: &RawSym) -> (out: Vec<UstackSymbol>)
    ensures
        raw_frames_match(offset, *raw, out@),
{
    let mut out: Vec<UstackSymbol> = Vec::new();
    let (file, line) = split_code(&raw.code);
    out.push(UstackSymbol { function: Some(raw.name.clone()), file, line, offset, inline: false });
    let mut k: usize = 0;
    while k < raw.inlined.len()
        invariant
            out@.len() == 1 + k,
            k <= raw.inlined@.len(),
            out@[0].function matches Some(f) && f@ == raw.name@,
            opt_str_view(out@[0].file) == code_file(raw.code),
            out@[0].line == code_line(raw.code),
            out@[0].offset == offset,
            out@[0].inline == false,
            forall|j: int|
                0 <= j < k ==> {
                    &&& (#[trigger] out@[1 + j]).function matches Some(f) && f@
                        == raw.inlined@[j].0@
                    &&& opt_str_view(out@[1 + j].file) == code_file(
                        if raw.inlined@[j].1 is Some {
                            raw.inlined@[j].1
                        } else {
                            raw.code
                        },
                    )
                    &&& out@[1 + j].line == code_line(
                        if raw.inlined@[j].1 is Some {
                            raw.inlined@[j].1
                        } else {
                            raw.code
                        },
                    )
                    &&& out@[1 + j].offset == offset
                    &&& out@[1 + j].inline == true
                },
        decreases raw.inlined@.len() - k,
    {
        let inl = &raw.inlined[k];
        let (file, line) = match &inl.1 {
            Some(_) => split_code(&inl.1),
            None => split_code(&raw.code),
        };
        out.push(UstackSymbol { function: Some(inl.0.clone()), file, line, offset, inline: true });
        k = k + 1;
    }
    out
}

/// The frame standing for an offset nothing could resolve.
pub fn unresolved_frame(offset: u64) -> (r: UstackSymbol)
    ensures
        r.function is None,
        r.file is None,
        r.line is None,
        r.offset == offset,
        r.inline == false,
{
    UstackSymbol { function: None, file: None, line: None, offset, inline: false }
}

/// What any symbolization of `offset` yields: at least one frame, every
/// frame at that offset, and either the whole sequence is the frame
/// expansion of the raw symbols some attempt returned, or the single
/// unresolved frame stands alone.
pub open spec fn frames_ok(offset: u64, out: Seq<UstackSymbol>) -> bool {
    &&& out.len() >= 1
    &&& forall|i: int| 0 <= i < out.len() ==> (#[trigger] out[i]).offset == offset
    &&& ((exists|raws: Seq<RawSym>| raws.len() >= 1 && is_expansion(offset, raws, out)) || (
    out.len() == 1 && out[0].function is None && out[0].file is None && out[0].line is None
        && out[0].inline == false))
}

/// Symbolizes one ELF offset of one binary: first against the binary
/// itself; when that yields no symbols, against its debug-info file if
/// one was found at session start; when nothing resolves, a single
/// unresolved frame keeps the offset. An error from the primary attempt
/// skips the fallback, as an unreadable binary has no usable debug twin.
pub fn symbolize_elf(
    symbolizer: &Symbolizer,
    path: &str,
    offset: u64,
    debug_path: Option<&String>,
) -> (out: Vec<UstackSymbol>)
    ensures
        frames_ok(offset, out@),
{
    let mut unresolved: Vec<UstackSymbol> = Vec::new();
    unresolved.push(unresolved_frame(offset));
    let syms = match blazesym_symbolize(symbolizer, path, offset) {
        None => {
            return unresolved;
        },
        Some(v) => {
            if v.len() > 0 {
                v
            } else {
                match debug_path {
                    Some(dp) => match blazesym_symbolize(symbolizer, dp.as_str(), offset) {
                        Some(w) => {
                            if w.len() > 0 {
                                w
                            } else {
                                return unresolved;
                            }
                        },
                        None => {
                            return unresolved;
                        },
                    },
                    None => {
                        return unresolved;
                    },
                }
            }
        },
    };
    let mut out: Vec<UstackSymbol> = Vec::new();
    let mut i: usize = 0;
    proof {
        assert(syms@.take(0) =~= Seq::<RawSym>::empty());
    }
    while i < syms.len()
        invariant
            out@.len() >= i,
            i <= syms@.len(),
            forall|j: int| 0 <= j < out@.len() ==> (#[trigger] out@[j]).offset == offset,
            is_expansion(offset, syms@.take(i as int), out@),
        decreases syms@.len() - i,
    {
        let ghost before = out@;
        let mut frames = frames_from_raw(offset, &syms[i]);
        proof {
            assert forall|j: int|
                0 <= j < frames@.len() implies (#[trigger] frames@[j]).offset == offset by {
                if j > 0 {
                    assert(frames@[1 + (j - 1)].offset == offset);
                }
            }
            lemma_expansion_extend(offset, syms@.take(i as int), before, syms@[i as int], frames@);
            assert(syms@.take(i as int).push(syms@[i as int]) =~= syms@.take(i + 1));
        }
        out.append(&mut frames);
        i = i + 1;
    }
    proof {
        assert(syms@.take(syms@.len() as int) =~= syms@);
    }
    if out.len() == 0 {
        return unresolved;
    }
    out
}

/// What resolving one runtime address must yield over a memory map:
/// when a segment holds the address, frames of its ELF offset
/// (`frames_ok`, so every frame nonempty in number and at that offset);
/// when none does, the single unresolved frame keeping the original
/// address. Either way the group holds at least one frame.
pub open spec fn user_group_ok(maps: Seq<Segment>, addr: u64, g: Seq<UstackSymbol>) -> bool {
    match spec_segment_of(maps, addr) {
        Some(i) => frames_ok(spec_elf_offset(maps[i], addr) as u64, g),
        None => g.len() == 1 && g[0].function is None && g[0].file is None && g[0].line is None
            && g[0].offset == addr && g[0].inline == false,
    }
}

/// Resolves user-space addresses of one process against its memory map,
/// symbolizing through one retained symbolizer.
pub struct Resolver {
    pid: i32,
    maps: Vec<Segment>,
    symbolizer: Symbolizer,
}

impl Resolver {
    /// The snapshotted segments.
    pub closed spec fn spec_maps(&self) -> Seq<Segment> {
        self.maps@
    }

    /// Every segment's file range is sane.
    pub open spec fn wf(&self) -> bool {
        forall|i: int| 0 <= i < self.spec_maps().len() ==> seg_ok(#[trigger] self.spec_maps()[i])
    }

    /// A resolver over the segments of process `pid`, snapshotted by the
    /// caller at session start.
    pub fn new(pid: i32, maps: Vec<Segment>) -> (r: Resolver)
        requires
            forall|i: int| 0 <= i < maps@.len() ==> seg_ok(#[trigger] maps@[i]),
        ensures
            r.wf(),
            r.spec_maps() == maps@,
    {
        Resolver { pid, maps, symbolizer: new_symbolizer() }
    }

    /// The first segment holding `addr`, if any.
    fn find_segment(&self, addr: u64) -> (r: Option<usize>)
        ensures
            match r {
                Some(i) => spec_segment_of(self.spec_maps(), addr) == Some(i as int),
                None => spec_segment_of(self.spec_maps(), addr) is None,
            },
    {
        let mut i: usize = 0;
        while i < self.maps.len()
            invariant
                i <= self.maps@.len(),
                forall|j: int| 0 <= j < i ==> !seg_holds(self.maps@, j, addr),
            decreases self.maps@.len() - i,
        {
            let s = &self.maps[i];
            if addr >= s.base && addr - s.base < s.size {
                proof {
                    lemma_first_segment(self.maps@, addr, i as int);
                }
                return Some(i);
            }
            i = i + 1;
        }
        None
    }

    /// Maps a runtime address to the path of the mapped file and the ELF
    /// offset inside it; `None` when no segment holds the address.
    pub fn runtime_addr_to_offset(&self, addr: u64) -> (r: Option<(String, u64)>)
        requires
            self.wf(),
        ensures
            r is Some <==> spec_segment_of(self.spec_maps(), addr) is Some,
            r matches Some(t) ==> {
                let i = spec_segment_of(self.spec_maps(), addr)->Some_0;
                &&& t.0@ == self.spec_maps()[i].path@
                &&& t.1 == spec_elf_offset(self.spec_maps()[i], addr)
            },
    {
        match self.find_segment(addr) {
            Some(i) => {
                let s = &self.maps[i];
                Some((s.path.clone(), addr - s.base + s.file_offset))
            },
            None => None,
        }
    }

    /// Resolves one runtime address into frames. An address above every
    /// loaded segment — or below them all — yields the single unresolved
    /// frame carrying the original address; otherwise the segment's ELF
    /// offset is symbolized, with the debug-info fallback, and every
    /// returned frame carries that offset.
    pub fn symbolize_addr(&self, addr: u64) -> (out: Vec<UstackSymbol>)
        requires
            self.wf(),
        ensures
            user_group_ok(self.spec_maps(), addr, out@),
    {
        match self.find_segment(addr) {
            None => {
                let mut out: Vec<UstackSymbol> = Vec::new();
                out.push(unresolved_frame(addr));
                out
            },
            Some(i) => {
                let s = &self.maps[i];
                let offset = addr - s.base + s.file_offset;
                symbolize_elf(
                    &self.symbolizer,
                    s.path.as_str(),
                    offset,
                    match &s.debug_path {
                        Some(dp) => Some(dp),
                        None => None,
                    },
                )
            },
        }
    }

    /// Resolves a whole user stack, one frame group per address.
    pub fn symbolize_stack(&self, addrs: &Vec<u64>) -> (out: Vec<Vec<UstackSymbol>>)
        requires
            self.wf(),
        ensures
            out@.len() == addrs@.len(),
            forall|k: int|
                0 <= k < addrs@.len() ==> user_group_ok(
                    self.spec_maps(),
                    addrs@[k],
                    (#[trigger] out@[k])@,
                ),
    {
        let mut out: Vec<Vec<UstackSymbol>> = Vec::new();
        let mut k: usize = 0;
        while k < addrs.len()
            invariant
                self.wf(),
                k <= addrs@.len(),
                out@.len() == k,
                forall|j: int|
                    0 <= j < k ==> user_group_ok(
                        self.spec_maps(),
                        addrs@[j],
                        (#[trigger] out@[j])@,
                    ),
            decreases addrs@.len() - k,
        {
            let frames = self.symbolize_addr(addrs[k]);
            out.push(frames);
            k = k + 1;
        }
        out
    }
}

/// The linear scan's hit is the first segment holding the address.
proof fn lemma_first_segment(maps: Seq<Segment>, addr: u64, i: int)
    requires
        0 <= i < maps.len(),
        seg_holds(maps, i, addr),
        forall|j: int| 0 <= j < i ==> !seg_holds(maps, j, addr),
    ensures
        spec_segment_of(maps, addr) == Some(i),
{
    let w = choose|w: int|
        0 <= w < maps.len() && seg_holds(maps, w, addr) && (forall|j: int|
            0 <= j < w ==> !seg_holds(maps, j, addr));
    if w < i {
        assert(!seg_holds(maps, w, addr));
    } else if i < w {
        assert(!seg_holds(maps, i, addr));
    }
}

/// Law: the frame expansion of a raw symbol is a function of the symbol
/// and the offset alone — expanding the same result twice yields frame
/// sequences that agree in every field.
pub proof fn lemma_frames_deterministic(
    offset: u64,
    raw: RawSym,
    out1: Seq<UstackSymbol>,
    out2: Seq<UstackSymbol>,
)
    requires
        raw_frames_match(offset, raw, out1),
        raw_frames_match(offset, raw, out2),
    ensures
        out1.len() == out2.len(),
        forall|i: int|
            0 <= i < out1.len() ==> {
                &&& opt_str_view((#[trigger] out1[i]).function) == opt_str_view(out2[i].function)
                &&& opt_str_view(out1[i].file) == opt_str_view(out2[i].file)
                &&& out1[i].line == out2[i].line
                &&& out1[i].offset == out2[i].offset
                &&& out1[i].inline == out2[i].inline
            },
{
    assert forall|i: int| 0 <= i < out1.len() implies {
        &&& opt_str_view((#[trigger] out1[i]).function) == opt_str_view(out2[i].function)
        &&& opt_str_view(out1[i].file) == opt_str_view(out2[i].file)
        &&& out1[i].line == out2[i].line
        &&& out1[i].offset == out2[i].offset
        &&& out1[i].inline == out2[i].inline
    } by {
        if i > 0 {
            assert(out1[1 + (i - 1)].inline == true);
            assert(out2[1 + (i - 1)].inline == true);
        }
    }
}

} // verus!
