//! Kernel-symbol resolution: parsing of the running kernel's symbol table
//! and address lookup over the resulting ranges.
//!
//! Each input line spells an address, a type tag, a symbol name and
//! optionally a module in brackets. The entries, sorted by address, tile
//! the address space: every entry ends where the next one starts, and the
//! last reaches the top. Lookup finds the one range holding an address.

use vstd::prelude::*;
use vstd::string::*;

verus! {

/// Field separator inside a symbol line.
pub open spec fn is_ws(c: char) -> bool {
    c == ' ' || c == '\t'
}

/// The bracket characters that wrap a module name.
pub open spec fn is_bracket(c: char) -> bool {
    c == '[' || c == ']'
}

/// The value of a hexadecimal digit character, or -1.
pub open spec fn hex_digit_val(c: char) -> int {
    if '0' <= c <= '9' {
        c as int - '0' as int
    } else if 'a' <= c <= 'f' {
        c as int - 'a' as int + 10
    } else if 'A' <= c <= 'F' {
        c as int - 'A' as int + 10
    } else {
        -1
    }
}

/// Whether `c` is a hexadecimal digit.
pub open spec fn is_hex_digit(c: char) -> bool {
    hex_digit_val(c) >= 0
}

/// The first index at or after `i` that does not hold whitespace.
pub open spec fn spec_skip_ws(l: Seq<char>, i: int) -> int
    decreases l.len() - i,
    when 0 <= i <= l.len()
{
    if i < l.len() && is_ws(l[i]) {
        spec_skip_ws(l, i + 1)
    } else {
        i
    }
}

/// The first index at or after `i` that holds whitespace (or the end).
pub open spec fn spec_token_end(l: Seq<char>, i: int) -> int
    decreases l.len() - i,
    when 0 <= i <= l.len()
{
    if i < l.len() && !is_ws(l[i]) {
        spec_token_end(l, i + 1)
    } else {
        i
    }
}

/// `s` without its leading bracket characters.
pub open spec fn spec_trim_lead(s: Seq<char>) -> Seq<char>
    decreases s.len(),
{
    if s.len() > 0 && is_bracket(s[0]) {
        spec_trim_lead(s.drop_first())
    } else {
        s
    }
}

/// `s` without its trailing bracket characters.
pub open spec fn spec_trim_trail(s: Seq<char>) -> Seq<char>
    decreases s.len(),
{
    if s.len() > 0 && is_bracket(s.last()) {
        spec_trim_trail(s.drop_last())
    } else {
        s
    }
}

/// `s` without bracket characters at either end.
pub open spec fn spec_trim_brackets(s: Seq<char>) -> Seq<char> {
    spec_trim_trail(spec_trim_lead(s))
}

/// Whether `s` is a hexadecimal numeral that fits a `u64`.
pub open spec fn spec_hex_token_ok(s: Seq<char>) -> bool {
    &&& 1 <= s.len() <= 16
    &&& forall|i: int| 0 <= i < s.len() ==> is_hex_digit(#[trigger] s[i])
}

/// The value of the hexadecimal numeral `s`.
pub open spec fn spec_hex_val(s: Seq<char>) -> int
    decreases s.len(),
{
    if s.len() == 0 {
        0
    } else {
        spec_hex_val(s.drop_last()) * 16 + hex_digit_val(s.last())
    }
}

/// Sixteen to the `n`th.
spec fn pow16(n: nat) -> int
    decreases n,
{
    if n == 0 {
        1int
    } else {
        16 * pow16((n - 1) as nat)
    }
}

/// A hexadecimal numeral of `n` digits stays below sixteen to the `n`th.
proof fn lemma_hex_val_bound(s: Seq<char>)
    requires
        forall|i: int| 0 <= i < s.len() ==> is_hex_digit(#[trigger] s[i]),
    ensures
        0 <= spec_hex_val(s) < pow16(s.len()),
    decreases s.len(),
{
    if s.len() > 0 {
        assert(forall|i: int|
            0 <= i < s.drop_last().len() ==> is_hex_digit(#[trigger] s.drop_last()[i]));
        lemma_hex_val_bound(s.drop_last());
    }
}

/// Sixteen to the sixteenth is one past the largest `u64`.
proof fn lemma_pow16_u64()
    ensures
        pow16(16) == 0x1_0000_0000_0000_0000,
{
    reveal_with_fuel(pow16, 17);
}

/// The view of an optional owned string.
pub open spec fn opt_str_view(m: Option<String>) -> Option<Seq<char>> {
    match m {
        Some(s) => Some(s@),
        None => None,
    }
}

/// What one symbol line denotes: its address, its symbol name, and its
/// module name (brackets stripped) when one is given. `None` when the
/// line does not consist of an address numeral, a type tag, a name, and
/// at most one module field.
pub open spec fn spec_parse_ksym_line(l: Seq<char>) -> Option<(u64, Seq<char>, Option<Seq<char>>)> {
    let a0 = spec_skip_ws(l, 0);
    let a1 = spec_token_end(l, a0);
    let t0 = spec_skip_ws(l, a1);
    let t1 = spec_token_end(l, t0);
    let n0 = spec_skip_ws(l, t1);
    let n1 = spec_token_end(l, n0);
    let m0 = spec_skip_ws(l, n1);
    let m1 = spec_token_end(l, m0);
    let rest = spec_skip_ws(l, m1);
    if a1 <= a0 || t1 <= t0 || n1 <= n0 {
        None
    } else if !spec_hex_token_ok(l.subrange(a0, a1)) {
        None
    } else if m1 > m0 && rest < l.len() {
        None
    } else if m1 > m0 {
        Some(
            (
                spec_hex_val(l.subrange(a0, a1)) as u64,
                l.subrange(n0, n1),
                Some(spec_trim_brackets(l.subrange(m0, m1))),
            ),
        )
    } else {
        Some((spec_hex_val(l.subrange(a0, a1)) as u64, l.subrange(n0, n1), None))
    }
}

/// Scans past whitespace, starting at `from`.
fn scan_ws(s: &str, from: usize) -> (r: usize)
    requires
        s.is_ascii(),
        from <= s@.len(),
    ensures
        r == spec_skip_ws(s@, from as int),
        from <= r <= s@.len(),
        r < s@.len() ==> !is_ws(s@[r as int]),
{
    let n = s.unicode_len();
    let mut i = from;
    while i < n
        invariant
            s.is_ascii(),
            from <= i <= n,
            n == s@.len(),
            spec_skip_ws(s@, from as int) == spec_skip_ws(s@, i as int),
        decreases n - i,
    {
        let c = s.get_char(i);
        if !(c == ' ' || c == '\t') {
            return i;
        }
        i = i + 1;
    }
    i
}

/// Scans to the end of the token starting at `from`.
fn scan_token(s: &str, from: usize) -> (r: usize)
    requires
        s.is_ascii(),
        from <= s@.len(),
    ensures
        r == spec_token_end(s@, from as int),
        from <= r <= s@.len(),
{
    let n = s.unicode_len();
    let mut i = from;
    while i < n
        invariant
            s.is_ascii(),
            from <= i <= n,
            n == s@.len(),
            spec_token_end(s@, from as int) == spec_token_end(s@, i as int),
        decreases n - i,
    {
        let c = s.get_char(i);
        if c == ' ' || c == '\t' {
            return i;
        }
        i = i + 1;
    }
    i
}

/// Reads the hexadecimal numeral in `s[from..to]`, if that is one.
fn parse_hex_range(s: &str, from: usize, to: usize) -> (r: Option<u64>)
    requires
        s.is_ascii(),
        from <= to <= s@.len(),
    ensures
        r is Some <==> spec_hex_token_ok(s@.subrange(from as int, to as int)),
        r matches Some(v) ==> v == spec_hex_val(s@.subrange(from as int, to as int)),
{
    if to == from || to - from > 16 {
        return None;
    }
    let mut val: u64 = 0;
    let mut i = from;
    while i < to
        invariant
            s.is_ascii(),
            from <= i <= to,
            to <= s@.len(),
            to - from <= 16,
            forall|k: int| from <= k < i ==> is_hex_digit(#[trigger] s@[k]),
            val == spec_hex_val(s@.subrange(from as int, i as int)),
        decreases to - i,
    {
        let c = s.get_char(i);
        let d: u64 = if c >= '0' && c <= '9' {
            (c as u8 - 48) as u64
        } else if c >= 'a' && c <= 'f' {
            (c as u8 - 97 + 10) as u64
        } else if c >= 'A' && c <= 'F' {
            (c as u8 - 65 + 10) as u64
        } else {
            proof {
                let whole = s@.subrange(from as int, to as int);
                assert(whole[i - from] == s@[i as int]);
                assert(!is_hex_digit(whole[i - from]));
            }
            return None;
        };
        proof {
            let pre = s@.subrange(from as int, i as int);
            assert(forall|k: int| 0 <= k < pre.len() ==> is_hex_digit(#[trigger] pre[k]));
            lemma_hex_val_bound(pre);
            lemma_pow16_mono(pre.len(), 15);
            lemma_pow16_u64();
            assert(s@.subrange(from as int, i + 1).drop_last() =~= pre);
        }
        val = val * 16 + d;
        i = i + 1;
    }
    proof {
        let whole = s@.subrange(from as int, to as int);
        assert(forall|k: int| 0 <= k < whole.len() ==> is_hex_digit(#[trigger] whole[k]));
    }
    Some(val)
}

/// Sixteen to the `n`th grows with `n`.
proof fn lemma_pow16_mono(a: nat, b: nat)
    requires
        a <= b,
    ensures
        pow16(a) <= pow16(b),
        pow16(a) >= 1,
    decreases b,
{
    if a < b {
        lemma_pow16_mono(a, (b - 1) as nat);
    } else if a > 0 {
        lemma_pow16_mono((a - 1) as nat, (b - 1) as nat);
    }
}

/// Whether the character at `i` is a bracket.
fn bracket_at(s: &str, i: usize) -> (r: bool)
    requires
        s.is_ascii(),
        i < s@.len(),
    ensures
        r == is_bracket(s@[i as int]),
{
    let c = s.get_char(i);
    c == '[' || c == ']'
}

/// Narrows `[from, to)` past the bracket characters at either end.
fn trim_bracket_range(s: &str, from: usize, to: usize) -> (r: (usize, usize))
    requires
        s.is_ascii(),
        from <= to <= s@.len(),
    ensures
        from <= r.0 <= r.1 <= to,
        s@.subrange(r.0 as int, r.1 as int) == spec_trim_brackets(
            s@.subrange(from as int, to as int),
        ),
{
    let mut lo = from;
    while lo < to && bracket_at(s, lo)
        invariant
            s.is_ascii(),
            from <= lo <= to,
            to <= s@.len(),
            spec_trim_lead(s@.subrange(from as int, to as int)) == spec_trim_lead(
                s@.subrange(lo as int, to as int),
            ),
        decreases to - lo,
    {
        proof {
            assert(s@.subrange(lo as int, to as int).drop_first() =~= s@.subrange(
                lo + 1,
                to as int,
            ));
        }
        lo = lo + 1;
    }
    let ghost led = spec_trim_lead(s@.subrange(from as int, to as int));
    proof {
        assert(led == s@.subrange(lo as int, to as int));
    }
    let mut hi = to;
    while hi > lo && bracket_at(s, hi - 1)
        invariant
            s.is_ascii(),
            lo <= hi <= to,
            to <= s@.len(),
            spec_trim_trail(led) == spec_trim_trail(s@.subrange(lo as int, hi as int)),
        decreases hi,
    {
        proof {
            assert(s@.subrange(lo as int, hi as int).drop_last() =~= s@.subrange(
                lo as int,
                hi - 1,
            ));
        }
        hi = hi - 1;
    }
    (lo, hi)
}

/// Whitespace never ends up inside a scanned token.
proof fn lemma_token_chars(l: Seq<char>, i: int)
    requires
        0 <= i <= l.len(),
    ensures
        i <= spec_token_end(l, i) <= l.len(),
        forall|k: int| i <= k < spec_token_end(l, i) ==> !is_ws(#[trigger] l[k]),
    decreases l.len() - i,
{
    if i < l.len() && !is_ws(l[i]) {
        lemma_token_chars(l, i + 1);
    }
}

/// Skipping whitespace stays inside the line.
proof fn lemma_skip_ws_bounds(l: Seq<char>, i: int)
    requires
        0 <= i <= l.len(),
    ensures
        i <= spec_skip_ws(l, i) <= l.len(),
    decreases l.len() - i,
{
    if i < l.len() && is_ws(l[i]) {
        lemma_skip_ws_bounds(l, i + 1);
    }
}

/// Law: a symbol name parsed from a line is one whitespace-free token,
/// and carries no newline when the line itself carries none — so folded
/// lines built from these names keep their single weight token.
pub proof fn lemma_parsed_name_is_clean(l: Seq<char>)
    requires
        forall|k: int| 0 <= k < l.len() ==> #[trigger] l[k] != '\n',
    ensures
        spec_parse_ksym_line(l) matches Some(t) ==> t.1.len() > 0 && forall|k: int|
            0 <= k < t.1.len() ==> !is_ws(#[trigger] t.1[k]) && t.1[k] != '\n',
{
    if spec_parse_ksym_line(l) is Some {
        let a0 = spec_skip_ws(l, 0);
        let a1 = spec_token_end(l, a0);
        let t0 = spec_skip_ws(l, a1);
        let t1 = spec_token_end(l, t0);
        let n0 = spec_skip_ws(l, t1);
        let n1 = spec_token_end(l, n0);
        lemma_skip_ws_bounds(l, 0);
        lemma_token_chars(l, a0);
        lemma_skip_ws_bounds(l, a1);
        lemma_token_chars(l, t0);
        lemma_skip_ws_bounds(l, t1);
        lemma_token_chars(l, n0);
        let name = l.subrange(n0, n1);
        assert forall|k: int| 0 <= k < name.len() implies !is_ws(#[trigger] name[k]) && name[k]
            != '\n' by {
            assert(name[k] == l[n0 + k]);
        }
    }
}

/// Parses one symbol line into its address, name, and optional module.
/// Returns `None` exactly on the lines the line grammar rejects.
pub fn parse_ksym_line(line: &str) -> (r: Option<(u64, String, Option<String>)>)
    requires
        line.is_ascii(),
    ensures
        r is Some <==> spec_parse_ksym_line(line@) is Some,
        r matches Some(t) ==> spec_parse_ksym_line(line@) == Some((t.0, t.1@, opt_str_view(t.2))),
{
    let n = line.unicode_len();
    let a0 = scan_ws(line, 0);
    let a1 = scan_token(line, a0);
    let t0 = scan_ws(line, a1);
    let t1 = scan_token(line, t0);
    let n0 = scan_ws(line, t1);
    let n1 = scan_token(line, n0);
    let m0 = scan_ws(line, n1);
    let m1 = scan_token(line, m0);
    let rest = scan_ws(line, m1);
    if a1 <= a0 || t1 <= t0 || n1 <= n0 {
        return None;
    }
    let addr = match parse_hex_range(line, a0, a1) {
        Some(v) => v,
        None => {
            return None;
        },
    };
    if m1 > m0 && rest < n {
        return None;
    }
    let name = String::from_str(line.substring_ascii(n0, n1));
    if m1 > m0 {
        let (lo, hi) = trim_bracket_range(line, m0, m1);
        let module = String::from_str(line.substring_ascii(lo, hi));
        Some((addr, name, Some(module)))
    } else {
        Some((addr, name, None))
    }
}

/// One symbol's address range: `[start, end)`, with `end` the start of
/// the next symbol (the last symbol reaches the top of the address
/// space). `module` is `None` for the kernel proper.
pub struct SymRange {
    pub start: u64,
    pub end: u64,
    pub name: String,
    pub module: Option<String>,
}

/// The symbol ranges tile the address space from the first start up:
/// starts are sorted, each range ends where the next starts, and the last
/// reaches the top.
pub open spec fn ksyms_wf(s: Seq<SymRange>) -> bool {
    &&& forall|i: int, j: int|
        0 <= i < j < s.len() ==> (#[trigger] s[i]).start <= (#[trigger] s[j]).start
    &&& forall|i: int| 0 <= i < s.len() - 1 ==> (#[trigger] s[i]).end == s[i + 1].start
    &&& s.len() > 0 ==> s[s.len() - 1].end == u64::MAX
}

/// Whether the range at `i` holds `addr`.
pub open spec fn range_holds(s: Seq<SymRange>, i: int, addr: u64) -> bool {
    s[i].start <= addr < s[i].end
}

/// The index of the range holding `addr`, if any.
pub open spec fn spec_owner(s: Seq<SymRange>, addr: u64) -> Option<int> {
    if exists|i: int| 0 <= i < s.len() && range_holds(s, i, addr) {
        Some(choose|i: int| 0 <= i < s.len() && range_holds(s, i, addr))
    } else {
        None
    }
}

/// In a well-formed table, at most one range holds an address.
proof fn lemma_owner_is(s: Seq<SymRange>, addr: u64, i: int)
    requires
        ksyms_wf(s),
        0 <= i < s.len(),
        range_holds(s, i, addr),
    ensures
        spec_owner(s, addr) == Some(i),
{
    let j = choose|j: int| 0 <= j < s.len() && range_holds(s, j, addr);
    if j < i {
        assert(s[j].end == s[j + 1].start);
        assert(s[j + 1].start <= s[i].start);
        assert(false);
    } else if i < j {
        assert(s[i].end == s[i + 1].start);
        assert(s[i + 1].start <= s[j].start);
        assert(false);
    }
}

/// Binary search for the range holding `addr`. Returns `None` exactly
/// when no range holds it: the address lies below the first symbol, or at
/// the very top of the address space.
#[verifier::rlimit(100)]
#[verifier::spinoff_prover]
pub fn find_owner(syms: &Vec<SymRange>, addr: u64) -> (r: Option<usize>)
    requires
        ksyms_wf(syms@),
    ensures
        r matches Some(i) ==> spec_owner(syms@, addr) == Some(i as int),
        r is None ==> spec_owner(syms@, addr) is None,
{
    let mut lo: usize = 0;
    let mut hi: usize = syms.len();
    while lo < hi
        invariant
            ksyms_wf(syms@),
            lo <= hi <= syms@.len(),
            forall|i: int| 0 <= i < lo ==> addr >= (#[trigger] syms@[i]).end,
            forall|i: int| hi <= i < syms@.len() ==> addr < (#[trigger] syms@[i]).start,
        decreases hi - lo,
    {
        let mid = lo + (hi - lo) / 2;
        let entry = &syms[mid];
        if addr < entry.start {
            proof {
                assert forall|i: int| mid <= i < syms@.len() implies addr < (
                #[trigger] syms@[i]).start by {
                    assert(syms@[mid as int].start <= syms@[i].start);
                }
            }
            hi = mid;
        } else if addr >= entry.end {
            proof {
                assert forall|i: int| 0 <= i <= mid implies addr >= (#[trigger] syms@[i]).end by {
                    if i < mid {
                        assert(syms@[i].end == syms@[i + 1].start);
                        assert(syms@[i + 1].start <= syms@[mid as int].start);
                    }
                }
            }
            lo = mid + 1;
        } else {
            proof {
                lemma_owner_is(syms@, addr, mid as int);
            }
            return Some(mid);
        }
    }
    proof {
        if exists|i: int| 0 <= i < syms@.len() && range_holds(syms@, i, addr) {
            let i = choose|i: int| 0 <= i < syms@.len() && range_holds(syms@, i, addr);
            assert(i < lo || hi <= i);
        }
    }
    None
}

/// Law: kernel-symbol lookup is monotone within a range — two addresses
/// held by the same range resolve to the same symbol.
pub proof fn lemma_lookup_monotone(s: Seq<SymRange>, a1: u64, a2: u64, i: int)
    requires
        ksyms_wf(s),
        spec_owner(s, a1) == Some(i),
        a1 <= a2,
        a2 < s[i].end,
    ensures
        spec_owner(s, a2) == Some(i),
{
    if exists|j: int| 0 <= j < s.len() && range_holds(s, j, a1) {
        assert(range_holds(s, i, a1));
        assert(range_holds(s, i, a2));
        lemma_owner_is(s, a2, i);
    }
}

/// Law: an address exactly at a range's `end` never belongs to that
/// range; when the next range is not empty, it belongs to the next one.
pub proof fn lemma_end_belongs_to_next(s: Seq<SymRange>, i: int)
    requires
        ksyms_wf(s),
        0 <= i < s.len(),
    ensures
        spec_owner(s, s[i].end) != Some(i),
        i < s.len() - 1 && s[i + 1].start < s[i + 1].end ==> spec_owner(s, s[i].end) == Some(
            i + 1,
        ),
{
    if spec_owner(s, s[i].end) == Some(i) {
        assert(range_holds(s, i, s[i].end));
    }
    if i < s.len() - 1 && s[i + 1].start < s[i + 1].end {
        assert(s[i].end == s[i + 1].start);
        assert(range_holds(s, i + 1, s[i].end));
        lemma_owner_is(s, s[i].end, i + 1);
    }
}

/// A kernel symbol as a lookup returns it: the queried address, and the
/// owning symbol's name and module when one was found.
pub struct KstackSymbol {
    pub offset: u64,
    pub function: Option<String>,
    pub module: Option<String>,
}

/// What `to_string_lossy` spells: the function name, with its module in
/// brackets when known; a hex address when no name was found.
pub open spec fn spec_kstack_display(s: KstackSymbol) -> Seq<char> {
    match s.function {
        Some(f) => match s.module {
            Some(m) => f@ + " in ["@ + m@ + "]"@,
            None => f@,
        },
        None => crate::render::spec_hex_addr(s.offset as int),
    }
}

impl KstackSymbol {
    /// Renders the symbol for a human: name, name with module, or the
    /// bare address in hex.
    pub fn to_string_lossy(&self) -> (r: String)
        ensures
            r@ == spec_kstack_display(*self),
    {
        proof {
            reveal_strlit(" in [");
            reveal_strlit("]");
        }
        match (&self.function, &self.module) {
            (Some(f), Some(m)) => {
                let mut r = f.clone();
                r.append(" in [");
                r.append(m.as_str());
                r.append("]");
                r
            },
            (Some(f), None) => f.clone(),
            (None, _) => crate::render::addr_to_hex(self.offset),
        }
    }
}

/// The unresolved-symbol result: the address itself and no names.
pub fn fallback(addr: u64) -> (r: KstackSymbol)
    ensures
        r.offset == addr,
        r.function is None,
        r.module is None,
{
    KstackSymbol { offset: addr, function: None, module: None }
}

/// Whether the symbol `r` is what resolving `addr` over `s` must yield:
/// the owning range's names, or no names when no range holds `addr`.
pub open spec fn spec_symbol_matches(s: Seq<SymRange>, addr: u64, r: KstackSymbol) -> bool {
    &&& r.offset == addr
    &&& match spec_owner(s, addr) {
        Some(i) => {
            &&& r.function matches Some(f) && f@ == s[i].name@
            &&& opt_str_view(r.module) == opt_str_view(s[i].module)
        },
        None => r.function is None && r.module is None,
    }
}

/// Why a symbol table failed to load.
#[derive(Clone, Copy, Debug, PartialEq, Eq)]
pub enum KsymsError {
    /// A line holds a character outside ASCII.
    NotAscii,
    /// A line does not fit the address/type/name/module grammar.
    BadLine,
    /// A line's address is below its predecessor's.
    OutOfOrder,
}

/// Whether `e` is the entry line `l` describes (its range end is fixed
/// by the neighbouring lines, not by `l` itself).
pub open spec fn entry_matches_line(e: SymRange, l: Seq<char>) -> bool {
    match spec_parse_ksym_line(l) {
        Some(t) => e.start == t.0 && e.name@ == t.1 && opt_str_view(e.module) == t.2,
        None => false,
    }
}

/// The address a well-formed symbol line carries.
pub open spec fn spec_line_addr(l: Seq<char>) -> u64 {
    spec_parse_ksym_line(l)->Some_0.0
}

/// When a sequence of symbol lines loads without error: every line is
/// ASCII, every line parses, and the addresses never decrease.
pub open spec fn spec_ksyms_ok(lines: Seq<String>) -> bool {
    &&& forall|i: int|
        0 <= i < lines.len() ==> vstd::utf8::is_ascii_chars((#[trigger] lines[i])@)
    &&& forall|i: int| 0 <= i < lines.len() ==> spec_parse_ksym_line((#[trigger] lines[i])@) is Some
    &&& forall|i: int|
        0 <= i < lines.len() - 1 ==> spec_line_addr((#[trigger] lines[i])@) <= spec_line_addr(
            lines[i + 1]@,
        )
}

/// Clones an optional name.
fn clone_opt_string(o: &Option<String>) -> (r: Option<String>)
    ensures
        opt_str_view(r) == opt_str_view(*o),
{
    match o {
        Some(s) => Some(s.clone()),
        None => None,
    }
}

/// Adjacent order gives global order.
proof fn lemma_sorted_chain(p: Seq<(u64, String, Option<String>)>, i: int, j: int)
    requires
        forall|k: int| 0 <= k < p.len() - 1 ==> (#[trigger] p[k]).0 <= p[k + 1].0,
        0 <= i <= j < p.len(),
    ensures
        p[i].0 <= p[j].0,
    decreases j - i,
{
    if i < j {
        lemma_sorted_chain(p, i, j - 1);
        assert(p[j - 1].0 <= p[j].0);
    }
}

/// Resolves kernel addresses against the loaded symbol table.
pub struct KStackResolver {
    ksyms: Vec<SymRange>,
}

impl KStackResolver {
    /// The loaded symbol ranges.
    pub closed spec fn spec_syms(&self) -> Seq<SymRange> {
        self.ksyms@
    }

    /// The loaded table tiles the address space.
    pub open spec fn wf(&self) -> bool {
        ksyms_wf(self.spec_syms())
    }

    /// Loads the kernel symbol table from its text lines, one symbol per
    /// line, already sorted by address. Each entry's range ends where the
    /// next entry starts; the last entry's range reaches the top of the
    /// address space. Fails — naming the first offence — when a line is
    /// not ASCII, does not parse, or breaks the address order.
    #[verifier::rlimit(60)]
    pub fn new(lines: &Vec<String>) -> (r: Result<KStackResolver, KsymsError>)
        ensures
            r is Ok <==> spec_ksyms_ok(lines@),
            r matches Ok(res) ==> {
                &&& res.wf()
                &&& res.spec_syms().len() == lines@.len()
                &&& forall|i: int|
                    0 <= i < lines@.len() ==> entry_matches_line(
                        #[trigger] res.spec_syms()[i],
                        lines@[i]@,
                    )
            },
    {
        let mut parsed: Vec<(u64, String, Option<String>)> = Vec::new();
        let mut i: usize = 0;
        while i < lines.len()
            invariant
                i <= lines@.len(),
                parsed@.len() == i,
                forall|j: int|
                    0 <= j < i ==> vstd::utf8::is_ascii_chars((#[trigger] lines@[j])@),
                forall|j: int|
                    0 <= j < i ==> spec_parse_ksym_line((#[trigger] lines@[j])@) == Some(
                        ((#[trigger] parsed@[j]).0, parsed@[j].1@, opt_str_view(parsed@[j].2)),
                    ),
                forall|k: int| 0 <= k < i - 1 ==> (#[trigger] parsed@[k]).0 <= parsed@[k + 1].0,
            decreases lines@.len() - i,
        {
            let line = &lines[i];
            if !line.as_str().is_ascii() {
                return Err(KsymsError::NotAscii);
            }
            match parse_ksym_line(line.as_str()) {
                None => {
                    return Err(KsymsError::BadLine);
                },
                Some(t) => {
                    if parsed.len() > 0 && parsed[parsed.len() - 1].0 > t.0 {
                        proof {
                            let li = i as int;
                            assert(spec_line_addr(lines@[li - 1]@) == parsed@[li - 1].0);
                            assert(spec_line_addr(lines@[li]@) == t.0);
                            assert(!spec_ksyms_ok(lines@));
                        }
                        return Err(KsymsError::OutOfOrder);
                    }
                    parsed.push(t);
                },
            }
            i = i + 1;
        }
        proof {
            assert forall|k: int|
                0 <= k < lines@.len() implies spec_parse_ksym_line(
                (#[trigger] lines@[k])@,
            ) is Some by {
                assert(spec_parse_ksym_line(lines@[k]@) == Some(
                    (parsed@[k].0, parsed@[k].1@, opt_str_view(parsed@[k].2)),
                ));
            }
            assert forall|k: int|
                0 <= k < lines@.len() - 1 implies spec_line_addr((#[trigger] lines@[k])@)
                <= spec_line_addr(lines@[k + 1]@) by {
                assert(spec_line_addr(lines@[k]@) == parsed@[k].0);
                assert(spec_line_addr(lines@[k + 1]@) == parsed@[k + 1].0);
            }
            assert(spec_ksyms_ok(lines@));
        }
        let mut ksyms: Vec<SymRange> = Vec::new();
        let mut j: usize = 0;
        while j < parsed.len()
            invariant
                j <= parsed@.len(),
                ksyms@.len() == j,
                parsed@.len() == lines@.len(),
                forall|k: int|
                    0 <= k < parsed@.len() ==> spec_parse_ksym_line((#[trigger] lines@[k])@)
                        == Some(
                        ((#[trigger] parsed@[k]).0, parsed@[k].1@, opt_str_view(parsed@[k].2)),
                    ),
                forall|k: int|
                    0 <= k < parsed@.len() - 1 ==> (#[trigger] parsed@[k]).0 <= parsed@[k + 1].0,
                forall|k: int|
                    0 <= k < j ==> {
                        &&& (#[trigger] ksyms@[k]).start == parsed@[k].0
                        &&& ksyms@[k].name@ == parsed@[k].1@
                        &&& opt_str_view(ksyms@[k].module) == opt_str_view(parsed@[k].2)
                        &&& ksyms@[k].end == (if k + 1 < parsed@.len() {
                            parsed@[k + 1].0
                        } else {
                            u64::MAX
                        })
                    },
            decreases parsed@.len() - j,
        {
            let end = if j + 1 < parsed.len() {
                let next = &parsed[j + 1];
                next.0
            } else {
                u64::MAX
            };
            let entry = &parsed[j];
            let e = SymRange {
                start: entry.0,
                end,
                name: entry.1.clone(),
                module: clone_opt_string(&entry.2),
            };
            ksyms.push(e);
            j = j + 1;
        }
        proof {
            assert forall|a: int, b: int| 0 <= a < b < ksyms@.len() implies (
            #[trigger] ksyms@[a]).start <= (#[trigger] ksyms@[b]).start by {
                lemma_sorted_chain(parsed@, a, b);
            }
        }
        Ok(KStackResolver { ksyms })
    }

    /// Resolves one kernel address: the symbol whose range holds it, or
    /// the bare address when none does.
    pub fn symbolize_addr(&self, addr: u64) -> (r: KstackSymbol)
        requires
            self.wf(),
        ensures
            spec_symbol_matches(self.spec_syms(), addr, r),
    {
        match find_owner(&self.ksyms, addr) {
            Some(i) => {
                let owner = &self.ksyms[i];
                KstackSymbol {
                    offset: addr,
                    function: Some(owner.name.clone()),
                    module: clone_opt_string(&owner.module),
                }
            },
            None => fallback(addr),
        }
    }

    /// Resolves a whole kernel stack, address by address.
    pub fn symbolize_stack(&self, addrs: &Vec<u64>) -> (r: Vec<KstackSymbol>)
        requires
            self.wf(),
        ensures
            r@.len() == addrs@.len(),
            forall|i: int|
                0 <= i < addrs@.len() ==> spec_symbol_matches(
                    self.spec_syms(),
                    addrs@[i],
                    #[trigger] r@[i],
                ),
    {
        let mut out: Vec<KstackSymbol> = Vec::new();
        let mut i: usize = 0;
        while i < addrs.len()
            invariant
                self.wf(),
                i <= addrs@.len(),
                out@.len() == i,
                forall|k: int|
                    0 <= k < i ==> spec_symbol_matches(
                        self.spec_syms(),
                        addrs@[k],
                        #[trigger] out@[k],
                    ),
            decreases addrs@.len() - i,
        {
            let s = self.symbolize_addr(addrs[i]);
            out.push(s);
            i = i + 1;
        }
        out
    }
}

} // verus!
