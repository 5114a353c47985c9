//! Spike commit-log import: the log grammar, its normalization into `echorv.trace.v1`,
//! and the decisions around running Spike.

use crate::model::{
    clone_opt_string, events_view, opt_str, strs, writes_view, Privilege, Provenance,
    ProvenanceModel, StateKind, StateWrite, StateWriteModel, Target, TargetModel, TraceDocument,
    TraceDocumentModel, TraceEvent, TraceEventModel, Trap, TrapModel,
};
use crate::text::{
    chars_equal, chars_of, copy_range, in_class, is_space, lemma_run_end, lower, lower_char_exec,
    lowered, match_at, occurs_at, parse_unsigned, parse_unsigned_exec, run_end, scan_run,
    space_char, starts_with, string_of, trim, trimmed, CharClass,
};
use vstd::prelude::*;

verus! {

/// `core`
pub open spec fn lit_core() -> Seq<char> {
    seq!['c', 'o', 'r', 'e']
}

/// `exception`
pub open spec fn lit_exception() -> Seq<char> {
    seq!['e', 'x', 'c', 'e', 'p', 't', 'i', 'o', 'n']
}

/// `tval`
pub open spec fn lit_tval() -> Seq<char> {
    seq!['t', 'v', 'a', 'l']
}

/// `epc`
pub open spec fn lit_epc() -> Seq<char> {
    seq!['e', 'p', 'c']
}

/// `0x`
pub open spec fn lit_hex_prefix() -> Seq<char> {
    seq!['0', 'x']
}

/// `(0x`
pub open spec fn lit_open_hex() -> Seq<char> {
    seq!['(', '0', 'x']
}

/// `csr`
pub open spec fn lit_csr() -> Seq<char> {
    seq!['c', 's', 'r']
}

/// `mem`
pub open spec fn lit_mem() -> Seq<char> {
    seq!['m', 'e', 'm']
}

/// The line prefix `core\s+\d+:\s+`: the bounds of the hart number and the index after the prefix.
pub open spec fn core_prefix(l: Seq<char>) -> Option<(int, int, int)> {
    let b = run_end(l, 4, CharClass::Space);
    let c = run_end(l, b, CharClass::Digit);
    let e = run_end(l, c + 1, CharClass::Space);
    if starts_with(l, lit_core()) && b > 4 && c > b && c < l.len() && l[c] == ':' && e > c + 1 {
        Some((b, c, e))
    } else {
        None
    }
}

/// A line `core\s+\d+:\s+exception\s+(?P<name>[^,]+),\s+epc\s+(?P<epc>0x[0-9a-fA-F]+)`,
/// matched from its start: the trap name and the EPC.
///
/// The name is the text up to the first comma after the blanks that follow `exception`; where
/// the comma follows those blanks at once, the name is their last blank (the blank run gives one
/// character back), and with a single blank there is no match.
pub open spec fn exception_line(l: Seq<char>) -> Option<(Seq<char>, Seq<char>)> {
    match core_prefix(l) {
        None => None,
        Some((_b, _c, e)) => {
            let f = e + 9;
            let g = run_end(l, f, CharClass::Space);
            let c = run_end(l, g, CharClass::NotComma);
            let s = if c > g {
                g
            } else {
                g - 1
            };
            let h = run_end(l, c + 1, CharClass::Space);
            let n = run_end(l, h + 3, CharClass::Space);
            let q = run_end(l, n + 2, CharClass::Hex);
            if occurs_at(l, e, lit_exception()) && g > f && c < l.len() && (c > g || g - f >= 2)
                && h > c + 1 && occurs_at(l, h, lit_epc()) && n > h + 3 && occurs_at(
                l,
                n,
                lit_hex_prefix(),
            ) && q > n + 2 {
                Some((l.subrange(s, c), l.subrange(n, q)))
            } else {
                None
            }
        },
    }
}

/// A line `core\s+\d+:\s+tval\s+(?P<tval>0x[0-9a-fA-F]+)`, matched from its start: the TVAL.
pub open spec fn tval_line(l: Seq<char>) -> Option<Seq<char>> {
    match core_prefix(l) {
        None => None,
        Some((_b, _c, e)) => {
            let g = run_end(l, e + 4, CharClass::Space);
            let q = run_end(l, g + 2, CharClass::Hex);
            if occurs_at(l, e, lit_tval()) && g > e + 4 && occurs_at(l, g, lit_hex_prefix()) && q
                > g + 2 {
                Some(l.subrange(g, q))
            } else {
                None
            }
        },
    }
}

/// The fields of a committed-instruction line.
pub struct InstructionFields {
    pub hart: Seq<char>,
    pub privilege: Option<char>,
    pub pc: Seq<char>,
    pub bits: Seq<char>,
    pub tail: Seq<char>,
}

/// Whether `c` is one of the privilege digits `0`, `1`, `3`.
pub open spec fn is_privilege_digit(c: char) -> bool {
    c == '0' || c == '1' || c == '3'
}

/// A whole line `core\s+(?P<hart>\d+):\s+(?:(?P<priv>[013])\s+)?(?P<pc>0x[0-9a-fA-F]+)\s+
/// \((?P<bits>0x[0-9a-fA-F]+)\)(?:\s+(?P<tail>.*))?`. The tail is empty where it is absent.
pub open spec fn instruction_line(l: Seq<char>) -> Option<InstructionFields> {
    match core_prefix(l) {
        None => None,
        Some((b, c, e)) => {
            let has_priv = e + 1 < l.len() && is_privilege_digit(l[e]) && is_space(l[e + 1]);
            let p0 = if has_priv {
                run_end(l, e + 1, CharClass::Space)
            } else {
                e
            };
            let q = run_end(l, p0 + 2, CharClass::Hex);
            let r = run_end(l, q, CharClass::Space);
            let t = run_end(l, r + 3, CharClass::Hex);
            let u = t + 1;
            let v = run_end(l, u, CharClass::Space);
            if occurs_at(l, p0, lit_hex_prefix()) && q > p0 + 2 && r > q && occurs_at(
                l,
                r,
                lit_open_hex(),
            ) && t > r + 3 && t < l.len() && l[t] == ')' && (u == l.len() || is_space(l[u])) {
                Some(
                    InstructionFields {
                        hart: l.subrange(b, c),
                        privilege: if has_priv {
                            Some(l[e])
                        } else {
                            None
                        },
                        pc: l.subrange(p0, q),
                        bits: l.subrange(r + 1, t),
                        tail: if u == l.len() {
                            Seq::empty()
                        } else {
                            l.subrange(v, l.len() as int)
                        },
                    },
                )
            } else {
                None
            }
        },
    }
}

/// A write `(?P<name>(?:x|f|v)\s*\d+|csr\s+[A-Za-z0-9_]+|mem\s+0x[0-9a-fA-F]+)\s+
/// (?P<value>0x[0-9a-fA-F]+)` that starts exactly at `p`: its end, name and value.
pub open spec fn write_at(t: Seq<char>, p: int) -> Option<(int, Seq<char>, Seq<char>)> {
    if 0 <= p < t.len() && (t[p] == 'x' || t[p] == 'f' || t[p] == 'v') {
        let a = run_end(t, p + 1, CharClass::Space);
        let d = run_end(t, a, CharClass::Digit);
        let w = run_end(t, d, CharClass::Space);
        let h = run_end(t, w + 2, CharClass::Hex);
        if d > a && w > d && occurs_at(t, w, lit_hex_prefix()) && h > w + 2 {
            Some((h, t.subrange(p, d), t.subrange(w, h)))
        } else {
            None
        }
    } else if occurs_at(t, p, lit_csr()) {
        let a = run_end(t, p + 3, CharClass::Space);
        let i = run_end(t, a, CharClass::Ident);
        let w = run_end(t, i, CharClass::Space);
        let h = run_end(t, w + 2, CharClass::Hex);
        if a > p + 3 && i > a && w > i && occurs_at(t, w, lit_hex_prefix()) && h > w + 2 {
            Some((h, t.subrange(p, i), t.subrange(w, h)))
        } else {
            None
        }
    } else if occurs_at(t, p, lit_mem()) {
        let a = run_end(t, p + 3, CharClass::Space);
        let m = run_end(t, a + 2, CharClass::Hex);
        let w = run_end(t, m, CharClass::Space);
        let h = run_end(t, w + 2, CharClass::Hex);
        if a > p + 3 && occurs_at(t, a, lit_hex_prefix()) && m > a + 2 && w > m && occurs_at(
            t,
            w,
            lit_hex_prefix(),
        ) && h > w + 2 {
            Some((h, t.subrange(p, m), t.subrange(w, h)))
        } else {
            None
        }
    } else {
        None
    }
}

/// A match found by `write_at` ends after where it starts and within the text.
pub proof fn lemma_write_at_bounds(t: Seq<char>, p: int)
    requires
        0 <= p,
        write_at(t, p) is Some,
    ensures
        write_at(t, p) matches Some((h, _n, _v)) && p < h <= t.len(),
{
    if p < t.len() && (t[p] == 'x' || t[p] == 'f' || t[p] == 'v') {
        let a = run_end(t, p + 1, CharClass::Space);
        lemma_run_end(t, p + 1, CharClass::Space);
        lemma_run_end(t, a, CharClass::Digit);
        let d = run_end(t, a, CharClass::Digit);
        lemma_run_end(t, d, CharClass::Space);
        let w = run_end(t, d, CharClass::Space);
        lemma_run_end(t, w + 2, CharClass::Hex);
    } else if occurs_at(t, p, lit_csr()) {
        let a = run_end(t, p + 3, CharClass::Space);
        lemma_run_end(t, p + 3, CharClass::Space);
        lemma_run_end(t, a, CharClass::Ident);
        let i = run_end(t, a, CharClass::Ident);
        lemma_run_end(t, i, CharClass::Space);
        let w = run_end(t, i, CharClass::Space);
        lemma_run_end(t, w + 2, CharClass::Hex);
    } else {
        let a = run_end(t, p + 3, CharClass::Space);
        lemma_run_end(t, p + 3, CharClass::Space);
        lemma_run_end(t, a + 2, CharClass::Hex);
        let m = run_end(t, a + 2, CharClass::Hex);
        lemma_run_end(t, m, CharClass::Space);
        let w = run_end(t, m, CharClass::Space);
        lemma_run_end(t, w + 2, CharClass::Hex);
    }
}

/// All writes in `t` from index `p` on, as the regex crate's `captures_iter` finds them:
/// leftmost first, each search resuming where the previous match ended.
pub open spec fn write_matches(t: Seq<char>, p: int) -> Seq<(Seq<char>, Seq<char>)>
    decreases t.len() - p,
{
    if p < 0 || p >= t.len() {
        Seq::empty()
    } else {
        match write_at(t, p) {
            Some((h, n, v)) => {
                proof {
                    lemma_write_at_bounds(t, p);
                }
                seq![(n, v)] + write_matches(t, h)
            },
            None => write_matches(t, p + 1),
        }
    }
}


fn chars_core() -> (r: Vec<char>)
    ensures
        r@ == lit_core(),
{
    let r = vec!['c', 'o', 'r', 'e'];
    assert(r@ =~= lit_core());
    r
}

fn chars_exception() -> (r: Vec<char>)
    ensures
        r@ == lit_exception(),
{
    let r = vec!['e', 'x', 'c', 'e', 'p', 't', 'i', 'o', 'n'];
    assert(r@ =~= lit_exception());
    r
}

fn chars_tval() -> (r: Vec<char>)
    ensures
        r@ == lit_tval(),
{
    let r = vec!['t', 'v', 'a', 'l'];
    assert(r@ =~= lit_tval());
    r
}

fn chars_epc() -> (r: Vec<char>)
    ensures
        r@ == lit_epc(),
{
    let r = vec!['e', 'p', 'c'];
    assert(r@ =~= lit_epc());
    r
}

fn chars_hex_prefix() -> (r: Vec<char>)
    ensures
        r@ == lit_hex_prefix(),
{
    let r = vec!['0', 'x'];
    assert(r@ =~= lit_hex_prefix());
    r
}

fn chars_open_hex() -> (r: Vec<char>)
    ensures
        r@ == lit_open_hex(),
{
    let r = vec!['(', '0', 'x'];
    assert(r@ =~= lit_open_hex());
    r
}

fn chars_csr() -> (r: Vec<char>)
    ensures
        r@ == lit_csr(),
{
    let r = vec!['c', 's', 'r'];
    assert(r@ =~= lit_csr());
    r
}

fn chars_mem() -> (r: Vec<char>)
    ensures
        r@ == lit_mem(),
{
    let r = vec!['m', 'e', 'm'];
    assert(r@ =~= lit_mem());
    r
}

fn core_prefix_exec(l: &[char]) -> (r: Option<(usize, usize, usize)>)
    ensures
        r matches Some((b, c, e)) ==> core_prefix(l@) == Some((b as int, c as int, e as int))
            && e <= l@.len(),
        r is None ==> core_prefix(l@) is None,
{
    let core = chars_core();
    if !match_at(l, 0, core.as_slice()) {
        return None;
    }
    let b = scan_run(l, 4, CharClass::Space);
    if b == 4 {
        return None;
    }
    let c = scan_run(l, b, CharClass::Digit);
    if c == b || c >= l.len() || l[c] != ':' {
        return None;
    }
    let e = scan_run(l, c + 1, CharClass::Space);
    if e == c + 1 {
        return None;
    }
    Some((b, c, e))
}

fn exception_line_exec(l: &[char]) -> (r: Option<(Vec<char>, Vec<char>)>)
    ensures
        r matches Some((n, v)) ==> exception_line(l@) == Some((n@, v@)),
        r is None ==> exception_line(l@) is None,
{
    let (_b, _c, e) = match core_prefix_exec(l) {
        Some(p) => p,
        None => {
            return None;
        },
    };
    let word = chars_exception();
    if !match_at(l, e, word.as_slice()) {
        return None;
    }
    let f = e + 9;
    let g = scan_run(l, f, CharClass::Space);
    if g == f {
        return None;
    }
    let c = scan_run(l, g, CharClass::NotComma);
    if c >= l.len() {
        return None;
    }
    if c == g && g - f < 2 {
        return None;
    }
    let s = if c > g {
        g
    } else {
        g - 1
    };
    let h = scan_run(l, c + 1, CharClass::Space);
    if h == c + 1 {
        return None;
    }
    let epc = chars_epc();
    if !match_at(l, h, epc.as_slice()) {
        return None;
    }
    let n = scan_run(l, h + 3, CharClass::Space);
    if n == h + 3 {
        return None;
    }
    let hx = chars_hex_prefix();
    if !match_at(l, n, hx.as_slice()) {
        return None;
    }
    let q = scan_run(l, n + 2, CharClass::Hex);
    if q == n + 2 {
        return None;
    }
    Some((copy_range(l, s, c), copy_range(l, n, q)))
}

fn tval_line_exec(l: &[char]) -> (r: Option<Vec<char>>)
    ensures
        r matches Some(v) ==> tval_line(l@) == Some(v@),
        r is None ==> tval_line(l@) is None,
{
    let (_b, _c, e) = match core_prefix_exec(l) {
        Some(p) => p,
        None => {
            return None;
        },
    };
    let word = chars_tval();
    if !match_at(l, e, word.as_slice()) {
        return None;
    }
    let g = scan_run(l, e + 4, CharClass::Space);
    if g == e + 4 {
        return None;
    }
    let hx = chars_hex_prefix();
    if !match_at(l, g, hx.as_slice()) {
        return None;
    }
    let q = scan_run(l, g + 2, CharClass::Hex);
    if q == g + 2 {
        return None;
    }
    Some(copy_range(l, g, q))
}

/// The fields of a committed-instruction line, as character vectors.
struct InstructionText {
    hart: Vec<char>,
    privilege: Option<char>,
    pc: Vec<char>,
    bits: Vec<char>,
    tail: Vec<char>,
}

impl View for InstructionText {
    type V = InstructionFields;

    closed spec fn view(&self) -> InstructionFields {
        InstructionFields {
            hart: self.hart@,
            privilege: self.privilege,
            pc: self.pc@,
            bits: self.bits@,
            tail: self.tail@,
        }
    }
}

fn instruction_line_exec(l: &[char]) -> (r: Option<InstructionText>)
    ensures
        r matches Some(m) ==> instruction_line(l@) == Some(m@),
        r is None ==> instruction_line(l@) is None,
{
    let (b, c, e) = match core_prefix_exec(l) {
        Some(p) => p,
        None => {
            return None;
        },
    };
    assert(e <= l.len());
    let has_priv = e < l.len() && e + 1 < l.len() && (l[e] == '0' || l[e] == '1' || l[e] == '3') && space_char(
        l[e + 1],
    );
    let p0 = if has_priv {
        scan_run(l, e + 1, CharClass::Space)
    } else {
        e
    };
    let hx = chars_hex_prefix();
    if !match_at(l, p0, hx.as_slice()) {
        return None;
    }
    let q = scan_run(l, p0 + 2, CharClass::Hex);
    if q == p0 + 2 {
        return None;
    }
    let r = scan_run(l, q, CharClass::Space);
    if r == q {
        return None;
    }
    let open = chars_open_hex();
    if !match_at(l, r, open.as_slice()) {
        return None;
    }
    let t = scan_run(l, r + 3, CharClass::Hex);
    if t == r + 3 || t >= l.len() || l[t] != ')' {
        return None;
    }
    let u = t + 1;
    let tail = if u == l.len() {
        Vec::new()
    } else {
        if !space_char(l[u]) {
            return None;
        }
        let v = scan_run(l, u, CharClass::Space);
        copy_range(l, v, l.len())
    };
    let m = InstructionText {
        hart: copy_range(l, b, c),
        privilege: if has_priv {
            Some(l[e])
        } else {
            None
        },
        pc: copy_range(l, p0, q),
        bits: copy_range(l, r + 1, t),
        tail,
    };
    assert(m@.tail =~= (if u == l@.len() {
        Seq::empty()
    } else {
        l@.subrange(run_end(l@, u as int, CharClass::Space), l@.len() as int)
    }));
    Some(m)
}

fn write_at_exec(t: &[char], p: usize) -> (r: Option<(usize, Vec<char>, Vec<char>)>)
    requires
        p < t@.len(),
    ensures
        r matches Some((h, n, v)) ==> write_at(t@, p as int) == Some((h as int, n@, v@)),
        r is None ==> write_at(t@, p as int) is None,
{
    let hx = chars_hex_prefix();
    let c = t[p];
    if c == 'x' || c == 'f' || c == 'v' {
        let a = scan_run(t, p + 1, CharClass::Space);
        let d = scan_run(t, a, CharClass::Digit);
        if d == a {
            return None;
        }
        let w = scan_run(t, d, CharClass::Space);
        if w == d || !match_at(t, w, hx.as_slice()) {
            return None;
        }
        let h = scan_run(t, w + 2, CharClass::Hex);
        if h == w + 2 {
            return None;
        }
        return Some((h, copy_range(t, p, d), copy_range(t, w, h)));
    }
    let csr = chars_csr();
    if match_at(t, p, csr.as_slice()) {
        let a = scan_run(t, p + 3, CharClass::Space);
        if a == p + 3 {
            return None;
        }
        let i = scan_run(t, a, CharClass::Ident);
        if i == a {
            return None;
        }
        let w = scan_run(t, i, CharClass::Space);
        if w == i || !match_at(t, w, hx.as_slice()) {
            return None;
        }
        let h = scan_run(t, w + 2, CharClass::Hex);
        if h == w + 2 {
            return None;
        }
        return Some((h, copy_range(t, p, i), copy_range(t, w, h)));
    }
    let mem = chars_mem();
    if match_at(t, p, mem.as_slice()) {
        let a = scan_run(t, p + 3, CharClass::Space);
        if a == p + 3 || !match_at(t, a, hx.as_slice()) {
            return None;
        }
        let m = scan_run(t, a + 2, CharClass::Hex);
        if m == a + 2 {
            return None;
        }
        let w = scan_run(t, m, CharClass::Space);
        if w == m || !match_at(t, w, hx.as_slice()) {
            return None;
        }
        let h = scan_run(t, w + 2, CharClass::Hex);
        if h == w + 2 {
            return None;
        }
        return Some((h, copy_range(t, p, m), copy_range(t, w, h)));
    }
    None
}

/// The name and value of every write in `t`, in order.
fn write_matches_exec(t: &[char]) -> (r: Vec<(Vec<char>, Vec<char>)>)
    ensures
        r@.map_values(|m: (Vec<char>, Vec<char>)| (m.0@, m.1@)) == write_matches(t@, 0),
{
    let mut out: Vec<(Vec<char>, Vec<char>)> = Vec::new();
    let mut p: usize = 0;
    while p < t.len()
        invariant
            p <= t@.len(),
            write_matches(t@, 0) == out@.map_values(|m: (Vec<char>, Vec<char>)| (m.0@, m.1@))
                + write_matches(t@, p as int),
        decreases t@.len() - p,
    {
        match write_at_exec(t, p) {
            Some((h, n, v)) => {
                proof {
                    lemma_write_at_bounds(t@, p as int);
                }
                let ghost before = out@.map_values(|m: (Vec<char>, Vec<char>)| (m.0@, m.1@));
                let ghost item = (n@, v@);
                out.push((n, v));
                assert(out@.map_values(|m: (Vec<char>, Vec<char>)| (m.0@, m.1@)) =~= before.push(
                    item,
                ));
                assert(write_matches(t@, 0) == out@.map_values(
                    |m: (Vec<char>, Vec<char>)| (m.0@, m.1@),
                ) + write_matches(t@, h as int)) by {
                    assert(before + (seq![item] + write_matches(t@, h as int)) =~= before.push(item)
                        + write_matches(t@, h as int));
                }
                p = h;
            },
            None => {
                p = p + 1;
            },
        }
    }
    assert(write_matches(t@, p as int) =~= Seq::empty());
    assert(out@.map_values(|m: (Vec<char>, Vec<char>)| (m.0@, m.1@)) + Seq::empty() =~= out@.map_values(
        |m: (Vec<char>, Vec<char>)| (m.0@, m.1@),
    ));
    out
}


/// `trap_`
pub open spec fn lit_trap_prefix() -> Seq<char> {
    seq!['t', 'r', 'a', 'p', '_']
}

/// The trap name as Spike prints it, normalized: trimmed, without a `trap_` prefix, with `_`
/// written as `-`, in ASCII lower case.
pub open spec fn normalized_trap_name(v: Seq<char>) -> Seq<char> {
    let t = trim(v);
    let s = if starts_with(t, lit_trap_prefix()) {
        t.subrange(5, t.len() as int)
    } else {
        t
    };
    lower(s.map_values(|c: char| if c == '_' { '-' } else { c }))
}

/// The RISC-V exception code of a normalized trap name; `u64::MAX` for an unknown name.
pub open spec fn trap_cause_of(name: Seq<char>) -> u64 {
    if name == "instruction-address-misaligned"@ {
        0
    } else if name == "instruction-access-fault"@ {
        1
    } else if name == "illegal-instruction"@ {
        2
    } else if name == "breakpoint"@ {
        3
    } else if name == "load-address-misaligned"@ {
        4
    } else if name == "load-access-fault"@ {
        5
    } else if name == "store-address-misaligned"@ {
        6
    } else if name == "store-access-fault"@ {
        7
    } else if name == "user-ecall"@ || name == "environment-call-from-u-mode"@ {
        8
    } else if name == "supervisor-ecall"@ || name == "environment-call-from-s-mode"@ {
        9
    } else if name == "machine-ecall"@ || name == "environment-call-from-m-mode"@ {
        11
    } else if name == "instruction-page-fault"@ {
        12
    } else if name == "load-page-fault"@ {
        13
    } else if name == "store-page-fault"@ {
        15
    } else {
        u64::MAX
    }
}

/// The privilege mode that a Spike privilege field denotes: `0` is U, `1` is S, anything else M.
pub open spec fn privilege_code(v: Seq<char>) -> Privilege {
    if v == seq!['0'] {
        Privilege::U
    } else if v == seq!['1'] {
        Privilege::S
    } else {
        Privilege::M
    }
}

/// `s` with every ASCII space removed.
pub open spec fn without_spaces(s: Seq<char>) -> Seq<char>
    decreases s.len(),
{
    if s.len() == 0 {
        Seq::empty()
    } else if s.last() == ' ' {
        without_spaces(s.drop_last())
    } else {
        without_spaces(s.drop_last()).push(s.last())
    }
}

/// The state write that a matched register, CSR or memory write denotes.
pub open spec fn state_write_of(name: Seq<char>, value: Seq<char>) -> StateWriteModel {
    let raw = without_spaces(name);
    if starts_with(raw, lit_csr()) {
        StateWriteModel {
            kind: StateKind::Csr,
            name: raw.subrange(3, raw.len() as int),
            before: None,
            after: lower(value),
        }
    } else if starts_with(raw, lit_mem()) {
        StateWriteModel { kind: StateKind::Memory, name: raw, before: None, after: lower(value) }
    } else {
        StateWriteModel { kind: StateKind::Register, name: raw, before: None, after: lower(value) }
    }
}

/// The state writes recorded in the tail of an instruction line.
pub open spec fn state_writes(tail: Seq<char>) -> Seq<StateWriteModel> {
    write_matches(tail, 0).map_values(|m: (Seq<char>, Seq<char>)| state_write_of(m.0, m.1))
}

/// A trap that Spike reported and whose handler has not been seen yet.
pub struct PendingTrapModel {
    pub name: Seq<char>,
    pub epc: Seq<char>,
    pub tval: Option<Seq<char>>,
    pub from_privilege: Privilege,
}

/// The state of the log reader between lines.
pub struct LogState {
    pub events: Seq<TraceEventModel>,
    pub pending: Option<PendingTrapModel>,
    pub current: Privilege,
}

/// The index of the last event whose PC is `pc`, among the first `n`.
pub open spec fn last_with_pc(events: Seq<TraceEventModel>, pc: Seq<char>, n: int) -> Option<int>
    decreases n,
{
    if n <= 0 {
        None
    } else if events[n - 1].pc == pc {
        Some(n - 1)
    } else {
        last_with_pc(events, pc, n - 1)
    }
}

/// The trap record of a pending trap once its handler is known.
pub open spec fn trap_of(p: PendingTrapModel, target_pc: Seq<char>, to: Privilege) -> TrapModel {
    TrapModel {
        cause: trap_cause_of(p.name),
        name: p.name,
        tval: p.tval,
        target_pc,
        to_privilege: to,
        delegated: Some(to != Privilege::M),
    }
}

/// The instruction text of an event that Spike never committed.
pub open spec fn uncommitted_text() -> Seq<char> {
    "uncommitted faulting instruction"@
}

/// `attach_trap`: the trap goes to the last event at the EPC, or to a new event for the
/// faulting instruction that was never committed.
pub open spec fn attach(
    events: Seq<TraceEventModel>,
    p: PendingTrapModel,
    target_pc: Seq<char>,
    to: Privilege,
) -> Seq<TraceEventModel> {
    let trap = trap_of(p, target_pc, to);
    match last_with_pc(events, p.epc, events.len() as int) {
        Some(i) => events.update(i, TraceEventModel { trap: Some(trap), ..events[i] }),
        None => events.push(
            TraceEventModel {
                sequence: events.len() as u64,
                hart: Some(0),
                pc: p.epc,
                instruction: uncommitted_text(),
                instruction_bytes: p.tval,
                privilege: p.from_privilege,
                symbol: None,
                source: None,
                writes: Seq::empty(),
                trap: Some(trap),
            },
        ),
    }
}

/// The instruction text of a committed event whose line has no disassembly.
pub open spec fn unknown_text() -> Seq<char> {
    "unknown"@
}

/// The hart number as `u32::from_str` reads it.
pub open spec fn hart_number(digits: Seq<char>) -> Option<u32> {
    match parse_unsigned(digits, 10, u32::MAX as nat) {
        Some(v) => Some(v as u32),
        None => None,
    }
}

/// The effect of a committed-instruction line.
pub open spec fn instruction_step(st: LogState, m: InstructionFields) -> LogState {
    let privilege = match m.privilege {
        Some(c) => privilege_code(seq![c]),
        None => st.current,
    };
    let pc = lower(m.pc);
    let bits = lower(m.bits);
    let evs = match st.pending {
        Some(p) => attach(st.events, p, pc, privilege),
        None => st.events,
    };
    let writes = state_writes(m.tail);
    let has_disassembly = m.tail.len() > 0 && writes.len() == 0;
    let merge = evs.len() > 0 && evs.last().pc == pc && evs.last().instruction_bytes == Some(bits);
    let events = if merge {
        let last = evs.last();
        evs.update(
            evs.len() - 1,
            TraceEventModel {
                privilege,
                writes: last.writes + writes,
                instruction: if has_disassembly {
                    m.tail
                } else {
                    last.instruction
                },
                ..last
            },
        )
    } else {
        evs.push(
            TraceEventModel {
                sequence: evs.len() as u64,
                hart: hart_number(m.hart),
                pc,
                instruction: if has_disassembly {
                    m.tail
                } else {
                    unknown_text()
                },
                instruction_bytes: Some(bits),
                privilege,
                symbol: None,
                source: None,
                writes,
                trap: None,
            },
        )
    };
    LogState { events, pending: None, current: privilege }
}

/// The effect of one trimmed log line.
pub open spec fn line_step(st: LogState, l: Seq<char>) -> LogState {
    match exception_line(l) {
        Some((name, epc)) => LogState {
            pending: Some(
                PendingTrapModel {
                    name: normalized_trap_name(name),
                    epc: lower(epc),
                    tval: None,
                    from_privilege: st.current,
                },
            ),
            ..st
        },
        None => match tval_line(l) {
            Some(tv) => match st.pending {
                Some(p) => LogState {
                    pending: Some(PendingTrapModel { tval: Some(lower(tv)), ..p }),
                    ..st
                },
                None => st,
            },
            None => match instruction_line(l) {
                Some(m) => instruction_step(st, m),
                None => st,
            },
        },
    }
}

/// The state after reading the lines of `s` that start at index `i` or later.
///
/// Lines are split at `\n` and trimmed; a final empty piece matches no line form and
/// changes nothing, as `str::lines` omits it.
pub open spec fn read_lines(s: Seq<char>, i: int, st: LogState) -> LogState
    decreases s.len() - i,
{
    if i < 0 || i > s.len() {
        st
    } else {
        let j = run_end(s, i, CharClass::NotNewline);
        let next = line_step(st, trim(s.subrange(i, j)));
        if j >= s.len() {
            next
        } else {
            proof {
                lemma_run_end(s, i, CharClass::NotNewline);
            }
            read_lines(s, j + 1, next)
        }
    }
}

/// The reader state before the first line.
pub open spec fn initial_state() -> LogState {
    LogState { events: Seq::empty(), pending: None, current: Privilege::M }
}

/// The events once a trap still pending at the end of the log is attached and every event is
/// numbered by its position.
pub open spec fn finished_events(st: LogState) -> Seq<TraceEventModel> {
    let evs = match st.pending {
        Some(p) => attach(st.events, p, "unknown"@, st.current),
        None => st.events,
    };
    Seq::new(evs.len(), |i: int| TraceEventModel { sequence: i as u64, ..evs[i] })
}

/// The normalized trace of a Spike `-l --log-commits` log.
pub open spec fn spike_trace(contents: Seq<char>, isa: Seq<char>, input: Seq<char>) -> TraceDocumentModel {
    let isa_lower = lower(isa);
    TraceDocumentModel {
        schema: "echorv.trace.v1"@,
        target: TargetModel {
            architecture: "risc-v"@,
            xlen: if starts_with(isa_lower, seq!['r', 'v', '3', '2']) {
                32
            } else {
                64
            },
            isa: isa_lower,
            platform: Some("spike"@),
        },
        provenance: ProvenanceModel {
            backend: Some("spike"@),
            backend_version: None,
            input: Some(input),
            command: Seq::empty(),
            notes: Seq::empty(),
        },
        events: finished_events(read_lines(contents, 0, initial_state())),
    }
}


fn trap_name_chars(v: &[char]) -> (r: Vec<char>)
    ensures
        r@ == normalized_trap_name(v@),
{
    let t = trimmed(v);
    let prefix = vec!['t', 'r', 'a', 'p', '_'];
    assert(prefix@ =~= lit_trap_prefix());
    let s = if match_at(t.as_slice(), 0, prefix.as_slice()) {
        copy_range(t.as_slice(), 5, t.len())
    } else {
        t
    };
    let ghost dashed = s@.map_values(|c: char| if c == '_' { '-' } else { c });
    let mut out: Vec<char> = Vec::new();
    let mut i: usize = 0;
    while i < s.len()
        invariant
            i <= s@.len(),
            dashed == s@.map_values(|c: char| if c == '_' { '-' } else { c }),
            out@ == lower(dashed.subrange(0, i as int)),
        decreases s@.len() - i,
    {
        let c = if s[i] == '_' {
            '-'
        } else {
            s[i]
        };
        out.push(lower_char_exec(c));
        i = i + 1;
        assert(out@ =~= lower(dashed.subrange(0, i as int)));
    }
    assert(dashed.subrange(0, s@.len() as int) =~= dashed);
    out
}

/// `normalize_name`: the trap name as Spike prints it, in the form that traces record.
pub fn normalize_name(value: &str) -> (r: String)
    ensures
        r@ == normalized_trap_name(value@),
{
    let v = chars_of(value);
    let n = trap_name_chars(v.as_slice());
    string_of(n.as_slice())
}

fn is_name(name: &[char], lit: &str) -> (r: bool)
    ensures
        r == (name@ == lit@),
{
    let l = chars_of(lit);
    chars_equal(name, l.as_slice())
}

fn trap_cause_chars(name: &[char]) -> (r: u64)
    ensures
        r == trap_cause_of(name@),
{
    if is_name(name, "instruction-address-misaligned") {
        0
    } else if is_name(name, "instruction-access-fault") {
        1
    } else if is_name(name, "illegal-instruction") {
        2
    } else if is_name(name, "breakpoint") {
        3
    } else if is_name(name, "load-address-misaligned") {
        4
    } else if is_name(name, "load-access-fault") {
        5
    } else if is_name(name, "store-address-misaligned") {
        6
    } else if is_name(name, "store-access-fault") {
        7
    } else if is_name(name, "user-ecall") || is_name(name, "environment-call-from-u-mode") {
        8
    } else if is_name(name, "supervisor-ecall") || is_name(name, "environment-call-from-s-mode") {
        9
    } else if is_name(name, "machine-ecall") || is_name(name, "environment-call-from-m-mode") {
        11
    } else if is_name(name, "instruction-page-fault") {
        12
    } else if is_name(name, "load-page-fault") {
        13
    } else if is_name(name, "store-page-fault") {
        15
    } else {
        u64::MAX
    }
}

/// `trap_cause`: the RISC-V exception code of a normalized trap name, `u64::MAX` when unknown.
pub fn trap_cause(name: &str) -> (r: u64)
    ensures
        r == trap_cause_of(name@),
{
    let v = chars_of(name);
    trap_cause_chars(v.as_slice())
}

/// `parse_privilege`: the privilege mode that a Spike privilege field denotes.
pub fn parse_privilege(value: &str) -> (r: Privilege)
    ensures
        r == privilege_code(value@),
{
    let v = chars_of(value);
    if v.len() == 1 && v[0] == '0' {
        assert(value@ =~= seq!['0']);
        Privilege::U
    } else if v.len() == 1 && v[0] == '1' {
        assert(value@ =~= seq!['1']);
        Privilege::S
    } else {
        assert(value@ != seq!['0'] && value@ != seq!['1']) by {
            if value@ == seq!['0'] {
                assert(v@[0] == '0');
            }
            if value@ == seq!['1'] {
                assert(v@[0] == '1');
            }
        }
        Privilege::M
    }
}

fn privilege_of_char(c: char) -> (r: Privilege)
    ensures
        r == privilege_code(seq![c]),
{
    if c == '0' {
        Privilege::U
    } else if c == '1' {
        Privilege::S
    } else {
        assert(seq![c] != seq!['0'] && seq![c] != seq!['1']) by {
            if seq![c] == seq!['0'] {
                assert(seq![c][0] == seq!['0'][0]);
            }
            if seq![c] == seq!['1'] {
                assert(seq![c][0] == seq!['1'][0]);
            }
        }
        Privilege::M
    }
}

fn without_spaces_exec(s: &[char]) -> (r: Vec<char>)
    ensures
        r@ == without_spaces(s@),
{
    let mut out: Vec<char> = Vec::new();
    let mut i: usize = 0;
    while i < s.len()
        invariant
            i <= s@.len(),
            out@ == without_spaces(s@.subrange(0, i as int)),
        decreases s@.len() - i,
    {
        assert(s@.subrange(0, i + 1).drop_last() =~= s@.subrange(0, i as int));
        if s[i] != ' ' {
            out.push(s[i]);
        }
        i = i + 1;
    }
    assert(s@.subrange(0, s@.len() as int) =~= s@);
    out
}

fn state_write_from(name: &[char], value: &[char]) -> (r: StateWrite)
    ensures
        r@ == state_write_of(name@, value@),
{
    let raw = without_spaces_exec(name);
    let after = string_of(lowered(value).as_slice());
    let csr = chars_csr();
    let mem = chars_mem();
    if match_at(raw.as_slice(), 0, csr.as_slice()) {
        let rest = copy_range(raw.as_slice(), 3, raw.len());
        StateWrite { kind: StateKind::Csr, name: string_of(rest.as_slice()), before: None, after }
    } else if match_at(raw.as_slice(), 0, mem.as_slice()) {
        StateWrite { kind: StateKind::Memory, name: string_of(raw.as_slice()), before: None, after }
    } else {
        StateWrite {
            kind: StateKind::Register,
            name: string_of(raw.as_slice()),
            before: None,
            after,
        }
    }
}

/// `parse_writes`: the register, CSR and memory writes recorded in the tail of an instruction
/// line.
pub fn parse_writes(tail: &[char]) -> (r: Vec<StateWrite>)
    ensures
        writes_view(r@) == state_writes(tail@),
{
    let found = write_matches_exec(tail);
    let ghost views = found@.map_values(|m: (Vec<char>, Vec<char>)| (m.0@, m.1@));
    let mut out: Vec<StateWrite> = Vec::new();
    let mut i: usize = 0;
    while i < found.len()
        invariant
            i <= found@.len(),
            views == found@.map_values(|m: (Vec<char>, Vec<char>)| (m.0@, m.1@)),
            writes_view(out@) == views.subrange(0, i as int).map_values(
                |m: (Seq<char>, Seq<char>)| state_write_of(m.0, m.1),
            ),
        decreases found@.len() - i,
    {
        let w = state_write_from(found[i].0.as_slice(), found[i].1.as_slice());
        assert(views[i as int] == (found@[i as int].0@, found@[i as int].1@));
        let ghost prev = writes_view(out@);
        out.push(w);
        assert(writes_view(out@) =~= prev.push(w@));
        i = i + 1;
        assert(writes_view(out@) =~= views.subrange(0, i as int).map_values(
            |m: (Seq<char>, Seq<char>)| state_write_of(m.0, m.1),
        ));
    }
    assert(views.subrange(0, found@.len() as int) =~= views);
    out
}


/// A trap that Spike reported and whose handler has not been seen yet.
struct PendingTrap {
    name: String,
    epc: String,
    tval: Option<String>,
    from_privilege: Privilege,
}

impl View for PendingTrap {
    type V = PendingTrapModel;

    closed spec fn view(&self) -> PendingTrapModel {
        PendingTrapModel {
            name: self.name@,
            epc: self.epc@,
            tval: opt_str(self.tval),
            from_privilege: self.from_privilege,
        }
    }
}

/// `attach_trap`: gives the trap to the last event at the EPC, or records the faulting
/// instruction that Spike never committed.
fn attach_trap(
    events: &mut Vec<TraceEvent>,
    pending: PendingTrap,
    target_pc: String,
    to_privilege: Privilege,
)
    ensures
        events_view(final(events)@) == attach(
            events_view(old(events)@),
            pending@,
            target_pc@,
            to_privilege,
        ),
{
    let ghost old_view = events_view(events@);
    let ghost p = pending@;
    let name_chars = chars_of(pending.name.as_str());
    let cause = trap_cause_chars(name_chars.as_slice());
    let trap = Trap {
        cause,
        name: pending.name,
        tval: clone_opt_string(&pending.tval),
        target_pc,
        to_privilege,
        delegated: Some(to_privilege != Privilege::M),
    };
    let ghost tp = trap_of(p, target_pc@, to_privilege);
    assert(trap@ == tp);
    let mut k = events.len();
    let mut found = false;
    while k > 0
        invariant_except_break
            k <= events@.len(),
            events_view(events@) == old_view,
            last_with_pc(old_view, p.epc, old_view.len() as int) == last_with_pc(
                old_view,
                p.epc,
                k as int,
            ),
            pending.epc@ == p.epc,
            !found,
        ensures
            events_view(events@) == old_view,
            found ==> 0 < k <= events@.len() && last_with_pc(old_view, p.epc, old_view.len() as int)
                == Some(k - 1),
            !found ==> last_with_pc(old_view, p.epc, old_view.len() as int) is None,
        decreases k,
    {
        if events[k - 1].pc == pending.epc {
            found = true;
            break;
        }
        k = k - 1;
    }
    if found {
        let ghost before = events@;
        events[k - 1].trap = Some(trap);
        assert(events@[k - 1]@ == (TraceEventModel { trap: Some(tp), ..old_view[k - 1] }));
        assert forall|m: int| 0 <= m < events@.len() && m != k - 1 implies events@[m] == before[m] by {}
        assert(events_view(events@) =~= old_view.update(
            k - 1,
            TraceEventModel { trap: Some(tp), ..old_view[k - 1] },
        ));
        return;
    }
    let n = events.len();
    let ev = TraceEvent {
        sequence: n as u64,
        hart: Some(0),
        pc: pending.epc,
        instruction: String::from_str("uncommitted faulting instruction"),
        instruction_bytes: pending.tval,
        privilege: pending.from_privilege,
        symbol: None,
        source: None,
        writes: Vec::new(),
        trap: Some(trap),
    };
    assert(writes_view(ev.writes@) =~= Seq::empty());
    events.push(ev);
    assert(events_view(events@) =~= old_view.push(ev@));
}

/// The reader's state between lines.
struct LogReader {
    events: Vec<TraceEvent>,
    pending: Option<PendingTrap>,
    current: Privilege,
}

impl View for LogReader {
    type V = LogState;

    closed spec fn view(&self) -> LogState {
        LogState {
            events: events_view(self.events@),
            pending: match self.pending {
                Some(p) => Some(p@),
                None => None,
            },
            current: self.current,
        }
    }
}

fn instruction_step_exec(st: &mut LogReader, m: InstructionText)
    ensures
        final(st)@ == instruction_step(old(st)@, m@),
{
    let ghost s0 = st@;
    let privilege = match m.privilege {
        Some(c) => privilege_of_char(c),
        None => st.current,
    };
    let pc = string_of(lowered(m.pc.as_slice()).as_slice());
    let bits = string_of(lowered(m.bits.as_slice()).as_slice());
    let pending = st.pending.take();
    match pending {
        Some(p) => {
            attach_trap(&mut st.events, p, pc.clone(), privilege);
        },
        None => {},
    }
    let ghost evs = events_view(st.events@);
    let mut writes = parse_writes(m.tail.as_slice());
    let has_disassembly = m.tail.len() > 0 && writes.len() == 0;
    assert(writes@.len() == state_writes(m@.tail).len());
    let n = st.events.len();
    let merge = n > 0 && st.events[n - 1].pc == pc && match &st.events[n - 1].instruction_bytes {
        Some(b) => *b == bits,
        None => false,
    };
    if merge {
        let mut last = st.events.pop().unwrap();
        let ghost lv = last@;
        let ghost added = writes_view(writes@);
        last.privilege = privilege;
        last.writes.append(&mut writes);
        assert(writes_view(last.writes@) =~= lv.writes + added);
        if has_disassembly {
            last.instruction = string_of(m.tail.as_slice());
        }
        st.events.push(last);
        assert(events_view(st.events@) =~= evs.update(
            evs.len() - 1,
            TraceEventModel {
                privilege,
                writes: lv.writes + added,
                instruction: if has_disassembly {
                    m@.tail
                } else {
                    lv.instruction
                },
                ..lv
            },
        ));
    } else {
        let hart = match parse_unsigned_exec(m.hart.as_slice(), 10, 0xffff_ffff) {
            Some(v) => Some(v as u32),
            None => None,
        };
        let instruction = if has_disassembly {
            string_of(m.tail.as_slice())
        } else {
            String::from_str("unknown")
        };
        let ev = TraceEvent {
            sequence: n as u64,
            hart,
            pc,
            instruction,
            instruction_bytes: Some(bits),
            privilege,
            symbol: None,
            source: None,
            writes,
            trap: None,
        };
        st.events.push(ev);
        assert(events_view(st.events@) =~= evs.push(ev@));
    }
    st.current = privilege;
}

fn line_step_exec(st: &mut LogReader, l: &[char])
    ensures
        final(st)@ == line_step(old(st)@, l@),
{
    match exception_line_exec(l) {
        Some((name, epc)) => {
            let p = PendingTrap {
                name: string_of(trap_name_chars(name.as_slice()).as_slice()),
                epc: string_of(lowered(epc.as_slice()).as_slice()),
                tval: None,
                from_privilege: st.current,
            };
            st.pending = Some(p);
            return;
        },
        None => {},
    }
    match tval_line_exec(l) {
        Some(tv) => {
            let taken = st.pending.take();
            match taken {
                Some(p) => {
                    let q = PendingTrap {
                        name: p.name,
                        epc: p.epc,
                        tval: Some(string_of(lowered(tv.as_slice()).as_slice())),
                        from_privilege: p.from_privilege,
                    };
                    st.pending = Some(q);
                },
                None => {},
            }
            return;
        },
        None => {},
    }
    match instruction_line_exec(l) {
        Some(m) => instruction_step_exec(st, m),
        None => {},
    }
}

/// Why running Spike produced no trace.
#[derive(Debug, Clone, PartialEq, Eq)]
pub enum SpikeError {
    /// The temporary log or output files could not be created or read.
    TemporaryFile { message: String },
    /// The Spike executable could not be started.
    Spawn { path: String, message: String },
    /// Spike ran longer than the configured timeout and was killed.
    Timeout { seconds: u64 },
    /// Spike's log held no instruction or trap.
    EmptyTrace { stderr: String },
}

/// `parse_spike_log`: normalizes a Spike `-l --log-commits` log into `echorv.trace.v1`.
/// `input` names what the log was recorded from.
pub fn parse_spike_log(contents: &str, isa: &str, input: &str) -> (r: Result<
    TraceDocument,
    SpikeError,
>)
    ensures
        r matches Ok(doc) && doc@ == spike_trace(contents@, isa@, input@),
{
    let text = chars_of(contents);
    let mut st = LogReader { events: Vec::new(), pending: None, current: Privilege::M };
    assert(events_view(st.events@) =~= Seq::empty());
    let mut i: usize = 0;
    loop
        invariant_except_break
            i <= text@.len(),
            read_lines(text@, 0, initial_state()) == read_lines(text@, i as int, st@),
        ensures
            read_lines(text@, 0, initial_state()) == st@,
        decreases text@.len() - i,
    {
        let j = scan_run(text.as_slice(), i, CharClass::NotNewline);
        let piece = copy_range(text.as_slice(), i, j);
        let line = trimmed(piece.as_slice());
        line_step_exec(&mut st, line.as_slice());
        if j >= text.len() {
            break;
        }
        i = j + 1;
    }
    let ghost fin = st@;
    match st.pending.take() {
        Some(p) => {
            attach_trap(&mut st.events, p, String::from_str("unknown"), st.current);
        },
        None => {},
    }
    let ghost evs = events_view(st.events@);
    let mut events = st.events;
    let mut k: usize = 0;
    while k < events.len()
        invariant
            k <= events@.len(),
            events@.len() == evs.len(),
            forall|m: int|
                0 <= m < k ==> #[trigger] events_view(events@)[m] == (TraceEventModel {
                    sequence: m as u64,
                    ..evs[m]
                }),
            forall|m: int| k <= m < evs.len() ==> #[trigger] events_view(events@)[m] == evs[m],
        decreases events@.len() - k,
    {
        let ghost before = events@;
        assert(events_view(events@)[k as int] == evs[k as int]);
        events[k].sequence = k as u64;
        assert(events@[k as int]@ == (TraceEventModel { sequence: k as u64, ..evs[k as int] }));
        assert forall|m: int| 0 <= m < events@.len() && m != k implies events@[m] == before[m] by {}
        assert forall|m: int| 0 <= m < events@.len() && m != k implies #[trigger] events_view(
            events@,
        )[m] == events_view(before)[m] by {}
        k = k + 1;
    }
    assert(events_view(events@) =~= finished_events(fin));
    let isa_chars = lowered(chars_of(isa).as_slice());
    let rv32 = vec!['r', 'v', '3', '2'];
    let xlen: u16 = if match_at(isa_chars.as_slice(), 0, rv32.as_slice()) {
        32
    } else {
        64
    };
    let provenance = Provenance {
        backend: Some(String::from_str("spike")),
        backend_version: None,
        input: Some(String::from_str(input)),
        command: Vec::new(),
        notes: Vec::new(),
    };
    assert(strs(provenance.command@) =~= Seq::empty());
    assert(strs(provenance.notes@) =~= Seq::empty());
    let doc = TraceDocument {
        schema: String::from_str("echorv.trace.v1"),
        target: Target {
            architecture: String::from_str("risc-v"),
            xlen,
            isa: string_of(isa_chars.as_slice()),
            platform: Some(String::from_str("spike")),
        },
        provenance,
        events,
    };
    assert(rv32@ =~= seq!['r', 'v', '3', '2']);
    Ok(doc)
}

/// How to run Spike.
#[derive(Debug, Clone)]
pub struct SpikeRunOptions {
    /// The Spike executable.
    pub spike: String,
    /// The ISA string passed to Spike.
    pub isa: String,
    /// How long Spike may run, in milliseconds.
    pub timeout_millis: u64,
    /// Arguments passed to Spike before the ELF path.
    pub extra_args: Vec<String>,
}

impl Default for SpikeRunOptions {
    fn default() -> (r: Self)
        ensures
            r.spike@ == "spike"@,
            r.isa@ == "rv64imac_zicsr"@,
            r.timeout_millis == 10_000,
            r.extra_args@.len() == 0,
    {
        SpikeRunOptions {
            spike: String::from_str("spike"),
            isa: String::from_str("rv64imac_zicsr"),
            timeout_millis: 10_000,
            extra_args: Vec::new(),
        }
    }
}

/// The model of a [`SpikeError`].
pub enum SpikeErrorModel {
    TemporaryFile { message: Seq<char> },
    Spawn { path: Seq<char>, message: Seq<char> },
    Timeout { seconds: u64 },
    EmptyTrace { stderr: Seq<char> },
}

impl View for SpikeError {
    type V = SpikeErrorModel;

    open spec fn view(&self) -> SpikeErrorModel {
        match self {
            SpikeError::TemporaryFile { message } => SpikeErrorModel::TemporaryFile {
                message: message@,
            },
            SpikeError::Spawn { path, message } => SpikeErrorModel::Spawn {
                path: path@,
                message: message@,
            },
            SpikeError::Timeout { seconds } => SpikeErrorModel::Timeout { seconds: *seconds },
            SpikeError::EmptyTrace { stderr } => SpikeErrorModel::EmptyTrace { stderr: stderr@ },
        }
    }
}

/// The arguments of a Spike run, without the executable: the ISA, commit logging into
/// `log_path`, the extra arguments, and the ELF.
pub open spec fn spike_arguments(
    isa: Seq<char>,
    log_path: Seq<char>,
    extra: Seq<Seq<char>>,
    elf: Seq<char>,
) -> Seq<Seq<char>> {
    seq!["--isa="@ + isa, "-l"@, "--log-commits"@, "--log="@ + log_path] + extra + seq![elf]
}

/// The arguments that `run_spike` passes to Spike.
pub fn spike_command_args(options: &SpikeRunOptions, log_path: &str, elf: &str) -> (r: Vec<String>)
    ensures
        strs(r@) == spike_arguments(options.isa@, log_path@, strs(options.extra_args@), elf@),
{
    let mut args: Vec<String> = Vec::new();
    let mut isa = String::from_str("--isa=");
    isa.append(options.isa.as_str());
    args.push(isa);
    args.push(String::from_str("-l"));
    args.push(String::from_str("--log-commits"));
    let mut log = String::from_str("--log=");
    log.append(log_path);
    args.push(log);
    let ghost head = strs(args@);
    let mut i: usize = 0;
    while i < options.extra_args.len()
        invariant
            i <= options.extra_args@.len(),
            strs(args@) == head + strs(options.extra_args@).take(i as int),
        decreases options.extra_args@.len() - i,
    {
        let ghost before = strs(args@);
        let a = options.extra_args[i].clone();
        args.push(a);
        assert(strs(args@) =~= before.push(a@));
        assert(strs(options.extra_args@).take(i + 1) =~= strs(options.extra_args@).take(i as int).push(
            a@,
        ));
        i = i + 1;
    }
    assert(strs(options.extra_args@).take(options.extra_args@.len() as int) =~= strs(
        options.extra_args@,
    ));
    let ghost before = strs(args@);
    let e = String::from_str(elf);
    args.push(e);
    assert(strs(args@) =~= before.push(e@));
    assert(strs(args@) =~= spike_arguments(options.isa@, log_path@, strs(options.extra_args@), elf@));
    args
}

/// The note recorded when Spike exits unsuccessfully but leaves a trace.
pub open spec fn exit_note(status: Seq<char>) -> Seq<char> {
    "Spike exited with "@ + status + "; evidence was retained because a trace was produced"@
}

/// The note recorded when Spike writes to its error stream.
pub open spec fn stderr_note() -> Seq<char> {
    "Spike wrote diagnostic output to stderr"@
}

/// `run_spike` once Spike has exited: the parsed log with the version, the command line and
/// notes on the exit status and error stream, or `EmptyTrace` where the log held no event.
pub open spec fn spike_run_result(
    log: Seq<char>,
    isa: Seq<char>,
    elf: Seq<char>,
    spike: Seq<char>,
    args: Seq<Seq<char>>,
    version: Option<Seq<char>>,
    success: bool,
    status: Seq<char>,
    stderr: Seq<char>,
) -> Result<TraceDocumentModel, SpikeErrorModel> {
    let t = spike_trace(log, isa, elf);
    let n1: Seq<Seq<char>> = if success {
        Seq::empty()
    } else {
        seq![exit_note(status)]
    };
    let n2: Seq<Seq<char>> = if trim(stderr).len() == 0 {
        Seq::empty()
    } else {
        seq![stderr_note()]
    };
    if t.events.len() == 0 {
        Err(SpikeErrorModel::EmptyTrace { stderr: trim(stderr) })
    } else {
        Ok(
            TraceDocumentModel {
                provenance: ProvenanceModel {
                    backend_version: version,
                    command: seq![spike] + args,
                    notes: t.provenance.notes + n1 + n2,
                    ..t.provenance
                },
                ..t
            },
        )
    }
}

/// The view of a run result.
pub open spec fn run_result(r: Result<TraceDocument, SpikeError>) -> Result<
    TraceDocumentModel,
    SpikeErrorModel,
> {
    match r {
        Ok(t) => Ok(t@),
        Err(e) => Err(e@),
    }
}

/// `run_spike` once Spike has exited: parses the commit log, records the Spike version and
/// command line, and notes an unsuccessful exit and any error output. `exit_status` is the
/// text of the exit status; `elf` names the executed file.
pub fn complete_spike_run(
    log_contents: &str,
    options: &SpikeRunOptions,
    elf: &str,
    command_args: Vec<String>,
    version: Option<String>,
    exit_success: bool,
    exit_status: &str,
    stderr_contents: &str,
) -> (r: Result<TraceDocument, SpikeError>)
    ensures
        run_result(r) == spike_run_result(
            log_contents@,
            options.isa@,
            elf@,
            options.spike@,
            strs(command_args@),
            opt_str(version),
            exit_success,
            exit_status@,
            stderr_contents@,
        ),
{
    let mut trace = match parse_spike_log(log_contents, options.isa.as_str(), elf) {
        Ok(t) => t,
        Err(e) => {
            return Err(e);
        },
    };
    let ghost t0 = trace@;
    trace.provenance.backend_version = version;
    let mut command: Vec<String> = Vec::new();
    command.push(options.spike.clone());
    let mut args = command_args;
    let ghost a0 = strs(args@);
    command.append(&mut args);
    assert(strs(command@) =~= seq![options.spike@] + a0);
    trace.provenance.command = command;
    if !exit_success {
        let mut note = String::from_str("Spike exited with ");
        note.append(exit_status);
        note.append("; evidence was retained because a trace was produced");
        let ghost before = strs(trace.provenance.notes@);
        trace.provenance.notes.push(note);
        assert(strs(trace.provenance.notes@) =~= before.push(note@));
    }
    let err_chars = trimmed(chars_of(stderr_contents).as_slice());
    if err_chars.len() > 0 {
        let ghost before = strs(trace.provenance.notes@);
        let note = String::from_str("Spike wrote diagnostic output to stderr");
        trace.provenance.notes.push(note);
        assert(strs(trace.provenance.notes@) =~= before.push(note@));
    }
    if trace.events.len() == 0 {
        return Err(SpikeError::EmptyTrace { stderr: string_of(err_chars.as_slice()) });
    }
    proof {
        let n1: Seq<Seq<char>> = if exit_success {
            Seq::empty()
        } else {
            seq![exit_note(exit_status@)]
        };
        let n2: Seq<Seq<char>> = if err_chars@.len() == 0 {
            Seq::empty()
        } else {
            seq![stderr_note()]
        };
        assert(strs(trace.provenance.notes@) =~= t0.provenance.notes + n1 + n2);
    }
    Ok(trace)
}

/// The error of a run that Spike did not finish within its timeout.
pub fn timeout_error(options: &SpikeRunOptions) -> (r: SpikeError)
    ensures
        r@ == (SpikeErrorModel::Timeout { seconds: options.timeout_millis / 1000 }),
{
    SpikeError::Timeout { seconds: options.timeout_millis / 1000 }
}

/// What `String::from_utf8_lossy` makes of a byte string.
pub uninterp spec fn lossy_text(bytes: Seq<u8>) -> Seq<char>;

/// `String::from_utf8_lossy`: decodes UTF-8, replacing invalid sequences with U+FFFD. The
/// contract names the result, a function of the bytes, and states that valid UTF-8 is decoded
/// as it is; what an invalid sequence becomes is left unsaid.
#[verifier::external_body]
fn decode_lossy(bytes: &[u8]) -> (r: String)
    ensures
        r@ == lossy_text(bytes@),
        vstd::utf8::valid_utf8(bytes@) ==> r@ == vstd::utf8::decode_utf8(bytes@),
{
    String::from_utf8_lossy(bytes).into_owned()
}

/// The first line of `s`, from index `i` on, that is not blank once trimmed, trimmed.
pub open spec fn first_text_line(s: Seq<char>, i: int) -> Option<Seq<char>>
    decreases s.len() - i,
{
    if i < 0 || i > s.len() {
        None
    } else {
        let j = run_end(s, i, CharClass::NotNewline);
        let line = trim(s.subrange(i, j));
        if line.len() > 0 {
            Some(line)
        } else if j >= s.len() {
            None
        } else {
            proof {
                lemma_run_end(s, i, CharClass::NotNewline);
            }
            first_text_line(s, j + 1)
        }
    }
}

/// `spike_version` once `spike --version` has run: the first non-blank line of its standard
/// output, or of its error output where the standard output is empty.
pub open spec fn version_line(stdout: Seq<u8>, stderr: Seq<u8>) -> Option<Seq<char>> {
    let text = if stdout.len() == 0 {
        lossy_text(stderr)
    } else {
        lossy_text(stdout)
    };
    first_text_line(text, 0)
}

/// `spike_version` once its output is decoded: the first line of `text` that is not blank,
/// trimmed.
pub fn first_version_line(text: &str) -> (r: Option<String>)
    ensures
        opt_str(r) == first_text_line(text@, 0),
{
    let s = chars_of(text);
    let mut i: usize = 0;
    loop
        invariant
            i <= s@.len(),
            s@ == text@,
            first_text_line(text@, 0) == first_text_line(s@, i as int),
        decreases s@.len() - i,
    {
        let j = scan_run(s.as_slice(), i, CharClass::NotNewline);
        let piece = copy_range(s.as_slice(), i, j);
        let line = trimmed(piece.as_slice());
        if line.len() > 0 {
            return Some(string_of(line.as_slice()));
        }
        if j >= s.len() {
            return None;
        }
        i = j + 1;
    }
}

/// `spike_version` once `spike --version` has run: decodes the standard output, or the error
/// output where the standard output is empty, and takes its first non-blank line.
pub fn spike_version_from_output(stdout: &[u8], stderr: &[u8]) -> (r: Option<String>)
    ensures
        opt_str(r) == version_line(stdout@, stderr@),
        ({
            let out = if stdout@.len() == 0 {
                stderr@
            } else {
                stdout@
            };
            vstd::utf8::valid_utf8(out) ==> opt_str(r) == first_text_line(
                vstd::utf8::decode_utf8(out),
                0,
            )
        }),
{
    let text = if stdout.len() == 0 {
        decode_lossy(stderr)
    } else {
        decode_lossy(stdout)
    };
    first_version_line(text.as_str())
}

/// Whether a trace event's trap, if any, records the exception code of its name and whether it
/// was delegated below M-mode.
pub open spec fn trap_derived(e: TraceEventModel) -> bool {
    e.trap matches Some(t) ==> (t.cause == trap_cause_of(t.name) && t.delegated == Some(
        t.to_privilege != Privilege::M,
    ))
}

/// Whether every trap of a list of events is derived from its name and handler privilege.
pub open spec fn traps_derived(events: Seq<TraceEventModel>) -> bool {
    forall|i: int| 0 <= i < events.len() ==> trap_derived(#[trigger] events[i])
}

proof fn lemma_attach_derived(
    events: Seq<TraceEventModel>,
    p: PendingTrapModel,
    target_pc: Seq<char>,
    to: Privilege,
)
    requires
        traps_derived(events),
    ensures
        traps_derived(attach(events, p, target_pc, to)),
{
    let r = attach(events, p, target_pc, to);
    lemma_last_with_pc_range(events, p.epc, events.len() as int);
    assert forall|i: int| 0 <= i < r.len() implies trap_derived(#[trigger] r[i]) by {
        if i < events.len() {
            match last_with_pc(events, p.epc, events.len() as int) {
                Some(k) => {
                    if i != k {
                        assert(r[i] == events[i]);
                    }
                },
                None => {
                    assert(r[i] == events[i]);
                },
            }
        }
    }
}

proof fn lemma_line_step_derived(st: LogState, l: Seq<char>)
    requires
        traps_derived(st.events),
    ensures
        traps_derived(line_step(st, l).events),
{
    if exception_line(l) is None && tval_line(l) is None {
        match instruction_line(l) {
            Some(m) => {
                let privilege = match m.privilege {
                    Some(c) => privilege_code(seq![c]),
                    None => st.current,
                };
                let pc = lower(m.pc);
                let evs = match st.pending {
                    Some(p) => attach(st.events, p, pc, privilege),
                    None => st.events,
                };
                match st.pending {
                    Some(p) => lemma_attach_derived(st.events, p, pc, privilege),
                    None => {},
                }
                let r = instruction_step(st, m).events;
                assert forall|i: int| 0 <= i < r.len() implies trap_derived(#[trigger] r[i]) by {
                    if i < evs.len() {
                        if i != evs.len() - 1 {
                            assert(r[i] == evs[i]);
                        } else {
                            assert(r[i].trap == evs[i].trap);
                        }
                    }
                }
            },
            None => {},
        }
    }
}

proof fn lemma_read_lines_derived(s: Seq<char>, i: int, st: LogState)
    requires
        traps_derived(st.events),
    ensures
        traps_derived(read_lines(s, i, st).events),
    decreases s.len() - i,
{
    if 0 <= i <= s.len() {
        let j = run_end(s, i, CharClass::NotNewline);
        lemma_run_end(s, i, CharClass::NotNewline);
        lemma_line_step_derived(st, trim(s.subrange(i, j)));
        if j < s.len() {
            lemma_read_lines_derived(s, j + 1, line_step(st, trim(s.subrange(i, j))));
        }
    }
}

/// Trap records are derived consistently: in every trace imported from a Spike log, each trap
/// carries the RISC-V exception code of its normalized name (`u64::MAX` for an unknown name)
/// and is marked delegated exactly when its handler runs below M-mode.
pub proof fn law_imported_traps_derived(contents: Seq<char>, isa: Seq<char>, input: Seq<char>)
    ensures
        traps_derived(spike_trace(contents, isa, input).events),
{
    let st = read_lines(contents, 0, initial_state());
    lemma_read_lines_derived(contents, 0, initial_state());
    let evs = match st.pending {
        Some(p) => attach(st.events, p, "unknown"@, st.current),
        None => st.events,
    };
    match st.pending {
        Some(p) => lemma_attach_derived(st.events, p, "unknown"@, st.current),
        None => {},
    }
    let fin = finished_events(st);
    assert forall|i: int| 0 <= i < fin.len() implies trap_derived(#[trigger] fin[i]) by {
        assert(fin[i].trap == evs[i].trap);
    }
}

/// Imported events are numbered by position: the event at position `i` of an imported trace
/// has sequence number `i`.
pub proof fn law_imported_events_numbered(contents: Seq<char>, isa: Seq<char>, input: Seq<char>)
    requires
        spike_trace(contents, isa, input).events.len() <= u64::MAX,
    ensures
        forall|i: int|
            0 <= i < spike_trace(contents, isa, input).events.len() ==> (#[trigger] spike_trace(
                contents,
                isa,
                input,
            ).events[i]).sequence == i,
{
}

/// Whether a trimmed line is none of a commit record, an exception line and a TVAL line, so
/// that reading it changes nothing.
pub open spec fn unrelated_line(l: Seq<char>) -> bool {
    exception_line(l) is None && tval_line(l) is None && instruction_line(l) is None
}

proof fn lemma_run_end_at(t: Seq<char>, k: int, c: CharClass, f: int)
    requires
        0 <= k <= f <= t.len(),
        forall|m: int| k <= m < f ==> in_class(c, #[trigger] t[m]),
        f == t.len() || !in_class(c, t[f]),
    ensures
        run_end(t, k, c) == f,
    decreases f - k,
{
    if k < f {
        lemma_run_end_at(t, k + 1, c, f);
    }
}

proof fn lemma_read_lines_suffix(s: Seq<char>, i: int, t: Seq<char>, k: int, st: LogState)
    requires
        0 <= i <= s.len(),
        0 <= k <= t.len(),
        s.subrange(i, s.len() as int) == t.subrange(k, t.len() as int),
    ensures
        read_lines(s, i, st) == read_lines(t, k, st),
    decreases s.len() - i,
{
    let c = CharClass::NotNewline;
    let u = s.subrange(i, s.len() as int);
    let v = t.subrange(k, t.len() as int);
    assert(u.len() == v.len());
    assert(u.len() == s.len() - i);
    assert(v.len() == t.len() - k);
    assert forall|d: int| 0 <= d < s.len() - i implies #[trigger] s[i + d] == t[k + d] by {
        assert(u[d] == s[i + d]);
        assert(v[d] == t[k + d]);
    }
    lemma_run_end(s, i, c);
    let j = run_end(s, i, c);
    let f = k + (j - i);
    assert forall|m: int| k <= m < f implies in_class(c, #[trigger] t[m]) by {
        assert(s[i + (m - k)] == t[k + (m - k)]);
    }
    if j < s.len() {
        assert(s[i + (j - i)] == t[k + (j - i)]);
    }
    lemma_run_end_at(t, k, c, f);
    assert(s.subrange(i, j) =~= t.subrange(k, f)) by {
        assert forall|m: int| 0 <= m < j - i implies #[trigger] s.subrange(i, j)[m] == t.subrange(
            k,
            f,
        )[m] by {
            assert(s[i + m] == t[k + m]);
        }
    }
    let next = line_step(st, trim(s.subrange(i, j)));
    if j < s.len() {
        assert(s.subrange(j + 1, s.len() as int) =~= t.subrange(f + 1, t.len() as int)) by {
            assert forall|m: int| 0 <= m < s.len() - (j + 1) implies #[trigger] s.subrange(
                j + 1,
                s.len() as int,
            )[m] == t.subrange(f + 1, t.len() as int)[m] by {
                assert(s[i + (j + 1 - i + m)] == t[k + (j + 1 - i + m)]);
            }
        }
        lemma_read_lines_suffix(s, j + 1, t, f + 1, next);
    }
}

/// The text of a list of lines joined by line breaks; the last line has none.
pub open spec fn joined_lines(ls: Seq<Seq<char>>) -> Seq<char>
    decreases ls.len(),
{
    if ls.len() == 0 {
        Seq::empty()
    } else if ls.len() == 1 {
        ls[0]
    } else {
        ls[0] + seq!['\n'] + joined_lines(ls.drop_first())
    }
}

/// Whether a line holds no line break.
pub open spec fn single_line(l: Seq<char>) -> bool {
    forall|m: int| 0 <= m < l.len() ==> #[trigger] l[m] != '\n'
}

/// The reader state after the lines of a list, each trimmed, in order.
pub open spec fn step_lines(ls: Seq<Seq<char>>, st: LogState) -> LogState
    decreases ls.len(),
{
    if ls.len() == 0 {
        st
    } else {
        step_lines(ls.drop_first(), line_step(st, trim(ls[0])))
    }
}

/// The lines of `ls` whose entry in `keep` is true, in order.
pub open spec fn kept_lines(ls: Seq<Seq<char>>, keep: Seq<bool>) -> Seq<Seq<char>>
    decreases ls.len(),
{
    if ls.len() == 0 || keep.len() == 0 {
        Seq::empty()
    } else {
        let rest = kept_lines(ls.drop_first(), keep.drop_first());
        if keep[0] {
            seq![ls[0]] + rest
        } else {
            rest
        }
    }
}

/// Whether line `i` of a log says nothing: it is unrelated to the grammar, or it is a TVAL
/// line that no exception line comes before.
pub open spec fn silent_line(ls: Seq<Seq<char>>, i: int) -> bool {
    ||| unrelated_line(trim(ls[i]))
    ||| {
        &&& exception_line(trim(ls[i])) is None
        &&& tval_line(trim(ls[i])) is Some
        &&& forall|k: int| 0 <= k < i ==> exception_line(#[trigger] trim(ls[k])) is None
    }
}

/// Whether a left-out line is a TVAL line rather than one unrelated to the grammar.
pub open spec fn loud_removal(ls: Seq<Seq<char>>, keep: Seq<bool>) -> bool {
    exists|i: int| 0 <= i < ls.len() && !keep[i] && !unrelated_line(#[trigger] trim(ls[i]))
}

proof fn lemma_empty_line_ignored(st: LogState)
    ensures
        line_step(st, trim(Seq::<char>::empty())) == st,
{
    let e = Seq::<char>::empty();
    assert(trim(e) =~= e);
    assert(!starts_with(e, lit_core()));
}

proof fn lemma_joined_lines_read(ls: Seq<Seq<char>>, st: LogState)
    requires
        forall|i: int| 0 <= i < ls.len() ==> single_line(#[trigger] ls[i]),
    ensures
        read_lines(joined_lines(ls), 0, st) == step_lines(ls, st),
    decreases ls.len(),
{
    let c = CharClass::NotNewline;
    let t = joined_lines(ls);
    if ls.len() == 0 {
        assert(t.len() == 0);
        assert(run_end(t, 0, c) == 0);
        assert(t.subrange(0, 0) =~= Seq::<char>::empty());
        lemma_empty_line_ignored(st);
        assert(read_lines(t, 0, st) == st);
    } else {
        let l0 = ls[0];
        assert(single_line(l0));
        let f = l0.len() as int;
        let next = line_step(st, trim(l0));
        if ls.len() == 1 {
            assert(t == l0);
            lemma_run_end_at(t, 0, c, f);
            assert(t.subrange(0, f) =~= l0);
            assert(ls.drop_first().len() == 0);
            assert(step_lines(ls, st) == step_lines(ls.drop_first(), next));
            assert(read_lines(t, 0, st) == next);
        } else {
            let rest = ls.drop_first();
            let u = joined_lines(rest);
            assert(t == l0 + seq!['\n'] + u);
            assert forall|m: int| 0 <= m < f implies in_class(c, #[trigger] t[m]) by {
                assert(t[m] == l0[m]);
            }
            assert(t[f] == '\n');
            lemma_run_end_at(t, 0, c, f);
            assert(t.subrange(0, f) =~= l0);
            assert(t.subrange(f + 1, t.len() as int) =~= u.subrange(0, u.len() as int));
            lemma_read_lines_suffix(t, f + 1, u, 0, next);
            assert forall|i: int| 0 <= i < rest.len() implies single_line(#[trigger] rest[i]) by {
                assert(rest[i] == ls[i + 1]);
            }
            lemma_joined_lines_read(rest, next);
        }
    }
}

proof fn lemma_kept_single(ls: Seq<Seq<char>>, keep: Seq<bool>)
    requires
        forall|i: int| 0 <= i < ls.len() ==> single_line(#[trigger] ls[i]),
    ensures
        forall|j: int|
            0 <= j < kept_lines(ls, keep).len() ==> single_line(#[trigger] kept_lines(ls, keep)[j]),
    decreases ls.len(),
{
    if ls.len() > 0 && keep.len() > 0 {
        let rest = ls.drop_first();
        assert forall|i: int| 0 <= i < rest.len() implies single_line(#[trigger] rest[i]) by {
            assert(rest[i] == ls[i + 1]);
        }
        lemma_kept_single(rest, keep.drop_first());
        let k = kept_lines(ls, keep);
        let kr = kept_lines(rest, keep.drop_first());
        assert forall|j: int| 0 <= j < k.len() implies single_line(#[trigger] k[j]) by {
            if keep[0] {
                if j == 0 {
                    assert(k[0] == ls[0]);
                } else {
                    assert(k[j] == kr[j - 1]);
                }
            } else {
                assert(k[j] == kr[j]);
            }
        }
    }
}

proof fn lemma_step_silent_lines(ls: Seq<Seq<char>>, keep: Seq<bool>, st: LogState)
    requires
        keep.len() == ls.len(),
        forall|i: int| 0 <= i < ls.len() && !keep[i] ==> #[trigger] silent_line(ls, i),
        loud_removal(ls, keep) ==> st.pending is None,
    ensures
        step_lines(ls, st) == step_lines(kept_lines(ls, keep), st),
    decreases ls.len(),
{
    if ls.len() > 0 {
        let l0 = ls[0];
        let next = line_step(st, trim(l0));
        let rest = ls.drop_first();
        let kr = keep.drop_first();
        assert forall|i: int| 0 <= i < rest.len() && !kr[i] implies #[trigger] silent_line(
            rest,
            i,
        ) by {
            assert(rest[i] == ls[i + 1]);
            assert(silent_line(ls, i + 1));
            if !unrelated_line(trim(ls[i + 1])) {
                assert forall|k: int| 0 <= k < i implies exception_line(#[trigger] trim(rest[k]))
                    is None by {
                    assert(rest[k] == ls[k + 1]);
                    assert(exception_line(trim(ls[k + 1])) is None);
                }
            }
        }
        if loud_removal(rest, kr) {
            let i = choose|i: int|
                0 <= i < rest.len() && !kr[i] && !unrelated_line(#[trigger] trim(rest[i]));
            assert(rest[i] == ls[i + 1]);
            assert(!keep[i + 1]);
            assert(silent_line(ls, i + 1));
            assert(loud_removal(ls, keep));
            assert(exception_line(trim(ls[0])) is None);
            assert(next.pending is None);
        }
        lemma_step_silent_lines(rest, kr, next);
        if keep[0] {
            let k = kept_lines(rest, kr);
            assert((seq![l0] + k).drop_first() =~= k);
            assert((seq![l0] + k)[0] == l0);
        } else {
            assert(silent_line(ls, 0));
            assert(next == st);
        }
    }
}

/// Lines that say nothing can be added anywhere: where the lines of a log that `keep` leaves
/// out are each unrelated to the log grammar, or a TVAL line with no exception line before it,
/// the log imports as the log of the kept lines alone.
pub proof fn law_silent_lines_ignored(
    ls: Seq<Seq<char>>,
    keep: Seq<bool>,
    isa: Seq<char>,
    input: Seq<char>,
)
    requires
        keep.len() == ls.len(),
        forall|i: int| 0 <= i < ls.len() ==> single_line(#[trigger] ls[i]),
        forall|i: int| 0 <= i < ls.len() && !keep[i] ==> #[trigger] silent_line(ls, i),
    ensures
        spike_trace(joined_lines(ls), isa, input) == spike_trace(
            joined_lines(kept_lines(ls, keep)),
            isa,
            input,
        ),
{
    lemma_kept_single(ls, keep);
    lemma_joined_lines_read(ls, initial_state());
    lemma_joined_lines_read(kept_lines(ls, keep), initial_state());
    lemma_step_silent_lines(ls, keep, initial_state());
}

proof fn lemma_last_with_pc_is_last(events: Seq<TraceEventModel>, pc: Seq<char>, n: int)
    requires
        n <= events.len(),
    ensures
        last_with_pc(events, pc, n) matches Some(k) ==> 0 <= k < n && events[k].pc == pc && forall|
            j: int,
        | k < j < n ==> #[trigger] events[j].pc != pc,
        last_with_pc(events, pc, n) is None ==> forall|j: int| 0 <= j < n ==> #[trigger] events[j].pc
            != pc,
    decreases n,
{
    if n > 0 {
        lemma_last_with_pc_is_last(events, pc, n - 1);
    }
}

/// A trap whose EPC is the PC of a committed instruction belongs to the last execution of that
/// instruction: attaching it marks the latest event at that PC, no later event has that PC, and
/// every other event stays as it was. A trap whose EPC no event has becomes a new last event at
/// the EPC.
pub proof fn law_trap_attaches_to_last_execution(
    events: Seq<TraceEventModel>,
    p: PendingTrapModel,
    target_pc: Seq<char>,
    to: Privilege,
)
    ensures
        ({
            let r = attach(events, p, target_pc, to);
            (exists|i: int| 0 <= i < events.len() && #[trigger] events[i].pc == p.epc) ==> {
                &&& r.len() == events.len()
                &&& exists|k: int|
                    0 <= k < events.len() && #[trigger] events[k].pc == p.epc && (forall|j: int|
                        k < j < events.len() ==> events[j].pc != p.epc) && r[k].trap == Some(
                        trap_of(p, target_pc, to),
                    ) && r[k].pc == events[k].pc && r[k].sequence == events[k].sequence
                        && r[k].writes == events[k].writes && r[k].instruction
                        == events[k].instruction && forall|j: int|
                        0 <= j < events.len() && j != k ==> r[j] == events[j]
            }
        }),
        ({
            let r = attach(events, p, target_pc, to);
            (forall|i: int| 0 <= i < events.len() ==> #[trigger] events[i].pc != p.epc) ==> {
                &&& r.len() == events.len() + 1
                &&& r.drop_last() == events
                &&& r.last().pc == p.epc
                &&& r.last().trap == Some(trap_of(p, target_pc, to))
            }
        }),
{
    let n = events.len() as int;
    lemma_last_with_pc_is_last(events, p.epc, n);
    let r = attach(events, p, target_pc, to);
    match last_with_pc(events, p.epc, n) {
        Some(k) => {
            assert(events[k].pc == p.epc);
            assert forall|j: int| 0 <= j < events.len() && j != k implies r[j] == events[j] by {}
        },
        None => {
            if exists|i: int| 0 <= i < events.len() && #[trigger] events[i].pc == p.epc {
                let i = choose|i: int| 0 <= i < events.len() && #[trigger] events[i].pc == p.epc;
                assert(events[i].pc != p.epc);
            }
            assert(r.drop_last() =~= events);
        },
    }
}

proof fn lemma_last_with_pc_range(events: Seq<TraceEventModel>, pc: Seq<char>, n: int)
    ensures
        last_with_pc(events, pc, n) matches Some(k) ==> 0 <= k < n && events[k].pc == pc,
    decreases n,
{
    if n > 0 && events[n - 1].pc != pc {
        lemma_last_with_pc_range(events, pc, n - 1);
    }
}

} // verus!
