//! Character classes, string scanning and number rendering shared by the parsers and renderers.

use vstd::prelude::*;

verus! {

/// Unicode `White_Space`: the class that both `str::trim` and the `\s` class of the log grammar use.
pub open spec fn is_space(c: char) -> bool {
    let v = c as u32;
    ||| 0x9 <= v <= 0xd
    ||| v == 0x20
    ||| v == 0x85
    ||| v == 0xa0
    ||| v == 0x1680
    ||| 0x2000 <= v <= 0x200a
    ||| v == 0x2028
    ||| v == 0x2029
    ||| v == 0x202f
    ||| v == 0x205f
    ||| v == 0x3000
}

/// Whether `c` is Unicode white space.
pub fn space_char(c: char) -> (r: bool)
    ensures
        r == is_space(c),
{
    let v = c as u32;
    (0x9 <= v && v <= 0xd) || v == 0x20 || v == 0x85 || v == 0xa0 || v == 0x1680 || (0x2000 <= v
        && v <= 0x200a) || v == 0x2028 || v == 0x2029 || v == 0x202f || v == 0x205f || v == 0x3000
}

/// Whether `lo <= v <= hi`.
#[verifier::allow_in_spec]
pub fn in_span(v: u32, lo: u32, hi: u32) -> bool
    returns
        lo <= v && v <= hi,
{
    lo <= v && v <= hi
}

/// Unicode `Decimal_Number` (general category Nd, Unicode 16.0): the `\d` class of the log grammar.
pub open spec fn is_unicode_digit(c: char) -> bool {
    let v = c as u32;
    ||| in_span(v, 0x30, 0x39)
    ||| in_span(v, 0x660, 0x669)
    ||| in_span(v, 0x6f0, 0x6f9)
    ||| in_span(v, 0x7c0, 0x7c9)
    ||| in_span(v, 0x966, 0x96f)
    ||| in_span(v, 0x9e6, 0x9ef)
    ||| in_span(v, 0xa66, 0xa6f)
    ||| in_span(v, 0xae6, 0xaef)
    ||| in_span(v, 0xb66, 0xb6f)
    ||| in_span(v, 0xbe6, 0xbef)
    ||| in_span(v, 0xc66, 0xc6f)
    ||| in_span(v, 0xce6, 0xcef)
    ||| in_span(v, 0xd66, 0xd6f)
    ||| in_span(v, 0xde6, 0xdef)
    ||| in_span(v, 0xe50, 0xe59)
    ||| in_span(v, 0xed0, 0xed9)
    ||| in_span(v, 0xf20, 0xf29)
    ||| in_span(v, 0x1040, 0x1049)
    ||| in_span(v, 0x1090, 0x1099)
    ||| in_span(v, 0x17e0, 0x17e9)
    ||| in_span(v, 0x1810, 0x1819)
    ||| in_span(v, 0x1946, 0x194f)
    ||| in_span(v, 0x19d0, 0x19d9)
    ||| in_span(v, 0x1a80, 0x1a89)
    ||| in_span(v, 0x1a90, 0x1a99)
    ||| in_span(v, 0x1b50, 0x1b59)
    ||| in_span(v, 0x1bb0, 0x1bb9)
    ||| in_span(v, 0x1c40, 0x1c49)
    ||| in_span(v, 0x1c50, 0x1c59)
    ||| in_span(v, 0xa620, 0xa629)
    ||| in_span(v, 0xa8d0, 0xa8d9)
    ||| in_span(v, 0xa900, 0xa909)
    ||| in_span(v, 0xa9d0, 0xa9d9)
    ||| in_span(v, 0xa9f0, 0xa9f9)
    ||| in_span(v, 0xaa50, 0xaa59)
    ||| in_span(v, 0xabf0, 0xabf9)
    ||| in_span(v, 0xff10, 0xff19)
    ||| in_span(v, 0x104a0, 0x104a9)
    ||| in_span(v, 0x10d30, 0x10d39)
    ||| in_span(v, 0x10d40, 0x10d49)
    ||| in_span(v, 0x11066, 0x1106f)
    ||| in_span(v, 0x110f0, 0x110f9)
    ||| in_span(v, 0x11136, 0x1113f)
    ||| in_span(v, 0x111d0, 0x111d9)
    ||| in_span(v, 0x112f0, 0x112f9)
    ||| in_span(v, 0x11450, 0x11459)
    ||| in_span(v, 0x114d0, 0x114d9)
    ||| in_span(v, 0x11650, 0x11659)
    ||| in_span(v, 0x116c0, 0x116c9)
    ||| in_span(v, 0x116d0, 0x116e3)
    ||| in_span(v, 0x11730, 0x11739)
    ||| in_span(v, 0x118e0, 0x118e9)
    ||| in_span(v, 0x11950, 0x11959)
    ||| in_span(v, 0x11bf0, 0x11bf9)
    ||| in_span(v, 0x11c50, 0x11c59)
    ||| in_span(v, 0x11d50, 0x11d59)
    ||| in_span(v, 0x11da0, 0x11da9)
    ||| in_span(v, 0x11f50, 0x11f59)
    ||| in_span(v, 0x16130, 0x16139)
    ||| in_span(v, 0x16a60, 0x16a69)
    ||| in_span(v, 0x16ac0, 0x16ac9)
    ||| in_span(v, 0x16b50, 0x16b59)
    ||| in_span(v, 0x16d70, 0x16d79)
    ||| in_span(v, 0x1ccf0, 0x1ccf9)
    ||| in_span(v, 0x1d7ce, 0x1d7ff)
    ||| in_span(v, 0x1e140, 0x1e149)
    ||| in_span(v, 0x1e2f0, 0x1e2f9)
    ||| in_span(v, 0x1e4f0, 0x1e4f9)
    ||| in_span(v, 0x1e5f1, 0x1e5fa)
    ||| in_span(v, 0x1e950, 0x1e959)
    ||| in_span(v, 0x1fbf0, 0x1fbf9)
}

/// Whether `c` is a Unicode decimal digit.
pub fn unicode_digit_char(c: char) -> (r: bool)
    ensures
        r == is_unicode_digit(c),
{
    let v = c as u32;
        in_span(v, 0x30, 0x39) || in_span(v, 0x660, 0x669) || in_span(v, 0x6f0, 0x6f9) ||
        in_span(v, 0x7c0, 0x7c9) || in_span(v, 0x966, 0x96f) || in_span(v, 0x9e6, 0x9ef) ||
        in_span(v, 0xa66, 0xa6f) || in_span(v, 0xae6, 0xaef) || in_span(v, 0xb66, 0xb6f) ||
        in_span(v, 0xbe6, 0xbef) || in_span(v, 0xc66, 0xc6f) || in_span(v, 0xce6, 0xcef) ||
        in_span(v, 0xd66, 0xd6f) || in_span(v, 0xde6, 0xdef) || in_span(v, 0xe50, 0xe59) ||
        in_span(v, 0xed0, 0xed9) || in_span(v, 0xf20, 0xf29) || in_span(v, 0x1040, 0x1049) ||
        in_span(v, 0x1090, 0x1099) || in_span(v, 0x17e0, 0x17e9) || in_span(v, 0x1810, 0x1819) ||
        in_span(v, 0x1946, 0x194f) || in_span(v, 0x19d0, 0x19d9) || in_span(v, 0x1a80, 0x1a89) ||
        in_span(v, 0x1a90, 0x1a99) || in_span(v, 0x1b50, 0x1b59) || in_span(v, 0x1bb0, 0x1bb9) ||
        in_span(v, 0x1c40, 0x1c49) || in_span(v, 0x1c50, 0x1c59) || in_span(v, 0xa620, 0xa629) ||
        in_span(v, 0xa8d0, 0xa8d9) || in_span(v, 0xa900, 0xa909) || in_span(v, 0xa9d0, 0xa9d9) ||
        in_span(v, 0xa9f0, 0xa9f9) || in_span(v, 0xaa50, 0xaa59) || in_span(v, 0xabf0, 0xabf9) ||
        in_span(v, 0xff10, 0xff19) || in_span(v, 0x104a0, 0x104a9) || in_span(v, 0x10d30, 0x10d39) ||
        in_span(v, 0x10d40, 0x10d49) || in_span(v, 0x11066, 0x1106f) || in_span(v, 0x110f0, 0x110f9) ||
        in_span(v, 0x11136, 0x1113f) || in_span(v, 0x111d0, 0x111d9) || in_span(v, 0x112f0, 0x112f9) ||
        in_span(v, 0x11450, 0x11459) || in_span(v, 0x114d0, 0x114d9) || in_span(v, 0x11650, 0x11659) ||
        in_span(v, 0x116c0, 0x116c9) || in_span(v, 0x116d0, 0x116e3) || in_span(v, 0x11730, 0x11739) ||
        in_span(v, 0x118e0, 0x118e9) || in_span(v, 0x11950, 0x11959) || in_span(v, 0x11bf0, 0x11bf9) ||
        in_span(v, 0x11c50, 0x11c59) || in_span(v, 0x11d50, 0x11d59) || in_span(v, 0x11da0, 0x11da9) ||
        in_span(v, 0x11f50, 0x11f59) || in_span(v, 0x16130, 0x16139) || in_span(v, 0x16a60, 0x16a69) ||
        in_span(v, 0x16ac0, 0x16ac9) || in_span(v, 0x16b50, 0x16b59) || in_span(v, 0x16d70, 0x16d79) ||
        in_span(v, 0x1ccf0, 0x1ccf9) || in_span(v, 0x1d7ce, 0x1d7ff) || in_span(v, 0x1e140, 0x1e149) ||
        in_span(v, 0x1e2f0, 0x1e2f9) || in_span(v, 0x1e4f0, 0x1e4f9) || in_span(v, 0x1e5f1, 0x1e5fa) ||
        in_span(v, 0x1e950, 0x1e959) || in_span(v, 0x1fbf0, 0x1fbf9)
}

/// The characters of a string slice, in order.
pub fn chars_of(s: &str) -> (r: Vec<char>)
    ensures
        r@ == s@,
{
    let mut out: Vec<char> = Vec::new();
    for c in it: s.chars()
        invariant
            out@ == it.seq().take(it.index() as int),
            it.seq() == s@,
    {
        out.push(c);
    }
    out
}

/// ASCII hexadecimal digit in either case.
pub open spec fn is_hex_digit(c: char) -> bool {
    ||| '0' <= c <= '9'
    ||| 'a' <= c <= 'f'
    ||| 'A' <= c <= 'F'
}

/// `[A-Za-z0-9_]`.
pub open spec fn is_ident_char(c: char) -> bool {
    ||| 'a' <= c <= 'z'
    ||| 'A' <= c <= 'Z'
    ||| '0' <= c <= '9'
    ||| c == '_'
}

/// The classes of characters that the log grammar scans runs of.
#[derive(Clone, Copy, PartialEq, Eq, Structural)]
pub enum CharClass {
    Space,
    Digit,
    Hex,
    Ident,
    NotComma,
    NotNewline,
}

/// Membership of `c` in class `k`.
pub open spec fn in_class(k: CharClass, c: char) -> bool {
    match k {
        CharClass::Space => is_space(c),
        CharClass::Digit => is_unicode_digit(c),
        CharClass::Hex => is_hex_digit(c),
        CharClass::Ident => is_ident_char(c),
        CharClass::NotComma => c != ',',
        CharClass::NotNewline => c != '\n',
    }
}

/// Whether `c` belongs to class `k`.
pub fn class_char(k: CharClass, c: char) -> (r: bool)
    ensures
        r == in_class(k, c),
{
    match k {
        CharClass::Space => space_char(c),
        CharClass::Digit => unicode_digit_char(c),
        CharClass::Hex => ('0' <= c && c <= '9') || ('a' <= c && c <= 'f') || ('A' <= c && c <= 'F'),
        CharClass::Ident => ('a' <= c && c <= 'z') || ('A' <= c && c <= 'Z') || ('0' <= c && c
            <= '9') || c == '_',
        CharClass::NotComma => c != ',',
        CharClass::NotNewline => c != '\n',
    }
}

/// The end of the longest run of class-`k` characters of `s` that starts at `i`.
pub open spec fn run_end(s: Seq<char>, i: int, k: CharClass) -> int
    decreases s.len() - i,
{
    if 0 <= i < s.len() && in_class(k, s[i]) {
        run_end(s, i + 1, k)
    } else {
        i
    }
}

/// A run ends where the class stops, and everything it covers is in the class.
pub proof fn lemma_run_end(s: Seq<char>, i: int, k: CharClass)
    requires
        0 <= i <= s.len(),
    ensures
        i <= run_end(s, i, k) <= s.len(),
        forall|j: int| i <= j < run_end(s, i, k) ==> in_class(k, #[trigger] s[j]),
        run_end(s, i, k) == s.len() || !in_class(k, s[run_end(s, i, k)]),
    decreases s.len() - i,
{
    if i < s.len() && in_class(k, s[i]) {
        lemma_run_end(s, i + 1, k);
    }
}

/// The index where the run of class `k` starting at `i` ends.
pub fn scan_run(s: &[char], i: usize, k: CharClass) -> (r: usize)
    requires
        i <= s@.len(),
    ensures
        r == run_end(s@, i as int, k),
        i <= r <= s@.len(),
        r <= s.len(),
{
    proof {
        lemma_run_end(s@, i as int, k);
    }
    let mut j = i;
    while j < s.len() && class_char(k, s[j])
        invariant
            i <= j <= s@.len(),
            run_end(s@, i as int, k) == run_end(s@, j as int, k),
        decreases s@.len() - j,
    {
        j = j + 1;
    }
    j
}

/// Whether `p` occurs in `s` at index `i`.
pub open spec fn occurs_at(s: Seq<char>, i: int, p: Seq<char>) -> bool {
    0 <= i && i + p.len() <= s.len() && s.subrange(i, i + p.len()) == p
}

/// Whether `s` begins with `p`.
pub open spec fn starts_with(s: Seq<char>, p: Seq<char>) -> bool {
    occurs_at(s, 0, p)
}

/// Whether `p` occurs in `s` at index `i`.
pub fn match_at(s: &[char], i: usize, p: &[char]) -> (r: bool)
    ensures
        r == occurs_at(s@, i as int, p@),
        r ==> i + p@.len() <= s.len(),
{
    if i > s.len() || p.len() > s.len() - i {
        return false;
    }
    let mut j: usize = 0;
    while j < p.len()
        invariant
            i + p@.len() <= s@.len(),
            j <= p@.len(),
            forall|m: int| 0 <= m < j ==> s@[i + m] == p@[m],
        decreases p@.len() - j,
    {
        assert(i + j < s.len());
        if s[i + j] != p[j] {
            assert(s@.subrange(i as int, i + p@.len())[j as int] != p@[j as int]);
            return false;
        }
        j = j + 1;
    }
    assert(s@.subrange(i as int, i + p@.len()) =~= p@);
    true
}

/// The end of `s` once trailing white space is dropped from its first `j` characters.
pub open spec fn trim_end_index(s: Seq<char>, j: int) -> int
    decreases j,
{
    if 0 < j <= s.len() && is_space(s[j - 1]) {
        trim_end_index(s, j - 1)
    } else {
        j
    }
}

/// `str::trim`: `s` without leading and trailing white space.
pub open spec fn trim(s: Seq<char>) -> Seq<char> {
    let a = run_end(s, 0, CharClass::Space);
    let b = trim_end_index(s, s.len() as int);
    if a < b {
        s.subrange(a, b)
    } else {
        Seq::empty()
    }
}

proof fn lemma_trim_end_index(s: Seq<char>, j: int)
    requires
        0 <= j <= s.len(),
    ensures
        0 <= trim_end_index(s, j) <= j,
        forall|m: int| trim_end_index(s, j) <= m < j ==> is_space(#[trigger] s[m]),
        trim_end_index(s, j) == 0 || !is_space(s[trim_end_index(s, j) - 1]),
    decreases j,
{
    if 0 < j && is_space(s[j - 1]) {
        lemma_trim_end_index(s, j - 1);
    }
}

/// The characters `s[a..b]`.
pub fn copy_range(s: &[char], a: usize, b: usize) -> (r: Vec<char>)
    requires
        a <= b <= s@.len(),
    ensures
        r@ == s@.subrange(a as int, b as int),
{
    let mut out: Vec<char> = Vec::new();
    let mut i = a;
    while i < b
        invariant
            a <= i <= b <= s@.len(),
            out@ == s@.subrange(a as int, i as int),
        decreases b - i,
    {
        out.push(s[i]);
        i = i + 1;
        assert(out@ =~= s@.subrange(a as int, i as int));
    }
    out
}

/// `s` without leading and trailing white space.
pub fn trimmed(s: &[char]) -> (r: Vec<char>)
    ensures
        r@ == trim(s@),
{
    let a = scan_run(s, 0, CharClass::Space);
    let mut b = s.len();
    while b > 0 && space_char(s[b - 1])
        invariant
            b <= s@.len(),
            trim_end_index(s@, s@.len() as int) == trim_end_index(s@, b as int),
        decreases b,
    {
        b = b - 1;
    }
    if a < b {
        copy_range(s, a, b)
    } else {
        Vec::new()
    }
}

/// `char::to_ascii_lowercase`.
pub open spec fn lower_char(c: char) -> char {
    if 'A' <= c <= 'Z' {
        ((c as u32) + 32) as char
    } else {
        c
    }
}

/// `str::to_ascii_lowercase`.
pub open spec fn lower(s: Seq<char>) -> Seq<char> {
    s.map_values(|c: char| lower_char(c))
}

/// The ASCII lower-case form of `c`.
pub fn lower_char_exec(c: char) -> (r: char)
    ensures
        r == lower_char(c),
{
    if 'A' <= c && c <= 'Z' {
        ((c as u8) + 32) as char
    } else {
        c
    }
}

/// The ASCII lower-case form of `s`.
pub fn lowered(s: &[char]) -> (r: Vec<char>)
    ensures
        r@ == lower(s@),
{
    let mut out: Vec<char> = Vec::new();
    let mut i: usize = 0;
    while i < s.len()
        invariant
            i <= s@.len(),
            out@ == lower(s@.subrange(0, i as int)),
        decreases s@.len() - i,
    {
        out.push(lower_char_exec(s[i]));
        i = i + 1;
        assert(out@ =~= lower(s@.subrange(0, i as int)));
    }
    assert(s@.subrange(0, s@.len() as int) =~= s@);
    out
}

/// Whether two character sequences are equal.
pub fn chars_equal(a: &[char], b: &[char]) -> (r: bool)
    ensures
        r == (a@ == b@),
{
    if a.len() != b.len() {
        return false;
    }
    let r = match_at(a, 0, b);
    proof {
        if r {
            assert(a@.subrange(0, b@.len() as int) =~= a@);
        } else {
            assert(a@.subrange(0, b@.len() as int) =~= a@);
        }
    }
    r
}

/// `String::push`: appends the character `c` to `s`.
#[verifier::external_body]
pub(crate) fn push_char(s: &mut String, c: char)
    ensures
        final(s)@ == old(s)@.push(c),
{
    s.push(c)
}

/// Appends the characters of `t` to `s`.
pub fn push_chars(s: &mut String, t: &[char])
    ensures
        final(s)@ == old(s)@ + t@,
{
    let mut i: usize = 0;
    while i < t.len()
        invariant
            i <= t@.len(),
            s@ == old(s)@ + t@.subrange(0, i as int),
        decreases t@.len() - i,
    {
        push_char(s, t[i]);
        i = i + 1;
        assert(s@ =~= old(s)@ + t@.subrange(0, i as int));
    }
    assert(t@.subrange(0, t@.len() as int) =~= t@);
}

/// A `String` holding the characters of `t`.
pub fn string_of(t: &[char]) -> (r: String)
    ensures
        r@ == t@,
{
    let mut s = String::new();
    push_chars(&mut s, t);
    assert(s@ =~= t@);
    s
}

/// The digit of value `d` (below 16) in lower-case hexadecimal notation.
pub open spec fn digit_char(d: nat) -> char {
    if d < 10 {
        ((d + 0x30) as u32) as char
    } else {
        ((d + 0x57) as u32) as char
    }
}

/// The value of a hexadecimal digit character (for a non-digit, 16).
pub open spec fn digit_value(c: char) -> nat {
    if '0' <= c <= '9' {
        (c as u32 - 0x30) as nat
    } else if 'a' <= c <= 'f' {
        (c as u32 - 0x57) as nat
    } else if 'A' <= c <= 'F' {
        (c as u32 - 0x37) as nat
    } else {
        16
    }
}

/// The digits of `n` in base `base` (2 to 16), most significant first, without leading zeros.
pub open spec fn radix_digits(n: nat, base: nat) -> Seq<char>
    decreases n,
{
    if base < 2 || n < base {
        seq![digit_char(n)]
    } else {
        proof {
            vstd::arithmetic::div_mod::lemma_div_decreases(n as int, base as int);
        }
        radix_digits(n / base, base).push(digit_char(n % base))
    }
}

/// `format!("{}", n)`.
pub open spec fn decimal(n: nat) -> Seq<char> {
    radix_digits(n, 10)
}

/// `format!("{:x}", n)`.
pub open spec fn hex_lower(n: nat) -> Seq<char> {
    radix_digits(n, 16)
}

/// `s` padded on the left with zeros to at least `w` characters.
pub open spec fn zero_pad(s: Seq<char>, w: nat) -> Seq<char> {
    if s.len() >= w {
        s
    } else {
        Seq::new((w - s.len()) as nat, |i: int| '0') + s
    }
}

fn digit_exec(d: u64) -> (r: char)
    requires
        d < 16,
    ensures
        r == digit_char(d as nat),
{
    if d < 10 {
        ((d as u8) + 0x30) as char
    } else {
        ((d as u8) + 0x57) as char
    }
}

/// The digits of `n` in base `base`.
pub fn radix_text(n: u64, base: u64) -> (r: Vec<char>)
    requires
        2 <= base <= 16,
    ensures
        r@ == radix_digits(n as nat, base as nat),
    decreases n,
{
    if n < base {
        let mut v: Vec<char> = Vec::new();
        v.push(digit_exec(n));
        assert(v@ =~= seq![digit_char(n as nat)]);
        v
    } else {
        proof {
            vstd::arithmetic::div_mod::lemma_div_decreases(n as int, base as int);
        }
        let mut v = radix_text(n / base, base);
        v.push(digit_exec(n % base));
        v
    }
}

/// Appends the decimal notation of `n` to `s`.
pub fn push_decimal(s: &mut String, n: u64)
    ensures
        final(s)@ == old(s)@ + decimal(n as nat),
{
    let d = radix_text(n, 10);
    push_chars(s, d.as_slice());
}

/// `s` with every leading occurrence of `0x` removed (`str::trim_start_matches("0x")`).
pub open spec fn strip_hex_prefixes(s: Seq<char>) -> Seq<char>
    decreases s.len(),
{
    if s.len() >= 2 && s[0] == '0' && s[1] == 'x' {
        strip_hex_prefixes(s.subrange(2, s.len() as int))
    } else {
        s
    }
}

/// Whether every character of `s` is a digit of base `base`.
pub open spec fn all_digits(s: Seq<char>, base: nat) -> bool {
    forall|i: int| 0 <= i < s.len() ==> #[trigger] digit_value(s[i]) < base
}

/// The value of the digit string `s` in base `base`.
pub open spec fn digits_value(s: Seq<char>, base: nat) -> nat
    decreases s.len(),
{
    if s.len() == 0 {
        0
    } else {
        digits_value(s.drop_last(), base) * base + digit_value(s.last())
    }
}

/// The digits of a number in `from_str_radix` notation: the text without a leading `+`.
pub open spec fn unsigned_body(s: Seq<char>) -> Seq<char> {
    if s.len() > 0 && s[0] == '+' {
        s.drop_first()
    } else {
        s
    }
}

/// `from_str_radix` for an unsigned type whose largest value is `max`: an optional `+`
/// followed by one or more digits of the base, whose value must not exceed `max`.
pub open spec fn parse_unsigned(s: Seq<char>, base: nat, max: nat) -> Option<nat> {
    let body = unsigned_body(s);
    if body.len() > 0 && all_digits(body, base) && digits_value(body, base) <= max {
        Some(digits_value(body, base))
    } else {
        None
    }
}

proof fn lemma_digits_value_grows(s: Seq<char>, base: nat, i: int)
    requires
        0 <= i <= s.len(),
        base >= 1,
    ensures
        digits_value(s.subrange(0, i), base) <= digits_value(s, base),
    decreases s.len() - i,
{
    if i < s.len() {
        lemma_digits_value_grows(s, base, i + 1);
        let t = s.subrange(0, i + 1);
        assert(t.drop_last() =~= s.subrange(0, i));
        let v = digits_value(s.subrange(0, i), base);
        assert(v * base >= v) by (nonlinear_arith)
            requires
                base >= 1,
        ;
    } else {
        assert(s.subrange(0, i) =~= s);
    }
}

fn digit_value_exec(c: char) -> (r: u64)
    ensures
        r == digit_value(c),
{
    if '0' <= c && c <= '9' {
        (c as u64) - 0x30
    } else if 'a' <= c && c <= 'f' {
        (c as u64) - 0x57
    } else if 'A' <= c && c <= 'F' {
        (c as u64) - 0x37
    } else {
        16
    }
}

/// Parses `s` as `from_str_radix` does for an unsigned type whose largest value is `max`.
pub fn parse_unsigned_exec(s: &[char], base: u64, max: u64) -> (r: Option<u64>)
    requires
        2 <= base <= 16,
    ensures
        r matches Some(v) ==> parse_unsigned(s@, base as nat, max as nat) == Some(v as nat),
        r is None ==> parse_unsigned(s@, base as nat, max as nat) is None,
{
    let start: usize = if s.len() > 0 && s[0] == '+' {
        1
    } else {
        0
    };
    let ghost body = unsigned_body(s@);
    assert(body =~= s@.subrange(start as int, s@.len() as int));
    if start >= s.len() {
        return None;
    }
    let mut acc: u128 = 0;
    let mut i = start;
    while i < s.len()
        invariant
            start <= i <= s@.len(),
            body == s@.subrange(start as int, s@.len() as int),
            body == unsigned_body(s@),
            2 <= base <= 16,
            acc <= max,
            acc == digits_value(body.subrange(0, i - start), base as nat),
            all_digits(body.subrange(0, i - start), base as nat),
        decreases s@.len() - i,
    {
        let d = digit_value_exec(s[i]);
        let ghost prefix = body.subrange(0, i + 1 - start);
        assert(prefix.drop_last() =~= body.subrange(0, i - start));
        assert(prefix.last() == s@[i as int]);
        assert(body[i - start] == s@[i as int]);
        if d >= base {
            assert(digit_value(body[i - start]) >= base);
            assert(!all_digits(body, base as nat));
            return None;
        }
        assert(acc * (base as u128) + (d as u128) <= 0xffff_ffff_ffff_ffff * 16 + 15)
            by (nonlinear_arith)
            requires
                acc <= 0xffff_ffff_ffff_ffffu128,
                base <= 16,
                d < 16,
        ;
        acc = acc * (base as u128) + (d as u128);
        assert(acc == digits_value(prefix, base as nat));
        i = i + 1;
        if acc > max as u128 {
            proof {
                lemma_digits_value_grows(body, base as nat, i - start);
            }
            return None;
        }
        assert(all_digits(prefix, base as nat));
    }
    assert(body.subrange(0, i - start) =~= body);
    Some(acc as u64)
}

/// `format!("{n:04}")`-style rendering: decimal, zero-padded to four digits.
pub fn push_padded_decimal(s: &mut String, n: u64, width: usize)
    ensures
        final(s)@ == old(s)@ + zero_pad(decimal(n as nat), width as nat),
{
    let d = radix_text(n, 10);
    if d.len() < width {
        let mut k: usize = d.len();
        let ghost start = s@;
        while k < width
            invariant
                d@.len() <= k <= width,
                s@ == start + Seq::new((k - d@.len()) as nat, |i: int| '0'),
            decreases width - k,
        {
            push_char(s, '0');
            k = k + 1;
            assert(s@ =~= start + Seq::new((k - d@.len()) as nat, |i: int| '0'));
        }
        push_chars(s, d.as_slice());
        assert(s@ =~= start + zero_pad(decimal(n as nat), width as nat));
    } else {
        push_chars(s, d.as_slice());
    }
}

/// The items joined with `sep` between neighbours (`[T]::join`).
pub open spec fn join(items: Seq<Seq<char>>, sep: Seq<char>) -> Seq<char>
    decreases items.len(),
{
    if items.len() == 0 {
        Seq::empty()
    } else if items.len() == 1 {
        items[0]
    } else {
        join(items.drop_last(), sep) + sep + items.last()
    }
}

/// The strings joined with `sep` between neighbours.
pub fn join_strings(items: &Vec<String>, sep: &str) -> (r: String)
    ensures
        r@ == join(items@.map_values(|s: String| s@), sep@),
{
    let ghost v = items@.map_values(|s: String| s@);
    let mut out = String::new();
    let mut i: usize = 0;
    while i < items.len()
        invariant
            i <= items@.len(),
            v == items@.map_values(|s: String| s@),
            out@ == join(v.take(i as int), sep@),
        decreases items@.len() - i,
    {
        assert(v.take(i + 1).drop_last() =~= v.take(i as int));
        if i > 0 {
            out.append(sep);
        }
        out.append(items[i].as_str());
        i = i + 1;
        assert(v.take(i as int).last() == items@[i - 1]@);
        if i == 1 {
            assert(out@ =~= join(v.take(i as int), sep@));
        }
    }
    assert(v.take(items@.len() as int) =~= v);
    out
}

proof fn lemma_digit_char_value(d: nat)
    requires
        d < 16,
    ensures
        digit_value(digit_char(d)) == d,
        digit_char(d) != 'x',
        digit_char(d) != '+',
{
}

/// The digits of `n` in base `base` are digits of that base, read back as `n`, none of them a
/// sign or an `x`.
pub proof fn lemma_radix_digits(n: nat, base: nat)
    requires
        2 <= base <= 16,
    ensures
        radix_digits(n, base).len() > 0,
        all_digits(radix_digits(n, base), base),
        digits_value(radix_digits(n, base), base) == n,
        forall|i: int|
            0 <= i < radix_digits(n, base).len() ==> #[trigger] radix_digits(n, base)[i] != 'x'
                && radix_digits(n, base)[i] != '+',
    decreases n,
{
    let s = radix_digits(n, base);
    if n < base {
        lemma_digit_char_value(n);
        assert(s.drop_last() =~= Seq::<char>::empty());
        assert(digits_value(s, base) == digits_value(s.drop_last(), base) * base + digit_value(
            s.last(),
        ));
        assert(0 * base == 0);
    } else {
        vstd::arithmetic::div_mod::lemma_div_decreases(n as int, base as int);
        lemma_radix_digits(n / base, base);
        let p = radix_digits(n / base, base);
        vstd::arithmetic::div_mod::lemma_fundamental_div_mod(n as int, base as int);
        lemma_digit_char_value(n % base);
        assert(s.drop_last() =~= p);
        assert(digits_value(s, base) == digits_value(p, base) * base + digit_value(s.last()));
        assert((n / base) * base == base * (n / base)) by (nonlinear_arith);
        assert forall|i: int| 0 <= i < s.len() implies #[trigger] digit_value(s[i]) < base by {
            if i < p.len() {
                assert(s[i] == p[i]);
            }
        }
        assert forall|i: int| 0 <= i < s.len() implies #[trigger] s[i] != 'x' && s[i] != '+' by {
            if i < p.len() {
                assert(s[i] == p[i]);
            }
        }
    }
}


/// The join of the first `k` items is a prefix of the join of all, followed by the separator
/// where items remain.
pub proof fn lemma_join_prefix(items: Seq<Seq<char>>, sep: Seq<char>, k: int)
    requires
        1 <= k <= items.len(),
    ensures
        join(items.take(k), sep).len() <= join(items, sep).len(),
        join(items, sep).take(join(items.take(k), sep).len() as int) == join(items.take(k), sep),
        k < items.len() ==> join(items.take(k), sep).len() + sep.len() <= join(items, sep).len()
            && join(items, sep).subrange(
            join(items.take(k), sep).len() as int,
            (join(items.take(k), sep).len() + sep.len()) as int,
        ) == sep,
    decreases items.len(),
{
    let t = join(items, sep);
    let jk = join(items.take(k), sep);
    if k == items.len() {
        assert(items.take(k) =~= items);
        assert(t.take(jk.len() as int) =~= t);
    } else {
        let dl = items.drop_last();
        assert(dl.take(k) =~= items.take(k));
        assert(t == join(dl, sep) + sep + items.last());
        lemma_join_prefix(dl, sep, k);
        let d = join(dl, sep);
        if k == dl.len() {
            assert(dl.take(k) =~= dl);
            assert(t.take(jk.len() as int) =~= jk);
            assert(t.subrange(jk.len() as int, (jk.len() + sep.len()) as int) =~= sep);
        } else {
            assert(t.take(jk.len() as int) =~= d.take(jk.len() as int));
            assert(t.subrange(jk.len() as int, (jk.len() + sep.len()) as int) =~= d.subrange(
                jk.len() as int,
                (jk.len() + sep.len()) as int,
            ));
        }
    }
}

} // verus!
