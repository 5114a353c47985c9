//! RISC-V ELF inspection and the enrichment of traces with symbols and source locations.

use crate::model::{
    events_view, opt_str, strs, ProvenanceModel, SourceLocation, SourceLocationModel, TraceDocument,
    TraceDocumentModel, TraceEventModel, TraceEvent,
};
use crate::text::{
    chars_equal, chars_of, hex_lower, lower, lowered, parse_unsigned, parse_unsigned_exec,
    push_chars, push_decimal, radix_text, string_of, strip_hex_prefixes, decimal,
};
use object::{Object, ObjectSymbol};
use vstd::prelude::*;

verus! {

/// One symbol-table entry of an object file, as plain values.
#[derive(Debug, Clone)]
pub struct ObjectSymbolRecord {
    /// The symbol's name, or `None` where it is not valid UTF-8.
    pub name: Option<String>,
    pub address: u64,
    pub size: u64,
    /// The `Debug` name of the symbol's kind (`Text`, `Data`, ...).
    pub kind: String,
}

/// The model of an [`ObjectSymbolRecord`].
pub struct ObjectSymbolModel {
    pub name: Option<Seq<char>>,
    pub address: u64,
    pub size: u64,
    pub kind: Seq<char>,
}

impl View for ObjectSymbolRecord {
    type V = ObjectSymbolModel;

    open spec fn view(&self) -> ObjectSymbolModel {
        ObjectSymbolModel {
            name: opt_str(self.name),
            address: self.address,
            size: self.size,
            kind: self.kind@,
        }
    }
}

/// What inspection and enrichment read from an object file, as plain values.
#[derive(Debug, Clone)]
pub struct ObjectImage {
    /// The `Debug` name of the object's architecture (`Riscv64`, `Aarch64`, ...).
    pub architecture: String,
    pub entry: u64,
    pub little_endian: bool,
    /// Whether the object has the section that was asked about.
    pub has_probe_section: bool,
    pub segment_count: usize,
    pub symbols: Vec<ObjectSymbolRecord>,
}

/// The model of an [`ObjectImage`].
pub struct ObjectImageModel {
    pub architecture: Seq<char>,
    pub entry: u64,
    pub little_endian: bool,
    pub has_probe_section: bool,
    pub segment_count: usize,
    pub symbols: Seq<ObjectSymbolModel>,
}

impl View for ObjectImage {
    type V = ObjectImageModel;

    open spec fn view(&self) -> ObjectImageModel {
        ObjectImageModel {
            architecture: self.architecture@,
            entry: self.entry,
            little_endian: self.little_endian,
            has_probe_section: self.has_probe_section,
            segment_count: self.segment_count,
            symbols: self.symbols@.map_values(|s: ObjectSymbolRecord| s@),
        }
    }
}

/// What the `object` crate decodes from the bytes of an object file: its image, or the text of
/// its parse error. `probe` names the section whose presence is reported.
pub uninterp spec fn decoded_object(bytes: Seq<u8>, probe: Seq<char>) -> Result<
    ObjectImageModel,
    Seq<char>,
>;

/// The view of a decoding result.
pub open spec fn image_result(r: Result<ObjectImage, String>) -> Result<ObjectImageModel, Seq<char>> {
    match r {
        Ok(img) => Ok(img@),
        Err(m) => Err(m@),
    }
}

/// Decodes an object file with `object::File::parse` and reads, through the `object::Object`
/// and `object::ObjectSymbol` accessors, its architecture, entry point, endianness, segment
/// count, whether `section_by_name(probe)` finds a section, and every entry of `symbols()`
/// (name where `name()` succeeds, address, size, `Debug` name of `kind()`). The contract only
/// names the result: it is a function of the bytes and the section name.
#[verifier::external_body]
fn read_object(bytes: &[u8], probe: &str) -> (r: Result<ObjectImage, String>)
    ensures
        image_result(r) == decoded_object(bytes@, probe@),
{
    let file = object::File::parse(bytes).map_err(|error| error.to_string())?;
    let symbols = file.symbols().map(|s| ObjectSymbolRecord {
        name: s.name().ok().map(str::to_owned),
        address: s.address(),
        size: s.size(),
        kind: format!("{:?}", s.kind()),
    }).collect();
    Ok(ObjectImage {
        architecture: format!("{:?}", file.architecture()),
        entry: file.entry(),
        little_endian: file.is_little_endian(),
        has_probe_section: file.section_by_name(probe).is_some(),
        segment_count: file.segments().count(),
        symbols,
    })
}

/// `hex`: `0x` and the lower-case hexadecimal digits of `value`.
pub open spec fn hex_text(value: u64) -> Seq<char> {
    seq!['0', 'x'] + hex_lower(value as nat)
}

/// `parse_hex`: every leading `0x` removed, then read as a base-16 `u64`.
pub open spec fn hex_value(text: Seq<char>) -> Option<u64> {
    match parse_unsigned(strip_hex_prefixes(text), 16, u64::MAX as nat) {
        Some(v) => Some(v as u64),
        None => None,
    }
}

/// `hex`: renders an address as `0x` followed by lower-case hexadecimal digits.
pub fn hex(value: u64) -> (r: String)
    ensures
        r@ == hex_text(value),
{
    let mut s = String::new();
    crate::text::push_char(&mut s, '0');
    crate::text::push_char(&mut s, 'x');
    let digits = radix_text(value, 16);
    push_chars(&mut s, digits.as_slice());
    assert(s@ =~= hex_text(value));
    s
}

fn strip_hex_prefixes_exec(s: &[char]) -> (r: usize)
    ensures
        r <= s@.len(),
        strip_hex_prefixes(s@) == s@.subrange(r as int, s@.len() as int),
{
    let mut i: usize = 0;
    assert(s@.subrange(0, s@.len() as int) =~= s@);
    while i < s.len() && i + 1 < s.len() && s[i] == '0' && s[i + 1] == 'x'
        invariant
            i <= s@.len(),
            strip_hex_prefixes(s@) == strip_hex_prefixes(s@.subrange(i as int, s@.len() as int)),
        decreases s@.len() - i,
    {
        assert(s@.subrange(i as int, s@.len() as int).subrange(2, s@.len() - i) =~= s@.subrange(
            i + 2,
            s@.len() as int,
        ));
        i = i + 2;
    }
    i
}

/// `parse_hex`: reads a hexadecimal number with any number of leading `0x`.
pub fn parse_hex(value: &str) -> (r: Option<u64>)
    ensures
        r == hex_value(value@),
{
    let v = chars_of(value);
    let start = strip_hex_prefixes_exec(v.as_slice());
    let rest = crate::text::copy_range(v.as_slice(), start, v.len());
    match parse_unsigned_exec(rest.as_slice(), 16, u64::MAX) {
        Some(x) => Some(x),
        None => None,
    }
}

/// The XLEN of an architecture that the `object` crate names, where it is RISC-V.
pub open spec fn riscv_xlen(architecture: Seq<char>) -> Option<u16> {
    if architecture == "Riscv32"@ {
        Some(32)
    } else if architecture == "Riscv64"@ {
        Some(64)
    } else {
        None
    }
}

fn riscv_xlen_exec(architecture: &String) -> (r: Option<u16>)
    ensures
        r == riscv_xlen(architecture@),
{
    let a = chars_of(architecture.as_str());
    if chars_equal(a.as_slice(), chars_of("Riscv32").as_slice()) {
        Some(32)
    } else if chars_equal(a.as_slice(), chars_of("Riscv64").as_slice()) {
        Some(64)
    } else {
        None
    }
}

/// The position at which `stable_order` inserts an element with key `k`: after every element
/// from position `i` on whose key is at most `k`, before the first one whose key is greater.
pub open spec fn insertion_point(keys: Seq<u64>, order: Seq<usize>, k: u64, i: int) -> int
    decreases order.len() - i,
{
    if i < 0 || i >= order.len() {
        order.len() as int
    } else if keys[order[i] as int] > k {
        i
    } else {
        insertion_point(keys, order, k, i + 1)
    }
}

/// The stable ordering by key of the first `n` positions (as `sort_by_key` gives it): each
/// position is inserted after all earlier positions whose key is at most its own.
pub open spec fn stable_order(keys: Seq<u64>, n: nat) -> Seq<usize>
    decreases n,
{
    if n == 0 {
        Seq::empty()
    } else {
        let o = stable_order(keys, (n - 1) as nat);
        o.insert(insertion_point(keys, o, keys[n - 1], 0), (n - 1) as usize)
    }
}

proof fn lemma_insertion_point(keys: Seq<u64>, order: Seq<usize>, k: u64, i: int)
    requires
        0 <= i <= order.len(),
    ensures
        i <= insertion_point(keys, order, k, i) <= order.len(),
        forall|m: int|
            i <= m < insertion_point(keys, order, k, i) ==> keys[#[trigger] order[m] as int] <= k,
        insertion_point(keys, order, k, i) < order.len() ==> keys[order[insertion_point(
            keys,
            order,
            k,
            i,
        )] as int] > k,
    decreases order.len() - i,
{
    if i < order.len() && keys[order[i] as int] <= k {
        lemma_insertion_point(keys, order, k, i + 1);
    }
}

/// The positions `0..n` of `keys` in stable order by key.
fn stable_order_exec(keys: &Vec<u64>) -> (r: Vec<usize>)
    ensures
        r@ == stable_order(keys@, keys@.len()),
        forall|m: int| 0 <= m < r@.len() ==> #[trigger] r@[m] < keys@.len(),
        r@.len() == keys@.len(),
{
    let mut order: Vec<usize> = Vec::new();
    let mut n: usize = 0;
    while n < keys.len()
        invariant
            n <= keys@.len(),
            order@ == stable_order(keys@, n as nat),
            order@.len() == n,
            forall|m: int| 0 <= m < order@.len() ==> #[trigger] order@[m] < n,
        decreases keys@.len() - n,
    {
        let k = keys[n];
        let mut j: usize = 0;
        while j < order.len() && keys[order[j]] <= k
            invariant
                j <= order@.len(),
                forall|m: int| 0 <= m < order@.len() ==> #[trigger] order@[m] < n,
                n < keys@.len(),
                insertion_point(keys@, order@, k, 0) == insertion_point(keys@, order@, k, j as int),
            decreases order@.len() - j,
        {
            j = j + 1;
        }
        let ghost old_order = order@;
        order.insert(j, n);
        proof {
            old_order.insert_ensures(j as int, n);
            assert forall|m: int| 0 <= m < order@.len() implies #[trigger] order@[m] < n + 1 by {
                if m < j {
                    assert(order@[m] == old_order[m]);
                } else if m > j {
                    assert(order@[m] == old_order[m - 1]);
                }
            }
        }
        n = n + 1;
    }
    order
}

/// A symbol as ELF inspection reports it.
#[derive(Debug, Clone)]
pub struct ElfSymbol {
    pub name: String,
    pub address: String,
    pub size: u64,
    pub kind: String,
}

/// The model of an [`ElfSymbol`].
pub struct ElfSymbolModel {
    pub name: Seq<char>,
    pub address: Seq<char>,
    pub size: u64,
    pub kind: Seq<char>,
}

impl View for ElfSymbol {
    type V = ElfSymbolModel;

    open spec fn view(&self) -> ElfSymbolModel {
        ElfSymbolModel { name: self.name@, address: self.address@, size: self.size, kind: self.kind@ }
    }
}

/// The architecture, entry point, layout and symbols of a RISC-V ELF.
#[derive(Debug, Clone)]
pub struct ElfInfo {
    pub path: String,
    pub architecture: String,
    pub xlen: u16,
    pub entry_point: String,
    pub little_endian: bool,
    pub has_dwarf: bool,
    pub loadable_segments: usize,
    pub symbols: Vec<ElfSymbol>,
}

/// The model of an [`ElfInfo`].
pub struct ElfInfoModel {
    pub path: Seq<char>,
    pub architecture: Seq<char>,
    pub xlen: u16,
    pub entry_point: Seq<char>,
    pub little_endian: bool,
    pub has_dwarf: bool,
    pub loadable_segments: usize,
    pub symbols: Seq<ElfSymbolModel>,
}

impl View for ElfInfo {
    type V = ElfInfoModel;

    open spec fn view(&self) -> ElfInfoModel {
        ElfInfoModel {
            path: self.path@,
            architecture: self.architecture@,
            xlen: self.xlen,
            entry_point: self.entry_point@,
            little_endian: self.little_endian,
            has_dwarf: self.has_dwarf,
            loadable_segments: self.loadable_segments,
            symbols: self.symbols@.map_values(|s: ElfSymbol| s@),
        }
    }
}

/// Why an ELF could not be inspected or used for enrichment.
#[derive(Debug, Clone, PartialEq, Eq)]
pub enum ElfInspectError {
    /// The file could not be read.
    Read { path: String, message: String },
    /// The bytes are not an object file that the `object` crate can parse.
    Parse { path: String, message: String },
    /// The object targets another architecture.
    NotRiscV { path: String, architecture: String },
}

/// The model of an [`ElfInspectError`].
pub enum ElfInspectErrorModel {
    Read { path: Seq<char>, message: Seq<char> },
    Parse { path: Seq<char>, message: Seq<char> },
    NotRiscV { path: Seq<char>, architecture: Seq<char> },
}

impl View for ElfInspectError {
    type V = ElfInspectErrorModel;

    open spec fn view(&self) -> ElfInspectErrorModel {
        match self {
            ElfInspectError::Read { path, message } => ElfInspectErrorModel::Read {
                path: path@,
                message: message@,
            },
            ElfInspectError::Parse { path, message } => ElfInspectErrorModel::Parse {
                path: path@,
                message: message@,
            },
            ElfInspectError::NotRiscV { path, architecture } => ElfInspectErrorModel::NotRiscV {
                path: path@,
                architecture: architecture@,
            },
        }
    }
}

/// The name of the section whose presence means that DWARF debug information is present.
pub open spec fn debug_info_section() -> Seq<char> {
    ".debug_info"@
}

/// Whether inspection lists a symbol: a non-zero address and a name.
pub open spec fn listed(s: ObjectSymbolModel) -> bool {
    s.address != 0 && s.name is Some
}

/// The symbols that inspection lists, in symbol-table order.
pub open spec fn listed_symbols(syms: Seq<ObjectSymbolModel>) -> Seq<ObjectSymbolModel>
    decreases syms.len(),
{
    if syms.len() == 0 {
        Seq::empty()
    } else {
        let rest = listed_symbols(syms.drop_last());
        if listed(syms.last()) {
            rest.push(syms.last())
        } else {
            rest
        }
    }
}

/// The addresses of a list of symbols.
pub open spec fn addresses(syms: Seq<ObjectSymbolModel>) -> Seq<u64> {
    syms.map_values(|s: ObjectSymbolModel| s.address)
}

/// A symbol as inspection reports it.
pub open spec fn reported_symbol(s: ObjectSymbolModel) -> ElfSymbolModel {
    ElfSymbolModel {
        name: s.name->0,
        address: hex_text(s.address),
        size: s.size,
        kind: lower(s.kind),
    }
}

/// `inspect_elf` on decoded bytes: the report of a RISC-V object, with its listed symbols in
/// stable address order, or the reason it cannot be inspected.
pub open spec fn elf_report(path: Seq<char>, decoded: Result<ObjectImageModel, Seq<char>>) -> Result<
    ElfInfoModel,
    ElfInspectErrorModel,
> {
    match decoded {
        Err(m) => Err(ElfInspectErrorModel::Parse { path, message: m }),
        Ok(img) => match riscv_xlen(img.architecture) {
            None => Err(ElfInspectErrorModel::NotRiscV { path, architecture: img.architecture }),
            Some(xlen) => {
                let syms = listed_symbols(img.symbols);
                let order = stable_order(addresses(syms), syms.len());
                Ok(
                    ElfInfoModel {
                        path,
                        architecture: "risc-v"@,
                        xlen,
                        entry_point: hex_text(img.entry),
                        little_endian: img.little_endian,
                        has_dwarf: img.has_probe_section,
                        loadable_segments: img.segment_count,
                        symbols: order.map_values(|i: usize| reported_symbol(syms[i as int])),
                    },
                )
            },
        },
    }
}

/// The view of an inspection result.
pub open spec fn info_result(r: Result<ElfInfo, ElfInspectError>) -> Result<ElfInfoModel, ElfInspectErrorModel> {
    match r {
        Ok(i) => Ok(i@),
        Err(e) => Err(e@),
    }
}

fn copy_elf_symbol(s: &ElfSymbol) -> (r: ElfSymbol)
    ensures
        r@ == s@,
{
    ElfSymbol { name: s.name.clone(), address: s.address.clone(), size: s.size, kind: s.kind.clone() }
}

fn reported_symbol_exec(s: &ObjectSymbolRecord) -> (r: ElfSymbol)
    requires
        s.name is Some,
    ensures
        r@ == reported_symbol(s@),
{
    let name = match &s.name {
        Some(n) => n.clone(),
        None => String::new(),
    };
    ElfSymbol {
        name,
        address: hex(s.address),
        size: s.size,
        kind: string_of(lowered(chars_of(s.kind.as_str()).as_slice()).as_slice()),
    }
}

/// `inspect_elf` once the object is decoded: the report of a RISC-V object, or why it cannot
/// be inspected.
pub fn elf_info_from_image(path: &str, decoded: Result<ObjectImage, String>) -> (r: Result<
    ElfInfo,
    ElfInspectError,
>)
    ensures
        info_result(r) == elf_report(path@, image_result(decoded)),
{
    let img = match decoded {
        Err(message) => {
            return Err(ElfInspectError::Parse { path: String::from_str(path), message });
        },
        Ok(img) => img,
    };
    let xlen = match riscv_xlen_exec(&img.architecture) {
        None => {
            return Err(
                ElfInspectError::NotRiscV {
                    path: String::from_str(path),
                    architecture: img.architecture,
                },
            );
        },
        Some(x) => x,
    };
    let ghost syms = img@.symbols;
    let mut reported: Vec<ElfSymbol> = Vec::new();
    let mut keys: Vec<u64> = Vec::new();
    let mut i: usize = 0;
    while i < img.symbols.len()
        invariant
            i <= img.symbols@.len(),
            syms == img@.symbols,
            reported@.map_values(|s: ElfSymbol| s@) == listed_symbols(syms.take(i as int)).map_values(
                |s: ObjectSymbolModel| reported_symbol(s),
            ),
            keys@ == addresses(listed_symbols(syms.take(i as int))),
        decreases img.symbols@.len() - i,
    {
        let s = &img.symbols[i];
        assert(syms.take(i + 1).drop_last() =~= syms.take(i as int));
        assert(syms.take(i + 1).last() == s@);
        if s.address != 0 && s.name.is_some() {
            let ghost prev = listed_symbols(syms.take(i as int));
            let ghost old_rep = reported@.map_values(|s: ElfSymbol| s@);
            let rs = reported_symbol_exec(s);
            reported.push(rs);
            assert(reported@.map_values(|s: ElfSymbol| s@) =~= old_rep.push(rs@));
            keys.push(s.address);
            assert(reported@.map_values(|s: ElfSymbol| s@) =~= prev.push(s@).map_values(
                |s: ObjectSymbolModel| reported_symbol(s),
            ));
            assert(keys@ =~= addresses(prev.push(s@)));
        }
        i = i + 1;
    }
    assert(syms.take(img.symbols@.len() as int) =~= syms);
    let ghost listed_syms = listed_symbols(syms);
    let order = stable_order_exec(&keys);
    let mut symbols: Vec<ElfSymbol> = Vec::new();
    let mut m: usize = 0;
    while m < order.len()
        invariant
            m <= order@.len(),
            order@.len() == keys@.len(),
            keys@.len() == reported@.len(),
            keys@ == addresses(listed_syms),
            forall|k: int| 0 <= k < order@.len() ==> #[trigger] order@[k] < keys@.len(),
            reported@.map_values(|s: ElfSymbol| s@) == listed_syms.map_values(
                |s: ObjectSymbolModel| reported_symbol(s),
            ),
            symbols@.map_values(|s: ElfSymbol| s@) == order@.take(m as int).map_values(
                |j: usize| reported_symbol(listed_syms[j as int]),
            ),
        decreases order@.len() - m,
    {
        let j = order[m];
        assert(order@[m as int] < keys@.len());
        let sym = copy_elf_symbol(&reported[j]);
        assert(sym@ == reported_symbol(listed_syms[j as int])) by {
            assert(reported@.map_values(|s: ElfSymbol| s@)[j as int] == reported@[j as int]@);
        }
        let ghost prev = symbols@.map_values(|s: ElfSymbol| s@);
        symbols.push(sym);
        assert(symbols@.map_values(|s: ElfSymbol| s@) =~= prev.push(sym@));
        assert(order@.take(m + 1) =~= order@.take(m as int).push(j));
        assert(symbols@.map_values(|s: ElfSymbol| s@) =~= order@.take(m + 1).map_values(
            |j: usize| reported_symbol(listed_syms[j as int]),
        ));
        m = m + 1;
    }
    assert(order@.take(order@.len() as int) =~= order@);
    let info = ElfInfo {
        path: String::from_str(path),
        architecture: String::from_str("risc-v"),
        xlen,
        entry_point: hex(img.entry),
        little_endian: img.little_endian,
        has_dwarf: img.has_probe_section,
        loadable_segments: img.segment_count,
        symbols,
    };
    Ok(info)
}

/// `inspect_elf`: decodes the bytes of an object file and reports it, or why it cannot be
/// inspected. `path` names the file the bytes were read from.
pub fn inspect_elf(path: &str, bytes: &[u8]) -> (r: Result<ElfInfo, ElfInspectError>)
    ensures
        info_result(r) == elf_report(path@, decoded_object(bytes@, debug_info_section())),
{
    let decoded = read_object(bytes, ".debug_info");
    elf_info_from_image(path, decoded)
}

/// A text symbol's address range, as enrichment looks symbols up.
#[derive(Debug, Clone)]
pub struct SymbolRange {
    pub name: String,
    pub address: u64,
    pub size: u64,
}

/// The model of a [`SymbolRange`].
pub struct SymbolRangeModel {
    pub name: Seq<char>,
    pub address: u64,
    pub size: u64,
}

impl View for SymbolRange {
    type V = SymbolRangeModel;

    open spec fn view(&self) -> SymbolRangeModel {
        SymbolRangeModel { name: self.name@, address: self.address, size: self.size }
    }
}

/// The view of a list of symbol ranges.
pub open spec fn ranges_view(v: Seq<SymbolRange>) -> Seq<SymbolRangeModel> {
    v.map_values(|r: SymbolRange| r@)
}

/// `u64::saturating_add`.
pub open spec fn saturating_sum(a: u64, b: u64) -> u64 {
    if a + b > u64::MAX {
        u64::MAX
    } else {
        (a + b) as u64
    }
}

/// Whether a symbol covers an address: it starts at or below it, and either has no size or
/// ends above it.
pub open spec fn covers(r: SymbolRangeModel, address: u64) -> bool {
    r.address <= address && (r.size == 0 || address < saturating_sum(r.address, r.size))
}

/// `symbol_for`: the name of the last of the first `n` ranges that covers the address.
pub open spec fn symbol_at(ranges: Seq<SymbolRangeModel>, address: u64, n: int) -> Option<Seq<char>>
    decreases n,
{
    if n <= 0 {
        None
    } else if covers(ranges[n - 1], address) {
        Some(ranges[n - 1].name)
    } else {
        symbol_at(ranges, address, n - 1)
    }
}

/// `symbol_for`: the name of the last symbol that covers `address`, searching from the end.
pub fn symbol_for(symbols: &[SymbolRange], address: u64) -> (r: Option<String>)
    ensures
        opt_str(r) == symbol_at(ranges_view(symbols@), address, symbols@.len() as int),
{
    let ghost rv = ranges_view(symbols@);
    let mut n = symbols.len();
    while n > 0
        invariant
            n <= symbols@.len(),
            rv == ranges_view(symbols@),
            symbol_at(rv, address, symbols@.len() as int) == symbol_at(rv, address, n as int),
        decreases n,
    {
        let s = &symbols[n - 1];
        assert(rv[n - 1] == s@);
        let end = if s.address > u64::MAX - s.size {
            u64::MAX
        } else {
            s.address + s.size
        };
        if s.address <= address && (s.size == 0 || address < end) {
            return Some(s.name.clone());
        }
        n = n - 1;
    }
    None
}

/// Whether enrichment looks a symbol up: a non-zero address, the kind `Text`, and a name.
pub open spec fn is_text_symbol(s: ObjectSymbolModel) -> bool {
    s.address != 0 && s.kind == "Text"@ && s.name is Some
}

/// The text symbols of a symbol table, in table order.
pub open spec fn text_symbols(syms: Seq<ObjectSymbolModel>) -> Seq<ObjectSymbolModel>
    decreases syms.len(),
{
    if syms.len() == 0 {
        Seq::empty()
    } else {
        let rest = text_symbols(syms.drop_last());
        if is_text_symbol(syms.last()) {
            rest.push(syms.last())
        } else {
            rest
        }
    }
}

/// The range of a text symbol.
pub open spec fn range_of(s: ObjectSymbolModel) -> SymbolRangeModel {
    SymbolRangeModel { name: s.name->0, address: s.address, size: s.size }
}

/// The ranges of the text symbols, in stable address order.
pub open spec fn text_ranges(syms: Seq<ObjectSymbolModel>) -> Seq<SymbolRangeModel> {
    let t = text_symbols(syms);
    stable_order(addresses(t), t.len()).map_values(|i: usize| range_of(t[i as int]))
}

/// What a debug-information lookup found for an event's address.
#[derive(Debug, Clone)]
pub enum LocationLookup {
    /// A location; `file` is `None` where the debug information names no file.
    Found { file: Option<String>, line: Option<u32>, column: Option<u32> },
    /// No location covers the address, or no lookup was made.
    Missing,
    /// The lookup failed with this message.
    Failed(String),
}

/// The model of a [`LocationLookup`].
pub enum LocationLookupModel {
    Found { file: Option<Seq<char>>, line: Option<u32>, column: Option<u32> },
    Missing,
    Failed(Seq<char>),
}

impl View for LocationLookup {
    type V = LocationLookupModel;

    open spec fn view(&self) -> LocationLookupModel {
        match self {
            LocationLookup::Found { file, line, column } => LocationLookupModel::Found {
                file: opt_str(*file),
                line: *line,
                column: *column,
            },
            LocationLookup::Missing => LocationLookupModel::Missing,
            LocationLookup::Failed(m) => LocationLookupModel::Failed(m@),
        }
    }
}

/// The lookup of event `i`; `Missing` past the end of the list.
pub open spec fn lookup_at(lookups: Seq<LocationLookup>, i: int) -> LocationLookupModel {
    if 0 <= i < lookups.len() {
        lookups[i]@
    } else {
        LocationLookupModel::Missing
    }
}

/// An event with its symbol and, where debug information gives a file, its source location.
pub open spec fn enriched_event(
    e: TraceEventModel,
    ranges: Seq<SymbolRangeModel>,
    loader: bool,
    lookup: LocationLookupModel,
) -> TraceEventModel {
    match hex_value(e.pc) {
        None => e,
        Some(address) => {
            let with_symbol = TraceEventModel {
                symbol: symbol_at(ranges, address, ranges.len() as int),
                ..e
            };
            if loader {
                match lookup {
                    LocationLookupModel::Found { file: Some(f), line, column } => TraceEventModel {
                        source: Some(SourceLocationModel { file: f, line, column }),
                        ..with_symbol
                    },
                    _ => with_symbol,
                }
            } else {
                with_symbol
            }
        },
    }
}

/// The warning for an event whose PC is not a hexadecimal address.
pub open spec fn pc_warning(pc: Seq<char>) -> Seq<char> {
    "could not parse PC `"@ + pc + "` for ELF enrichment"@
}

/// The warning for a failed debug-information lookup.
pub open spec fn lookup_warning(pc: Seq<char>, message: Seq<char>) -> Seq<char> {
    "DWARF lookup failed for "@ + pc + ": "@ + message
}

/// The warning for debug information that could not be loaded.
pub open spec fn dwarf_warning() -> Seq<char> {
    "DWARF sections were present but could not be loaded"@
}

/// The note for a trace whose XLEN differs from the ELF's.
pub open spec fn xlen_note(trace_xlen: u16, elf_xlen: u16) -> Seq<char> {
    "trace XLEN "@ + decimal(trace_xlen as nat) + " differs from ELF XLEN "@ + decimal(
        elf_xlen as nat,
    )
}

/// The warnings that enriching one event gives.
pub open spec fn event_warnings(e: TraceEventModel, loader: bool, lookup: LocationLookupModel) -> Seq<
    Seq<char>,
> {
    match hex_value(e.pc) {
        None => seq![pc_warning(e.pc)],
        Some(_) => if loader {
            match lookup {
                LocationLookupModel::Failed(m) => seq![lookup_warning(e.pc, m)],
                _ => Seq::empty(),
            }
        } else {
            Seq::empty()
        },
    }
}

/// The warnings that enriching the first `n` events gives, in event order.
pub open spec fn enrich_warnings(
    events: Seq<TraceEventModel>,
    loader: bool,
    lookups: Seq<LocationLookup>,
    n: int,
) -> Seq<Seq<char>>
    decreases n,
{
    if n <= 0 {
        Seq::empty()
    } else {
        enrich_warnings(events, loader, lookups, n - 1) + event_warnings(
            events[n - 1],
            loader,
            lookup_at(lookups, n - 1),
        )
    }
}

/// `enrich_trace` once the object is decoded: the enriched trace and the warnings, or why the
/// ELF cannot be used. `loader` tells whether debug information could be loaded; `lookups[i]`
/// is what it gave for the address of event `i`.
pub open spec fn enrichment(
    trace: TraceDocumentModel,
    path: Seq<char>,
    decoded: Result<ObjectImageModel, Seq<char>>,
    loader: bool,
    lookups: Seq<LocationLookup>,
) -> Result<(TraceDocumentModel, Seq<Seq<char>>), ElfInspectErrorModel> {
    match decoded {
        Err(m) => Err(ElfInspectErrorModel::Parse { path, message: m }),
        Ok(img) => match riscv_xlen(img.architecture) {
            None => Err(ElfInspectErrorModel::NotRiscV { path, architecture: img.architecture }),
            Some(xlen) => {
                let notes = if trace.target.xlen != xlen {
                    trace.provenance.notes.push(xlen_note(trace.target.xlen, xlen))
                } else {
                    trace.provenance.notes
                };
                let ranges = text_ranges(img.symbols);
                let w0: Seq<Seq<char>> = if !loader && img.has_probe_section {
                    seq![dwarf_warning()]
                } else {
                    Seq::empty()
                };
                let warnings = w0 + enrich_warnings(
                    trace.events,
                    loader,
                    lookups,
                    trace.events.len() as int,
                );
                let events = Seq::new(
                    trace.events.len(),
                    |i: int| enriched_event(trace.events[i], ranges, loader, lookup_at(lookups, i)),
                );
                Ok(
                    (
                        TraceDocumentModel {
                            provenance: ProvenanceModel {
                                input: Some(path),
                                notes: notes + warnings,
                                ..trace.provenance
                            },
                            events,
                            ..trace
                        },
                        warnings,
                    ),
                )
            },
        },
    }
}

fn text_ranges_exec(symbols: &Vec<ObjectSymbolRecord>) -> (r: Vec<SymbolRange>)
    ensures
        ranges_view(r@) == text_ranges(symbols@.map_values(|s: ObjectSymbolRecord| s@)),
{
    let ghost syms = symbols@.map_values(|s: ObjectSymbolRecord| s@);
    let text = chars_of("Text");
    let mut found: Vec<SymbolRange> = Vec::new();
    let mut keys: Vec<u64> = Vec::new();
    let mut i: usize = 0;
    while i < symbols.len()
        invariant
            i <= symbols@.len(),
            syms == symbols@.map_values(|s: ObjectSymbolRecord| s@),
            text@ == "Text"@,
            ranges_view(found@) == text_symbols(syms.take(i as int)).map_values(
                |s: ObjectSymbolModel| range_of(s),
            ),
            keys@ == addresses(text_symbols(syms.take(i as int))),
        decreases symbols@.len() - i,
    {
        let s = &symbols[i];
        assert(syms.take(i + 1).drop_last() =~= syms.take(i as int));
        assert(syms.take(i + 1).last() == s@);
        let kind = chars_of(s.kind.as_str());
        if s.address != 0 && chars_equal(kind.as_slice(), text.as_slice()) && s.name.is_some() {
            let ghost prev = text_symbols(syms.take(i as int));
            let ghost old_found = ranges_view(found@);
            let name = match &s.name {
                Some(n) => n.clone(),
                None => String::new(),
            };
            let r = SymbolRange { name, address: s.address, size: s.size };
            found.push(r);
            keys.push(s.address);
            assert(ranges_view(found@) =~= old_found.push(r@));
            assert(ranges_view(found@) =~= prev.push(s@).map_values(
                |s: ObjectSymbolModel| range_of(s),
            ));
            assert(keys@ =~= addresses(prev.push(s@)));
        }
        i = i + 1;
    }
    assert(syms.take(symbols@.len() as int) =~= syms);
    let ghost t = text_symbols(syms);
    let order = stable_order_exec(&keys);
    let mut out: Vec<SymbolRange> = Vec::new();
    let mut m: usize = 0;
    while m < order.len()
        invariant
            m <= order@.len(),
            order@.len() == keys@.len(),
            keys@.len() == found@.len(),
            keys@ == addresses(t),
            order@ == stable_order(keys@, keys@.len()),
            forall|k: int| 0 <= k < order@.len() ==> #[trigger] order@[k] < keys@.len(),
            ranges_view(found@) == t.map_values(|s: ObjectSymbolModel| range_of(s)),
            ranges_view(out@) == order@.take(m as int).map_values(
                |j: usize| range_of(t[j as int]),
            ),
        decreases order@.len() - m,
    {
        let j = order[m];
        assert(order@[m as int] < keys@.len());
        let f = &found[j];
        let r = SymbolRange { name: f.name.clone(), address: f.address, size: f.size };
        assert(r@ == range_of(t[j as int])) by {
            assert(ranges_view(found@)[j as int] == found@[j as int]@);
        }
        let ghost prev = ranges_view(out@);
        out.push(r);
        assert(ranges_view(out@) =~= prev.push(r@));
        assert(order@.take(m + 1) =~= order@.take(m as int).push(j));
        assert(ranges_view(out@) =~= order@.take(m + 1).map_values(
            |j: usize| range_of(t[j as int]),
        ));
        m = m + 1;
    }
    assert(order@.take(order@.len() as int) =~= order@);
    out
}

/// The view of an enrichment outcome, with the trace as it stands afterwards.
pub open spec fn enrich_outcome(r: Result<Vec<String>, ElfInspectError>, doc: TraceDocumentModel) -> Result<
    (TraceDocumentModel, Seq<Seq<char>>),
    ElfInspectErrorModel,
> {
    match r {
        Ok(w) => Ok((doc, strs(w@))),
        Err(e) => Err(e@),
    }
}

/// `enrich_trace` once the object is decoded: gives each event the symbol that covers its PC
/// and, where `lookups` has one, its source location; notes XLEN mismatches and returns the
/// warnings, which are also recorded in the provenance notes. On an error the trace is
/// unchanged.
pub fn enrich_trace_with_image(
    trace: &mut TraceDocument,
    elf_path: &str,
    decoded: Result<ObjectImage, String>,
    loader: bool,
    lookups: &Vec<LocationLookup>,
) -> (r: Result<Vec<String>, ElfInspectError>)
    ensures
        enrich_outcome(r, final(trace)@) == enrichment(
            old(trace)@,
            elf_path@,
            image_result(decoded),
            loader,
            lookups@,
        ),
        r is Err ==> final(trace)@ == old(trace)@,
{
    let ghost t0 = trace@;
    let img = match decoded {
        Err(message) => {
            return Err(ElfInspectError::Parse { path: String::from_str(elf_path), message });
        },
        Ok(img) => img,
    };
    let xlen = match riscv_xlen_exec(&img.architecture) {
        None => {
            return Err(
                ElfInspectError::NotRiscV {
                    path: String::from_str(elf_path),
                    architecture: img.architecture,
                },
            );
        },
        Some(x) => x,
    };
    if trace.target.xlen != xlen {
        let mut note = String::from_str("trace XLEN ");
        push_decimal(&mut note, trace.target.xlen as u64);
        note.append(" differs from ELF XLEN ");
        push_decimal(&mut note, xlen as u64);
        let ghost before = strs(trace.provenance.notes@);
        trace.provenance.notes.push(note);
        assert(strs(trace.provenance.notes@) =~= before.push(note@));
    }
    let ghost notes1 = strs(trace.provenance.notes@);
    let ghost t1 = trace@;
    let ranges = text_ranges_exec(&img.symbols);
    let ghost rv = text_ranges(img@.symbols);
    let mut warnings: Vec<String> = Vec::new();
    if !loader && img.has_probe_section {
        warnings.push(String::from_str("DWARF sections were present but could not be loaded"));
    }
    let ghost w0 = strs(warnings@);
    assert(w0 =~= (if !loader && img@.has_probe_section {
        seq![dwarf_warning()]
    } else {
        Seq::<Seq<char>>::empty()
    }));
    let n = trace.events.len();
    let mut i: usize = 0;
    while i < n
        invariant
            n == trace.events@.len(),
            n == t0.events.len(),
            i <= n,
            ranges_view(ranges@) == rv,
            trace@ == (TraceDocumentModel { events: trace@.events, ..t1 }),
            forall|k: int|
                0 <= k < i ==> #[trigger] trace@.events[k] == enriched_event(
                    t0.events[k],
                    rv,
                    loader,
                    lookup_at(lookups@, k),
                ),
            forall|k: int| i <= k < n ==> #[trigger] trace@.events[k] == t0.events[k],
            strs(warnings@) == w0 + enrich_warnings(t0.events, loader, lookups@, i as int),
        decreases n - i,
    {
        let ghost e0 = t0.events[i as int];
        assert(trace@.events[i as int] == e0);
        let ghost before_events = trace.events@;
        let ghost ev_before = trace@.events;
        let ghost wb = strs(warnings@);
        match parse_hex(trace.events[i].pc.as_str()) {
            None => {
                let mut w = String::from_str("could not parse PC `");
                w.append(trace.events[i].pc.as_str());
                w.append("` for ELF enrichment");
                warnings.push(w);
                assert(strs(warnings@) =~= wb.push(w@));
            },
            Some(address) => {
                let sym = symbol_for(ranges.as_slice(), address);
                trace.events[i].symbol = sym;
                if loader && i < lookups.len() {
                    match &lookups[i] {
                        LocationLookup::Found { file: Some(f), line, column } => {
                            trace.events[i].source = Some(
                                SourceLocation { file: f.clone(), line: *line, column: *column },
                            );
                        },
                        LocationLookup::Failed(m) => {
                            let mut w = String::from_str("DWARF lookup failed for ");
                            w.append(trace.events[i].pc.as_str());
                            w.append(": ");
                            w.append(m.as_str());
                            warnings.push(w);
                            assert(strs(warnings@) =~= wb.push(w@));
                        },
                        _ => {},
                    }
                }
            },
        }
        assert(trace.events@[i as int]@ == enriched_event(
            e0,
            rv,
            loader,
            lookup_at(lookups@, i as int),
        ));
        assert(forall|k: int| 0 <= k < n && k != i ==> trace.events@[k] == before_events[k]);
        let ghost new_e = enriched_event(e0, rv, loader, lookup_at(lookups@, i as int));
        assert(trace@.events =~= ev_before.update(i as int, new_e));
        assert forall|k: int| 0 <= k < i + 1 implies #[trigger] trace@.events[k] == enriched_event(
            t0.events[k],
            rv,
            loader,
            lookup_at(lookups@, k),
        ) by {
            if k < i {
                assert(trace@.events[k] == ev_before[k]);
            }
        }
        assert forall|k: int| i + 1 <= k < n implies #[trigger] trace@.events[k] == t0.events[k] by {
            assert(trace@.events[k] == ev_before[k]);
        }
        assert(strs(warnings@) =~= wb + event_warnings(e0, loader, lookup_at(lookups@, i as int)));
        i = i + 1;
    }
    assert(trace@.events =~= Seq::new(
        t0.events.len(),
        |k: int| enriched_event(t0.events[k], rv, loader, lookup_at(lookups@, k)),
    ));
    trace.provenance.input = Some(String::from_str(elf_path));
    let ghost t2 = trace@;
    let mut j: usize = 0;
    while j < warnings.len()
        invariant
            j <= warnings@.len(),
            strs(trace.provenance.notes@) == notes1 + strs(warnings@).take(j as int),
            trace@ == (TraceDocumentModel {
                provenance: ProvenanceModel {
                    notes: strs(trace.provenance.notes@),
                    ..t2.provenance
                },
                ..t2
            }),
        decreases warnings@.len() - j,
    {
        let ghost before = strs(trace.provenance.notes@);
        let w = warnings[j].clone();
        trace.provenance.notes.push(w);
        assert(strs(trace.provenance.notes@) =~= before.push(w@));
        assert(strs(warnings@).take(j + 1) =~= strs(warnings@).take(j as int).push(w@));
        j = j + 1;
    }
    assert(strs(warnings@).take(warnings@.len() as int) =~= strs(warnings@));
    Ok(warnings)
}

/// `enrich_trace`: decodes the ELF bytes and enriches the trace with them; `elf_path` names the
/// file the bytes were read from, and `loader` and `lookups` are what its debug information gave.
pub fn enrich_trace(
    trace: &mut TraceDocument,
    elf_path: &str,
    bytes: &[u8],
    loader: bool,
    lookups: &Vec<LocationLookup>,
) -> (r: Result<Vec<String>, ElfInspectError>)
    ensures
        enrich_outcome(r, final(trace)@) == enrichment(
            old(trace)@,
            elf_path@,
            decoded_object(bytes@, debug_info_section()),
            loader,
            lookups@,
        ),
        r is Err ==> final(trace)@ == old(trace)@,
{
    let decoded = read_object(bytes, ".debug_info");
    enrich_trace_with_image(trace, elf_path, decoded, loader, lookups)
}

/// Addresses survive rendering: reading back the text that `hex` renders for a value gives the
/// value.
pub proof fn law_hex_roundtrip(value: u64)
    ensures
        hex_value(hex_text(value)) == Some(value),
{
    let d = hex_lower(value as nat);
    crate::text::lemma_radix_digits(value as nat, 16);
    let t = hex_text(value);
    assert(t.subrange(2, t.len() as int) =~= d);
    assert(t[0] == '0' && t[1] == 'x');
    if d.len() >= 2 {
        assert(d[1] != 'x');
    }
    assert(strip_hex_prefixes(d) == d);
    assert(strip_hex_prefixes(t) == d);
    assert(d[0] != '+');
    assert(crate::text::unsigned_body(d) == d);
}

/// Whether `o` lists positions in non-decreasing key order, positions with equal keys in
/// increasing order.
pub open spec fn stably_sorted(keys: Seq<u64>, o: Seq<usize>) -> bool {
    &&& forall|i: int, j: int|
        #![trigger o[i], o[j]]
        0 <= i < j < o.len() ==> keys[o[i] as int] <= keys[o[j] as int]
    &&& forall|i: int, j: int|
        #![trigger o[i], o[j]]
        0 <= i < j < o.len() && keys[o[i] as int] == keys[o[j] as int] ==> o[i] < o[j]
}

/// Whether `o` lists each of the positions `0..n` exactly once.
pub open spec fn permutes(o: Seq<usize>, n: nat) -> bool {
    &&& o.len() == n
    &&& forall|i: int| 0 <= i < o.len() ==> #[trigger] o[i] < n
    &&& forall|i: int, j: int| #![trigger o[i], o[j]] 0 <= i < j < o.len() ==> o[i] != o[j]
}

proof fn lemma_stable_order(keys: Seq<u64>, n: nat)
    requires
        n <= keys.len(),
        keys.len() <= usize::MAX,
    ensures
        stably_sorted(keys, stable_order(keys, n)),
        permutes(stable_order(keys, n), n),
    decreases n,
{
    if n > 0 {
        let m = (n - 1) as nat;
        lemma_stable_order(keys, m);
        let o = stable_order(keys, m);
        let k = keys[m as int];
        let p = insertion_point(keys, o, k, 0);
        lemma_insertion_point(keys, o, k, 0);
        let r = o.insert(p, m as usize);
        o.insert_ensures(p, m as usize);
        assert(r == stable_order(keys, n));
        // Every position at or after the insertion point has a key above `k`.
        assert forall|i: int| p <= i < o.len() implies keys[#[trigger] o[i] as int] > k by {
            if i > p {
                assert(keys[o[p] as int] <= keys[o[i] as int]);
            }
        }
        assert forall|i: int, j: int| #![trigger r[i], r[j]] 0 <= i < j < r.len() implies keys[r[i] as int]
            <= keys[r[j] as int] && (keys[r[i] as int] == keys[r[j] as int] ==> r[i] < r[j])
            && r[i] != r[j] by {
            if j < p {
                assert(r[i] == o[i] && r[j] == o[j]);
            } else if j == p {
                assert(r[i] == o[i]);
                assert(r[j] == m as usize);
                assert(o[i] < m);
                assert(keys[o[i] as int] <= k);
            } else if i < p {
                assert(r[i] == o[i] && r[j] == o[j - 1]);
                assert(keys[o[i] as int] <= k);
            } else if i == p {
                assert(r[j] == o[j - 1]);
                assert(r[i] == m as usize);
                assert(o[j - 1] < m);
                assert(keys[o[j - 1] as int] > k);
            } else {
                assert(r[i] == o[i - 1] && r[j] == o[j - 1]);
                assert(i - 1 < j - 1);
                assert(keys[o[i - 1] as int] <= keys[o[j - 1] as int]);
            }
        }
        assert forall|i: int| 0 <= i < r.len() implies #[trigger] r[i] < n by {
            if i < p {
                assert(r[i] == o[i]);
            } else if i > p {
                assert(r[i] == o[i - 1]);
            }
        }
    }
}

/// Inspection lists symbols in address order, symbols at equal addresses in symbol-table
/// order, each listed symbol exactly once.
pub proof fn law_inspected_symbols_in_address_order(
    path: Seq<char>,
    decoded: Result<ObjectImageModel, Seq<char>>,
)
    requires
        decoded is Ok,
        riscv_xlen(decoded->Ok_0.architecture) is Some,
        decoded->Ok_0.symbols.len() <= usize::MAX,
    ensures
        ({
            let syms = listed_symbols(decoded->Ok_0.symbols);
            let order = stable_order(addresses(syms), syms.len());
            &&& elf_report(path, decoded) matches Ok(info) && info.symbols == order.map_values(
                |i: usize| reported_symbol(syms[i as int]),
            )
            &&& stably_sorted(addresses(syms), order)
            &&& permutes(order, syms.len())
        }),
{
    let syms = listed_symbols(decoded->Ok_0.symbols);
    lemma_listed_len(decoded->Ok_0.symbols);
    lemma_stable_order(addresses(syms), syms.len());
}

/// Enrichment only annotates: a successful enrichment keeps the target and every event, in
/// order, changing nothing of an event but its symbol and source location, and records each
/// warning it returns at the end of the provenance notes.
pub proof fn law_enrichment_only_annotates(
    trace: TraceDocumentModel,
    path: Seq<char>,
    decoded: Result<ObjectImageModel, Seq<char>>,
    loader: bool,
    lookups: Seq<LocationLookup>,
)
    requires
        enrichment(trace, path, decoded, loader, lookups) is Ok,
    ensures
        ({
            let (t, w) = enrichment(trace, path, decoded, loader, lookups)->Ok_0;
            &&& t.schema == trace.schema
            &&& t.target == trace.target
            &&& t.events.len() == trace.events.len()
            &&& forall|i: int|
                0 <= i < t.events.len() ==> (TraceEventModel {
                    symbol: trace.events[i].symbol,
                    source: trace.events[i].source,
                    ..#[trigger] t.events[i]
                }) == trace.events[i]
            &&& t.provenance.notes.len() >= w.len()
            &&& t.provenance.notes.subrange(
                t.provenance.notes.len() - w.len(),
                t.provenance.notes.len() as int,
            ) == w
        }),
{
    let (t, w) = enrichment(trace, path, decoded, loader, lookups)->Ok_0;
    let n = t.provenance.notes;
    assert(n.subrange(n.len() - w.len(), n.len() as int) =~= w);
}

proof fn lemma_listed_len(syms: Seq<ObjectSymbolModel>)
    ensures
        listed_symbols(syms).len() <= syms.len(),
    decreases syms.len(),
{
    if syms.len() > 0 {
        lemma_listed_len(syms.drop_last());
    }
}

} // verus!
