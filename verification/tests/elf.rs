use echorv::elf::{
    elf_info_from_image, enrich_trace_with_image, hex, inspect_elf, parse_hex, symbol_for,
    ElfInspectError, LocationLookup, ObjectImage, ObjectSymbolRecord, SymbolRange,
};
use echorv::model::{Privilege, Provenance, Target, TraceDocument, TraceEvent};

fn elf_header(machine: u16, entry: u64) -> Vec<u8> {
    let mut b = vec![0x7f, b'E', b'L', b'F', 2, 1, 1, 0];
    b.extend_from_slice(&[0; 8]);
    b.extend_from_slice(&2u16.to_le_bytes());
    b.extend_from_slice(&machine.to_le_bytes());
    b.extend_from_slice(&1u32.to_le_bytes());
    b.extend_from_slice(&entry.to_le_bytes());
    b.extend_from_slice(&0u64.to_le_bytes());
    b.extend_from_slice(&0u64.to_le_bytes());
    b.extend_from_slice(&0u32.to_le_bytes());
    b.extend_from_slice(&64u16.to_le_bytes());
    b.extend_from_slice(&56u16.to_le_bytes());
    b.extend_from_slice(&0u16.to_le_bytes());
    b.extend_from_slice(&64u16.to_le_bytes());
    b.extend_from_slice(&0u16.to_le_bytes());
    b.extend_from_slice(&0u16.to_le_bytes());
    b
}

fn symbol(name: Option<&str>, address: u64, size: u64, kind: &str) -> ObjectSymbolRecord {
    ObjectSymbolRecord { name: name.map(str::to_owned), address, size, kind: kind.to_owned() }
}

fn image(architecture: &str) -> ObjectImage {
    ObjectImage {
        architecture: architecture.to_owned(),
        entry: 0x8000_0000,
        little_endian: true,
        has_probe_section: true,
        segment_count: 2,
        symbols: vec![
            symbol(Some("trap_handler"), 0x8000_0100, 0x40, "Text"),
            symbol(Some("_start"), 0x8000_0000, 0, "Text"),
            symbol(Some("data"), 0x8000_2000, 8, "Data"),
            symbol(Some("zero"), 0, 4, "Text"),
            symbol(None, 0x8000_0050, 4, "Text"),
            symbol(Some("alias"), 0x8000_0000, 0x10, "Text"),
        ],
    }
}

fn trace(pcs: &[&str], xlen: u16) -> TraceDocument {
    TraceDocument {
        schema: "echorv.trace.v1".to_owned(),
        target: Target {
            architecture: "risc-v".to_owned(),
            xlen,
            isa: "rv64i".to_owned(),
            platform: None,
        },
        provenance: Provenance::default(),
        events: pcs
            .iter()
            .enumerate()
            .map(|(i, pc)| TraceEvent {
                sequence: i as u64,
                hart: None,
                pc: (*pc).to_owned(),
                instruction: "nop".to_owned(),
                instruction_bytes: None,
                privilege: Privilege::M,
                symbol: None,
                source: None,
                writes: vec![],
                trap: None,
            })
            .collect(),
    }
}

#[test]
fn renders_addresses_in_lower_case_hex() {
    assert_eq!(hex(0), "0x0");
    assert_eq!(hex(0x8000_01ac), "0x800001ac");
    assert_eq!(hex(u64::MAX), "0xffffffffffffffff");
}

#[test]
fn reads_hex_addresses() {
    assert_eq!(parse_hex("0x802001AC"), Some(0x8020_01ac));
    assert_eq!(parse_hex("802001ac"), Some(0x8020_01ac));
    assert_eq!(parse_hex("0x0x1f"), Some(0x1f));
    assert_eq!(parse_hex("+1f"), Some(0x1f));
    assert_eq!(parse_hex("0x"), None);
    assert_eq!(parse_hex(""), None);
    assert_eq!(parse_hex("unknown"), None);
    assert_eq!(parse_hex("0x10000000000000000"), None);
    assert_eq!(parse_hex("0xffffffffffffffff"), Some(u64::MAX));
    for v in [0u64, 1, 0xabc, 0x8000_0000, u64::MAX] {
        assert_eq!(parse_hex(&hex(v)), Some(v));
    }
}

#[test]
fn finds_the_last_covering_symbol() {
    let ranges = vec![
        SymbolRange { name: "_start".to_owned(), address: 0x100, size: 0 },
        SymbolRange { name: "main".to_owned(), address: 0x200, size: 0x10 },
        SymbolRange { name: "top".to_owned(), address: u64::MAX - 1, size: 0x10 },
    ];
    assert_eq!(symbol_for(&ranges, 0x50), None);
    assert_eq!(symbol_for(&ranges, 0x180).as_deref(), Some("_start"));
    assert_eq!(symbol_for(&ranges, 0x205).as_deref(), Some("main"));
    assert_eq!(symbol_for(&ranges, 0x210).as_deref(), Some("_start"));
    assert_eq!(symbol_for(&ranges, u64::MAX - 1).as_deref(), Some("top"));
    assert_eq!(symbol_for(&ranges, u64::MAX).as_deref(), Some("_start"));
}

#[test]
fn inspects_a_riscv_elf_header() {
    let info = inspect_elf("fw.elf", &elf_header(243, 0x8000_0000)).unwrap();
    assert_eq!(info.path, "fw.elf");
    assert_eq!(info.architecture, "risc-v");
    assert_eq!(info.xlen, 64);
    assert_eq!(info.entry_point, "0x80000000");
    assert!(info.little_endian);
    assert!(!info.has_dwarf);
    assert_eq!(info.loadable_segments, 0);
    assert!(info.symbols.is_empty());
}

#[test]
fn rejects_another_architecture() {
    let error = inspect_elf("host.elf", &elf_header(62, 0x1000)).unwrap_err();
    assert_eq!(
        error,
        ElfInspectError::NotRiscV { path: "host.elf".to_owned(), architecture: "X86_64".to_owned() }
    );
}

#[test]
fn rejects_bytes_that_are_not_an_object() {
    match inspect_elf("junk.bin", b"not an object file").unwrap_err() {
        ElfInspectError::Parse { path, message } => {
            assert_eq!(path, "junk.bin");
            assert!(!message.is_empty());
        }
        other => panic!("unexpected error {other:?}"),
    }
}

#[test]
fn lists_symbols_in_address_order() {
    let info = elf_info_from_image("fw.elf", Ok(image("Riscv32"))).unwrap();
    assert_eq!(info.xlen, 32);
    assert!(info.has_dwarf);
    assert_eq!(info.loadable_segments, 2);
    let listed: Vec<(&str, &str, u64, &str)> = info
        .symbols
        .iter()
        .map(|s| (s.name.as_str(), s.address.as_str(), s.size, s.kind.as_str()))
        .collect();
    assert_eq!(
        listed,
        vec![
            ("_start", "0x80000000", 0, "text"),
            ("alias", "0x80000000", 0x10, "text"),
            ("trap_handler", "0x80000100", 0x40, "text"),
            ("data", "0x80002000", 8, "data"),
        ]
    );
}

#[test]
fn reports_a_parse_failure_with_its_message() {
    assert_eq!(
        elf_info_from_image("x", Err("Unsupported file format".to_owned())).unwrap_err(),
        ElfInspectError::Parse { path: "x".to_owned(), message: "Unsupported file format".to_owned() }
    );
}

#[test]
fn enriches_events_with_symbols_and_sources() {
    let mut t = trace(&["0x80000104", "pc?", "0x80000008", "0x80000004"], 32);
    let lookups = vec![
        LocationLookup::Found { file: Some("trap.S".to_owned()), line: Some(31), column: None },
        LocationLookup::Missing,
        LocationLookup::Failed("bad line program".to_owned()),
        LocationLookup::Found { file: None, line: Some(2), column: Some(1) },
    ];
    let warnings = enrich_trace_with_image(&mut t, "fw.elf", Ok(image("Riscv64")), true, &lookups).unwrap();
    assert_eq!(
        warnings,
        vec![
            "could not parse PC `pc?` for ELF enrichment",
            "DWARF lookup failed for 0x80000008: bad line program",
        ]
    );
    assert_eq!(t.events[0].symbol.as_deref(), Some("trap_handler"));
    let source = t.events[0].source.as_ref().unwrap();
    assert_eq!((source.file.as_str(), source.line, source.column), ("trap.S", Some(31), None));
    assert_eq!(t.events[1].symbol, None);
    assert_eq!(t.events[2].symbol.as_deref(), Some("alias"));
    assert!(t.events[2].source.is_none());
    assert_eq!(t.events[3].symbol.as_deref(), Some("alias"));
    assert!(t.events[3].source.is_none());
    assert_eq!(t.provenance.input.as_deref(), Some("fw.elf"));
    assert_eq!(
        t.provenance.notes,
        vec![
            "trace XLEN 32 differs from ELF XLEN 64",
            "could not parse PC `pc?` for ELF enrichment",
            "DWARF lookup failed for 0x80000008: bad line program",
        ]
    );
}

#[test]
fn warns_when_debug_information_cannot_be_loaded() {
    let mut t = trace(&["0x80000000"], 64);
    let warnings = enrich_trace_with_image(&mut t, "fw.elf", Ok(image("Riscv64")), false, &vec![]).unwrap();
    assert_eq!(warnings, vec!["DWARF sections were present but could not be loaded"]);
    assert_eq!(t.events[0].symbol.as_deref(), Some("alias"));
    assert_eq!(t.provenance.notes, warnings);
}

#[test]
fn leaves_the_trace_alone_on_error() {
    let mut t = trace(&["0x80000000"], 64);
    let error = enrich_trace_with_image(&mut t, "a.out", Ok(image("Aarch64")), true, &vec![]).unwrap_err();
    assert_eq!(
        error,
        ElfInspectError::NotRiscV { path: "a.out".to_owned(), architecture: "Aarch64".to_owned() }
    );
    assert_eq!(t.events[0].symbol, None);
    assert_eq!(t.provenance.input, None);
}

#[test]
fn enrichment_changes_nothing_but_symbols_and_sources() {
    let before = trace(&["0x80000104", "pc?", "0x80000000"], 64);
    let mut after = before.clone();
    let lookups = vec![LocationLookup::Found {
        file: Some("trap.S".to_owned()),
        line: Some(7),
        column: Some(3),
    }];
    let warnings = enrich_trace_with_image(&mut after, "fw.elf", Ok(image("Riscv64")), true, &lookups).unwrap();
    assert_eq!(after.schema, before.schema);
    assert_eq!(after.target.xlen, before.target.xlen);
    assert_eq!(after.target.isa, before.target.isa);
    assert_eq!(after.events.len(), before.events.len());
    for (a, b) in after.events.iter().zip(before.events.iter()) {
        assert_eq!(a.sequence, b.sequence);
        assert_eq!(a.pc, b.pc);
        assert_eq!(a.instruction, b.instruction);
        assert_eq!(a.privilege, b.privilege);
        assert_eq!(a.writes.len(), b.writes.len());
        assert_eq!(a.trap.is_some(), b.trap.is_some());
    }
    assert_eq!(after.events[0].symbol.as_deref(), Some("trap_handler"));
    assert_eq!(after.events[0].source.as_ref().map(|s| (s.line, s.column)), Some((Some(7), Some(3))));
    let notes = &after.provenance.notes;
    assert_eq!(&notes[notes.len() - warnings.len()..], warnings.as_slice());
}
