use echorv::analyzer::analyze;
use echorv::cli::{doctor_report, parse_limit, parse_positive_u64, render_elf, render_human};
use echorv::elf::{ElfInfo, ElfSymbol};
use echorv::model::{
    EvidenceProfile, Privilege, Provenance, SourceLocation, Target, TraceDocument, TraceEvent, Trap,
};

#[test]
fn reads_positive_limits() {
    assert_eq!(parse_limit("200"), Ok(200));
    assert_eq!(parse_limit("+7"), Ok(7));
    assert_eq!(parse_limit("0"), Err("limit must be greater than zero".to_owned()));
    assert_eq!(parse_limit("-1"), Err("limit must be a positive integer".to_owned()));
    assert_eq!(parse_limit(""), Err("limit must be a positive integer".to_owned()));
    assert_eq!(parse_limit("1e3"), Err("limit must be a positive integer".to_owned()));
    assert_eq!(
        parse_limit("99999999999999999999999"),
        Err("limit must be a positive integer".to_owned())
    );
}

#[test]
fn reads_positive_u64_values() {
    assert_eq!(parse_positive_u64("10"), Ok(10));
    assert_eq!(parse_positive_u64("18446744073709551615"), Ok(u64::MAX));
    assert_eq!(
        parse_positive_u64("18446744073709551616"),
        Err("value must be a positive integer".to_owned())
    );
    assert_eq!(parse_positive_u64("0"), Err("value must be greater than zero".to_owned()));
    assert_eq!(parse_positive_u64(" 1"), Err("value must be a positive integer".to_owned()));
}

fn trace() -> TraceDocument {
    TraceDocument {
        schema: "echorv.trace.v1".to_owned(),
        target: Target {
            architecture: "risc-v".to_owned(),
            xlen: 64,
            isa: "rv64imac_zicsr".to_owned(),
            platform: None,
        },
        provenance: Provenance::default(),
        events: vec![TraceEvent {
            sequence: 0,
            hart: None,
            pc: "0x802001ac".to_owned(),
            instruction: "csrw satp, a0".to_owned(),
            instruction_bytes: None,
            privilege: Privilege::U,
            symbol: None,
            source: None,
            writes: vec![],
            trap: Some(Trap {
                cause: 2,
                name: "illegal-instruction".to_owned(),
                tval: None,
                target_pc: "0x80000000".to_owned(),
                to_privilege: Privilege::M,
                delegated: Some(false),
            }),
        }],
    }
}

#[test]
fn renders_evidence_for_people() {
    let evidence = analyze(trace(), EvidenceProfile::Trap, 2).unwrap();
    assert_eq!(
        render_human(&evidence),
        "EchoRV evidence | rv64imac_zicsr | RV64 | profile=trap | 2/3 events (truncated)\n\
         ev-0000 [Instruction/Observed] U-mode instruction `csrw satp, a0` at 0x802001ac initiated a trap\n\
         ev-0001 [Trap/Observed] trap 2 (illegal-instruction) was raised; tval=not recorded, handler=0x80000000 <- ev-0000\n\
         warning: evidence output was limited to 2 of 3 events"
    );
}

fn info(symbols: usize) -> ElfInfo {
    ElfInfo {
        path: "fw.elf".to_owned(),
        architecture: "risc-v".to_owned(),
        xlen: 64,
        entry_point: "0x80000000".to_owned(),
        little_endian: true,
        has_dwarf: false,
        loadable_segments: 2,
        symbols: (0..symbols)
            .map(|i| ElfSymbol {
                name: format!("s{i}"),
                address: format!("0x{:x}", 0x1000 + i),
                size: 4,
                kind: "text".to_owned(),
            })
            .collect(),
    }
}

#[test]
fn renders_an_elf_report() {
    assert_eq!(
        render_elf(&info(1)),
        "ELF: fw.elf\nArchitecture: risc-v (RV64)\nEntry point: 0x80000000\nEndianness: little\n\
         DWARF: absent\nLoadable segments: 2\nSymbols: 1\n  0x1000 s0 +4 (text)"
    );
    let long = render_elf(&info(23));
    let lines: Vec<&str> = long.lines().collect();
    assert_eq!(lines.len(), 7 + 20 + 1);
    assert_eq!(lines[26], "  0x1013 s19 +4 (text)");
    assert_eq!(lines[27], "  ... 3 more");
}

#[test]
fn renders_confidence_and_locations() {
    let mut t = trace();
    t.events[0].symbol = Some("enter_user".to_owned());
    t.events[0].source = Some(SourceLocation { file: "firmware.S".to_owned(), line: Some(31), column: None });
    let evidence = analyze(t.clone(), EvidenceProfile::Trap, 10).unwrap();
    let text = render_human(&evidence);
    let lines: Vec<&str> = text.lines().collect();
    assert_eq!(
        lines[1],
        "ev-0000 [Instruction/Observed] U-mode instruction `csrw satp, a0` at 0x802001ac initiated a trap @ firmware.S:31 (enter_user)"
    );
    assert_eq!(
        lines[3],
        "ev-0002 [PrivilegeTransition/Derived] control transferred from U-mode at 0x802001ac to M-mode at 0x80000000 @ firmware.S:31 (enter_user) <- ev-0001"
    );
    t.events[0].source = Some(SourceLocation { file: "firmware.S".to_owned(), line: None, column: None });
    let text = render_human(&analyze(t.clone(), EvidenceProfile::Trap, 1).unwrap());
    assert!(text.lines().nth(1).unwrap().ends_with("initiated a trap @ firmware.S:? (enter_user)"));
    t.events[0].source = None;
    let text = render_human(&analyze(t, EvidenceProfile::Trap, 1).unwrap());
    assert!(text.lines().nth(1).unwrap().ends_with("initiated a trap @ enter_user"));
}

#[test]
fn reports_spike_availability() {
    assert_eq!(
        doctor_report("0.2.0", &Some("Spike RISC-V ISA Simulator 1.1.1-dev".to_owned())),
        ("EchoRV 0.2.0\nSpike: available (Spike RISC-V ISA Simulator 1.1.1-dev)".to_owned(), true)
    );
    assert_eq!(
        doctor_report("0.2.0", &None),
        ("EchoRV 0.2.0\nSpike: unavailable (not found)".to_owned(), false)
    );
}
