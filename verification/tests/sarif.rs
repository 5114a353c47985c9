use echorv::model::DiagnosticCode;
use echorv::sarif::{diagnostic_description, diagnostic_id, sarif_rules};

#[test]
fn names_rules_in_kebab_case() {
    assert_eq!(diagnostic_id(DiagnosticCode::IllegalInstruction), "illegal-instruction");
    assert_eq!(diagnostic_id(DiagnosticCode::EnvironmentCall), "environment-call");
    assert_eq!(diagnostic_id(DiagnosticCode::UnknownTrap), "unknown-trap");
    assert_eq!(
        diagnostic_id(DiagnosticCode::InstructionAddressMisaligned),
        "instruction-address-misaligned"
    );
}

#[test]
fn describes_rules() {
    assert_eq!(diagnostic_description(DiagnosticCode::IllegalInstruction), "Illegal instruction trap");
    assert_eq!(diagnostic_description(DiagnosticCode::LoadPageFault), "Load page fault");
    assert_eq!(diagnostic_description(DiagnosticCode::UnknownTrap), "Unknown RISC-V trap");
}

#[test]
fn lists_each_carried_rule_once_in_declaration_order() {
    let rules = sarif_rules(&[
        Some(DiagnosticCode::StorePageFault),
        None,
        Some(DiagnosticCode::IllegalInstruction),
        Some(DiagnosticCode::StorePageFault),
    ]);
    assert_eq!(rules, vec![DiagnosticCode::IllegalInstruction, DiagnosticCode::StorePageFault]);
    assert!(sarif_rules(&[None, None]).is_empty());
}

use echorv::analyzer::analyze;
use echorv::model::{EvidenceProfile, Privilege, Provenance, SourceLocation, Target, TraceDocument, TraceEvent, Trap};
use echorv::sarif::{has_diagnostic, sarif_results, SarifLocation};

fn faulting_trace(symbol: Option<&str>, source: Option<SourceLocation>) -> TraceDocument {
    TraceDocument {
        schema: "echorv.trace.v1".to_owned(),
        target: Target { architecture: "risc-v".to_owned(), xlen: 64, isa: "rv64i".to_owned(), platform: None },
        provenance: Provenance::default(),
        events: vec![
            TraceEvent {
                sequence: 0,
                hart: None,
                pc: "0x80000000".to_owned(),
                instruction: "nop".to_owned(),
                instruction_bytes: None,
                privilege: Privilege::M,
                symbol: None,
                source: None,
                writes: vec![],
                trap: None,
            },
            TraceEvent {
                sequence: 1,
                hart: None,
                pc: "0x80000004".to_owned(),
                instruction: "csrw satp, a0".to_owned(),
                instruction_bytes: None,
                privilege: Privilege::U,
                symbol: symbol.map(str::to_owned),
                source,
                writes: vec![],
                trap: Some(Trap {
                    cause: 2,
                    name: "illegal-instruction".to_owned(),
                    tval: None,
                    target_pc: "0x80000100".to_owned(),
                    to_privilege: Privilege::M,
                    delegated: Some(false),
                }),
            },
        ],
    }
}

#[test]
fn reports_each_diagnosed_event_with_its_location() {
    let source = SourceLocation { file: "firmware.S".to_owned(), line: Some(31), column: None };
    let evidence = analyze(faulting_trace(Some("enter"), Some(source)), EvidenceProfile::Full, 100).unwrap();
    assert!(has_diagnostic(&evidence));
    let results = sarif_results(&evidence);
    assert_eq!(results.len(), 1);
    assert_eq!(results[0].event, 2);
    assert_eq!(diagnostic_id(results[0].rule), "illegal-instruction");
    match &results[0].location {
        SarifLocation::Physical { file, line, column } => {
            assert_eq!((file.as_str(), *line, *column), ("firmware.S", 31, 1));
        }
        other => panic!("unexpected location {other:?}"),
    }
    let evidence = analyze(faulting_trace(Some("enter"), None), EvidenceProfile::Trap, 100).unwrap();
    match &sarif_results(&evidence)[0].location {
        SarifLocation::Logical { name } => assert_eq!(name, "enter"),
        other => panic!("unexpected location {other:?}"),
    }
    let evidence = analyze(faulting_trace(None, None), EvidenceProfile::Trap, 100).unwrap();
    assert!(matches!(sarif_results(&evidence)[0].location, SarifLocation::Unlocated));
}

#[test]
fn evidence_without_traps_has_no_diagnostic() {
    let mut t = faulting_trace(None, None);
    t.events[1].trap = None;
    let evidence = analyze(t, EvidenceProfile::Full, 100).unwrap();
    assert!(!has_diagnostic(&evidence));
    assert!(sarif_results(&evidence).is_empty());
}
