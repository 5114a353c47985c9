use echorv::analyzer::{analyze, analyze_with_options, next_id, AnalyzeError, AnalyzeOptions};
use echorv::model::{
    Confidence, DiagnosticCode, EvidenceKind, EvidenceProfile, Privilege, Provenance, StateKind, StateWrite, Target,
    TraceDocument, TraceEvent, Trap,
};
use echorv::{EVIDENCE_SCHEMA, TRACE_SCHEMA};

fn event(sequence: u64, pc: &str, instruction: &str, writes: Vec<StateWrite>, trap: Option<Trap>) -> TraceEvent {
    TraceEvent {
        sequence,
        hart: None,
        pc: pc.to_owned(),
        instruction: instruction.to_owned(),
        instruction_bytes: None,
        privilege: Privilege::U,
        symbol: None,
        source: None,
        writes,
        trap,
    }
}

fn csr(name: &str, before: Option<&str>, after: &str) -> StateWrite {
    StateWrite {
        kind: StateKind::Csr,
        name: name.to_owned(),
        before: before.map(str::to_owned),
        after: after.to_owned(),
    }
}

fn illegal_trap() -> Trap {
    Trap {
        cause: 2,
        name: "illegal-instruction".to_owned(),
        tval: Some("0x18051073".to_owned()),
        target_pc: "0x80000000".to_owned(),
        to_privilege: Privilege::M,
        delegated: None,
    }
}

fn trace() -> TraceDocument {
    TraceDocument {
        schema: TRACE_SCHEMA.to_owned(),
        target: Target {
            architecture: "risc-v".to_owned(),
            xlen: 64,
            isa: "rv64imac_zicsr".to_owned(),
            platform: Some("virt".to_owned()),
        },
        provenance: Provenance::default(),
        events: vec![event(
            7,
            "0x802001ac",
            "csrw satp, a0",
            vec![csr("mcause", Some("0x0"), "0x2")],
            Some(illegal_trap()),
        )],
    }
}

fn two_event_trace() -> TraceDocument {
    let mut t = trace();
    t.events.insert(
        0,
        event(
            3,
            "0x802001a8",
            "addi a0, a0, 1",
            vec![StateWrite {
                kind: StateKind::Register,
                name: "x10".to_owned(),
                before: None,
                after: "0x1".to_owned(),
            }],
            None,
        ),
    );
    t
}

#[test]
fn builds_a_bounded_trap_chain() {
    let evidence = analyze(trace(), EvidenceProfile::Trap, 3).unwrap();
    assert_eq!(evidence.schema, EVIDENCE_SCHEMA);
    assert_eq!(evidence.summary.total_evidence_events, 4);
    assert_eq!(evidence.summary.emitted_evidence_events, 3);
    assert!(evidence.summary.truncated);
    assert_eq!(evidence.events[1].caused_by, vec!["ev-0000"]);
    assert_eq!(evidence.events[2].caused_by, vec!["ev-0001"]);
}

#[test]
fn rejects_non_riscv_input() {
    let mut input = trace();
    input.target.architecture = "arm64".to_owned();
    assert_eq!(
        analyze(input, EvidenceProfile::Full, 10).unwrap_err(),
        AnalyzeError::UnsupportedArchitecture("arm64".to_owned())
    );
}

#[test]
fn explains_each_link_of_a_trap_chain() {
    let evidence = analyze(trace(), EvidenceProfile::Trap, 10).unwrap();
    let texts: Vec<&str> = evidence.events.iter().map(|e| e.explanation.as_str()).collect();
    assert_eq!(
        texts,
        vec![
            "U-mode instruction `csrw satp, a0` at 0x802001ac initiated a trap",
            "trap 2 (illegal-instruction) was raised; tval=0x18051073, handler=0x80000000",
            "CSR `mcause` changed from 0x0 to 0x2",
            "control transferred from U-mode at 0x802001ac to M-mode at 0x80000000",
        ]
    );
    let kinds: Vec<EvidenceKind> = evidence.events.iter().map(|e| e.kind).collect();
    assert_eq!(
        kinds,
        vec![
            EvidenceKind::Instruction,
            EvidenceKind::Trap,
            EvidenceKind::StateChange,
            EvidenceKind::PrivilegeTransition
        ]
    );
    assert_eq!(evidence.events[3].caused_by, vec!["ev-0001"]);
    assert!(evidence.events[0].caused_by.is_empty());
    assert_eq!(evidence.events[2].state.as_ref().unwrap().name, "mcause");
    assert!(evidence.events.iter().all(|e| e.trace_sequence == 7 && e.pc == "0x802001ac"));
    assert!(!evidence.summary.truncated);
    assert!(evidence.warnings.is_empty());
    assert_eq!(evidence.profile, "trap");
}

#[test]
fn limit_warning_reports_both_counts() {
    let evidence = analyze(trace(), EvidenceProfile::Trap, 3).unwrap();
    assert_eq!(evidence.warnings, vec!["evidence output was limited to 3 of 4 events"]);
}

#[test]
fn identifiers_are_positions_in_four_or_more_digits() {
    assert_eq!(next_id(0), "ev-0000");
    assert_eq!(next_id(7), "ev-0007");
    assert_eq!(next_id(123), "ev-0123");
    assert_eq!(next_id(12345), "ev-12345");
    let evidence = analyze(two_event_trace(), EvidenceProfile::Full, 100).unwrap();
    for (i, e) in evidence.events.iter().enumerate() {
        assert_eq!(e.id, next_id(i));
    }
}

#[test]
fn full_profile_covers_every_event_and_write() {
    let evidence = analyze(two_event_trace(), EvidenceProfile::Full, 100).unwrap();
    assert_eq!(evidence.summary.input_events, 2);
    assert_eq!(evidence.summary.matched_trace_events, 2);
    assert_eq!(evidence.summary.total_evidence_events, 6);
    assert_eq!(evidence.events[0].explanation, "U-mode executed `addi a0, a0, 1` at 0x802001a8");
    assert_eq!(evidence.events[1].explanation, "register `x10` changed from unknown to 0x1");
    assert_eq!(evidence.events[1].caused_by, vec!["ev-0000"]);
    assert_eq!(evidence.events[2].id, "ev-0002");
    assert_eq!(evidence.events[5].caused_by, vec!["ev-0003"]);
    assert_eq!(evidence.profile, "full");
}

#[test]
fn trap_profile_keeps_only_trap_csrs() {
    let mut t = trace();
    t.events[0].writes.push(csr("satp", None, "0x1"));
    t.events[0].writes.push(StateWrite {
        kind: StateKind::Register,
        name: "mepc".to_owned(),
        before: None,
        after: "0x4".to_owned(),
    });
    t.events[0].writes.push(csr("mepc", None, "0x802001ac"));
    let evidence = analyze(t.clone(), EvidenceProfile::Trap, 100).unwrap();
    let states: Vec<&str> = evidence
        .events
        .iter()
        .filter_map(|e| e.state.as_ref().map(|s| s.name.as_str()))
        .collect();
    assert_eq!(states, vec!["mcause", "mepc"]);
    let full = analyze(t, EvidenceProfile::Full, 100).unwrap();
    assert_eq!(full.summary.total_evidence_events, 7);
}

#[test]
fn trap_profile_warns_about_a_trace_without_traps() {
    let mut t = two_event_trace();
    t.events.truncate(1);
    let evidence = analyze(t, EvidenceProfile::Trap, 10).unwrap();
    assert!(evidence.events.is_empty());
    assert_eq!(evidence.summary.matched_trace_events, 0);
    assert_eq!(evidence.warnings, vec!["the trace contains no trap events"]);
}

#[test]
fn rejects_an_unsupported_schema() {
    let mut t = trace();
    t.schema = "echorv.trace.v0".to_owned();
    assert_eq!(
        analyze(t, EvidenceProfile::Full, 10).unwrap_err(),
        AnalyzeError::UnsupportedSchema("echorv.trace.v0".to_owned())
    );
}

#[test]
fn accepts_the_architecture_in_any_ascii_case() {
    let mut t = trace();
    t.target.architecture = "RISC-V".to_owned();
    assert!(analyze(t, EvidenceProfile::Full, 10).is_ok());
}

#[test]
fn rejects_an_unsupported_xlen() {
    let mut t = trace();
    t.target.xlen = 128;
    assert_eq!(analyze(t, EvidenceProfile::Full, 10).unwrap_err(), AnalyzeError::UnsupportedXlen(128));
}

#[test]
fn rejects_a_zero_limit() {
    assert_eq!(analyze(trace(), EvidenceProfile::Full, 0).unwrap_err(), AnalyzeError::ZeroLimit);
}

#[test]
fn rejects_sequences_that_do_not_increase() {
    let mut t = two_event_trace();
    t.events[0].sequence = 7;
    assert_eq!(
        analyze(t, EvidenceProfile::Full, 10).unwrap_err(),
        AnalyzeError::NonMonotonicSequence { previous: 7, current: 7 }
    );
}

#[test]
fn a_smaller_limit_emits_a_prefix() {
    let large = analyze(two_event_trace(), EvidenceProfile::Full, 100).unwrap();
    for limit in 1..8 {
        let small = analyze(two_event_trace(), EvidenceProfile::Full, limit).unwrap();
        let n = small.events.len();
        assert_eq!(n, limit.min(6));
        for i in 0..n {
            assert_eq!(small.events[i].id, large.events[i].id);
            assert_eq!(small.events[i].explanation, large.events[i].explanation);
        }
        assert_eq!(small.summary.truncated, limit < 6);
    }
}

#[test]
fn keeps_target_and_provenance() {
    let mut t = trace();
    t.provenance.backend = Some("spike".to_owned());
    let evidence = analyze(t, EvidenceProfile::Full, 10).unwrap();
    assert_eq!(evidence.target.isa, "rv64imac_zicsr");
    assert_eq!(evidence.target.platform.as_deref(), Some("virt"));
    assert_eq!(evidence.provenance.backend.as_deref(), Some("spike"));
}

fn register(name: &str, after: &str) -> StateWrite {
    StateWrite { kind: StateKind::Register, name: name.to_owned(), before: None, after: after.to_owned() }
}

#[test]
fn trap_evidence_carries_the_diagnosis_of_its_cause() {
    let evidence = analyze(trace(), EvidenceProfile::Full, 10).unwrap();
    let diagnostics: Vec<Option<DiagnosticCode>> = evidence.events.iter().map(|e| e.diagnostic).collect();
    assert_eq!(diagnostics, vec![None, Some(DiagnosticCode::IllegalInstruction), None, None]);
}

#[test]
fn diagnoses_every_exception_family() {
    let cases = [
        (0, DiagnosticCode::InstructionAddressMisaligned),
        (1, DiagnosticCode::InstructionAccessFault),
        (3, DiagnosticCode::Breakpoint),
        (4, DiagnosticCode::LoadAddressMisaligned),
        (5, DiagnosticCode::LoadAccessFault),
        (6, DiagnosticCode::StoreAddressMisaligned),
        (7, DiagnosticCode::StoreAccessFault),
        (8, DiagnosticCode::EnvironmentCall),
        (9, DiagnosticCode::EnvironmentCall),
        (10, DiagnosticCode::UnknownTrap),
        (11, DiagnosticCode::EnvironmentCall),
        (12, DiagnosticCode::InstructionPageFault),
        (13, DiagnosticCode::LoadPageFault),
        (14, DiagnosticCode::UnknownTrap),
        (15, DiagnosticCode::StorePageFault),
        (u64::MAX, DiagnosticCode::UnknownTrap),
    ];
    for (cause, expected) in cases {
        let mut t = trace();
        t.events[0].trap.as_mut().unwrap().cause = cause;
        let evidence = analyze(t, EvidenceProfile::Trap, 10).unwrap();
        assert_eq!(evidence.events[1].diagnostic, Some(expected), "cause {cause}");
    }
}

#[test]
fn auto_follows_the_trap_profile_when_a_trap_is_present() {
    let auto = analyze(two_event_trace(), EvidenceProfile::Auto, 100).unwrap();
    let trap = analyze(two_event_trace(), EvidenceProfile::Trap, 100).unwrap();
    assert_eq!(auto.profile, "auto");
    assert_eq!(auto.summary.matched_trace_events, 1);
    let ids = |d: &echorv::EvidenceDocument| -> Vec<String> {
        d.events.iter().map(|e| format!("{} {}", e.id, e.explanation)).collect()
    };
    assert_eq!(ids(&auto), ids(&trap));
    assert_eq!(auto.warnings, trap.warnings);
}

#[test]
fn auto_reports_state_changing_instructions_without_traps() {
    let mut t = two_event_trace();
    t.events[1].trap = None;
    t.events.push(event(9, "0x802001b0", "nop", vec![], None));
    t.events.push(event(10, "0x802001b4", "li a1, 5", vec![register("x11", "0x5")], None));
    let evidence = analyze(t, EvidenceProfile::Auto, 100).unwrap();
    assert_eq!(evidence.summary.input_events, 4);
    assert_eq!(evidence.summary.matched_trace_events, 3);
    let texts: Vec<&str> = evidence.events.iter().map(|e| e.explanation.as_str()).collect();
    assert_eq!(
        texts,
        vec![
            "U-mode executed `addi a0, a0, 1` at 0x802001a8",
            "register `x10` changed from unknown to 0x1",
            "U-mode executed `csrw satp, a0` at 0x802001ac",
            "CSR `mcause` changed from 0x0 to 0x2",
            "U-mode executed `li a1, 5` at 0x802001b4",
            "register `x11` changed from unknown to 0x5",
        ]
    );
    assert!(evidence.events.iter().all(|e| e.diagnostic.is_none()));
    assert!(evidence.warnings.is_empty());
}

fn mixed_trace() -> TraceDocument {
    let mut t = trace();
    let memory = StateWrite { kind: StateKind::Memory, name: "mem 0x80001000".to_owned(), before: None, after: "0x7".to_owned() };
    let mut load_fault = illegal_trap();
    load_fault.cause = 13;
    load_fault.name = "load-page-fault".to_owned();
    t.events = vec![
        event(0, "0x80000000", "sd a0, 0(a1)", vec![register("x5", "0x1"), memory], None),
        event(1, "0x80000004", "csrw mstatus, a0", vec![csr("mstatus", None, "0x8")], None),
        event(2, "0x80000008", "ecall", vec![], None),
        event(3, "0x8000000c", "mret", vec![], None),
        event(4, "0x80000010", "ld a0, 0(a1)", vec![csr("mcause", None, "0xd")], Some(load_fault)),
        event(5, "0x80000014", "addi a0, a0, 1", vec![register("x10", "0x2")], None),
    ];
    t
}

fn sequences(d: &echorv::EvidenceDocument) -> Vec<u64> {
    let mut v: Vec<u64> = d.events.iter().map(|e| e.trace_sequence).collect();
    v.dedup();
    v
}

#[test]
fn csr_profile_reports_csr_changes_and_traps() {
    let d = analyze(mixed_trace(), EvidenceProfile::Csr, 100).unwrap();
    assert_eq!(d.profile, "csr");
    assert_eq!(sequences(&d), vec![1, 4]);
    assert!(d.events.iter().filter_map(|e| e.state.as_ref()).all(|w| w.kind == StateKind::Csr));
}

#[test]
fn memory_profile_reports_memory_changes_and_faults() {
    let d = analyze(mixed_trace(), EvidenceProfile::Memory, 100).unwrap();
    assert_eq!(d.profile, "memory");
    assert_eq!(sequences(&d), vec![0, 4]);
    let states: Vec<&str> = d.events.iter().filter_map(|e| e.state.as_ref()).map(|w| w.name.as_str()).collect();
    assert_eq!(states, vec!["mem 0x80001000"]);
}

#[test]
fn privilege_profile_reports_calls_returns_and_traps() {
    let d = analyze(mixed_trace(), EvidenceProfile::Privilege, 100).unwrap();
    assert_eq!(d.profile, "privilege");
    assert_eq!(sequences(&d), vec![2, 3, 4]);
    assert_eq!(d.summary.matched_trace_events, 3);
}

#[test]
fn selects_context_around_a_pc() {
    let options = AnalyzeOptions {
        profile: EvidenceProfile::Full,
        limit: 100,
        around_pc: Some("0x8000000C".to_owned()),
        around_trap: None,
        before: 1,
        after: 1,
    };
    let d = analyze_with_options(mixed_trace(), options).unwrap();
    assert_eq!(sequences(&d), vec![2, 3, 4]);
    assert_eq!(d.summary.input_events, 6);
    assert_eq!(d.summary.matched_trace_events, 3);
}

#[test]
fn selects_context_around_a_trap_cause() {
    let options = AnalyzeOptions {
        profile: EvidenceProfile::Full,
        limit: 100,
        around_pc: None,
        around_trap: Some(13),
        before: 2,
        after: 0,
    };
    let d = analyze_with_options(mixed_trace(), options.clone()).unwrap();
    assert_eq!(sequences(&d), vec![2, 3, 4]);
    let none = AnalyzeOptions { around_trap: Some(2), ..options };
    let d = analyze_with_options(mixed_trace(), none).unwrap();
    assert!(d.events.is_empty());
    assert_eq!(d.summary.matched_trace_events, 0);
}

#[test]
fn evidence_declares_confidence_and_carries_locations() {
    let mut t = trace();
    t.events[0].symbol = Some("enter_user".to_owned());
    t.events[0].source = Some(echorv::model::SourceLocation { file: "fw.S".to_owned(), line: Some(31), column: Some(5) });
    let d = analyze(t, EvidenceProfile::Trap, 10).unwrap();
    let confidences: Vec<Confidence> = d.events.iter().map(|e| e.confidence).collect();
    assert_eq!(confidences, vec![Confidence::Observed, Confidence::Observed, Confidence::Observed, Confidence::Derived]);
    assert!(d.events.iter().all(|e| e.symbol.as_deref() == Some("enter_user")));
    assert!(d.events.iter().all(|e| e.source.as_ref().map(|s| (s.file.as_str(), s.line, s.column)) == Some(("fw.S", Some(31), Some(5)))));
}

#[test]
fn access_faults_list_inferred_candidates() {
    let mut t = trace();
    {
        let trap = t.events[0].trap.as_mut().unwrap();
        trap.cause = 5;
        trap.name = "load-access-fault".to_owned();
    }
    let d = analyze(t, EvidenceProfile::Trap, 10).unwrap();
    let kinds: Vec<EvidenceKind> = d.events.iter().map(|e| e.kind).collect();
    assert_eq!(
        kinds,
        vec![
            EvidenceKind::Instruction,
            EvidenceKind::Trap,
            EvidenceKind::StateChange,
            EvidenceKind::PrivilegeTransition,
            EvidenceKind::Candidate
        ]
    );
    let candidate = &d.events[4];
    assert_eq!(candidate.id, "ev-0004");
    assert_eq!(candidate.confidence, Confidence::Inferred);
    assert_eq!(candidate.caused_by, vec!["ev-0001"]);
    assert!(candidate.diagnostic.is_none());
    assert_eq!(
        candidate.explanation,
        "the backend does not record which rule rejected the access; candidates: a PMP entry, a PMA rule, or unmapped memory"
    );
    assert_eq!(d.events[1].diagnostic, Some(DiagnosticCode::LoadAccessFault));
    let illegal = analyze(trace(), EvidenceProfile::Trap, 10).unwrap();
    assert!(illegal.events.iter().all(|e| e.kind != EvidenceKind::Candidate));
}
