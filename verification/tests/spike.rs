use echorv::analyzer::analyze;
use echorv::model::{EvidenceProfile, Privilege, StateKind};
use echorv::spike::{
    complete_spike_run, normalize_name, parse_privilege, parse_spike_log, spike_command_args,
    first_version_line, spike_version_from_output, timeout_error, trap_cause, SpikeError, SpikeRunOptions,
};

#[test]
fn parses_commit_writes_and_traps() {
    let log = r#"
core   0: 0 0x00000000802001ac (0x18051073) csrw satp, a0
core   0: exception illegal_instruction, epc 0x00000000802001ac
core   0: tval 0x0000000018051073
core   0: 3 0x0000000080000000 (0x34202573) x10 0x0000000000000002
"#;
    let trace = parse_spike_log(log, "rv64imac_zicsr", "firmware.elf").unwrap();
    assert_eq!(trace.events.len(), 2);
    assert_eq!(trace.events[0].privilege, Privilege::U);
    let trap = trace.events[0].trap.as_ref().unwrap();
    assert_eq!(trap.cause, 2);
    assert_eq!(trap.to_privilege, Privilege::M);
    assert_eq!(trace.events[1].writes[0].name, "x10");
}

#[test]
fn synthesizes_an_uncommitted_faulting_instruction() {
    let log = r#"
core   0: exception load_access_fault, epc 0x0000000080200100
core   0: tval 0xffffffffffffffff
core   0: 3 0x0000000080000000 (0x00000013) nop
"#;
    let trace = parse_spike_log(log, "rv64i", "firmware.elf").unwrap();
    assert_eq!(trace.events[0].pc, "0x0000000080200100");
    assert_eq!(trace.events[0].trap.as_ref().unwrap().cause, 5);
}

#[test]
fn records_every_field_of_an_imported_trace() {
    let log = "core   0: 0 0x00000000802001AC (0x18051073) csrw satp, a0\n\
               core   0: exception trap_illegal_instruction, epc 0x00000000802001ac\n\
               core   0: tval 0x0000000018051073\n\
               core   0: 3 0x0000000080000000 (0x34202573) x10 0x00000000000000AB\n";
    let trace = parse_spike_log(log, "RV64IMAC", "fw.elf").unwrap();
    assert_eq!(trace.schema, "echorv.trace.v1");
    assert_eq!(trace.target.architecture, "risc-v");
    assert_eq!(trace.target.xlen, 64);
    assert_eq!(trace.target.isa, "rv64imac");
    assert_eq!(trace.target.platform.as_deref(), Some("spike"));
    assert_eq!(trace.provenance.backend.as_deref(), Some("spike"));
    assert_eq!(trace.provenance.input.as_deref(), Some("fw.elf"));
    assert!(trace.provenance.command.is_empty() && trace.provenance.notes.is_empty());
    let first = &trace.events[0];
    assert_eq!(first.sequence, 0);
    assert_eq!(first.hart, Some(0));
    assert_eq!(first.pc, "0x00000000802001ac");
    assert_eq!(first.instruction, "csrw satp, a0");
    assert_eq!(first.instruction_bytes.as_deref(), Some("0x18051073"));
    let trap = first.trap.as_ref().unwrap();
    assert_eq!(trap.name, "illegal-instruction");
    assert_eq!(trap.tval.as_deref(), Some("0x0000000018051073"));
    assert_eq!(trap.target_pc, "0x0000000080000000");
    assert_eq!(trap.delegated, Some(false));
    let second = &trace.events[1];
    assert_eq!(second.sequence, 1);
    assert_eq!(second.privilege, Privilege::M);
    assert_eq!(second.instruction, "unknown");
    assert_eq!(second.writes.len(), 1);
    assert_eq!(second.writes[0].kind, StateKind::Register);
    assert_eq!(second.writes[0].after, "0x00000000000000ab");
    assert_eq!(second.writes[0].before, None);
}

#[test]
fn reads_csr_memory_and_spaced_register_writes() {
    let log = "core 0: 1 0x80000010 (0x00a12023) c.sw a0 x 5 0x10 csr mstatus 0x8 mem 0x80001000 0x2a\n";
    let trace = parse_spike_log(log, "rv32imac", "fw.elf").unwrap();
    assert_eq!(trace.target.xlen, 32);
    let e = &trace.events[0];
    assert_eq!(e.privilege, Privilege::S);
    let writes: Vec<(StateKind, &str, &str)> =
        e.writes.iter().map(|w| (w.kind, w.name.as_str(), w.after.as_str())).collect();
    assert_eq!(
        writes,
        vec![
            (StateKind::Register, "x5", "0x10"),
            (StateKind::Csr, "mstatus", "0x8"),
            (StateKind::Memory, "mem0x80001000", "0x2a"),
        ]
    );
    assert_eq!(e.instruction, "unknown");
}

#[test]
fn merges_repeated_commit_lines_of_one_instruction() {
    let log = "core 0: 3 0x80000000 (0x00000013) addi x0, x0, 0\n\
               core 0: 3 0x80000000 (0x00000013) x1 0x5\n\
               core 0: 3 0x80000004 (0x00000013)\n";
    let trace = parse_spike_log(log, "rv64i", "fw.elf").unwrap();
    assert_eq!(trace.events.len(), 2);
    assert_eq!(trace.events[0].instruction, "addi x0, x0, 0");
    assert_eq!(trace.events[0].writes.len(), 1);
    assert_eq!(trace.events[1].instruction, "unknown");
    assert_eq!(trace.events[1].sequence, 1);
}

#[test]
fn ignores_lines_that_are_not_commit_records() {
    let log = "bbl loader\n\n  core 0: >>>> trap_vector\ncore 0: 3 0x80000000 (0x13)  nop  \ncore x: 3 0x1 (0x1)\n";
    let trace = parse_spike_log(log, "rv64i", "fw.elf").unwrap();
    assert_eq!(trace.events.len(), 1);
    assert_eq!(trace.events[0].instruction, "nop");
}

#[test]
fn attaches_a_trap_still_pending_at_the_end() {
    let log = "core 0: 0 0x1000 (0x0) ecall\ncore 0: exception trap_user_ecall, epc 0x1000\n";
    let trace = parse_spike_log(log, "rv64i", "fw.elf").unwrap();
    let trap = trace.events[0].trap.as_ref().unwrap();
    assert_eq!(trap.cause, 8);
    assert_eq!(trap.target_pc, "unknown");
    assert_eq!(trap.to_privilege, Privilege::U);
    assert_eq!(trap.delegated, Some(true));
}

#[test]
fn an_empty_log_gives_an_empty_trace() {
    let trace = parse_spike_log("", "rv64i", "fw.elf").unwrap();
    assert!(trace.events.is_empty());
}

#[test]
fn imported_traces_can_be_analyzed() {
    let log = "core 0: 0 0x802001ac (0x18051073) csrw satp, a0\n\
               core 0: exception illegal_instruction, epc 0x802001ac\n\
               core 0: 3 0x80000000 (0x34202573) csr mcause 0x2\n";
    let trace = parse_spike_log(log, "rv64i", "fw.elf").unwrap();
    let evidence = analyze(trace, EvidenceProfile::Trap, 10).unwrap();
    assert_eq!(evidence.summary.matched_trace_events, 1);
    assert_eq!(evidence.events[1].explanation, "trap 2 (illegal-instruction) was raised; tval=not recorded, handler=0x80000000");
}

#[test]
fn normalizes_trap_names() {
    assert_eq!(normalize_name("  trap_Load_Page_Fault "), "load-page-fault");
    assert_eq!(normalize_name("illegal_instruction"), "illegal-instruction");
    assert_eq!(normalize_name("TRAP_x"), "trap-x");
}

#[test]
fn maps_trap_names_to_exception_codes() {
    let cases = [
        ("instruction-address-misaligned", 0),
        ("instruction-access-fault", 1),
        ("illegal-instruction", 2),
        ("breakpoint", 3),
        ("load-address-misaligned", 4),
        ("load-access-fault", 5),
        ("store-address-misaligned", 6),
        ("store-access-fault", 7),
        ("user-ecall", 8),
        ("environment-call-from-u-mode", 8),
        ("supervisor-ecall", 9),
        ("environment-call-from-s-mode", 9),
        ("machine-ecall", 11),
        ("environment-call-from-m-mode", 11),
        ("instruction-page-fault", 12),
        ("load-page-fault", 13),
        ("store-page-fault", 15),
        ("something-else", u64::MAX),
    ];
    for (name, cause) in cases {
        assert_eq!(trap_cause(name), cause, "{name}");
    }
}

#[test]
fn reads_privilege_digits() {
    assert_eq!(parse_privilege("0"), Privilege::U);
    assert_eq!(parse_privilege("1"), Privilege::S);
    assert_eq!(parse_privilege("3"), Privilege::M);
    assert_eq!(parse_privilege("00"), Privilege::M);
}

#[test]
fn builds_the_spike_command_line() {
    let mut options = SpikeRunOptions::default();
    assert_eq!(options.spike, "spike");
    assert_eq!(options.isa, "rv64imac_zicsr");
    assert_eq!(options.timeout_millis, 10_000);
    options.extra_args = vec!["-m0x80000000:0x10000000".to_owned()];
    let args = spike_command_args(&options, "/tmp/log", "fw.elf");
    assert_eq!(
        args,
        vec![
            "--isa=rv64imac_zicsr",
            "-l",
            "--log-commits",
            "--log=/tmp/log",
            "-m0x80000000:0x10000000",
            "fw.elf"
        ]
    );
}

#[test]
fn completes_a_run_with_provenance_and_notes() {
    let options = SpikeRunOptions::default();
    let args = spike_command_args(&options, "/tmp/log", "fw.elf");
    let log = "core 0: 3 0x80000000 (0x00000013) nop\n";
    let trace = complete_spike_run(
        log,
        &options,
        "fw.elf",
        args.clone(),
        Some("Spike RISC-V ISA Simulator 1.1.1-dev".to_owned()),
        false,
        "exit status: 1",
        "  warning  \n",
    )
    .unwrap();
    assert_eq!(trace.provenance.backend_version.as_deref(), Some("Spike RISC-V ISA Simulator 1.1.1-dev"));
    assert_eq!(trace.provenance.command[0], "spike");
    assert_eq!(&trace.provenance.command[1..], &args[..]);
    assert_eq!(
        trace.provenance.notes,
        vec![
            "Spike exited with exit status: 1; evidence was retained because a trace was produced",
            "Spike wrote diagnostic output to stderr"
        ]
    );
    let quiet = complete_spike_run(log, &options, "fw.elf", args, None, true, "exit status: 0", " \n").unwrap();
    assert!(quiet.provenance.notes.is_empty());
}

#[test]
fn a_run_without_events_is_an_error() {
    let options = SpikeRunOptions::default();
    let error = complete_spike_run("bbl\n", &options, "fw.elf", vec![], None, true, "exit status: 0", "  no ELF \n")
        .unwrap_err();
    assert_eq!(error, SpikeError::EmptyTrace { stderr: "no ELF".to_owned() });
}

#[test]
fn reports_the_timeout_in_whole_seconds() {
    let mut options = SpikeRunOptions::default();
    options.timeout_millis = 2_500;
    assert_eq!(timeout_error(&options), SpikeError::Timeout { seconds: 2 });
}

#[test]
fn takes_the_first_version_line() {
    assert_eq!(
        spike_version_from_output(b"\n  Spike 1.1.1 \nmore\n", b"ignored").as_deref(),
        Some("Spike 1.1.1")
    );
    assert_eq!(spike_version_from_output(b"", b"  \nfrom stderr\n").as_deref(), Some("from stderr"));
    assert_eq!(spike_version_from_output(b"", b"").as_deref(), None);
    assert_eq!(
        spike_version_from_output(b"bad \xff byte", b"").as_deref(),
        Some("bad \u{fffd} byte")
    );
}

#[test]
fn reads_the_version_from_decoded_text() {
    assert_eq!(first_version_line("\r\n \t\n Spike RISC-V ISA Simulator 1.1.1-dev \r\nx").as_deref(), Some("Spike RISC-V ISA Simulator 1.1.1-dev"));
    assert_eq!(first_version_line("   \n\t\n").as_deref(), None);
    assert_eq!(first_version_line("last").as_deref(), Some("last"));
}

#[test]
fn inserted_lines_that_say_nothing_change_nothing() {
    let plain = "core   0: 0 0x00000000802001ac (0x18051073) csrw satp, a0\n\
                 core   0: exception illegal_instruction, epc 0x00000000802001ac\n\
                 core   0: tval 0x0000000018051073\n\
                 core   0: 3 0x0000000080000000 (0x34202573) x10 0x0000000000000002\n";
    let padded = "core   0: tval 0x0000000000000bad\n\
                  \n\
                  warning: tohost and fromhost symbols not in ELF\n\
                  core   0: 0 0x00000000802001ac (0x18051073) csrw satp, a0\n\
                  >>>>  main\n\
                  core   0: exception illegal_instruction, epc 0x00000000802001ac\n\
                  core   0: tval 0x0000000018051073\n\
                  core   0: 3 0x0000000080000000 (0x34202573) x10 0x0000000000000002\n";
    let a = parse_spike_log(plain, "rv64imac_zicsr", "fw.elf").unwrap();
    let b = parse_spike_log(padded, "rv64imac_zicsr", "fw.elf").unwrap();
    assert_eq!(format!("{a:?}"), format!("{b:?}"));
    assert_eq!(b.events[0].trap.as_ref().unwrap().tval.as_deref(), Some("0x0000000018051073"));
}

#[test]
fn a_silent_last_line_without_a_break_changes_nothing() {
    let plain = "core   0: 0 0x00000000802001ac (0x18051073) csrw satp, a0";
    let padded = "core   0: 0 0x00000000802001ac (0x18051073) csrw satp, a0\n>>>>  exit";
    let a = parse_spike_log(plain, "rv64i", "fw.elf").unwrap();
    let b = parse_spike_log(padded, "rv64i", "fw.elf").unwrap();
    assert_eq!(format!("{a:?}"), format!("{b:?}"));
    assert_eq!(a.events.len(), 1);
}
