//! The log reader checked against the regular expressions that define the Spike log grammar.

use echorv::model::{Privilege, Provenance, StateKind, StateWrite, Target, TraceDocument, TraceEvent, Trap};
use echorv::spike::{normalize_name, parse_spike_log, trap_cause};
use regex::Regex;

struct Pending {
    name: String,
    epc: String,
    tval: Option<String>,
    from: Privilege,
}

fn attach(events: &mut Vec<TraceEvent>, p: Pending, target_pc: &str, to: Privilege) {
    let trap = Trap {
        cause: trap_cause(&p.name),
        name: p.name.clone(),
        tval: p.tval.clone(),
        target_pc: target_pc.to_owned(),
        to_privilege: to,
        delegated: Some(to != Privilege::M),
    };
    if let Some(e) = events.iter_mut().rev().find(|e| e.pc == p.epc) {
        e.trap = Some(trap);
        return;
    }
    events.push(TraceEvent {
        sequence: events.len() as u64,
        hart: Some(0),
        pc: p.epc,
        instruction: "uncommitted faulting instruction".to_owned(),
        instruction_bytes: p.tval,
        privilege: p.from,
        symbol: None,
        source: None,
        writes: vec![],
        trap: Some(trap),
    });
}

fn grammar_reader(contents: &str, isa: &str, input: &str) -> TraceDocument {
    let instruction = Regex::new(
        r"^core\s+(?P<hart>\d+):\s+(?:(?P<priv>[013])\s+)?(?P<pc>0x[0-9a-fA-F]+)\s+\((?P<bits>0x[0-9a-fA-F]+)\)(?:\s+(?P<tail>.*))?$",
    )
    .unwrap();
    let exception =
        Regex::new(r"^core\s+\d+:\s+exception\s+(?P<name>[^,]+),\s+epc\s+(?P<epc>0x[0-9a-fA-F]+)").unwrap();
    let tval = Regex::new(r"^core\s+\d+:\s+tval\s+(?P<tval>0x[0-9a-fA-F]+)").unwrap();
    let write = Regex::new(
        r"(?P<name>(?:x|f|v)\s*\d+|csr\s+[A-Za-z0-9_]+|mem\s+0x[0-9a-fA-F]+)\s+(?P<value>0x[0-9a-fA-F]+)",
    )
    .unwrap();
    let mut events: Vec<TraceEvent> = Vec::new();
    let mut pending: Option<Pending> = None;
    let mut current = Privilege::M;
    for line in contents.lines().map(str::trim) {
        if let Some(c) = exception.captures(line) {
            pending = Some(Pending {
                name: normalize_name(&c["name"]),
                epc: c["epc"].to_ascii_lowercase(),
                tval: None,
                from: current,
            });
            continue;
        }
        if let Some(c) = tval.captures(line) {
            if let Some(p) = pending.as_mut() {
                p.tval = Some(c["tval"].to_ascii_lowercase());
            }
            continue;
        }
        let Some(c) = instruction.captures(line) else {
            continue;
        };
        let privilege = c
            .name("priv")
            .map(|v| match v.as_str() {
                "0" => Privilege::U,
                "1" => Privilege::S,
                _ => Privilege::M,
            })
            .unwrap_or(current);
        current = privilege;
        let pc = c["pc"].to_ascii_lowercase();
        let bits = c["bits"].to_ascii_lowercase();
        let tail = c.name("tail").map(|v| v.as_str().trim()).unwrap_or_default();
        if let Some(p) = pending.take() {
            attach(&mut events, p, &pc, privilege);
        }
        let writes: Vec<StateWrite> = write
            .captures_iter(tail)
            .map(|w| {
                let raw = w["name"].replace(' ', "");
                let (kind, name) = if let Some(n) = raw.strip_prefix("csr") {
                    (StateKind::Csr, n.to_owned())
                } else if raw.starts_with("mem") {
                    (StateKind::Memory, raw)
                } else {
                    (StateKind::Register, raw)
                };
                StateWrite { kind, name, before: None, after: w["value"].to_ascii_lowercase() }
            })
            .collect();
        let has_disassembly = !tail.is_empty() && writes.is_empty();
        if let Some(last) = events
            .last_mut()
            .filter(|e| e.pc == pc && e.instruction_bytes.as_deref() == Some(bits.as_str()))
        {
            last.privilege = privilege;
            last.writes.extend(writes);
            if has_disassembly {
                last.instruction = tail.to_owned();
            }
            continue;
        }
        events.push(TraceEvent {
            sequence: events.len() as u64,
            hart: c["hart"].parse().ok(),
            pc,
            instruction: if has_disassembly { tail.to_owned() } else { "unknown".to_owned() },
            instruction_bytes: Some(bits),
            privilege,
            symbol: None,
            source: None,
            writes,
            trap: None,
        });
    }
    if let Some(p) = pending {
        attach(&mut events, p, "unknown", current);
    }
    for (i, e) in events.iter_mut().enumerate() {
        e.sequence = i as u64;
    }
    TraceDocument {
        schema: "echorv.trace.v1".to_owned(),
        target: Target {
            architecture: "risc-v".to_owned(),
            xlen: if isa.to_ascii_lowercase().starts_with("rv32") { 32 } else { 64 },
            isa: isa.to_ascii_lowercase(),
            platform: Some("spike".to_owned()),
        },
        provenance: Provenance {
            backend: Some("spike".to_owned()),
            backend_version: None,
            input: Some(input.to_owned()),
            command: vec![],
            notes: vec![],
        },
        events,
    }
}

fn same(log: &str) {
    let ours = parse_spike_log(log, "rv64imac_zicsr", "fw.elf").unwrap();
    let reference = grammar_reader(log, "rv64imac_zicsr", "fw.elf");
    assert_eq!(format!("{ours:#?}"), format!("{reference:#?}"), "log:\n{log}");
}

#[test]
fn reads_logs_as_the_grammar_defines() {
    let logs = [
        "core   0: 0 0x00000000802001ac (0x18051073) csrw satp, a0\n\
         core   0: exception illegal_instruction, epc 0x00000000802001ac\n\
         core   0: tval 0x0000000018051073\n\
         core   0: 3 0x0000000080000000 (0x34202573) x10 0x0000000000000002\n",
        "core 0: exception load_access_fault, epc 0x0000000080200100\n\
         core 0: tval 0xffffffffffffffff\ncore 0: 3 0x0000000080000000 (0x00000013) nop\n",
        "core 0: 1 0x80000010 (0x00a12023) c.sw a0 x 5 0x10 csr mstatus 0x8 mem 0x80001000 0x2a\n",
        "core\t0:\t0x80000000\t(0x13)\tf1 0xA v 2\t0xb\r\ncore 0: 3 0x80000000 (0x13) x1 0x1\n",
        "core 0: exception  , epc 0x10\ncore 0: 0 0x10 (0x0)\n",
        "core 0: exception ,  epc 0x10\ncore 0: 0x10 (0x0)\n",
        "core 0: exception Load Page Fault , epc 0X10 trailing\ncore 0: 1 0x20 (0x0) \n",
        "core \u{0661}: 3 0x100 (0x13) nop\ncore 12345678901: 3 0x104 (0x13) nop\n",
        "core 0: 3 0x100 (0x13)x1 0x1\ncore 0: 2 0x100 (0x13) nop\ncore 0:3 0x1 (0x1)\n",
        "core 0: 3 0x100 (0x13) x\u{0663} 0x1 x12 0x 0xfoo csr 0x1 mem0x1 0x2 mem 0x1 0x2\n",
        "core 0: 0 0x100 (0x13) ecall\ncore 0: exception trap_user_ecall, epc 0x100\n",
        "core 0: tval 0x5\ncore 0: exception a_b, epc 0x200\ncore 0: tval 0x6\ncore 0: tval 0x7\n\
         core 0: 3 0x300 (0x1)\ncore 0: 3 0x300 (0x1) addi a0, a0, 1\ncore 0: 3 0x300 (0x2)\n",
        "\u{3000}core 0: 3 0x300 (0x1) \u{2003}li a0, 1\u{00a0}\n",
        "",
        "\n\n",
    ];
    for log in logs {
        same(log);
    }
}
