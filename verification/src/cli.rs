//! Command-line value parsing and the human-readable renderings of evidence and ELF reports.

use crate::elf::{ElfInfo, ElfInfoModel, ElfSymbolModel};
use crate::model::{
    opt_str, strs, Confidence, EvidenceDocument, EvidenceDocumentModel, EvidenceEvent, EvidenceEventModel,
    EvidenceKind,
};
use crate::text::{
    chars_of, decimal, join, join_strings, lemma_join_prefix, parse_unsigned, parse_unsigned_exec,
    push_decimal,
};
use vstd::prelude::*;

verus! {

/// The result of a command-line number parser: the number, or the message to report.
pub open spec fn number_result(r: Result<u64, String>) -> Result<u64, Seq<char>> {
    match r {
        Ok(v) => Ok(v),
        Err(m) => Err(m@),
    }
}

/// `parse_limit`: an evidence limit, which must be a positive `usize`.
pub open spec fn limit_value(text: Seq<char>) -> Result<usize, Seq<char>> {
    match parse_unsigned(text, 10, usize::MAX as nat) {
        None => Err("limit must be a positive integer"@),
        Some(v) => if v == 0 {
            Err("limit must be greater than zero"@)
        } else {
            Ok(v as usize)
        },
    }
}

/// `parse_limit`: reads an evidence limit.
pub fn parse_limit(value: &str) -> (r: Result<usize, String>)
    ensures
        match r {
            Ok(v) => limit_value(value@) == Ok::<usize, Seq<char>>(v),
            Err(m) => limit_value(value@) == Err::<usize, Seq<char>>(m@),
        },
{
    let v = chars_of(value);
    match parse_unsigned_exec(v.as_slice(), 10, usize::MAX as u64) {
        None => Err(String::from_str("limit must be a positive integer")),
        Some(n) => {
            if n == 0 {
                Err(String::from_str("limit must be greater than zero"))
            } else {
                Ok(n as usize)
            }
        },
    }
}

/// `parse_positive_u64`: a positive `u64` option value.
pub open spec fn positive_value(text: Seq<char>) -> Result<u64, Seq<char>> {
    match parse_unsigned(text, 10, u64::MAX as nat) {
        None => Err("value must be a positive integer"@),
        Some(v) => if v == 0 {
            Err("value must be greater than zero"@)
        } else {
            Ok(v as u64)
        },
    }
}

/// `parse_positive_u64`: reads a positive number, such as a timeout in seconds.
pub fn parse_positive_u64(value: &str) -> (r: Result<u64, String>)
    ensures
        number_result(r) == positive_value(value@),
{
    let v = chars_of(value);
    match parse_unsigned_exec(v.as_slice(), 10, u64::MAX) {
        None => Err(String::from_str("value must be a positive integer")),
        Some(n) => {
            if n == 0 {
                Err(String::from_str("value must be greater than zero"))
            } else {
                Ok(n)
            }
        },
    }
}

/// The `Debug` name of an evidence kind.
pub open spec fn kind_name(k: EvidenceKind) -> Seq<char> {
    match k {
        EvidenceKind::Instruction => "Instruction"@,
        EvidenceKind::StateChange => "StateChange"@,
        EvidenceKind::Trap => "Trap"@,
        EvidenceKind::PrivilegeTransition => "PrivilegeTransition"@,
        EvidenceKind::Candidate => "Candidate"@,
    }
}

/// The header line of the human rendering.
pub open spec fn human_header(d: EvidenceDocumentModel) -> Seq<char> {
    "EchoRV evidence | "@ + d.target.isa + " | RV"@ + decimal(d.target.xlen as nat)
        + " | profile="@ + d.profile + " | "@ + decimal(d.summary.emitted_evidence_events as nat)
        + "/"@ + decimal(d.summary.total_evidence_events as nat) + " events"@ + (if d.summary.truncated {
        " (truncated)"@
    } else {
        Seq::empty()
    })
}

/// The `Debug` name of a confidence.
pub open spec fn confidence_name(c: Confidence) -> Seq<char> {
    match c {
        Confidence::Observed => "Observed"@,
        Confidence::Derived => "Derived"@,
        Confidence::Inferred => "Inferred"@,
    }
}

/// Where an evidence event happened: ` @ file:line` and ` (symbol)` where it has a source
/// location (`?` for an unknown line), ` @ symbol` where it has only a symbol, else nothing.
pub open spec fn location_text(e: EvidenceEventModel) -> Seq<char> {
    match e.source {
        Some(src) => " @ "@ + src.file + ":"@ + (match src.line {
            Some(l) => decimal(l as nat),
            None => "?"@,
        }) + (match e.symbol {
            Some(sym) => " ("@ + sym + ")"@,
            None => Seq::empty(),
        }),
        None => match e.symbol {
            Some(sym) => " @ "@ + sym,
            None => Seq::empty(),
        },
    }
}

/// The line of one evidence event: identifier, kind and confidence, explanation, location and
/// its causes.
pub open spec fn human_event_line(e: EvidenceEventModel) -> Seq<char> {
    e.id + " ["@ + kind_name(e.kind) + "/"@ + confidence_name(e.confidence) + "] "@ + e.explanation
        + location_text(e) + (if e.caused_by.len() == 0 {
        Seq::empty()
    } else {
        " <- "@ + join(e.caused_by, ","@)
    })
}

/// `render_human`: the header, one line per evidence event and one per warning.
pub open spec fn human_text(d: EvidenceDocumentModel) -> Seq<char> {
    join(
        seq![human_header(d)] + d.events.map_values(|e: EvidenceEventModel| human_event_line(e))
            + d.warnings.map_values(|w: Seq<char>| "warning: "@ + w),
        "\n"@,
    )
}

fn kind_text(k: EvidenceKind) -> (r: String)
    ensures
        r@ == kind_name(k),
{
    match k {
        EvidenceKind::Instruction => String::from_str("Instruction"),
        EvidenceKind::StateChange => String::from_str("StateChange"),
        EvidenceKind::Trap => String::from_str("Trap"),
        EvidenceKind::PrivilegeTransition => String::from_str("PrivilegeTransition"),
        EvidenceKind::Candidate => String::from_str("Candidate"),
    }
}

fn confidence_text(c: Confidence) -> (r: &'static str)
    ensures
        r@ == confidence_name(c),
{
    match c {
        Confidence::Observed => "Observed",
        Confidence::Derived => "Derived",
        Confidence::Inferred => "Inferred",
    }
}

fn push_location(line: &mut String, e: &EvidenceEvent)
    ensures
        final(line)@ == old(line)@ + location_text(e@),
{
    match &e.source {
        Some(src) => {
            line.append(" @ ");
            line.append(src.file.as_str());
            line.append(":");
            match src.line {
                Some(l) => push_decimal(line, l as u64),
                None => line.append("?"),
            }
            match &e.symbol {
                Some(sym) => {
                    line.append(" (");
                    line.append(sym.as_str());
                    line.append(")");
                },
                None => {},
            }
        },
        None => match &e.symbol {
            Some(sym) => {
                line.append(" @ ");
                line.append(sym.as_str());
            },
            None => {},
        },
    }
}

/// `render_human`: renders evidence for people.
pub fn render_human(evidence: &EvidenceDocument) -> (r: String)
    ensures
        r@ == human_text(evidence@),
{
    let ghost d = evidence@;
    let mut header = String::from_str("EchoRV evidence | ");
    header.append(evidence.target.isa.as_str());
    header.append(" | RV");
    push_decimal(&mut header, evidence.target.xlen as u64);
    header.append(" | profile=");
    header.append(evidence.profile.as_str());
    header.append(" | ");
    push_decimal(&mut header, evidence.summary.emitted_evidence_events as u64);
    header.append("/");
    push_decimal(&mut header, evidence.summary.total_evidence_events as u64);
    header.append(" events");
    if evidence.summary.truncated {
        header.append(" (truncated)");
    }
    assert(header@ =~= human_header(d));
    let mut lines: Vec<String> = Vec::new();
    lines.push(header);
    let ghost head = seq![human_header(d)];
    assert(strs(lines@) =~= head);
    let mut i: usize = 0;
    while i < evidence.events.len()
        invariant
            i <= evidence.events@.len(),
            d == evidence@,
            strs(lines@) == head + d.events.take(i as int).map_values(
                |e: EvidenceEventModel| human_event_line(e),
            ),
        decreases evidence.events@.len() - i,
    {
        let e = &evidence.events[i];
        assert(d.events[i as int] == e@);
        let mut line = e.id.clone();
        line.append(" [");
        let k = kind_text(e.kind);
        line.append(k.as_str());
        line.append("/");
        line.append(confidence_text(e.confidence));
        line.append("] ");
        line.append(e.explanation.as_str());
        push_location(&mut line, e);
        if e.caused_by.len() > 0 {
            line.append(" <- ");
            let c = join_strings(&e.caused_by, ",");
            line.append(c.as_str());
        }
        assert(line@ =~= human_event_line(e@));
        let ghost before = strs(lines@);
        lines.push(line);
        assert(strs(lines@) =~= before.push(line@));
        assert(d.events.take(i + 1) =~= d.events.take(i as int).push(e@));
        assert(strs(lines@) =~= head + d.events.take(i + 1).map_values(
            |e: EvidenceEventModel| human_event_line(e),
        ));
        i = i + 1;
    }
    assert(d.events.take(evidence.events@.len() as int) =~= d.events);
    let ghost mid = strs(lines@);
    let mut j: usize = 0;
    while j < evidence.warnings.len()
        invariant
            j <= evidence.warnings@.len(),
            d == evidence@,
            strs(lines@) == mid + d.warnings.take(j as int).map_values(
                |w: Seq<char>| "warning: "@ + w,
            ),
        decreases evidence.warnings@.len() - j,
    {
        let mut line = String::from_str("warning: ");
        line.append(evidence.warnings[j].as_str());
        let ghost before = strs(lines@);
        assert(d.warnings[j as int] == evidence.warnings@[j as int]@);
        lines.push(line);
        assert(strs(lines@) =~= before.push(line@));
        assert(d.warnings.take(j + 1) =~= d.warnings.take(j as int).push(d.warnings[j as int]));
        assert(strs(lines@) =~= mid + d.warnings.take(j + 1).map_values(
            |w: Seq<char>| "warning: "@ + w,
        ));
        j = j + 1;
    }
    assert(d.warnings.take(evidence.warnings@.len() as int) =~= d.warnings);
    let r = join_strings(&lines, "\n");
    assert(lines@.map_values(|s: String| s@) =~= strs(lines@));
    r
}

/// The line of one symbol in the ELF rendering.
pub open spec fn elf_symbol_line(s: ElfSymbolModel) -> Seq<char> {
    "  "@ + s.address + " "@ + s.name + " +"@ + decimal(s.size as nat) + " ("@ + s.kind + ")"@
}

/// `render_elf`: the summary lines, the first 20 symbols and a count of the rest.
pub open spec fn elf_text(info: ElfInfoModel) -> Seq<char> {
    let summary = seq![
        "ELF: "@ + info.path,
        "Architecture: "@ + info.architecture + " (RV"@ + decimal(info.xlen as nat) + ")"@,
        "Entry point: "@ + info.entry_point,
        "Endianness: "@ + (if info.little_endian {
            "little"@
        } else {
            "big"@
        }),
        "DWARF: "@ + (if info.has_dwarf {
            "present"@
        } else {
            "absent"@
        }),
        "Loadable segments: "@ + decimal(info.loadable_segments as nat),
        "Symbols: "@ + decimal(info.symbols.len()),
    ];
    let shown = if info.symbols.len() > 20 {
        info.symbols.take(20)
    } else {
        info.symbols
    };
    let rest: Seq<Seq<char>> = if info.symbols.len() > 20 {
        seq!["  ... "@ + decimal((info.symbols.len() - 20) as nat) + " more"@]
    } else {
        Seq::empty()
    };
    join(summary + shown.map_values(|s: ElfSymbolModel| elf_symbol_line(s)) + rest, "\n"@)
}

/// `render_elf`: renders an ELF report for people.
pub fn render_elf(info: &ElfInfo) -> (r: String)
    ensures
        r@ == elf_text(info@),
{
    let ghost d = info@;
    let mut lines: Vec<String> = Vec::new();
    let mut l1 = String::from_str("ELF: ");
    l1.append(info.path.as_str());
    lines.push(l1);
    let mut l2 = String::from_str("Architecture: ");
    l2.append(info.architecture.as_str());
    l2.append(" (RV");
    push_decimal(&mut l2, info.xlen as u64);
    l2.append(")");
    lines.push(l2);
    let mut l3 = String::from_str("Entry point: ");
    l3.append(info.entry_point.as_str());
    lines.push(l3);
    let mut l4 = String::from_str("Endianness: ");
    if info.little_endian {
        l4.append("little");
    } else {
        l4.append("big");
    }
    lines.push(l4);
    let mut l5 = String::from_str("DWARF: ");
    if info.has_dwarf {
        l5.append("present");
    } else {
        l5.append("absent");
    }
    lines.push(l5);
    let mut l6 = String::from_str("Loadable segments: ");
    push_decimal(&mut l6, info.loadable_segments as u64);
    lines.push(l6);
    let mut l7 = String::from_str("Symbols: ");
    push_decimal(&mut l7, info.symbols.len() as u64);
    lines.push(l7);
    let ghost summary = seq![
        "ELF: "@ + d.path,
        "Architecture: "@ + d.architecture + " (RV"@ + decimal(d.xlen as nat) + ")"@,
        "Entry point: "@ + d.entry_point,
        "Endianness: "@ + (if d.little_endian {
            "little"@
        } else {
            "big"@
        }),
        "DWARF: "@ + (if d.has_dwarf {
            "present"@
        } else {
            "absent"@
        }),
        "Loadable segments: "@ + decimal(d.loadable_segments as nat),
        "Symbols: "@ + decimal(d.symbols.len()),
    ];
    assert(strs(lines@) =~= summary);
    let n = info.symbols.len();
    let shown_count: usize = if n > 20 {
        20
    } else {
        n
    };
    let ghost shown = d.symbols.take(shown_count as int);
    let mut i: usize = 0;
    while i < shown_count
        invariant
            i <= shown_count <= info.symbols@.len(),
            n == info.symbols@.len(),
            d == info@,
            shown == d.symbols.take(shown_count as int),
            strs(lines@) == summary + shown.take(i as int).map_values(
                |s: ElfSymbolModel| elf_symbol_line(s),
            ),
        decreases shown_count - i,
    {
        let s = &info.symbols[i];
        assert(shown[i as int] == s@);
        let mut line = String::from_str("  ");
        line.append(s.address.as_str());
        line.append(" ");
        line.append(s.name.as_str());
        line.append(" +");
        push_decimal(&mut line, s.size);
        line.append(" (");
        line.append(s.kind.as_str());
        line.append(")");
        let ghost before = strs(lines@);
        lines.push(line);
        assert(strs(lines@) =~= before.push(line@));
        assert(shown.take(i + 1) =~= shown.take(i as int).push(s@));
        assert(strs(lines@) =~= summary + shown.take(i + 1).map_values(
            |s: ElfSymbolModel| elf_symbol_line(s),
        ));
        i = i + 1;
    }
    assert(shown.take(shown_count as int) =~= shown);
    let ghost body = strs(lines@);
    if n > 20 {
        let mut more = String::from_str("  ... ");
        push_decimal(&mut more, (n - 20) as u64);
        more.append(" more");
        lines.push(more);
        assert(strs(lines@) =~= body.push(more@));
    }
    proof {
        if n <= 20 {
            assert(shown =~= d.symbols);
        }
        let rest: Seq<Seq<char>> = if d.symbols.len() > 20 {
            seq!["  ... "@ + decimal((d.symbols.len() - 20) as nat) + " more"@]
        } else {
            Seq::empty()
        };
        assert(strs(lines@) =~= summary + shown.map_values(|s: ElfSymbolModel| elf_symbol_line(s))
            + rest);
    }
    let r = join_strings(&lines, "\n");
    assert(lines@.map_values(|s: String| s@) =~= strs(lines@));
    r
}

/// `doctor`: the report for people, given this program's version and the version line Spike
/// printed, if it could be run.
pub open spec fn doctor_text(version: Seq<char>, spike: Option<Seq<char>>) -> Seq<char> {
    "EchoRV "@ + version + "\nSpike: "@ + match spike {
        Some(v) => "available ("@ + v + ")"@,
        None => "unavailable (not found)"@,
    }
}

/// `doctor`: the report for people, and whether Spike is available (the command fails where
/// it is not).
pub fn doctor_report(version: &str, spike: &Option<String>) -> (r: (String, bool))
    ensures
        r.0@ == doctor_text(version@, opt_str(*spike)),
        r.1 == (spike is Some),
{
    let mut text = String::from_str("EchoRV ");
    text.append(version);
    text.append("\nSpike: ");
    match spike {
        Some(v) => {
            text.append("available (");
            text.append(v.as_str());
            text.append(")");
            (text, true)
        },
        None => {
            text.append("unavailable (not found)");
            (text, false)
        },
    }
}

/// Whether `line` stands in `t` at index `q` as a whole line between two line breaks.
pub open spec fn whole_line_at(t: Seq<char>, q: int, line: Seq<char>) -> bool {
    &&& 0 < q
    &&& q + line.len() < t.len()
    &&& t[q - 1] == '\n'
    &&& t.subrange(q, q + line.len()) == line
    &&& t[q + line.len()] == '\n'
}

/// The ELF report says whether DWARF is present: it holds a whole line `DWARF: present` when
/// the ELF has debug information and a whole line `DWARF: absent` when it has none.
pub proof fn law_elf_report_dwarf_line(info: ElfInfoModel)
    ensures
        info.has_dwarf ==> exists|q: int|
            #[trigger] whole_line_at(elf_text(info), q, "DWARF: present"@),
        !info.has_dwarf ==> exists|q: int|
            #[trigger] whole_line_at(elf_text(info), q, "DWARF: absent"@),
{
    reveal_strlit("DWARF: present");
    reveal_strlit("DWARF: absent");
    reveal_strlit("DWARF: ");
    reveal_strlit("present");
    reveal_strlit("absent");
    reveal_strlit("\n");
    let t = elf_text(info);
    let summary = seq![
        "ELF: "@ + info.path,
        "Architecture: "@ + info.architecture + " (RV"@ + decimal(info.xlen as nat) + ")"@,
        "Entry point: "@ + info.entry_point,
        "Endianness: "@ + (if info.little_endian {
            "little"@
        } else {
            "big"@
        }),
        "DWARF: "@ + (if info.has_dwarf {
            "present"@
        } else {
            "absent"@
        }),
        "Loadable segments: "@ + decimal(info.loadable_segments as nat),
        "Symbols: "@ + decimal(info.symbols.len()),
    ];
    let shown = if info.symbols.len() > 20 {
        info.symbols.take(20)
    } else {
        info.symbols
    };
    let rest: Seq<Seq<char>> = if info.symbols.len() > 20 {
        seq!["  ... "@ + decimal((info.symbols.len() - 20) as nat) + " more"@]
    } else {
        Seq::empty()
    };
    let items = summary + shown.map_values(|s: ElfSymbolModel| elf_symbol_line(s)) + rest;
    let sep = "\n"@;
    assert(t == join(items, sep));
    let line = if info.has_dwarf {
        "DWARF: present"@
    } else {
        "DWARF: absent"@
    };
    assert(items[4] =~= line);
    let a = join(items.take(4), sep);
    let b = join(items.take(5), sep);
    let c = join(items.take(6), sep);
    assert(items.take(5).drop_last() =~= items.take(4));
    assert(items.take(6).drop_last() =~= items.take(5));
    assert(b == a + sep + items[4]);
    assert(c == b + sep + items[5]);
    lemma_join_prefix(items, sep, 6);
    let q: int = a.len() as int + 1;
    assert(t.take(c.len() as int) == c);
    assert(b.len() == q + line.len());
    assert(c.len() > b.len());
    assert(c[q - 1] == '\n');
    assert(c[q + line.len()] == '\n');
    assert(t[q - 1] == t.take(c.len() as int)[q - 1]);
    assert(t[q - 1] == c[q - 1]);
    let e: int = q + line.len();
    assert(t[e] == t.take(c.len() as int)[e]);
    assert(t[e] == c[e]);
    assert(t.subrange(q, q + line.len()) =~= line) by {
        assert forall|m: int| 0 <= m < line.len() implies #[trigger] t.subrange(
            q,
            q + line.len(),
        )[m] == line[m] by {
            assert(t[q + m] == t.take(c.len() as int)[q + m]);
            assert(c[q + m] == b[q + m]);
            assert(b[q + m] == items[4][m]);
        }
    }
    assert(whole_line_at(t, q, line));
    if info.has_dwarf {
        assert(whole_line_at(elf_text(info), q, "DWARF: present"@));
    } else {
        assert(whole_line_at(elf_text(info), q, "DWARF: absent"@));
    }
}

/// The header of the human rendering is its first line, and it ends with ` (truncated)`
/// exactly when the evidence was cut at the limit; otherwise it ends with ` events`.
pub proof fn law_human_header_marks_truncation(d: EvidenceDocumentModel)
    ensures
        ({
            let t = human_text(d);
            let h = human_header(d);
            &&& h.len() <= t.len()
            &&& t.take(h.len() as int) == h
            &&& h.len() == t.len() || t[h.len() as int] == '\n'
            &&& d.summary.truncated ==> h.len() >= 12 && h.subrange(h.len() - 12, h.len() as int)
                == " (truncated)"@
            &&& !d.summary.truncated ==> h.len() >= 7 && h.subrange(h.len() - 7, h.len() as int)
                == " events"@
        }),
{
    reveal_strlit(" (truncated)");
    reveal_strlit(" events");
    reveal_strlit("\n");
    let h = human_header(d);
    let items = seq![h] + d.events.map_values(|e: EvidenceEventModel| human_event_line(e))
        + d.warnings.map_values(|w: Seq<char>| "warning: "@ + w);
    let sep = "\n"@;
    assert(items.take(1) =~= seq![h]);
    assert(join(items.take(1), sep) == h);
    lemma_join_prefix(items, sep, 1);
    if items.len() > 1 {
        let t = human_text(d);
        let hl: int = h.len() as int;
        assert(t.subrange(hl, hl + 1) == sep);
        assert(t[hl] == t.subrange(hl, hl + 1)[0]);
    } else {
        assert(items =~= seq![h]);
    }
    let base = "EchoRV evidence | "@ + d.target.isa + " | RV"@ + decimal(d.target.xlen as nat)
        + " | profile="@ + d.profile + " | "@ + decimal(d.summary.emitted_evidence_events as nat)
        + "/"@ + decimal(d.summary.total_evidence_events as nat) + " events"@;
    if d.summary.truncated {
        assert(h == base + " (truncated)"@);
        assert(h.subrange(h.len() - 12, h.len() as int) =~= " (truncated)"@);
    } else {
        assert(h =~= base);
        assert(h.subrange(h.len() - 7, h.len() as int) =~= " events"@);
    }
}

} // verus!