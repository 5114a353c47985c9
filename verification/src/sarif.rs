//! The diagnostic vocabulary of SARIF output: rule identifiers, descriptions and the rule set
//! of a run.

use crate::model::{
    evidence_view, DiagnosticCode, EvidenceDocument, EvidenceEvent,
    EvidenceEventModel,
};
use vstd::prelude::*;

verus! {

/// Every diagnostic code, in declaration order.
pub open spec fn all_codes() -> Seq<DiagnosticCode> {
    seq![
        DiagnosticCode::InstructionAddressMisaligned,
        DiagnosticCode::InstructionAccessFault,
        DiagnosticCode::IllegalInstruction,
        DiagnosticCode::Breakpoint,
        DiagnosticCode::LoadAddressMisaligned,
        DiagnosticCode::LoadAccessFault,
        DiagnosticCode::StoreAddressMisaligned,
        DiagnosticCode::StoreAccessFault,
        DiagnosticCode::EnvironmentCall,
        DiagnosticCode::InstructionPageFault,
        DiagnosticCode::LoadPageFault,
        DiagnosticCode::StorePageFault,
        DiagnosticCode::UnknownTrap,
    ]
}

/// The SARIF rule identifier of a code: its name in kebab case.
pub open spec fn diagnostic_name(d: DiagnosticCode) -> Seq<char> {
    match d {
        DiagnosticCode::InstructionAddressMisaligned => "instruction-address-misaligned"@,
        DiagnosticCode::InstructionAccessFault => "instruction-access-fault"@,
        DiagnosticCode::IllegalInstruction => "illegal-instruction"@,
        DiagnosticCode::Breakpoint => "breakpoint"@,
        DiagnosticCode::LoadAddressMisaligned => "load-address-misaligned"@,
        DiagnosticCode::LoadAccessFault => "load-access-fault"@,
        DiagnosticCode::StoreAddressMisaligned => "store-address-misaligned"@,
        DiagnosticCode::StoreAccessFault => "store-access-fault"@,
        DiagnosticCode::EnvironmentCall => "environment-call"@,
        DiagnosticCode::InstructionPageFault => "instruction-page-fault"@,
        DiagnosticCode::LoadPageFault => "load-page-fault"@,
        DiagnosticCode::StorePageFault => "store-page-fault"@,
        DiagnosticCode::UnknownTrap => "unknown-trap"@,
    }
}

/// `diagnostic_id`: the SARIF rule identifier of a code.
pub fn diagnostic_id(d: DiagnosticCode) -> (r: String)
    ensures
        r@ == diagnostic_name(d),
{
    let s = match d {
        DiagnosticCode::InstructionAddressMisaligned => "instruction-address-misaligned",
        DiagnosticCode::InstructionAccessFault => "instruction-access-fault",
        DiagnosticCode::IllegalInstruction => "illegal-instruction",
        DiagnosticCode::Breakpoint => "breakpoint",
        DiagnosticCode::LoadAddressMisaligned => "load-address-misaligned",
        DiagnosticCode::LoadAccessFault => "load-access-fault",
        DiagnosticCode::StoreAddressMisaligned => "store-address-misaligned",
        DiagnosticCode::StoreAccessFault => "store-access-fault",
        DiagnosticCode::EnvironmentCall => "environment-call",
        DiagnosticCode::InstructionPageFault => "instruction-page-fault",
        DiagnosticCode::LoadPageFault => "load-page-fault",
        DiagnosticCode::StorePageFault => "store-page-fault",
        DiagnosticCode::UnknownTrap => "unknown-trap",
    };
    String::from_str(s)
}

/// The short description of a SARIF rule.
pub open spec fn description_of(d: DiagnosticCode) -> Seq<char> {
    match d {
        DiagnosticCode::InstructionAddressMisaligned => "Instruction address is misaligned"@,
        DiagnosticCode::InstructionAccessFault => "Instruction fetch access fault"@,
        DiagnosticCode::IllegalInstruction => "Illegal instruction trap"@,
        DiagnosticCode::Breakpoint => "Breakpoint trap"@,
        DiagnosticCode::LoadAddressMisaligned => "Load address is misaligned"@,
        DiagnosticCode::LoadAccessFault => "Load access fault"@,
        DiagnosticCode::StoreAddressMisaligned => "Store address is misaligned"@,
        DiagnosticCode::StoreAccessFault => "Store access fault"@,
        DiagnosticCode::EnvironmentCall => "Environment call trap"@,
        DiagnosticCode::InstructionPageFault => "Instruction page fault"@,
        DiagnosticCode::LoadPageFault => "Load page fault"@,
        DiagnosticCode::StorePageFault => "Store page fault"@,
        DiagnosticCode::UnknownTrap => "Unknown RISC-V trap"@,
    }
}

/// `diagnostic_description`: the short description of a SARIF rule.
pub fn diagnostic_description(d: DiagnosticCode) -> (r: &'static str)
    ensures
        r@ == description_of(d),
{
    match d {
        DiagnosticCode::InstructionAddressMisaligned => "Instruction address is misaligned",
        DiagnosticCode::InstructionAccessFault => "Instruction fetch access fault",
        DiagnosticCode::IllegalInstruction => "Illegal instruction trap",
        DiagnosticCode::Breakpoint => "Breakpoint trap",
        DiagnosticCode::LoadAddressMisaligned => "Load address is misaligned",
        DiagnosticCode::LoadAccessFault => "Load access fault",
        DiagnosticCode::StoreAddressMisaligned => "Store address is misaligned",
        DiagnosticCode::StoreAccessFault => "Store access fault",
        DiagnosticCode::EnvironmentCall => "Environment call trap",
        DiagnosticCode::InstructionPageFault => "Instruction page fault",
        DiagnosticCode::LoadPageFault => "Load page fault",
        DiagnosticCode::StorePageFault => "Store page fault",
        DiagnosticCode::UnknownTrap => "Unknown RISC-V trap",
    }
}

/// Whether some event carries the diagnostic `d`.
pub open spec fn carries(diagnostics: Seq<Option<DiagnosticCode>>, d: DiagnosticCode) -> bool {
    exists|i: int| 0 <= i < diagnostics.len() && diagnostics[i] == Some(d)
}

/// The first `n` codes, in declaration order, that some event carries.
pub open spec fn rules_of(diagnostics: Seq<Option<DiagnosticCode>>, n: int) -> Seq<DiagnosticCode>
    decreases n,
{
    if n <= 0 || n > all_codes().len() {
        Seq::empty()
    } else {
        let rest = rules_of(diagnostics, n - 1);
        if carries(diagnostics, all_codes()[n - 1]) {
            rest.push(all_codes()[n - 1])
        } else {
            rest
        }
    }
}

fn has_code(diagnostics: &[Option<DiagnosticCode>], d: DiagnosticCode) -> (r: bool)
    ensures
        r == carries(diagnostics@, d),
{
    let mut i: usize = 0;
    while i < diagnostics.len()
        invariant
            i <= diagnostics@.len(),
            forall|k: int| 0 <= k < i ==> diagnostics@[k] != Some(d),
        decreases diagnostics@.len() - i,
    {
        match diagnostics[i] {
            Some(c) => {
                if c == d {
                    return true;
                }
            },
            None => {},
        }
        i = i + 1;
    }
    false
}

/// The SARIF rules of a run (what a `BTreeSet` of the carried diagnostics gives): each
/// diagnostic that some event carries, once, in declaration order.
pub fn sarif_rules(diagnostics: &[Option<DiagnosticCode>]) -> (r: Vec<DiagnosticCode>)
    ensures
        r@ == rules_of(diagnostics@, 13),
{
    let codes = [
        DiagnosticCode::InstructionAddressMisaligned,
        DiagnosticCode::InstructionAccessFault,
        DiagnosticCode::IllegalInstruction,
        DiagnosticCode::Breakpoint,
        DiagnosticCode::LoadAddressMisaligned,
        DiagnosticCode::LoadAccessFault,
        DiagnosticCode::StoreAddressMisaligned,
        DiagnosticCode::StoreAccessFault,
        DiagnosticCode::EnvironmentCall,
        DiagnosticCode::InstructionPageFault,
        DiagnosticCode::LoadPageFault,
        DiagnosticCode::StorePageFault,
        DiagnosticCode::UnknownTrap,
    ];
    assert(codes@ =~= all_codes());
    let mut out: Vec<DiagnosticCode> = Vec::new();
    let mut k: usize = 0;
    while k < 13
        invariant
            k <= 13,
            codes@ == all_codes(),
            out@ == rules_of(diagnostics@, k as int),
        decreases 13 - k,
    {
        let d = codes[k];
        if has_code(diagnostics, d) {
            out.push(d);
        }
        k = k + 1;
    }
    out
}

/// Whether some evidence event carries a diagnostic.
pub open spec fn carries_diagnostic(events: Seq<EvidenceEventModel>) -> bool {
    exists|i: int| 0 <= i < events.len() && (#[trigger] events[i]).diagnostic is Some
}

/// `--fail-on-diagnostic`: whether the evidence carries a diagnostic.
pub fn has_diagnostic(evidence: &EvidenceDocument) -> (r: bool)
    ensures
        r == carries_diagnostic(evidence@.events),
{
    let ghost evs = evidence@.events;
    let mut i: usize = 0;
    while i < evidence.events.len()
        invariant
            i <= evidence.events@.len(),
            evs == evidence@.events,
            evs == evidence_view(evidence.events@),
            forall|k: int| 0 <= k < i ==> (#[trigger] evs[k]).diagnostic is None,
        decreases evidence.events@.len() - i,
    {
        assert(evs[i as int] == evidence.events@[i as int]@);
        if evidence.events[i].diagnostic.is_some() {
            assert(evs[i as int].diagnostic is Some);
            return true;
        }
        i = i + 1;
    }
    false
}

/// Where a SARIF result points.
#[derive(Debug, Clone)]
pub enum SarifLocation {
    /// A source file, line and column; a missing line or column is 1.
    Physical { file: String, line: u32, column: u32 },
    /// A symbol.
    Logical { name: String },
    /// Nowhere.
    Unlocated,
}

/// The model of a [`SarifLocation`].
pub enum SarifLocationModel {
    Physical { file: Seq<char>, line: u32, column: u32 },
    Logical { name: Seq<char> },
    Unlocated,
}

impl View for SarifLocation {
    type V = SarifLocationModel;

    open spec fn view(&self) -> SarifLocationModel {
        match self {
            SarifLocation::Physical { file, line, column } => SarifLocationModel::Physical {
                file: file@,
                line: *line,
                column: *column,
            },
            SarifLocation::Logical { name } => SarifLocationModel::Logical { name: name@ },
            SarifLocation::Unlocated => SarifLocationModel::Unlocated,
        }
    }
}

/// One SARIF result: the position of the evidence event, the rule it reports and where it
/// points.
#[derive(Debug, Clone)]
pub struct SarifResult {
    pub event: usize,
    pub rule: DiagnosticCode,
    pub location: SarifLocation,
}

/// The model of a [`SarifResult`].
pub struct SarifResultModel {
    pub event: usize,
    pub rule: DiagnosticCode,
    pub location: SarifLocationModel,
}

impl View for SarifResult {
    type V = SarifResultModel;

    open spec fn view(&self) -> SarifResultModel {
        SarifResultModel { event: self.event, rule: self.rule, location: self.location@ }
    }
}

/// Where the result of an evidence event points: its source location where it has one, else
/// its symbol.
pub open spec fn location_of(e: EvidenceEventModel) -> SarifLocationModel {
    match e.source {
        Some(src) => SarifLocationModel::Physical {
            file: src.file,
            line: match src.line {
                Some(l) => l,
                None => 1,
            },
            column: match src.column {
                Some(c) => c,
                None => 1,
            },
        },
        None => match e.symbol {
            Some(name) => SarifLocationModel::Logical { name },
            None => SarifLocationModel::Unlocated,
        },
    }
}

/// The SARIF results of the first `n` evidence events: one, in order, for each that carries a
/// diagnostic.
pub open spec fn results_of(events: Seq<EvidenceEventModel>, n: int) -> Seq<SarifResultModel>
    decreases n,
{
    if n <= 0 {
        Seq::empty()
    } else {
        let rest = results_of(events, n - 1);
        match events[n - 1].diagnostic {
            Some(d) => rest.push(
                SarifResultModel { event: (n - 1) as usize, rule: d, location: location_of(events[n - 1]) },
            ),
            None => rest,
        }
    }
}

/// The view of a list of results.
pub open spec fn results_view(v: Seq<SarifResult>) -> Seq<SarifResultModel> {
    v.map_values(|r: SarifResult| r@)
}

fn location_exec(e: &EvidenceEvent) -> (r: SarifLocation)
    ensures
        r@ == location_of(e@),
{
    match &e.source {
        Some(src) => SarifLocation::Physical {
            file: src.file.clone(),
            line: match src.line {
                Some(l) => l,
                None => 1,
            },
            column: match src.column {
                Some(c) => c,
                None => 1,
            },
        },
        None => match &e.symbol {
            Some(name) => SarifLocation::Logical { name: name.clone() },
            None => SarifLocation::Unlocated,
        },
    }
}

/// The SARIF results of a run: one for each evidence event that carries a diagnostic, in
/// evidence order, pointing at its source location where it has one and else at its symbol.
pub fn sarif_results(evidence: &EvidenceDocument) -> (r: Vec<SarifResult>)
    ensures
        results_view(r@) == results_of(evidence@.events, evidence@.events.len() as int),
{
    let ghost evs = evidence@.events;
    let mut out: Vec<SarifResult> = Vec::new();
    let mut i: usize = 0;
    while i < evidence.events.len()
        invariant
            i <= evidence.events@.len(),
            evs == evidence@.events,
            evs == evidence_view(evidence.events@),
            results_view(out@) == results_of(evs, i as int),
        decreases evidence.events@.len() - i,
    {
        let e = &evidence.events[i];
        assert(evs[i as int] == e@);
        match e.diagnostic {
            Some(d) => {
                let r = SarifResult { event: i, rule: d, location: location_exec(e) };
                let ghost before = results_view(out@);
                out.push(r);
                assert(results_view(out@) =~= before.push(r@));
            },
            None => {},
        }
        i = i + 1;
    }
    out
}

/// Rule identifiers tell codes apart: distinct diagnostic codes have distinct SARIF rule
/// identifiers.
pub proof fn law_rule_ids_distinct(a: DiagnosticCode, b: DiagnosticCode)
    ensures
        a != b ==> diagnostic_name(a) != diagnostic_name(b),
{
    reveal_strlit("instruction-address-misaligned");
    reveal_strlit("instruction-access-fault");
    reveal_strlit("illegal-instruction");
    reveal_strlit("breakpoint");
    reveal_strlit("load-address-misaligned");
    reveal_strlit("load-access-fault");
    reveal_strlit("store-address-misaligned");
    reveal_strlit("store-access-fault");
    reveal_strlit("environment-call");
    reveal_strlit("instruction-page-fault");
    reveal_strlit("load-page-fault");
    reveal_strlit("store-page-fault");
    reveal_strlit("unknown-trap");
    if a != b {
        let x = diagnostic_name(a);
        let y = diagnostic_name(b);
        assert(x.len() != y.len() || x[0] != y[0] || x[5] != y[5]);
    }
}

/// A trap imported from Spike is reported under its own name: for every exception name that
/// Spike logs other than the environment calls, the rule identifier of the diagnosis of the
/// trap's cause is that name, and an environment call is reported as `environment-call`.
pub proof fn law_rule_ids_name_traps(name: Seq<char>)
    ensures
        ({
            let c = crate::spike::trap_cause_of(name);
            &&& c != u64::MAX && c != 8 && c != 9 && c != 11 ==> diagnostic_name(
                crate::analyzer::diagnosis(c),
            ) == name
            &&& (c == 8 || c == 9 || c == 11) ==> diagnostic_name(crate::analyzer::diagnosis(c))
                == "environment-call"@
            &&& c == u64::MAX ==> diagnostic_name(crate::analyzer::diagnosis(c)) == "unknown-trap"@
        }),
{
}

} // verus!