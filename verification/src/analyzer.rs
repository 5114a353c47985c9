//! Selection of trace events and construction of bounded causal evidence.

use crate::model::{
    clone_opt_source, clone_opt_string, events_view, evidence_view, opt_str, writes_view, privilege_label, state_kind_label, strs,
    Confidence, DiagnosticCode, EvidenceDocument, EvidenceDocumentModel, EvidenceEvent, EvidenceEventModel,
    EvidenceKind, EvidenceProfile, EvidenceSummary, StateKind, StateWrite, StateWriteModel,
    TraceDocument, TraceDocumentModel, TraceEvent, TraceEventModel, TrapModel,
};
use crate::text::{
    chars_equal, chars_of, decimal, lower, lowered, trim, trimmed, push_chars, push_decimal,
    push_padded_decimal, zero_pad,
};
use crate::{EVIDENCE_SCHEMA, TRACE_SCHEMA};
use vstd::prelude::*;

verus! {

/// Why a trace cannot be analyzed.
#[derive(Debug, Clone, PartialEq, Eq)]
pub enum AnalyzeError {
    /// The trace does not declare `echorv.trace.v1`.
    UnsupportedSchema(String),
    /// The target is not RISC-V.
    UnsupportedArchitecture(String),
    /// The target XLEN is neither 32 nor 64.
    UnsupportedXlen(u16),
    /// Trace sequence numbers do not increase strictly.
    NonMonotonicSequence { previous: u64, current: u64 },
    /// The evidence limit is zero.
    ZeroLimit,
}

/// The model of an [`AnalyzeError`].
pub enum AnalyzeErrorModel {
    UnsupportedSchema(Seq<char>),
    UnsupportedArchitecture(Seq<char>),
    UnsupportedXlen(u16),
    NonMonotonicSequence { previous: u64, current: u64 },
    ZeroLimit,
}

impl View for AnalyzeError {
    type V = AnalyzeErrorModel;

    open spec fn view(&self) -> AnalyzeErrorModel {
        match self {
            AnalyzeError::UnsupportedSchema(s) => AnalyzeErrorModel::UnsupportedSchema(s@),
            AnalyzeError::UnsupportedArchitecture(s) => AnalyzeErrorModel::UnsupportedArchitecture(
                s@,
            ),
            AnalyzeError::UnsupportedXlen(x) => AnalyzeErrorModel::UnsupportedXlen(*x),
            AnalyzeError::NonMonotonicSequence { previous, current } =>
                AnalyzeErrorModel::NonMonotonicSequence { previous: *previous, current: *current },
            AnalyzeError::ZeroLimit => AnalyzeErrorModel::ZeroLimit,
        }
    }
}

/// The first index `i` (from `start` on) whose successor's sequence number does not exceed
/// its own.
pub open spec fn first_non_increasing(events: Seq<TraceEventModel>, start: int) -> Option<int>
    decreases events.len() - start,
{
    if start < 0 || start + 1 >= events.len() {
        None
    } else if events[start + 1].sequence <= events[start].sequence {
        Some(start)
    } else {
        first_non_increasing(events, start + 1)
    }
}

/// `validate`: the first reason, in the order the checks run, why a trace cannot be analyzed.
pub open spec fn validation(trace: TraceDocumentModel, limit: usize) -> Option<AnalyzeErrorModel> {
    if trace.schema != TRACE_SCHEMA@ {
        Some(AnalyzeErrorModel::UnsupportedSchema(trace.schema))
    } else if lower(trace.target.architecture) != lower("risc-v"@) {
        Some(AnalyzeErrorModel::UnsupportedArchitecture(trace.target.architecture))
    } else if trace.target.xlen != 32 && trace.target.xlen != 64 {
        Some(AnalyzeErrorModel::UnsupportedXlen(trace.target.xlen))
    } else if limit == 0 {
        Some(AnalyzeErrorModel::ZeroLimit)
    } else {
        sequence_error(trace.events)
    }
}

/// The error for the first pair of events whose sequence numbers do not increase.
pub open spec fn sequence_error(events: Seq<TraceEventModel>) -> Option<AnalyzeErrorModel> {
    match first_non_increasing(events, 0) {
        Some(i) => Some(
            AnalyzeErrorModel::NonMonotonicSequence {
                previous: events[i].sequence,
                current: events[i + 1].sequence,
            },
        ),
        None => None,
    }
}

/// What a profile selects once the trace it runs over is known.
#[derive(Clone, Copy, PartialEq, Eq, Structural)]
pub enum Selection {
    /// Trap events, keeping only their writes to trap CSRs.
    TrapChains,
    /// Events that write state, keeping all their writes.
    StateChanges,
    /// Events that write a CSR or raise a trap, keeping their CSR writes.
    CsrChanges,
    /// Events that write memory or raise a memory-access fault, keeping their memory writes.
    MemoryChanges,
    /// Environment calls, trap returns and traps, keeping their CSR writes.
    PrivilegeChanges,
    /// Every event and every write.
    Everything,
}

/// Whether some event of a trace records a trap.
pub open spec fn has_trap(events: Seq<TraceEventModel>) -> bool {
    exists|i: int| 0 <= i < events.len() && (#[trigger] events[i]).trap is Some
}

/// What a profile selects over a trace: `auto` takes the trap chains of a trace that holds a
/// trap and otherwise the instructions that change state.
pub open spec fn selection(profile: EvidenceProfile, events: Seq<TraceEventModel>) -> Selection {
    match profile {
        EvidenceProfile::Trap => Selection::TrapChains,
        EvidenceProfile::Csr => Selection::CsrChanges,
        EvidenceProfile::Memory => Selection::MemoryChanges,
        EvidenceProfile::Privilege => Selection::PrivilegeChanges,
        EvidenceProfile::Full => Selection::Everything,
        EvidenceProfile::Auto => if has_trap(events) {
            Selection::TrapChains
        } else {
            Selection::StateChanges
        },
    }
}

/// Whether some write of a list is of kind `k`.
pub open spec fn writes_kind(writes: Seq<StateWriteModel>, k: StateKind) -> bool {
    exists|i: int| 0 <= i < writes.len() && (#[trigger] writes[i]).kind == k
}

/// Whether a trap cause is a fault of a memory access: a misaligned address, an access fault or
/// a page fault of an instruction fetch, a load or a store.
pub open spec fn is_memory_fault(cause: u64) -> bool {
    cause == 0 || cause == 1 || cause == 4 || cause == 5 || cause == 6 || cause == 7 || cause == 12
        || cause == 13 || cause == 15
}

/// Whether an instruction, trimmed, is an environment call or a trap return: `ecall`, `mret`
/// or `sret`.
pub open spec fn is_privilege_instruction(text: Seq<char>) -> bool {
    let t = trim(text);
    t == "ecall"@ || t == "mret"@ || t == "sret"@
}

/// Whether a selection takes a trace event.
pub open spec fn selects(s: Selection, e: TraceEventModel) -> bool {
    match s {
        Selection::TrapChains => e.trap is Some,
        Selection::StateChanges => e.writes.len() > 0,
        Selection::CsrChanges => e.trap is Some || writes_kind(e.writes, StateKind::Csr),
        Selection::MemoryChanges => writes_kind(e.writes, StateKind::Memory) || match e.trap {
            Some(t) => is_memory_fault(t.cause),
            None => false,
        },
        Selection::PrivilegeChanges => e.trap is Some || is_privilege_instruction(e.instruction),
        Selection::Everything => true,
    }
}

/// What an analysis selects and how much evidence it emits. Where `around_pc` or `around_trap`
/// is set, only the trace events within `before` events before or `after` events after an
/// event at that PC (compared without regard to ASCII case) or with a trap of that cause are
/// considered.
#[derive(Debug, Clone)]
pub struct AnalyzeOptions {
    pub profile: EvidenceProfile,
    pub limit: usize,
    pub around_pc: Option<String>,
    pub around_trap: Option<u64>,
    pub before: usize,
    pub after: usize,
}

/// The model of [`AnalyzeOptions`].
pub struct AnalyzeOptionsModel {
    pub profile: EvidenceProfile,
    pub limit: usize,
    pub around_pc: Option<Seq<char>>,
    pub around_trap: Option<u64>,
    pub before: usize,
    pub after: usize,
}

impl View for AnalyzeOptions {
    type V = AnalyzeOptionsModel;

    open spec fn view(&self) -> AnalyzeOptionsModel {
        AnalyzeOptionsModel {
            profile: self.profile,
            limit: self.limit,
            around_pc: opt_str(self.around_pc),
            around_trap: self.around_trap,
            before: self.before,
            after: self.after,
        }
    }
}

/// The options of `analyze`: a profile and a limit, with no context selection.
pub open spec fn plain_options(profile: EvidenceProfile, limit: usize) -> AnalyzeOptionsModel {
    AnalyzeOptionsModel { profile, limit, around_pc: None, around_trap: None, before: 8, after: 4 }
}

/// Whether the options ask for context around a PC or a trap cause.
pub open spec fn context_requested(o: AnalyzeOptionsModel) -> bool {
    o.around_pc is Some || o.around_trap is Some
}

/// Whether an event is a centre of the requested context.
pub open spec fn is_anchor(e: TraceEventModel, o: AnalyzeOptionsModel) -> bool {
    let at_pc = match o.around_pc {
        Some(p) => lower(e.pc) == lower(p),
        None => false,
    };
    let at_trap = match (o.around_trap, e.trap) {
        (Some(c), Some(t)) => t.cause == c,
        _ => false,
    };
    at_pc || at_trap
}

/// Whether the event at position `j` lies within the requested context: at most `before`
/// events before, or `after` events after, an anchor. Without context, every event does.
pub open spec fn in_context(events: Seq<TraceEventModel>, o: AnalyzeOptionsModel, j: int) -> bool {
    !context_requested(o) || exists|i: int|
        0 <= i < events.len() && j - o.after <= i <= j + o.before && #[trigger] is_anchor(
            events[i],
            o,
        )
}

/// The first `n` events that lie within the requested context, in trace order.
pub open spec fn scoped(events: Seq<TraceEventModel>, o: AnalyzeOptionsModel, n: int) -> Seq<
    TraceEventModel,
>
    decreases n,
{
    if n <= 0 {
        Seq::empty()
    } else {
        let rest = scoped(events, o, n - 1);
        if in_context(events, o, n - 1) {
            rest.push(events[n - 1])
        } else {
            rest
        }
    }
}

/// The events of a trace that an analysis considers.
pub open spec fn in_scope(events: Seq<TraceEventModel>, o: AnalyzeOptionsModel) -> Seq<
    TraceEventModel,
> {
    scoped(events, o, events.len() as int)
}

/// The trace events that a selection takes, in trace order.
pub open spec fn selected(events: Seq<TraceEventModel>, s: Selection) -> Seq<TraceEventModel>
    decreases events.len(),
{
    if events.len() == 0 {
        Seq::empty()
    } else {
        let rest = selected(events.drop_last(), s);
        if selects(s, events.last()) {
            rest.push(events.last())
        } else {
            rest
        }
    }
}

/// The identifier of the evidence event at position `index`: `ev-` and the index in at least
/// four decimal digits.
pub open spec fn evidence_id(index: nat) -> Seq<char> {
    "ev-"@ + zero_pad(decimal(index), 4)
}

/// Whether a write is to one of the trap CSRs `mcause`, `mepc`, `mtval`, `scause`, `sepc`,
/// `stval`.
pub open spec fn is_trap_csr(w: StateWriteModel) -> bool {
    &&& w.kind == StateKind::Csr
    &&& {
        ||| w.name == "mcause"@
        ||| w.name == "mepc"@
        ||| w.name == "mtval"@
        ||| w.name == "scause"@
        ||| w.name == "sepc"@
        ||| w.name == "stval"@
    }
}

/// Whether a selection keeps a write of an event it takes: trap chains keep trap CSRs only,
/// the CSR and privilege selections CSR writes only, the memory selection memory writes only.
pub open spec fn keeps(s: Selection, w: StateWriteModel) -> bool {
    match s {
        Selection::TrapChains => is_trap_csr(w),
        Selection::CsrChanges => w.kind == StateKind::Csr,
        Selection::PrivilegeChanges => w.kind == StateKind::Csr,
        Selection::MemoryChanges => w.kind == StateKind::Memory,
        _ => true,
    }
}

/// The writes of an event that a selection keeps as evidence.
pub open spec fn kept_writes(writes: Seq<StateWriteModel>, s: Selection) -> Seq<StateWriteModel>
    decreases writes.len(),
{
    if writes.len() == 0 {
        Seq::empty()
    } else {
        let rest = kept_writes(writes.drop_last(), s);
        if keeps(s, writes.last()) {
            rest.push(writes.last())
        } else {
            rest
        }
    }
}

/// The fault family of a trap cause: each RISC-V exception code its own family, the three
/// environment calls one family, and any other cause an unknown trap.
pub open spec fn diagnosis(cause: u64) -> DiagnosticCode {
    if cause == 0 {
        DiagnosticCode::InstructionAddressMisaligned
    } else if cause == 1 {
        DiagnosticCode::InstructionAccessFault
    } else if cause == 2 {
        DiagnosticCode::IllegalInstruction
    } else if cause == 3 {
        DiagnosticCode::Breakpoint
    } else if cause == 4 {
        DiagnosticCode::LoadAddressMisaligned
    } else if cause == 5 {
        DiagnosticCode::LoadAccessFault
    } else if cause == 6 {
        DiagnosticCode::StoreAddressMisaligned
    } else if cause == 7 {
        DiagnosticCode::StoreAccessFault
    } else if cause == 8 || cause == 9 || cause == 11 {
        DiagnosticCode::EnvironmentCall
    } else if cause == 12 {
        DiagnosticCode::InstructionPageFault
    } else if cause == 13 {
        DiagnosticCode::LoadPageFault
    } else if cause == 15 {
        DiagnosticCode::StorePageFault
    } else {
        DiagnosticCode::UnknownTrap
    }
}

/// The explanation of the instruction evidence of an event.
pub open spec fn instruction_explanation(e: TraceEventModel) -> Seq<char> {
    if e.trap is Some {
        privilege_label(e.privilege) + "-mode instruction `"@ + e.instruction + "` at "@ + e.pc
            + " initiated a trap"@
    } else {
        privilege_label(e.privilege) + "-mode executed `"@ + e.instruction + "` at "@ + e.pc
    }
}

/// The text of an optional value, or `fallback`.
pub open spec fn or_text(o: Option<Seq<char>>, fallback: Seq<char>) -> Seq<char> {
    match o {
        Some(s) => s,
        None => fallback,
    }
}

/// The explanation of the trap evidence of an event.
pub open spec fn trap_explanation(t: TrapModel) -> Seq<char> {
    "trap "@ + decimal(t.cause as nat) + " ("@ + t.name + ") was raised; tval="@ + or_text(
        t.tval,
        "not recorded"@,
    ) + ", handler="@ + t.target_pc
}

/// The explanation of the evidence of a state write.
pub open spec fn write_explanation(w: StateWriteModel) -> Seq<char> {
    state_kind_label(w.kind) + " `"@ + w.name + "` changed from "@ + or_text(
        w.before,
        "unknown"@,
    ) + " to "@ + w.after
}

/// The explanation of a privilege transition into a trap handler.
pub open spec fn transition_explanation(e: TraceEventModel, t: TrapModel) -> Seq<char> {
    "control transferred from "@ + privilege_label(e.privilege) + "-mode at "@ + e.pc + " to "@
        + privilege_label(t.to_privilege) + "-mode at "@ + t.target_pc
}

/// The evidence of the kept writes of an event, numbered from position `first`, each caused by
/// the evidence event `cause`.
pub open spec fn write_evidence(
    e: TraceEventModel,
    kept: Seq<StateWriteModel>,
    first: nat,
    cause: Seq<char>,
) -> Seq<EvidenceEventModel> {
    Seq::new(
        kept.len(),
        |j: int|
            EvidenceEventModel {
                id: evidence_id((first + j) as nat),
                kind: EvidenceKind::StateChange,
                trace_sequence: e.sequence,
                pc: e.pc,
                explanation: write_explanation(kept[j]),
                caused_by: seq![cause],
                state: Some(kept[j]),
                diagnostic: None,
                confidence: Confidence::Observed,
                symbol: e.symbol,
                source: e.source,
            },
    )
}

/// `append_event_evidence`: the evidence of one trace event whose first evidence event has
/// position `base`. An instruction; a trap caused by it, which carries the diagnosis of its
/// cause; each kept write, caused by the trap or, without one, by the instruction; the
/// privilege transition caused by the trap; and, for an access fault, the inferred candidate
/// causes, caused by the trap.
pub open spec fn event_evidence(e: TraceEventModel, s: Selection, base: nat) -> Seq<
    EvidenceEventModel,
> {
    let instruction_id = evidence_id(base);
    let instruction = EvidenceEventModel {
        id: instruction_id,
        kind: EvidenceKind::Instruction,
        trace_sequence: e.sequence,
        pc: e.pc,
        explanation: instruction_explanation(e),
        caused_by: Seq::empty(),
        state: None,
        diagnostic: None,
        confidence: Confidence::Observed,
        symbol: e.symbol,
        source: e.source,
    };
    let kept = kept_writes(e.writes, s);
    match e.trap {
        Some(t) => {
            let trap_id = evidence_id(base + 1);
            let trap = EvidenceEventModel {
                id: trap_id,
                kind: EvidenceKind::Trap,
                trace_sequence: e.sequence,
                pc: e.pc,
                explanation: trap_explanation(t),
                caused_by: seq![instruction_id],
                state: None,
                diagnostic: Some(diagnosis(t.cause)),
                confidence: Confidence::Observed,
                symbol: e.symbol,
                source: e.source,
            };
            let writes = write_evidence(e, kept, base + 2, trap_id);
            let transition = EvidenceEventModel {
                id: evidence_id(base + 2 + kept.len()),
                kind: EvidenceKind::PrivilegeTransition,
                trace_sequence: e.sequence,
                pc: e.pc,
                explanation: transition_explanation(e, t),
                caused_by: seq![trap_id],
                state: None,
                diagnostic: None,
                confidence: Confidence::Derived,
                symbol: e.symbol,
                source: e.source,
            };
            let candidates: Seq<EvidenceEventModel> = if is_access_fault(t.cause) {
                seq![
                    EvidenceEventModel {
                        id: evidence_id(base + 3 + kept.len()),
                        kind: EvidenceKind::Candidate,
                        trace_sequence: e.sequence,
                        pc: e.pc,
                        explanation: candidate_explanation(),
                        caused_by: seq![trap_id],
                        state: None,
                        diagnostic: None,
                        confidence: Confidence::Inferred,
                        symbol: e.symbol,
                        source: e.source,
                    },
                ]
            } else {
                Seq::empty()
            };
            seq![instruction, trap] + writes + seq![transition] + candidates
        },
        None => {
            let writes = write_evidence(e, kept, base + 1, instruction_id);
            seq![instruction] + writes
        },
    }
}

/// Whether a trap cause is an access fault of an instruction fetch, a load or a store.
pub open spec fn is_access_fault(cause: u64) -> bool {
    cause == 1 || cause == 5 || cause == 7
}

/// The explanation of the inferred causes of an access fault.
pub open spec fn candidate_explanation() -> Seq<char> {
    "the backend does not record which rule rejected the access; candidates: a PMP entry, a PMA rule, or unmapped memory"@
}

/// The evidence of a list of trace events, numbered from position 0.
pub open spec fn evidence_of(events: Seq<TraceEventModel>, s: Selection) -> Seq<
    EvidenceEventModel,
>
    decreases events.len(),
{
    if events.len() == 0 {
        Seq::empty()
    } else {
        let prev = evidence_of(events.drop_last(), s);
        prev + event_evidence(events.last(), s, prev.len())
    }
}

/// The name of a profile as evidence records it.
pub open spec fn profile_name(profile: EvidenceProfile) -> Seq<char> {
    match profile {
        EvidenceProfile::Auto => "auto"@,
        EvidenceProfile::Trap => "trap"@,
        EvidenceProfile::Csr => "csr"@,
        EvidenceProfile::Memory => "memory"@,
        EvidenceProfile::Privilege => "privilege"@,
        EvidenceProfile::Full => "full"@,
    }
}

/// The warning of a trap profile run over a trace without traps.
pub open spec fn no_trap_warning() -> Seq<char> {
    "the trace contains no trap events"@
}

/// The warning of a run whose evidence was cut at the limit.
pub open spec fn limit_warning(limit: nat, total: nat) -> Seq<char> {
    "evidence output was limited to "@ + decimal(limit) + " of "@ + decimal(total) + " events"@
}

/// How many evidence events the selected trace events give, before the limit.
pub open spec fn evidence_count(trace: TraceDocumentModel, o: AnalyzeOptionsModel) -> nat {
    let scope = in_scope(trace.events, o);
    let s = selection(o.profile, scope);
    evidence_of(selected(scope, s), s).len()
}

/// `analyze`: the evidence document of a valid trace, or the first reason it is invalid, with
/// no context selection.
pub open spec fn analysis(trace: TraceDocumentModel, profile: EvidenceProfile, limit: usize) -> Result<
    EvidenceDocumentModel,
    AnalyzeErrorModel,
> {
    analysis_with_options(trace, plain_options(profile, limit))
}

/// `analyze_with_options`: the evidence document of a valid trace, or the first reason it is
/// invalid. The profile selects among the events within the requested context.
pub open spec fn analysis_with_options(trace: TraceDocumentModel, o: AnalyzeOptionsModel) -> Result<
    EvidenceDocumentModel,
    AnalyzeErrorModel,
> {
    let profile = o.profile;
    let limit = o.limit;
    match validation(trace, limit) {
        Some(err) => Err(err),
        None => {
            let scope = in_scope(trace.events, o);
            let s = selection(profile, scope);
            let sel = selected(scope, s);
            let all = evidence_of(sel, s);
            let emitted = if all.len() > limit {
                all.take(limit as int)
            } else {
                all
            };
            let truncated = emitted.len() < all.len();
            let w1: Seq<Seq<char>> = if profile == EvidenceProfile::Trap && sel.len() == 0 {
                seq![no_trap_warning()]
            } else {
                Seq::empty()
            };
            let w2: Seq<Seq<char>> = if truncated {
                seq![limit_warning(limit as nat, all.len())]
            } else {
                Seq::empty()
            };
            Ok(
                EvidenceDocumentModel {
                    schema: EVIDENCE_SCHEMA@,
                    target: trace.target,
                    provenance: trace.provenance,
                    profile: profile_name(profile),
                    summary: EvidenceSummary {
                        input_events: trace.events.len() as usize,
                        matched_trace_events: sel.len() as usize,
                        total_evidence_events: all.len() as usize,
                        emitted_evidence_events: emitted.len() as usize,
                        truncated,
                    },
                    events: emitted,
                    warnings: w1 + w2,
                },
            )
        },
    }
}


/// `validate`: whether the trace and limit can be analyzed.
fn validate(trace: &TraceDocument, limit: usize) -> (r: Result<(), AnalyzeError>)
    ensures
        r is Ok ==> validation(trace@, limit) is None,
        r matches Err(e) ==> validation(trace@, limit) == Some(e@),
{
    let schema = chars_of(trace.schema.as_str());
    let expected = chars_of(TRACE_SCHEMA);
    if !chars_equal(schema.as_slice(), expected.as_slice()) {
        return Err(AnalyzeError::UnsupportedSchema(trace.schema.clone()));
    }
    let arch = lowered(chars_of(trace.target.architecture.as_str()).as_slice());
    let riscv = lowered(chars_of("risc-v").as_slice());
    if !chars_equal(arch.as_slice(), riscv.as_slice()) {
        return Err(AnalyzeError::UnsupportedArchitecture(trace.target.architecture.clone()));
    }
    if trace.target.xlen != 32 && trace.target.xlen != 64 {
        return Err(AnalyzeError::UnsupportedXlen(trace.target.xlen));
    }
    if limit == 0 {
        return Err(AnalyzeError::ZeroLimit);
    }
    let ghost evs = trace@.events;
    assert(validation(trace@, limit) == sequence_error(evs));
    let n = trace.events.len();
    if n == 0 {
        return Ok(());
    }
    let mut i: usize = 0;
    while i < n - 1
        invariant
            n == trace.events@.len(),
            n > 0,
            evs == trace@.events,
            i < n,
            validation(trace@, limit) == sequence_error(evs),
            first_non_increasing(evs, 0) == first_non_increasing(evs, i as int),
        decreases n - i,
    {
        let previous = trace.events[i].sequence;
        let current = trace.events[i + 1].sequence;
        assert(evs[i as int].sequence == previous && evs[i + 1].sequence == current);
        if current <= previous {
            return Err(AnalyzeError::NonMonotonicSequence { previous, current });
        }
        i = i + 1;
    }
    Ok(())
}

/// `next_id`: the identifier of the evidence event at position `index`.
pub fn next_id(index: usize) -> (r: String)
    ensures
        r@ == evidence_id(index as nat),
{
    let mut s = String::from_str("ev-");
    push_padded_decimal(&mut s, index as u64, 4);
    s
}

fn is_trap_csr_exec(w: &StateWrite) -> (r: bool)
    ensures
        r == is_trap_csr(w@),
{
    if w.kind != StateKind::Csr {
        return false;
    }
    let n = chars_of(w.name.as_str());
    let names = [
        chars_of("mcause"),
        chars_of("mepc"),
        chars_of("mtval"),
        chars_of("scause"),
        chars_of("sepc"),
        chars_of("stval"),
    ];
    chars_equal(n.as_slice(), names[0].as_slice()) || chars_equal(n.as_slice(), names[1].as_slice())
        || chars_equal(n.as_slice(), names[2].as_slice()) || chars_equal(
        n.as_slice(),
        names[3].as_slice(),
    ) || chars_equal(n.as_slice(), names[4].as_slice()) || chars_equal(
        n.as_slice(),
        names[5].as_slice(),
    )
}

fn copy_write(w: &StateWrite) -> (r: StateWrite)
    ensures
        r@ == w@,
{
    StateWrite {
        kind: w.kind,
        name: w.name.clone(),
        before: clone_opt_string(&w.before),
        after: w.after.clone(),
    }
}

fn push_text_or(s: &mut String, o: &Option<String>, fallback: &str)
    ensures
        final(s)@ == old(s)@ + or_text(opt_str(*o), fallback@),
{
    match o {
        Some(t) => s.append(t.as_str()),
        None => s.append(fallback),
    }
}

fn instruction_explanation_exec(e: &TraceEvent) -> (r: String)
    ensures
        r@ == instruction_explanation(e@),
{
    let mut s = e.privilege.label();
    if e.trap.is_some() {
        s.append("-mode instruction `");
        s.append(e.instruction.as_str());
        s.append("` at ");
        s.append(e.pc.as_str());
        s.append(" initiated a trap");
    } else {
        s.append("-mode executed `");
        s.append(e.instruction.as_str());
        s.append("` at ");
        s.append(e.pc.as_str());
    }
    s
}

fn trap_explanation_exec(t: &crate::model::Trap) -> (r: String)
    ensures
        r@ == trap_explanation(t@),
{
    let mut s = String::from_str("trap ");
    push_decimal(&mut s, t.cause);
    s.append(" (");
    s.append(t.name.as_str());
    s.append(") was raised; tval=");
    push_text_or(&mut s, &t.tval, "not recorded");
    s.append(", handler=");
    s.append(t.target_pc.as_str());
    s
}

fn write_explanation_exec(w: &StateWrite) -> (r: String)
    ensures
        r@ == write_explanation(w@),
{
    let mut s = w.kind.label();
    s.append(" `");
    s.append(w.name.as_str());
    s.append("` changed from ");
    push_text_or(&mut s, &w.before, "unknown");
    s.append(" to ");
    s.append(w.after.as_str());
    s
}

fn transition_explanation_exec(e: &TraceEvent, t: &crate::model::Trap) -> (r: String)
    ensures
        r@ == transition_explanation(e@, t@),
{
    let mut s = String::from_str("control transferred from ");
    let from = e.privilege.label();
    s.append(from.as_str());
    s.append("-mode at ");
    s.append(e.pc.as_str());
    s.append(" to ");
    let to = t.to_privilege.label();
    s.append(to.as_str());
    s.append("-mode at ");
    s.append(t.target_pc.as_str());
    s
}

/// The one-element list holding `s`.
fn single(s: String) -> (r: Vec<String>)
    ensures
        strs(r@) == seq![s@],
{
    let mut v: Vec<String> = Vec::new();
    v.push(s);
    assert(strs(v@) =~= seq![s@]);
    v
}

/// `diagnose`: the fault family of a trap cause.
fn diagnose(cause: u64) -> (r: DiagnosticCode)
    ensures
        r == diagnosis(cause),
{
    match cause {
        0 => DiagnosticCode::InstructionAddressMisaligned,
        1 => DiagnosticCode::InstructionAccessFault,
        2 => DiagnosticCode::IllegalInstruction,
        3 => DiagnosticCode::Breakpoint,
        4 => DiagnosticCode::LoadAddressMisaligned,
        5 => DiagnosticCode::LoadAccessFault,
        6 => DiagnosticCode::StoreAddressMisaligned,
        7 => DiagnosticCode::StoreAccessFault,
        8 | 9 | 11 => DiagnosticCode::EnvironmentCall,
        12 => DiagnosticCode::InstructionPageFault,
        13 => DiagnosticCode::LoadPageFault,
        15 => DiagnosticCode::StorePageFault,
        _ => DiagnosticCode::UnknownTrap,
    }
}

/// `append_event_evidence`: appends the evidence of one trace event.
fn append_event_evidence(output: &mut Vec<EvidenceEvent>, event: &TraceEvent, s: Selection)
    ensures
        evidence_view(final(output)@) == evidence_view(old(output)@) + event_evidence(
            event@,
            s,
            old(output)@.len(),
        ),
{
    let ghost start = evidence_view(output@);
    let ghost base = output@.len();
    let ghost e = event@;
    let ghost all_kept = kept_writes(e.writes, s);
    let instruction_id = next_id(output.len());
    let explanation = instruction_explanation_exec(event);
    let first = EvidenceEvent {
        id: instruction_id.clone(),
        kind: EvidenceKind::Instruction,
        trace_sequence: event.sequence,
        pc: event.pc.clone(),
        explanation,
        caused_by: Vec::new(),
        state: None,
        diagnostic: None,
        confidence: Confidence::Observed,
        symbol: clone_opt_string(&event.symbol),
        source: clone_opt_source(&event.source),
    };
    assert(strs(first.caused_by@) =~= Seq::empty());
    output.push(first);
    let mut trap_id: Option<String> = None;
    match &event.trap {
        Some(trap) => {
            let id = next_id(output.len());
            let ev = EvidenceEvent {
                id: id.clone(),
                kind: EvidenceKind::Trap,
                trace_sequence: event.sequence,
                pc: event.pc.clone(),
                explanation: trap_explanation_exec(trap),
                caused_by: single(instruction_id.clone()),
                state: None,
                diagnostic: Some(diagnose(trap.cause)),
                confidence: Confidence::Observed,
                symbol: clone_opt_string(&event.symbol),
                source: clone_opt_source(&event.source),
            };
            output.push(ev);
            trap_id = Some(id);
        },
        None => {},
    }
    let ghost head = evidence_view(output@).subrange(base as int, output@.len() as int);
    let ghost cause = or_text(opt_str(trap_id), instruction_id@);
    let ghost first_write = output@.len();
    assert(evidence_view(output@) =~= start + head);
    let mut j: usize = 0;
    while j < event.writes.len()
        invariant
            j <= event.writes@.len(),
            e == event@,
            first_write == base + head.len(),
            cause == or_text(opt_str(trap_id), instruction_id@),
            evidence_view(output@) == start + head + write_evidence(
                e,
                kept_writes(e.writes.take(j as int), s),
                first_write as nat,
                cause,
            ),
            output@.len() == first_write + kept_writes(e.writes.take(j as int), s).len(),
        decreases event.writes@.len() - j,
    {
        let write = &event.writes[j];
        let ghost before = evidence_view(output@);
        let ghost kept_before = kept_writes(e.writes.take(j as int), s);
        assert(e.writes.take(j + 1).drop_last() =~= e.writes.take(j as int));
        assert(e.writes.take(j + 1).last() == write@);
        let keep = match s {
            Selection::TrapChains => is_trap_csr_exec(write),
            Selection::CsrChanges => write.kind == StateKind::Csr,
            Selection::PrivilegeChanges => write.kind == StateKind::Csr,
            Selection::MemoryChanges => write.kind == StateKind::Memory,
            _ => true,
        };
        if keep {
            let c = match &trap_id {
                Some(t) => t.clone(),
                None => instruction_id.clone(),
            };
            let ev = EvidenceEvent {
                id: next_id(output.len()),
                kind: EvidenceKind::StateChange,
                trace_sequence: event.sequence,
                pc: event.pc.clone(),
                explanation: write_explanation_exec(write),
                caused_by: single(c),
                state: Some(copy_write(write)),
                diagnostic: None,
                confidence: Confidence::Observed,
                symbol: clone_opt_string(&event.symbol),
                source: clone_opt_source(&event.source),
            };
            let ghost expected = EvidenceEventModel {
                id: evidence_id((first_write + kept_before.len()) as nat),
                kind: EvidenceKind::StateChange,
                trace_sequence: e.sequence,
                pc: e.pc,
                explanation: write_explanation(write@),
                caused_by: seq![cause],
                state: Some(write@),
                diagnostic: None,
                confidence: Confidence::Observed,
                symbol: e.symbol,
                source: e.source,
            };
            assert(ev@ == expected);
            output.push(ev);
            let ghost kept_after = kept_before.push(write@);
            assert(write_evidence(e, kept_after, first_write as nat, cause) =~= write_evidence(
                e,
                kept_before,
                first_write as nat,
                cause,
            ).push(expected));
            assert(evidence_view(output@) =~= before.push(expected));
            assert(evidence_view(output@) =~= start + head + write_evidence(
                e,
                kept_after,
                first_write as nat,
                cause,
            ));
        }
        j = j + 1;
    }
    assert(e.writes.take(event.writes@.len() as int) =~= e.writes);
    match &event.trap {
        Some(trap) => {
            let tid = match &trap_id {
                Some(t) => t.clone(),
                None => instruction_id.clone(),
            };
            let ev = EvidenceEvent {
                id: next_id(output.len()),
                kind: EvidenceKind::PrivilegeTransition,
                trace_sequence: event.sequence,
                pc: event.pc.clone(),
                explanation: transition_explanation_exec(event, trap),
                caused_by: single(tid),
                state: None,
                diagnostic: None,
                confidence: Confidence::Derived,
                symbol: clone_opt_string(&event.symbol),
                source: clone_opt_source(&event.source),
            };
            let ghost before = evidence_view(output@);
            output.push(ev);
            assert(evidence_view(output@) =~= before.push(ev@));
            if trap.cause == 1 || trap.cause == 5 || trap.cause == 7 {
                let tid2 = match &trap_id {
                    Some(t) => t.clone(),
                    None => instruction_id.clone(),
                };
                let cand = EvidenceEvent {
                    id: next_id(output.len()),
                    kind: EvidenceKind::Candidate,
                    trace_sequence: event.sequence,
                    pc: event.pc.clone(),
                    explanation: String::from_str(
                        "the backend does not record which rule rejected the access; candidates: a PMP entry, a PMA rule, or unmapped memory",
                    ),
                    caused_by: single(tid2),
                    state: None,
                    diagnostic: None,
                    confidence: Confidence::Inferred,
                    symbol: clone_opt_string(&event.symbol),
                    source: clone_opt_source(&event.source),
                };
                let ghost before2 = evidence_view(output@);
                output.push(cand);
                assert(evidence_view(output@) =~= before2.push(cand@));
            }
            assert(evidence_view(output@) =~= start + event_evidence(e, s, base));
        },
        None => {
            assert(evidence_view(output@) =~= start + event_evidence(e, s, base));
        },
    }
}


proof fn lemma_selected_len(events: Seq<TraceEventModel>, s: Selection)
    ensures
        selected(events, s).len() <= events.len(),
    decreases events.len(),
{
    if events.len() > 0 {
        lemma_selected_len(events.drop_last(), s);
    }
}

proof fn lemma_has_trap_push(events: Seq<TraceEventModel>, e: TraceEventModel)
    ensures
        has_trap(events.push(e)) == (has_trap(events) || e.trap is Some),
{
    let p = events.push(e);
    if has_trap(events) {
        let i = choose|i: int| 0 <= i < events.len() && (#[trigger] events[i]).trap is Some;
        assert(p[i] == events[i]);
    }
    if e.trap is Some {
        assert(p[events.len() as int] == e);
    }
    if has_trap(p) {
        let i = choose|i: int| 0 <= i < p.len() && (#[trigger] p[i]).trap is Some;
        if i < events.len() {
            assert(p[i] == events[i]);
        }
    }
}

/// Whether some write of a list is of kind `k`.
fn has_write_of(writes: &Vec<StateWrite>, k: StateKind) -> (r: bool)
    ensures
        r == writes_kind(writes_view(writes@), k),
{
    let ghost ws = writes_view(writes@);
    let mut i: usize = 0;
    while i < writes.len()
        invariant
            i <= writes@.len(),
            ws == writes_view(writes@),
            forall|m: int| 0 <= m < i ==> ws[m].kind != k,
        decreases writes@.len() - i,
    {
        assert(ws[i as int] == writes@[i as int]@);
        if writes[i].kind == k {
            assert(ws[i as int].kind == k);
            return true;
        }
        i = i + 1;
    }
    false
}

fn memory_fault(cause: u64) -> (r: bool)
    ensures
        r == is_memory_fault(cause),
{
    cause == 0 || cause == 1 || cause == 4 || cause == 5 || cause == 6 || cause == 7 || cause == 12
        || cause == 13 || cause == 15
}

fn privilege_instruction(text: &String) -> (r: bool)
    ensures
        r == is_privilege_instruction(text@),
{
    let t = trimmed(chars_of(text.as_str()).as_slice());
    let ecall = chars_of("ecall");
    let mret = chars_of("mret");
    let sret = chars_of("sret");
    chars_equal(t.as_slice(), ecall.as_slice()) || chars_equal(t.as_slice(), mret.as_slice())
        || chars_equal(t.as_slice(), sret.as_slice())
}

/// Whether a selection takes an event.
fn selects_event(s: Selection, event: &TraceEvent) -> (r: bool)
    ensures
        r == selects(s, event@),
{
    match s {
        Selection::TrapChains => event.trap.is_some(),
        Selection::StateChanges => event.writes.len() > 0,
        Selection::CsrChanges => event.trap.is_some() || has_write_of(&event.writes, StateKind::Csr),
        Selection::MemoryChanges => {
            if has_write_of(&event.writes, StateKind::Memory) {
                true
            } else {
                match &event.trap {
                    Some(t) => memory_fault(t.cause),
                    None => false,
                }
            }
        },
        Selection::PrivilegeChanges => event.trap.is_some() || privilege_instruction(
            &event.instruction,
        ),
        Selection::Everything => true,
    }
}

/// Whether an event is a centre of the requested context; `pc` is the requested PC in lower
/// case.
fn anchor_event(event: &TraceEvent, options: &AnalyzeOptions, pc: &Option<Vec<char>>) -> (r: bool)
    requires
        match options.around_pc {
            Some(p) => pc matches Some(v) && v@ == lower(p@),
            None => pc is None,
        },
    ensures
        r == is_anchor(event@, options@),
{
    let at_pc = match pc {
        Some(v) => {
            let here = lowered(chars_of(event.pc.as_str()).as_slice());
            chars_equal(here.as_slice(), v.as_slice())
        },
        None => false,
    };
    let at_trap = match (options.around_trap, &event.trap) {
        (Some(c), Some(t)) => t.cause == c,
        _ => false,
    };
    at_pc || at_trap
}

/// Whether the event at position `j` lies within the requested context.
fn event_in_context(
    events: &Vec<TraceEvent>,
    options: &AnalyzeOptions,
    pc: &Option<Vec<char>>,
    j: usize,
) -> (r: bool)
    requires
        j < events@.len(),
        match options.around_pc {
            Some(p) => pc matches Some(v) && v@ == lower(p@),
            None => pc is None,
        },
    ensures
        r == in_context(events_view(events@), options@, j as int),
{
    let ghost evs = events_view(events@);
    if options.around_pc.is_none() && options.around_trap.is_none() {
        return true;
    }
    let n = events.len();
    let lo = if j >= options.after {
        j - options.after
    } else {
        0
    };
    let hi = if options.before >= n - j {
        n
    } else {
        j + options.before + 1
    };
    let mut k = lo;
    while k < hi
        invariant
            lo <= k <= hi <= n,
            j < n,
            lo + options.after >= j,
            hi <= j + options.before + 1,
            options.around_pc is Some || options.around_trap is Some,
            match options.around_pc {
                Some(p) => pc matches Some(v) && v@ == lower(p@),
                None => pc is None,
            },
            n == events@.len(),
            evs == events_view(events@),
            forall|m: int| lo <= m < k ==> !is_anchor(#[trigger] evs[m], options@),
        decreases hi - k,
    {
        assert(evs[k as int] == events@[k as int]@);
        if anchor_event(&events[k], options, pc) {
            assert(is_anchor(evs[k as int], options@));
            return true;
        }
        k = k + 1;
    }
    assert forall|i: int|
        0 <= i < evs.len() && j - options.after <= i <= j + options.before implies !is_anchor(
        #[trigger] evs[i],
        options@,
    ) by {
        assert(lo <= i < hi);
    }
    false
}

/// `analyze`: checks the trace, selects the events that the profile asks for, builds their
/// causal evidence and keeps the first `limit` evidence events.
pub fn analyze(trace: TraceDocument, profile: EvidenceProfile, limit: usize) -> (r: Result<
    EvidenceDocument,
    AnalyzeError,
>)
    ensures
        r matches Ok(d) ==> analysis(trace@, profile, limit) == Ok::<
            EvidenceDocumentModel,
            AnalyzeErrorModel,
        >(d@),
        r matches Err(e) ==> analysis(trace@, profile, limit) == Err::<
            EvidenceDocumentModel,
            AnalyzeErrorModel,
        >(e@),
        r is Ok ==> evidence_count(trace@, plain_options(profile, limit)) <= usize::MAX,
{
    let options = AnalyzeOptions {
        profile,
        limit,
        around_pc: None,
        around_trap: None,
        before: 8,
        after: 4,
    };
    analyze_with_options(trace, options)
}

/// `analyze_with_options`: checks the trace, keeps the events within the requested context,
/// selects among them the events that the profile asks for, builds their causal evidence and
/// keeps the first `limit` evidence events.
pub fn analyze_with_options(trace: TraceDocument, options: AnalyzeOptions) -> (r: Result<
    EvidenceDocument,
    AnalyzeError,
>)
    ensures
        r matches Ok(d) ==> analysis_with_options(trace@, options@) == Ok::<
            EvidenceDocumentModel,
            AnalyzeErrorModel,
        >(d@),
        r matches Err(e) ==> analysis_with_options(trace@, options@) == Err::<
            EvidenceDocumentModel,
            AnalyzeErrorModel,
        >(e@),
        r is Ok ==> evidence_count(trace@, options@) <= usize::MAX,
{
    let profile = options.profile;
    let limit = options.limit;
    match validate(&trace, limit) {
        Err(e) => {
            return Err(e);
        },
        Ok(()) => {},
    }
    let ghost evs = trace@.events;
    let ghost o = options@;
    let input_events = trace.events.len();
    let pc: Option<Vec<char>> = match &options.around_pc {
        Some(p) => Some(lowered(chars_of(p.as_str()).as_slice())),
        None => None,
    };
    let mut scope: Vec<bool> = Vec::new();
    let mut any_trap = false;
    let mut j: usize = 0;
    while j < trace.events.len()
        invariant
            j <= trace.events@.len(),
            evs == trace@.events,
            evs == events_view(trace.events@),
            o == options@,
            match options.around_pc {
                Some(p) => pc matches Some(v) && v@ == lower(p@),
                None => pc is None,
            },
            scope@.len() == j,
            forall|m: int| 0 <= m < j ==> #[trigger] scope@[m] == in_context(evs, o, m),
            any_trap == has_trap(scoped(evs, o, j as int)),
        decreases trace.events@.len() - j,
    {
        let inside = event_in_context(&trace.events, &options, &pc, j);
        proof {
            lemma_has_trap_push(scoped(evs, o, j as int), evs[j as int]);
            assert(evs[j as int] == trace.events@[j as int]@);
        }
        if inside && trace.events[j].trap.is_some() {
            any_trap = true;
        }
        scope.push(inside);
        j = j + 1;
    }
    let s = match profile {
        EvidenceProfile::Trap => Selection::TrapChains,
        EvidenceProfile::Csr => Selection::CsrChanges,
        EvidenceProfile::Memory => Selection::MemoryChanges,
        EvidenceProfile::Privilege => Selection::PrivilegeChanges,
        EvidenceProfile::Full => Selection::Everything,
        EvidenceProfile::Auto => if any_trap {
            Selection::TrapChains
        } else {
            Selection::StateChanges
        },
    };
    assert(s == selection(profile, in_scope(evs, o)));
    let mut evidence: Vec<EvidenceEvent> = Vec::new();
    let mut matched: usize = 0;
    let mut i: usize = 0;
    assert(evidence_view(evidence@) =~= Seq::empty());
    while i < trace.events.len()
        invariant
            i <= trace.events@.len(),
            evs == trace@.events,
            evs == events_view(trace.events@),
            scope@.len() == trace.events@.len(),
            forall|m: int| 0 <= m < scope@.len() ==> #[trigger] scope@[m] == in_context(evs, o, m),
            matched == selected(scoped(evs, o, i as int), s).len(),
            evidence_view(evidence@) == evidence_of(selected(scoped(evs, o, i as int), s), s),
            scoped(evs, o, i as int).len() <= i,
        decreases trace.events@.len() - i,
    {
        let event = &trace.events[i];
        assert(evs[i as int] == event@);
        proof {
            lemma_selected_len(scoped(evs, o, i as int), s);
        }
        let ghost sc = scoped(evs, o, i as int);
        let ghost sel = selected(sc, s);
        assert(sc.push(event@).drop_last() =~= sc);
        assert(sc.push(event@).last() == event@);
        assert(sel.push(event@).drop_last() =~= sel);
        if scope[i] && selects_event(s, event) {
            matched = matched + 1;
            append_event_evidence(&mut evidence, event, s);
        }
        i = i + 1;
    }
    let total = evidence.len();
    assert(evidence_count(trace@, o) == total);
    evidence.truncate(limit);
    let emitted = evidence.len();
    let truncated = emitted < total;
    let mut warnings: Vec<String> = Vec::new();
    if profile == EvidenceProfile::Trap && matched == 0 {
        warnings.push(String::from_str("the trace contains no trap events"));
    }
    let ghost w1 = strs(warnings@);
    if truncated {
        let mut w = String::from_str("evidence output was limited to ");
        push_decimal(&mut w, limit as u64);
        w.append(" of ");
        push_decimal(&mut w, total as u64);
        w.append(" events");
        warnings.push(w);
    }
    let profile_text = match profile {
        EvidenceProfile::Auto => String::from_str("auto"),
        EvidenceProfile::Trap => String::from_str("trap"),
        EvidenceProfile::Csr => String::from_str("csr"),
        EvidenceProfile::Memory => String::from_str("memory"),
        EvidenceProfile::Privilege => String::from_str("privilege"),
        EvidenceProfile::Full => String::from_str("full"),
    };
    let doc = EvidenceDocument {
        schema: String::from_str(EVIDENCE_SCHEMA),
        target: trace.target,
        provenance: trace.provenance,
        profile: profile_text,
        summary: EvidenceSummary {
            input_events,
            matched_trace_events: matched,
            total_evidence_events: total,
            emitted_evidence_events: emitted,
            truncated,
        },
        events: evidence,
        warnings,
    };
    proof {
        let sel = selected(in_scope(evs, o), s);
        let all = evidence_of(sel, s);
        if all.len() > limit {
            assert(evidence_view(doc.events@) =~= all.take(limit as int));
        } else {
            assert(evidence_view(doc.events@) =~= all);
        }
        let wa: Seq<Seq<char>> = if profile == EvidenceProfile::Trap && sel.len() == 0 {
            seq![no_trap_warning()]
        } else {
            Seq::empty()
        };
        let wb: Seq<Seq<char>> = if truncated {
            seq![limit_warning(limit as nat, all.len())]
        } else {
            Seq::empty()
        };
        assert(strs(doc.warnings@) =~= wa + wb);
    }
    Ok(doc)
}

/// Every evidence event carries the identifier of its position.
pub open spec fn ids_are_positions(ev: Seq<EvidenceEventModel>) -> bool {
    forall|i: int| 0 <= i < ev.len() ==> #[trigger] ev[i].id == evidence_id(i as nat)
}

/// Every evidence event but an instruction names exactly one cause, an earlier instruction or
/// trap of the same trace event; instructions name none.
pub open spec fn causes_precede(ev: Seq<EvidenceEventModel>) -> bool {
    forall|i: int|
        0 <= i < ev.len() ==> {
            &&& (#[trigger] ev[i].kind == EvidenceKind::Instruction <==> ev[i].caused_by.len() == 0)
            &&& ev[i].caused_by.len() > 0 ==> exists|j: int|
                0 <= j < i && ev[i].caused_by == seq![ev[j].id] && (ev[j].kind
                    == EvidenceKind::Instruction || ev[j].kind == EvidenceKind::Trap)
                    && ev[j].trace_sequence == ev[i].trace_sequence
        }
}

proof fn lemma_event_evidence_shape(e: TraceEventModel, s: Selection, base: nat)
    ensures
        ({
            let ev = event_evidence(e, s, base);
            &&& ev.len() >= 1
            &&& forall|k: int| 0 <= k < ev.len() ==> #[trigger] ev[k].id == evidence_id((base + k) as nat)
            &&& forall|k: int| 0 <= k < ev.len() ==> #[trigger] ev[k].trace_sequence == e.sequence
            &&& ev[0].kind == EvidenceKind::Instruction
            &&& ev[0].caused_by.len() == 0
            &&& forall|k: int|
                0 < k < ev.len() ==> #[trigger] ev[k].kind != EvidenceKind::Instruction
                    && exists|c: int|
                    0 <= c < k && ev[k].caused_by == seq![evidence_id((base + c) as nat)] && (ev[c].kind
                        == EvidenceKind::Instruction || ev[c].kind == EvidenceKind::Trap)
        }),
{
    let ev = event_evidence(e, s, base);
    let kept = kept_writes(e.writes, s);
    match e.trap {
        Some(t) => {
            let w = write_evidence(e, kept, base + 2, evidence_id(base + 1));
            let n = kept.len();
            assert(ev[0].kind == EvidenceKind::Instruction);
            assert(ev[1].kind == EvidenceKind::Trap);
            assert(ev[1].caused_by == seq![evidence_id((base + 0) as nat)]);
            assert(ev.len() >= 3 + n);
            assert forall|k: int| 0 < k < ev.len() implies #[trigger] ev[k].kind
                != EvidenceKind::Instruction && exists|c: int|
                0 <= c < k && ev[k].caused_by == seq![evidence_id((base + c) as nat)] && (ev[c].kind
                    == EvidenceKind::Instruction || ev[c].kind == EvidenceKind::Trap) by {
                if k == 1 {
                } else if k < 2 + n {
                    assert(ev[k] == w[k - 2]);
                    assert(ev[k].caused_by == seq![evidence_id((base + 1) as nat)]);
                } else {
                    assert(ev[k].caused_by == seq![evidence_id((base + 1) as nat)]);
                }
            }
            assert forall|k: int| 0 <= k < ev.len() implies #[trigger] ev[k].id == evidence_id(
                (base + k) as nat,
            ) && ev[k].trace_sequence == e.sequence by {
                if 2 <= k < 2 + n {
                    assert(ev[k] == w[k - 2]);
                }
            }
        },
        None => {
            let w = write_evidence(e, kept, base + 1, evidence_id(base));
            assert forall|k: int| 0 < k < ev.len() implies #[trigger] ev[k].kind
                != EvidenceKind::Instruction && exists|c: int|
                0 <= c < k && ev[k].caused_by == seq![evidence_id((base + c) as nat)] && (ev[c].kind
                    == EvidenceKind::Instruction || ev[c].kind == EvidenceKind::Trap) by {
                assert(ev[k] == w[k - 1]);
                assert(ev[0].kind == EvidenceKind::Instruction);
                assert(ev[k].caused_by == seq![evidence_id((base + 0) as nat)]);
            }
            assert forall|k: int| 0 <= k < ev.len() implies #[trigger] ev[k].id == evidence_id(
                (base + k) as nat,
            ) && ev[k].trace_sequence == e.sequence by {
                if k >= 1 {
                    assert(ev[k] == w[k - 1]);
                }
            }
        },
    }
}

proof fn lemma_evidence_of_links(events: Seq<TraceEventModel>, s: Selection)
    ensures
        ids_are_positions(evidence_of(events, s)),
        causes_precede(evidence_of(events, s)),
    decreases events.len(),
{
    if events.len() > 0 {
        let prev = evidence_of(events.drop_last(), s);
        lemma_evidence_of_links(events.drop_last(), s);
        let base = prev.len();
        let block = event_evidence(events.last(), s, base);
        lemma_event_evidence_shape(events.last(), s, base);
        let all = evidence_of(events, s);
        assert(all == prev + block);
        assert forall|i: int| 0 <= i < all.len() implies #[trigger] all[i].id == evidence_id(
            i as nat,
        ) by {
            if i >= base {
                assert(all[i] == block[i - base]);
            }
        }
        assert forall|i: int| 0 <= i < all.len() implies {
            &&& (#[trigger] all[i].kind == EvidenceKind::Instruction <==> all[i].caused_by.len()
                == 0)
            &&& all[i].caused_by.len() > 0 ==> exists|j: int|
                0 <= j < i && all[i].caused_by == seq![all[j].id] && (all[j].kind
                    == EvidenceKind::Instruction || all[j].kind == EvidenceKind::Trap)
                    && all[j].trace_sequence == all[i].trace_sequence
        } by {
            if i < base {
                assert(all[i] == prev[i]);
                if prev[i].caused_by.len() > 0 {
                    let j = choose|j: int|
                        0 <= j < i && prev[i].caused_by == seq![prev[j].id] && (prev[j].kind
                            == EvidenceKind::Instruction || prev[j].kind == EvidenceKind::Trap)
                            && prev[j].trace_sequence == prev[i].trace_sequence;
                    assert(all[j] == prev[j]);
                }
            } else {
                let k = i - base;
                assert(all[i] == block[k]);
                if k > 0 {
                    let c = choose|c: int|
                        0 <= c < k && block[k].caused_by == seq![evidence_id((base + c) as nat)] && (
                        block[c].kind == EvidenceKind::Instruction || block[c].kind
                            == EvidenceKind::Trap);
                    assert(all[base + c] == block[c]);
                    assert(block[c].id == evidence_id((base + c) as nat));
                    assert(block[c].trace_sequence == block[k].trace_sequence);
                }
            }
        }
    }
}

/// Evidence identifiers are stable and causal links are explicit: in every evidence document,
/// the event at position `i` is identified `ev-` and `i` in at least four digits, and every
/// event but an instruction names as its single cause an earlier instruction or trap of the
/// same trace event.
pub proof fn law_evidence_links(trace: TraceDocumentModel, o: AnalyzeOptionsModel)
    requires
        analysis_with_options(trace, o) is Ok,
    ensures
        ids_are_positions(analysis_with_options(trace, o)->Ok_0.events),
        causes_precede(analysis_with_options(trace, o)->Ok_0.events),
{
    let scope = in_scope(trace.events, o);
    let s = selection(o.profile, scope);
    let sel = selected(scope, s);
    let all = evidence_of(sel, s);
    lemma_evidence_of_links(sel, s);
    let ev = analysis_with_options(trace, o)->Ok_0.events;
    assert(ev.len() <= all.len());
    assert forall|i: int| 0 <= i < ev.len() implies ev[i] == all[i] by {}
    assert forall|i: int| 0 <= i < ev.len() implies #[trigger] ev[i].id == evidence_id(i as nat) by {
        assert(ev[i] == all[i]);
    }
    assert forall|i: int| 0 <= i < ev.len() implies {
        &&& (#[trigger] ev[i].kind == EvidenceKind::Instruction <==> ev[i].caused_by.len() == 0)
        &&& ev[i].caused_by.len() > 0 ==> exists|j: int|
            0 <= j < i && ev[i].caused_by == seq![ev[j].id] && (ev[j].kind
                == EvidenceKind::Instruction || ev[j].kind == EvidenceKind::Trap)
                && ev[j].trace_sequence == ev[i].trace_sequence
    } by {
        assert(ev[i] == all[i]);
        if all[i].caused_by.len() > 0 {
            let j = choose|j: int|
                0 <= j < i && all[i].caused_by == seq![all[j].id] && (all[j].kind
                    == EvidenceKind::Instruction || all[j].kind == EvidenceKind::Trap)
                    && all[j].trace_sequence == all[i].trace_sequence;
            assert(ev[j] == all[j]);
        }
    }
}

proof fn lemma_selected_len_le(events: Seq<TraceEventModel>, s: Selection)
    ensures
        selected(events, s).len() <= events.len(),
        s == Selection::Everything ==> selected(events, s) == events,
        forall|i: int| 0 <= i < selected(events, s).len() ==> selects(s, #[trigger] selected(events, s)[i]),
    decreases events.len(),
{
    if events.len() > 0 {
        lemma_selected_len_le(events.drop_last(), s);
        assert(s == Selection::Everything ==> events.drop_last().push(events.last()) =~= events);
    }
}

/// Evidence is bounded: an analysis emits at most `limit` evidence events, its summary counts
/// exactly the events it emits, it is marked truncated only when it stopped at the limit, and
/// when it is not truncated it holds all the evidence of the selected trace events.
pub proof fn law_bounded_evidence(trace: TraceDocumentModel, o: AnalyzeOptionsModel)
    requires
        analysis_with_options(trace, o) is Ok,
        trace.events.len() <= usize::MAX,
    ensures
        ({
            let d = analysis_with_options(trace, o)->Ok_0;
            &&& d.events.len() <= o.limit
            &&& d.summary.emitted_evidence_events == d.events.len()
            &&& d.summary.truncated ==> d.events.len() == o.limit
            &&& !d.summary.truncated ==> d.events == evidence_of(
                selected(in_scope(trace.events, o), selection(o.profile, in_scope(trace.events, o))),
                selection(o.profile, in_scope(trace.events, o)),
            )
            &&& d.summary.input_events == trace.events.len()
            &&& d.summary.matched_trace_events <= d.summary.input_events
            &&& evidence_count(trace, o) <= usize::MAX ==> d.summary.total_evidence_events
                == evidence_count(trace, o)
            &&& evidence_count(trace, o) <= usize::MAX ==> d.events.len() == if evidence_count(
                trace,
                o,
            ) < o.limit {
                evidence_count(trace, o)
            } else {
                o.limit as nat
            }
        }),
{
    lemma_scoped_len(trace.events, o, trace.events.len() as int);
    let scope = in_scope(trace.events, o);
    lemma_selected_len_le(scope, selection(o.profile, scope));
}

proof fn lemma_scoped_len(events: Seq<TraceEventModel>, o: AnalyzeOptionsModel, n: int)
    ensures
        scoped(events, o, n).len() <= if n < 0 {
            0
        } else {
            n
        },
    decreases n,
{
    if n > 0 {
        lemma_scoped_len(events, o, n - 1);
    }
}

/// Raising the limit only extends the evidence: the evidence emitted under a smaller limit is a
/// prefix of the evidence emitted under a larger one.
pub proof fn law_limit_prefix(
    trace: TraceDocumentModel,
    o: AnalyzeOptionsModel,
    small: usize,
    large: usize,
)
    requires
        0 < small <= large,
        analysis_with_options(trace, AnalyzeOptionsModel { limit: small, ..o }) is Ok,
    ensures
        ({
            let a = analysis_with_options(trace, AnalyzeOptionsModel { limit: small, ..o })->Ok_0;
            let b = analysis_with_options(trace, AnalyzeOptionsModel { limit: large, ..o })->Ok_0;
            &&& analysis_with_options(trace, AnalyzeOptionsModel { limit: large, ..o }) is Ok
            &&& a.events.len() <= b.events.len()
            &&& a.events == b.events.take(a.events.len() as int)
            &&& a.summary.input_events == b.summary.input_events
            &&& a.summary.matched_trace_events == b.summary.matched_trace_events
            &&& a.summary.total_evidence_events == b.summary.total_evidence_events
        }),
{
    let a = analysis_with_options(trace, AnalyzeOptionsModel { limit: small, ..o })->Ok_0.events;
    let b = analysis_with_options(trace, AnalyzeOptionsModel { limit: large, ..o })->Ok_0.events;
    lemma_same_scope(
        trace.events,
        AnalyzeOptionsModel { limit: small, ..o },
        AnalyzeOptionsModel { limit: large, ..o },
        trace.events.len() as int,
    );
    assert(a =~= b.take(a.len() as int));
}

/// Whether two option sets ask for the same context.
pub open spec fn same_context(a: AnalyzeOptionsModel, b: AnalyzeOptionsModel) -> bool {
    &&& a.around_pc == b.around_pc
    &&& a.around_trap == b.around_trap
    &&& a.before == b.before
    &&& a.after == b.after
}

proof fn lemma_same_scope(
    events: Seq<TraceEventModel>,
    a: AnalyzeOptionsModel,
    b: AnalyzeOptionsModel,
    n: int,
)
    requires
        same_context(a, b),
    ensures
        scoped(events, a, n) == scoped(events, b, n),
    decreases n,
{
    if n > 0 {
        lemma_same_scope(events, a, b, n - 1);
        assert(in_context(events, a, n - 1) == in_context(events, b, n - 1)) by {
            assert forall|i: int| 0 <= i < events.len() implies is_anchor(events[i], a)
                == is_anchor(events[i], b) by {}
        }
    }
}

proof fn lemma_kept_trap_csrs(writes: Seq<StateWriteModel>)
    ensures
        forall|j: int|
            0 <= j < kept_writes(writes, Selection::TrapChains).len() ==> is_trap_csr(
                #[trigger] kept_writes(writes, Selection::TrapChains)[j],
            ),
    decreases writes.len(),
{
    if writes.len() > 0 {
        lemma_kept_trap_csrs(writes.drop_last());
        let rest = kept_writes(writes.drop_last(), Selection::TrapChains);
        let all = kept_writes(writes, Selection::TrapChains);
        assert forall|j: int| 0 <= j < all.len() implies is_trap_csr(#[trigger] all[j]) by {
            if j < rest.len() {
                assert(all[j] == rest[j]);
            }
        }
    }
}

/// Whether an evidence event that reports a state change reports a write to a trap CSR.
pub open spec fn reports_trap_csr(e: EvidenceEventModel) -> bool {
    e.kind == EvidenceKind::StateChange ==> (e.state matches Some(w) && is_trap_csr(w))
}

proof fn lemma_trap_chain_states(events: Seq<TraceEventModel>)
    ensures
        forall|i: int|
            0 <= i < evidence_of(events, Selection::TrapChains).len() ==> reports_trap_csr(
                #[trigger] evidence_of(events, Selection::TrapChains)[i],
            ),
    decreases events.len(),
{
    if events.len() > 0 {
        let p = Selection::TrapChains;
        lemma_trap_chain_states(events.drop_last());
        let prev = evidence_of(events.drop_last(), p);
        let e = events.last();
        let block = event_evidence(e, p, prev.len());
        let all = evidence_of(events, p);
        let kept = kept_writes(e.writes, p);
        lemma_kept_trap_csrs(e.writes);
        assert forall|i: int| 0 <= i < all.len() implies reports_trap_csr(#[trigger] all[i]) by {
            if i < prev.len() {
                assert(all[i] == prev[i]);
            } else {
                let k = i - prev.len();
                assert(all[i] == block[k]);
                match e.trap {
                    Some(t) => {
                        let w = write_evidence(e, kept, prev.len() + 2, evidence_id(prev.len() + 1));
                        if 2 <= k < 2 + kept.len() {
                            assert(block[k] == w[k - 2]);
                        }
                    },
                    None => {
                        let w = write_evidence(e, kept, prev.len() + 1, evidence_id(prev.len()));
                        if k >= 1 {
                            assert(block[k] == w[k - 1]);
                        }
                    },
                }
            }
        }
    }
}

/// Trap chains keep trap CSRs only: under the trap profile, and under `auto` over a trace
/// that holds a trap, every state change reported is a write to `mcause`, `mepc`, `mtval`,
/// `scause`, `sepc` or `stval`.
pub proof fn law_trap_chains_report_trap_csrs(trace: TraceDocumentModel, o: AnalyzeOptionsModel)
    requires
        o.profile == EvidenceProfile::Trap || (o.profile == EvidenceProfile::Auto && has_trap(
            in_scope(trace.events, o),
        )),
        analysis_with_options(trace, o) is Ok,
    ensures
        forall|i: int|
            0 <= i < analysis_with_options(trace, o)->Ok_0.events.len() ==> reports_trap_csr(
                #[trigger] analysis_with_options(trace, o)->Ok_0.events[i],
            ),
{
    let sel = selected(in_scope(trace.events, o), Selection::TrapChains);
    lemma_trap_chain_states(sel);
    let all = evidence_of(sel, Selection::TrapChains);
    let ev = analysis_with_options(trace, o)->Ok_0.events;
    assert forall|i: int| 0 <= i < ev.len() implies reports_trap_csr(#[trigger] ev[i]) by {
        assert(ev[i] == all[i]);
    }
}

proof fn lemma_trap_selected(events: Seq<TraceEventModel>)
    ensures
        has_trap(events) ==> selected(events, Selection::TrapChains).len() > 0,
    decreases events.len(),
{
    if events.len() > 0 && has_trap(events) {
        if events.last().trap is None {
            let i = choose|i: int| 0 <= i < events.len() && (#[trigger] events[i]).trap is Some;
            assert(events.drop_last()[i].trap is Some);
            lemma_trap_selected(events.drop_last());
        }
    }
}

/// `auto` follows the events it considers: where they hold a trap it reports exactly what the
/// trap profile reports, and otherwise it reports the instructions that change state with all
/// their writes, as the full profile does for those instructions.
pub proof fn law_auto_profile(trace: TraceDocumentModel, o: AnalyzeOptionsModel)
    requires
        o.profile == EvidenceProfile::Auto,
        analysis_with_options(trace, o) is Ok,
    ensures
        ({
            let a = analysis_with_options(trace, o)->Ok_0;
            let scope = in_scope(trace.events, o);
            let trap_options = AnalyzeOptionsModel { profile: EvidenceProfile::Trap, ..o };
            &&& a.profile == "auto"@
            &&& has_trap(scope) ==> (analysis_with_options(trace, trap_options) matches Ok(t)
                && a.events == t.events && a.summary == t.summary && a.warnings == t.warnings)
            &&& !has_trap(scope) ==> evidence_of(
                selected(scope, Selection::StateChanges),
                Selection::StateChanges,
            ) == evidence_of(selected(scope, Selection::StateChanges), Selection::Everything)
        }),
{
    let scope = in_scope(trace.events, o);
    let trap_options = AnalyzeOptionsModel { profile: EvidenceProfile::Trap, ..o };
    lemma_same_scope(trace.events, o, trap_options, trace.events.len() as int);
    lemma_trap_selected(scope);
    if !has_trap(scope) {
        lemma_no_trap_evidence(selected(scope, Selection::StateChanges));
    }
}

proof fn lemma_kept_everything(writes: Seq<StateWriteModel>)
    ensures
        kept_writes(writes, Selection::StateChanges) == writes,
        kept_writes(writes, Selection::Everything) == writes,
    decreases writes.len(),
{
    if writes.len() > 0 {
        lemma_kept_everything(writes.drop_last());
        assert(writes.drop_last().push(writes.last()) =~= writes);
    }
}

proof fn lemma_no_trap_evidence(events: Seq<TraceEventModel>)
    ensures
        evidence_of(events, Selection::StateChanges) == evidence_of(events, Selection::Everything),
    decreases events.len(),
{
    if events.len() > 0 {
        lemma_no_trap_evidence(events.drop_last());
        lemma_kept_everything(events.last().writes);
    }
}

proof fn lemma_event_diagnostics(e: TraceEventModel, s: Selection, base: nat)
    ensures
        forall|k: int|
            0 <= k < event_evidence(e, s, base).len() ==> ((#[trigger] event_evidence(
                e,
                s,
                base,
            )[k]).diagnostic is Some <==> event_evidence(e, s, base)[k].kind == EvidenceKind::Trap),
{
    let ev = event_evidence(e, s, base);
    let kept = kept_writes(e.writes, s);
    assert forall|k: int| 0 <= k < ev.len() implies ((#[trigger] ev[k]).diagnostic is Some
        <==> ev[k].kind == EvidenceKind::Trap) by {
        match e.trap {
            Some(t) => {
                let w = write_evidence(e, kept, base + 2, evidence_id(base + 1));
                if 2 <= k < 2 + kept.len() {
                    assert(ev[k] == w[k - 2]);
                }
            },
            None => {
                let w = write_evidence(e, kept, base + 1, evidence_id(base));
                if k >= 1 {
                    assert(ev[k] == w[k - 1]);
                }
            },
        }
    }
}

proof fn lemma_evidence_diagnostics(events: Seq<TraceEventModel>, s: Selection)
    ensures
        forall|i: int|
            0 <= i < evidence_of(events, s).len() ==> ((#[trigger] evidence_of(events, s)[i]).diagnostic
                is Some <==> evidence_of(events, s)[i].kind == EvidenceKind::Trap),
    decreases events.len(),
{
    if events.len() > 0 {
        lemma_evidence_diagnostics(events.drop_last(), s);
        let prev = evidence_of(events.drop_last(), s);
        let block = event_evidence(events.last(), s, prev.len());
        lemma_event_diagnostics(events.last(), s, prev.len());
        let all = evidence_of(events, s);
        assert forall|i: int| 0 <= i < all.len() implies ((#[trigger] all[i]).diagnostic is Some
            <==> all[i].kind == EvidenceKind::Trap) by {
            if i < prev.len() {
                assert(all[i] == prev[i]);
            } else {
                assert(all[i] == block[i - prev.len()]);
            }
        }
    }
}

/// Diagnoses mark traps: an evidence event carries a diagnostic exactly when it is the
/// evidence of a trap.
pub proof fn law_diagnostics_mark_traps(trace: TraceDocumentModel, o: AnalyzeOptionsModel)
    requires
        analysis_with_options(trace, o) is Ok,
    ensures
        forall|i: int|
            0 <= i < analysis_with_options(trace, o)->Ok_0.events.len() ==> ((
            #[trigger] analysis_with_options(trace, o)->Ok_0.events[i]).diagnostic is Some
                <==> analysis_with_options(trace, o)->Ok_0.events[i].kind == EvidenceKind::Trap),
{
    let scope = in_scope(trace.events, o);
    let s = selection(o.profile, scope);
    let all = evidence_of(selected(scope, s), s);
    lemma_evidence_diagnostics(selected(scope, s), s);
    let ev = analysis_with_options(trace, o)->Ok_0.events;
    assert forall|i: int| 0 <= i < ev.len() implies ((#[trigger] ev[i]).diagnostic is Some
        <==> ev[i].kind == EvidenceKind::Trap) by {
        assert(ev[i] == all[i]);
    }
}

proof fn lemma_numbered_increasing(events: Seq<TraceEventModel>, start: int)
    requires
        0 <= start,
        forall|i: int| 0 <= i < events.len() ==> (#[trigger] events[i]).sequence == i,
    ensures
        first_non_increasing(events, start) is None,
    decreases events.len() - start,
{
    if start + 1 < events.len() {
        assert(events[start].sequence == start);
        assert(events[start + 1].sequence == start + 1);
        lemma_numbered_increasing(events, start + 1);
    }
}

/// Imported traces are always analyzable: the analysis of a trace imported from any Spike log
/// succeeds exactly when the evidence limit is positive.
pub proof fn law_imported_traces_analyzable(
    contents: Seq<char>,
    isa: Seq<char>,
    input: Seq<char>,
    o: AnalyzeOptionsModel,
)
    requires
        crate::spike::spike_trace(contents, isa, input).events.len() <= u64::MAX,
    ensures
        analysis_with_options(crate::spike::spike_trace(contents, isa, input), o) is Ok <==> o.limit
            > 0,
{
    let t = crate::spike::spike_trace(contents, isa, input);
    crate::spike::law_imported_events_numbered(contents, isa, input);
    lemma_numbered_increasing(t.events, 0);
    assert(t.schema == TRACE_SCHEMA@);
}

/// Whether an evidence list reports write `w` of the trace event numbered `seq` as a state
/// change.
pub open spec fn reports_write(ev: Seq<EvidenceEventModel>, w: StateWriteModel, seq: u64) -> bool {
    exists|p: int|
        0 <= p < ev.len() && (#[trigger] ev[p]).kind == EvidenceKind::StateChange && ev[p].state
            == Some(w) && ev[p].trace_sequence == seq
}

proof fn lemma_kept_contains(writes: Seq<StateWriteModel>, s: Selection, j: int)
    requires
        0 <= j < writes.len(),
        keeps(s, writes[j]),
    ensures
        exists|m: int|
            0 <= m < kept_writes(writes, s).len() && #[trigger] kept_writes(writes, s)[m]
                == writes[j],
    decreases writes.len(),
{
    let rest = kept_writes(writes.drop_last(), s);
    let all = kept_writes(writes, s);
    if j == writes.len() - 1 {
        assert(all[rest.len() as int] == writes[j]);
    } else {
        assert(writes.drop_last()[j] == writes[j]);
        lemma_kept_contains(writes.drop_last(), s, j);
        let m = choose|m: int| 0 <= m < rest.len() && #[trigger] rest[m] == writes[j];
        assert(all[m] == rest[m]);
    }
}

proof fn lemma_event_reports(e: TraceEventModel, s: Selection, base: nat, m: int)
    requires
        e.trap is Some,
        0 <= m < kept_writes(e.writes, s).len(),
    ensures
        reports_write(event_evidence(e, s, base), kept_writes(e.writes, s)[m], e.sequence),
{
    let kept = kept_writes(e.writes, s);
    let ev = event_evidence(e, s, base);
    let w = write_evidence(e, kept, base + 2, evidence_id(base + 1));
    assert(ev[2 + m] == w[m]);
    assert(ev[2 + m].kind == EvidenceKind::StateChange);
}

proof fn lemma_evidence_of_reports(events: Seq<TraceEventModel>, s: Selection, i: int, m: int)
    requires
        0 <= i < events.len(),
        events[i].trap is Some,
        0 <= m < kept_writes(events[i].writes, s).len(),
    ensures
        reports_write(
            evidence_of(events, s),
            kept_writes(events[i].writes, s)[m],
            events[i].sequence,
        ),
    decreases events.len(),
{
    let w = kept_writes(events[i].writes, s)[m];
    let prev = evidence_of(events.drop_last(), s);
    let all = evidence_of(events, s);
    if i == events.len() - 1 {
        let block = event_evidence(events.last(), s, prev.len());
        lemma_event_reports(events.last(), s, prev.len(), m);
        let p = choose|p: int|
            0 <= p < block.len() && (#[trigger] block[p]).kind == EvidenceKind::StateChange
                && block[p].state == Some(w) && block[p].trace_sequence == events[i].sequence;
        assert(all[prev.len() + p] == block[p]);
    } else {
        assert(events.drop_last()[i] == events[i]);
        lemma_evidence_of_reports(events.drop_last(), s, i, m);
        let p = choose|p: int|
            0 <= p < prev.len() && (#[trigger] prev[p]).kind == EvidenceKind::StateChange
                && prev[p].state == Some(w) && prev[p].trace_sequence == events[i].sequence;
        assert(all[p] == prev[p]);
    }
}

proof fn lemma_selected_contains(events: Seq<TraceEventModel>, s: Selection, i: int)
    requires
        0 <= i < events.len(),
        selects(s, events[i]),
    ensures
        exists|m: int|
            0 <= m < selected(events, s).len() && #[trigger] selected(events, s)[m] == events[i],
    decreases events.len(),
{
    let rest = selected(events.drop_last(), s);
    let all = selected(events, s);
    if i == events.len() - 1 {
        assert(all[rest.len() as int] == events[i]);
    } else {
        assert(events.drop_last()[i] == events[i]);
        lemma_selected_contains(events.drop_last(), s, i);
        let m = choose|m: int| 0 <= m < rest.len() && #[trigger] rest[m] == events[i];
        assert(all[m] == rest[m]);
    }
}

proof fn lemma_plain_scope(events: Seq<TraceEventModel>, o: AnalyzeOptionsModel, n: int)
    requires
        !context_requested(o),
        0 <= n <= events.len(),
    ensures
        scoped(events, o, n) == events.take(n),
    decreases n,
{
    if n > 0 {
        lemma_plain_scope(events, o, n - 1);
        assert(events.take(n) =~= events.take(n - 1).push(events[n - 1]));
    }
}

/// The trap profile reports every write of a trapping instruction to a trap CSR: when its
/// evidence is not cut at the limit, each write by a trapping trace event to the CSR `mcause`,
/// `mepc`, `mtval`, `scause`, `sepc` or `stval` appears as a state change of that event.
pub proof fn law_trap_profile_reports_trap_csr_writes(
    trace: TraceDocumentModel,
    limit: usize,
    i: int,
    j: int,
)
    requires
        analysis(trace, EvidenceProfile::Trap, limit) is Ok,
        !analysis(trace, EvidenceProfile::Trap, limit)->Ok_0.summary.truncated,
        0 <= i < trace.events.len(),
        trace.events[i].trap is Some,
        0 <= j < trace.events[i].writes.len(),
        trace.events[i].writes[j].kind == StateKind::Csr,
        ({
            let n = trace.events[i].writes[j].name;
            n == "mcause"@ || n == "mepc"@ || n == "mtval"@ || n == "scause"@ || n == "sepc"@ || n
                == "stval"@
        }),
    ensures
        reports_write(
            analysis(trace, EvidenceProfile::Trap, limit)->Ok_0.events,
            trace.events[i].writes[j],
            trace.events[i].sequence,
        ),
{
    let o = plain_options(EvidenceProfile::Trap, limit);
    let evs = trace.events;
    lemma_plain_scope(evs, o, evs.len() as int);
    assert(evs.take(evs.len() as int) =~= evs);
    let s = Selection::TrapChains;
    let w = evs[i].writes[j];
    assert(keeps(s, w));
    lemma_selected_contains(evs, s, i);
    let sel = selected(evs, s);
    let m = choose|m: int| 0 <= m < sel.len() && #[trigger] sel[m] == evs[i];
    lemma_kept_contains(evs[i].writes, s, j);
    let kept = kept_writes(evs[i].writes, s);
    let k = choose|k: int| 0 <= k < kept.len() && #[trigger] kept[k] == w;
    lemma_evidence_of_reports(sel, s, m, k);
    let all = evidence_of(sel, s);
    let d = analysis(trace, EvidenceProfile::Trap, limit)->Ok_0;
    assert(d.events == all);
}

} // verus!
