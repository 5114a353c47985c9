//! The normalized trace contract (`echorv.trace.v1`) and the evidence contract
//! (`echorv.evidence.v1`), with their mathematical models.

use vstd::prelude::*;

verus! {

/// Which trace events evidence is built for.
#[derive(Debug, Clone, Copy, PartialEq, Eq, Structural)]
pub enum EvidenceProfile {
    /// Trap chains when the trace holds a trap; otherwise the instructions that change state.
    Auto,
    /// Emit only trap-related causal chains.
    Trap,
    /// CSR changes and the traps around them.
    Csr,
    /// Memory changes and memory-access faults.
    Memory,
    /// Environment calls, trap returns and privilege transitions.
    Privilege,
    /// Emit instructions, state changes, and traps.
    Full,
}

/// How firmly the backend output supports an evidence event.
#[derive(Debug, Clone, Copy, PartialEq, Eq, Structural)]
pub enum Confidence {
    /// Present in the backend output.
    Observed,
    /// Architecturally determined from observed fields.
    Derived,
    /// A likely explanation that the backend output cannot prove.
    Inferred,
}

/// How evidence is rendered.
#[derive(Debug, Clone, Copy, PartialEq, Eq, Structural)]
pub enum EvidenceFormat {
    Human,
    Json,
    Jsonl,
    Sarif,
}

/// Privilege mode of a RISC-V hart.
#[derive(Debug, Clone, Copy, PartialEq, Eq, Structural)]
pub enum Privilege {
    M,
    S,
    U,
}

/// The kind of architectural state that an instruction wrote.
#[derive(Debug, Clone, Copy, PartialEq, Eq, Structural)]
pub enum StateKind {
    Register,
    Csr,
    Memory,
}

/// The role of one evidence event in a causal chain.
#[derive(Debug, Clone, Copy, PartialEq, Eq, Structural)]
pub enum EvidenceKind {
    Instruction,
    StateChange,
    Trap,
    PrivilegeTransition,
    /// Possible causes that the backend output cannot tell apart.
    Candidate,
}

/// The family of a RISC-V fault that an evidence event diagnoses.
#[derive(Debug, Clone, Copy, PartialEq, Eq, Structural, PartialOrd, Ord, Hash)]
pub enum DiagnosticCode {
    InstructionAddressMisaligned,
    InstructionAccessFault,
    IllegalInstruction,
    Breakpoint,
    LoadAddressMisaligned,
    LoadAccessFault,
    StoreAddressMisaligned,
    StoreAccessFault,
    EnvironmentCall,
    InstructionPageFault,
    LoadPageFault,
    StorePageFault,
    UnknownTrap,
}

/// The view of an optional string.
pub open spec fn opt_str(o: Option<String>) -> Option<Seq<char>> {
    match o {
        Some(s) => Some(s@),
        None => None,
    }
}

/// The view of a list of strings.
pub open spec fn strs(v: Seq<String>) -> Seq<Seq<char>> {
    v.map_values(|s: String| s@)
}

/// The machine a trace was recorded on.
#[derive(Debug, Clone)]
pub struct Target {
    pub architecture: String,
    pub xlen: u16,
    pub isa: String,
    pub platform: Option<String>,
}

/// The model of a [`Target`].
pub struct TargetModel {
    pub architecture: Seq<char>,
    pub xlen: u16,
    pub isa: Seq<char>,
    pub platform: Option<Seq<char>>,
}

impl View for Target {
    type V = TargetModel;

    open spec fn view(&self) -> TargetModel {
        TargetModel {
            architecture: self.architecture@,
            xlen: self.xlen,
            isa: self.isa@,
            platform: opt_str(self.platform),
        }
    }
}

/// Where a trace came from.
#[derive(Debug, Clone)]
pub struct Provenance {
    pub backend: Option<String>,
    pub backend_version: Option<String>,
    pub input: Option<String>,
    pub command: Vec<String>,
    pub notes: Vec<String>,
}

/// The model of a [`Provenance`].
pub struct ProvenanceModel {
    pub backend: Option<Seq<char>>,
    pub backend_version: Option<Seq<char>>,
    pub input: Option<Seq<char>>,
    pub command: Seq<Seq<char>>,
    pub notes: Seq<Seq<char>>,
}

impl View for Provenance {
    type V = ProvenanceModel;

    open spec fn view(&self) -> ProvenanceModel {
        ProvenanceModel {
            backend: opt_str(self.backend),
            backend_version: opt_str(self.backend_version),
            input: opt_str(self.input),
            command: strs(self.command@),
            notes: strs(self.notes@),
        }
    }
}

impl Default for Provenance {
    fn default() -> (r: Self)
        ensures
            r@ == (ProvenanceModel {
                backend: None,
                backend_version: None,
                input: None,
                command: Seq::empty(),
                notes: Seq::empty(),
            }),
    {
        let r = Provenance {
            backend: None,
            backend_version: None,
            input: None,
            command: Vec::new(),
            notes: Vec::new(),
        };
        assert(strs(r.command@) =~= Seq::empty());
        assert(strs(r.notes@) =~= Seq::empty());
        r
    }
}

/// A source position recovered from debug information.
#[derive(Debug, Clone)]
pub struct SourceLocation {
    pub file: String,
    pub line: Option<u32>,
    pub column: Option<u32>,
}

/// The model of a [`SourceLocation`].
pub struct SourceLocationModel {
    pub file: Seq<char>,
    pub line: Option<u32>,
    pub column: Option<u32>,
}

impl View for SourceLocation {
    type V = SourceLocationModel;

    open spec fn view(&self) -> SourceLocationModel {
        SourceLocationModel { file: self.file@, line: self.line, column: self.column }
    }
}

/// The view of an optional source location.
pub open spec fn opt_source(o: Option<SourceLocation>) -> Option<SourceLocationModel> {
    match o {
        Some(s) => Some(s@),
        None => None,
    }
}

/// One write of architectural state by an instruction.
#[derive(Debug, Clone)]
pub struct StateWrite {
    pub kind: StateKind,
    pub name: String,
    pub before: Option<String>,
    pub after: String,
}

/// The model of a [`StateWrite`].
pub struct StateWriteModel {
    pub kind: StateKind,
    pub name: Seq<char>,
    pub before: Option<Seq<char>>,
    pub after: Seq<char>,
}

impl View for StateWrite {
    type V = StateWriteModel;

    open spec fn view(&self) -> StateWriteModel {
        StateWriteModel {
            kind: self.kind,
            name: self.name@,
            before: opt_str(self.before),
            after: self.after@,
        }
    }
}

/// The view of a list of state writes.
pub open spec fn writes_view(v: Seq<StateWrite>) -> Seq<StateWriteModel> {
    v.map_values(|w: StateWrite| w@)
}

/// A trap that an instruction raised.
#[derive(Debug, Clone)]
pub struct Trap {
    pub cause: u64,
    pub name: String,
    pub tval: Option<String>,
    pub target_pc: String,
    pub to_privilege: Privilege,
    pub delegated: Option<bool>,
}

/// The model of a [`Trap`].
pub struct TrapModel {
    pub cause: u64,
    pub name: Seq<char>,
    pub tval: Option<Seq<char>>,
    pub target_pc: Seq<char>,
    pub to_privilege: Privilege,
    pub delegated: Option<bool>,
}

impl View for Trap {
    type V = TrapModel;

    open spec fn view(&self) -> TrapModel {
        TrapModel {
            cause: self.cause,
            name: self.name@,
            tval: opt_str(self.tval),
            target_pc: self.target_pc@,
            to_privilege: self.to_privilege,
            delegated: self.delegated,
        }
    }
}

/// The view of an optional trap.
pub open spec fn opt_trap(o: Option<Trap>) -> Option<TrapModel> {
    match o {
        Some(t) => Some(t@),
        None => None,
    }
}

/// One retired (or faulting) instruction of a trace.
#[derive(Debug, Clone)]
pub struct TraceEvent {
    pub sequence: u64,
    pub hart: Option<u32>,
    pub pc: String,
    pub instruction: String,
    pub instruction_bytes: Option<String>,
    pub privilege: Privilege,
    pub symbol: Option<String>,
    pub source: Option<SourceLocation>,
    pub writes: Vec<StateWrite>,
    pub trap: Option<Trap>,
}

/// The model of a [`TraceEvent`].
pub struct TraceEventModel {
    pub sequence: u64,
    pub hart: Option<u32>,
    pub pc: Seq<char>,
    pub instruction: Seq<char>,
    pub instruction_bytes: Option<Seq<char>>,
    pub privilege: Privilege,
    pub symbol: Option<Seq<char>>,
    pub source: Option<SourceLocationModel>,
    pub writes: Seq<StateWriteModel>,
    pub trap: Option<TrapModel>,
}

impl View for TraceEvent {
    type V = TraceEventModel;

    open spec fn view(&self) -> TraceEventModel {
        TraceEventModel {
            sequence: self.sequence,
            hart: self.hart,
            pc: self.pc@,
            instruction: self.instruction@,
            instruction_bytes: opt_str(self.instruction_bytes),
            privilege: self.privilege,
            symbol: opt_str(self.symbol),
            source: opt_source(self.source),
            writes: writes_view(self.writes@),
            trap: opt_trap(self.trap),
        }
    }
}

/// The view of a list of trace events.
pub open spec fn events_view(v: Seq<TraceEvent>) -> Seq<TraceEventModel> {
    v.map_values(|e: TraceEvent| e@)
}

/// A normalized execution trace (`echorv.trace.v1`).
#[derive(Debug, Clone)]
pub struct TraceDocument {
    pub schema: String,
    pub target: Target,
    pub provenance: Provenance,
    pub events: Vec<TraceEvent>,
}

/// The model of a [`TraceDocument`].
pub struct TraceDocumentModel {
    pub schema: Seq<char>,
    pub target: TargetModel,
    pub provenance: ProvenanceModel,
    pub events: Seq<TraceEventModel>,
}

impl View for TraceDocument {
    type V = TraceDocumentModel;

    open spec fn view(&self) -> TraceDocumentModel {
        TraceDocumentModel {
            schema: self.schema@,
            target: self.target@,
            provenance: self.provenance@,
            events: events_view(self.events@),
        }
    }
}

/// Counts that describe how a trace was reduced to evidence.
#[derive(Debug, Clone, Copy)]
pub struct EvidenceSummary {
    pub input_events: usize,
    pub matched_trace_events: usize,
    pub total_evidence_events: usize,
    pub emitted_evidence_events: usize,
    pub truncated: bool,
}

/// One link of a causal evidence chain.
#[derive(Debug, Clone)]
pub struct EvidenceEvent {
    pub id: String,
    pub kind: EvidenceKind,
    pub trace_sequence: u64,
    pub pc: String,
    pub explanation: String,
    pub caused_by: Vec<String>,
    pub state: Option<StateWrite>,
    /// The fault family that the event diagnoses; trap evidence carries one.
    pub diagnostic: Option<DiagnosticCode>,
    /// How firmly the backend output supports the event.
    pub confidence: Confidence,
    /// The symbol of the trace event the evidence comes from.
    pub symbol: Option<String>,
    /// The source location of the trace event the evidence comes from.
    pub source: Option<SourceLocation>,
}

/// The model of an [`EvidenceEvent`].
pub struct EvidenceEventModel {
    pub id: Seq<char>,
    pub kind: EvidenceKind,
    pub trace_sequence: u64,
    pub pc: Seq<char>,
    pub explanation: Seq<char>,
    pub caused_by: Seq<Seq<char>>,
    pub state: Option<StateWriteModel>,
    pub diagnostic: Option<DiagnosticCode>,
    pub confidence: Confidence,
    pub symbol: Option<Seq<char>>,
    pub source: Option<SourceLocationModel>,
}

/// The view of an optional state write.
pub open spec fn opt_write(o: Option<StateWrite>) -> Option<StateWriteModel> {
    match o {
        Some(w) => Some(w@),
        None => None,
    }
}

impl View for EvidenceEvent {
    type V = EvidenceEventModel;

    open spec fn view(&self) -> EvidenceEventModel {
        EvidenceEventModel {
            id: self.id@,
            kind: self.kind,
            trace_sequence: self.trace_sequence,
            pc: self.pc@,
            explanation: self.explanation@,
            caused_by: strs(self.caused_by@),
            state: opt_write(self.state),
            diagnostic: self.diagnostic,
            confidence: self.confidence,
            symbol: opt_str(self.symbol),
            source: opt_source(self.source),
        }
    }
}

/// The view of a list of evidence events.
pub open spec fn evidence_view(v: Seq<EvidenceEvent>) -> Seq<EvidenceEventModel> {
    v.map_values(|e: EvidenceEvent| e@)
}

/// Bounded causal evidence (`echorv.evidence.v1`).
#[derive(Debug, Clone)]
pub struct EvidenceDocument {
    pub schema: String,
    pub target: Target,
    pub provenance: Provenance,
    pub profile: String,
    pub summary: EvidenceSummary,
    pub events: Vec<EvidenceEvent>,
    pub warnings: Vec<String>,
}

/// The model of an [`EvidenceDocument`].
pub struct EvidenceDocumentModel {
    pub schema: Seq<char>,
    pub target: TargetModel,
    pub provenance: ProvenanceModel,
    pub profile: Seq<char>,
    pub summary: EvidenceSummary,
    pub events: Seq<EvidenceEventModel>,
    pub warnings: Seq<Seq<char>>,
}

impl View for EvidenceDocument {
    type V = EvidenceDocumentModel;

    open spec fn view(&self) -> EvidenceDocumentModel {
        EvidenceDocumentModel {
            schema: self.schema@,
            target: self.target@,
            provenance: self.provenance@,
            profile: self.profile@,
            summary: self.summary,
            events: evidence_view(self.events@),
            warnings: strs(self.warnings@),
        }
    }
}

/// How a privilege mode is written in explanations: `M`, `S` or `U`.
pub open spec fn privilege_label(p: Privilege) -> Seq<char> {
    match p {
        Privilege::M => seq!['M'],
        Privilege::S => seq!['S'],
        Privilege::U => seq!['U'],
    }
}

impl Privilege {
    /// The one-letter name of the mode.
    pub fn label(&self) -> (r: String)
        ensures
            r@ == privilege_label(*self),
    {
        let mut s = String::new();
        let c = match self {
            Privilege::M => 'M',
            Privilege::S => 'S',
            Privilege::U => 'U',
        };
        crate::text::push_char(&mut s, c);
        assert(s@ =~= privilege_label(*self));
        s
    }
}

/// How a state kind is written in explanations.
pub open spec fn state_kind_label(k: StateKind) -> Seq<char> {
    match k {
        StateKind::Register => "register"@,
        StateKind::Csr => "CSR"@,
        StateKind::Memory => "memory"@,
    }
}

impl StateKind {
    /// The name of the kind: `register`, `CSR` or `memory`.
    pub fn label(&self) -> (r: String)
        ensures
            r@ == state_kind_label(*self),
    {
        match self {
            StateKind::Register => String::from_str("register"),
            StateKind::Csr => String::from_str("CSR"),
            StateKind::Memory => String::from_str("memory"),
        }
    }
}


/// A copy of an optional string.
pub fn clone_opt_string(o: &Option<String>) -> (r: Option<String>)
    ensures
        opt_str(r) == opt_str(*o),
{
    match o {
        Some(s) => Some(s.clone()),
        None => None,
    }
}

/// A copy of an optional source location.
pub fn clone_opt_source(o: &Option<SourceLocation>) -> (r: Option<SourceLocation>)
    ensures
        opt_source(r) == opt_source(*o),
{
    match o {
        Some(l) => Some(SourceLocation { file: l.file.clone(), line: l.line, column: l.column }),
        None => None,
    }
}
} // verus!
