//! Core types and analysis for bounded causal evidence over RISC-V execution traces.

pub mod analyzer;
pub mod cli;
pub mod elf;
pub mod model;
pub mod sarif;
pub mod spike;
pub mod text;

pub use analyzer::{analyze, analyze_with_options, AnalyzeError, AnalyzeOptions};
pub use elf::{enrich_trace, inspect_elf, ElfInfo, ElfInspectError};
pub use model::{EvidenceDocument, EvidenceFormat, EvidenceProfile, TraceDocument};
pub use spike::{parse_spike_log, SpikeRunOptions};

use vstd::prelude::*;

verus! {

/// The schema name of a normalized trace.
pub const TRACE_SCHEMA: &'static str = "echorv.trace.v1";

/// The schema name of an evidence document.
pub const EVIDENCE_SCHEMA: &'static str = "echorv.evidence.v1";

} // verus!
