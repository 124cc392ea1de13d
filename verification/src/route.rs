//! Per-cycle routing decisions of the fetch orchestrator: which source kind
//! a configured host tag names, and whether that kind is fetched with the
//! spoofed-agent client. The cycle driver performs the fetches and hands the
//! page text to the matching parser.

use vstd::prelude::*;
use crate::text::str_eq;

verus! {

/// The closed set of source kinds; an unrecognized tag contributes nothing
/// to a cycle and is logged.
#[derive(Clone, Copy, Debug, PartialEq, Eq, Structural)]
pub enum SourceKind {
    Dc,
    Fm,
    Mp,
    MpLow,
    Unknown,
}

/// The kind a host tag names.
pub open spec fn kind_of(host: Seq<char>) -> SourceKind {
    if host == "dc"@ {
        SourceKind::Dc
    } else if host == "fm"@ {
        SourceKind::Fm
    } else if host == "mp"@ {
        SourceKind::Mp
    } else if host == "mp_low"@ {
        SourceKind::MpLow
    } else {
        SourceKind::Unknown
    }
}

/// Resolves a configured host tag to its source kind.
pub fn source_kind(host: &str) -> (k: SourceKind)
    ensures
        k == kind_of(host@),
{
    if str_eq(host, "dc") {
        SourceKind::Dc
    } else if str_eq(host, "fm") {
        SourceKind::Fm
    } else if str_eq(host, "mp") {
        SourceKind::Mp
    } else if str_eq(host, "mp_low") {
        SourceKind::MpLow
    } else {
        SourceKind::Unknown
    }
}

impl SourceKind {
    /// Whether pages of this kind are fetched with the spoofed-agent client.
    pub fn wants_bot(&self) -> (r: bool)
        ensures
            r == (*self is Mp || *self is MpLow),
    {
        match self {
            SourceKind::Mp => true,
            SourceKind::MpLow => true,
            _ => false,
        }
    }
}

} // verus!
