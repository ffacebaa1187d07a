//! Trace records: what one step of a run leaves behind for the report
//! writer.

use vstd::prelude::*;

use crate::actions::BrowserAction;

verus! {

/// What refuted a property, as the trace records it.
#[derive(Clone, Debug)]
pub enum Violation {
    /// A declared invariant failed, with its message.
    Invariant(String),
    /// Any other failure, with its message.
    Unknown(String),
}

impl Violation {
    /// The human-readable message of the violation.
    pub fn message(&self) -> (r: String)
        ensures
            match self {
                Violation::Invariant(m) => r@ == "invariant: "@ + m@,
                Violation::Unknown(m) => r@ == m@,
            },
    {
        match self {
            Violation::Invariant(m) => {
                let mut s = String::from_str("invariant: ");
                s.append(m.as_str());
                s
            }
            Violation::Unknown(m) => {
                let s = String::from_str(m.as_str());
                s
            }
        }
    }
}

/// One entry of the run trace.
#[derive(Clone, Debug)]
pub struct TraceEntry {
    pub timestamp_millis: u64,
    pub url: String,
    pub hash_previous: Option<u64>,
    pub hash_current: Option<u64>,
    pub action: Option<BrowserAction>,
    pub screenshot_path: String,
    pub violation: Option<Violation>,
}

} // verus!
