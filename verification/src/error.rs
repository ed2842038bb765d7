use vstd::prelude::*;

verus! {

/// The kinds of failure a ledger operation can surface.
///
/// The in-memory operations of this crate only ever produce `Validation`
/// (an enumerated field holds a value outside its set, or a business rule
/// is violated) and `NotFound` (a referenced id does not exist), except
/// that id-counter exhaustion is reported as `Storage`. The remaining
/// variants exist so that a persistence layer wrapping the ledger can
/// report its own failures under the same type: `Storage` for an
/// unreachable or failing store, `ResourceAccess` for a failed exclusive
/// acquisition of the store handle.
#[derive(Clone, Copy, Debug, PartialEq, Eq, Structural)]
pub enum LedgerError {
    Validation,
    NotFound,
    Storage,
    ResourceAccess,
}

} // verus!
