use vstd::prelude::*;

verus! {

/// Marks the session with the host stack that a device reference or a handle was
/// produced from. Every such value carries exactly one.
#[derive(Debug, Clone, Copy, PartialEq, Eq, Structural)]
pub struct ContextToken {
    pub id: u64,
}

} // verus!
