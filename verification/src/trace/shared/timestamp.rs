use vstd::prelude::*;

verus! {

/// The instant at which a sample was captured.
///
/// Both parts are carried through as they were captured: nothing normalises
/// the nanoseconds into a range.
#[derive(Debug, Clone, Copy, PartialEq, Eq, Hash, Structural)]
pub struct Timestamp {
    pub seconds: i64,
    pub nanoseconds: i64,
}

} // verus!
