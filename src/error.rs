use vstd::prelude::*;

verus! {

/// Conditions under which an extraction run cannot go on.
#[derive(Clone, Copy, Debug, PartialEq, Eq, Structural)]
pub enum ExtractError {
    /// A node id marked as needed in one pass was never resolved to a location.
    UnresolvedNode(i64),
    /// A boundary relation has a relation as an outer or inner member.
    UnsupportedMember { relation: i64, member: i64 },
    /// Sampling was asked of a road network of zero length.
    EmptyNetwork,
    /// The road network's total length does not fit the length unit's range.
    NetworkTooLong,
}

} // verus!
