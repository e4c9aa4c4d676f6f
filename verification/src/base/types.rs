//! Positions and identifiers.

use vstd::prelude::*;

verus! {

/// Position in the shared log.
pub type LogPos = u64;

/// Unique server identifier.
pub type ServerId = u64;

/// A number of entries, in contracts.
pub type Count = nat;

/// The first position of every log.
pub const LOG_POS_BEGIN: LogPos = 1;

} // verus!
