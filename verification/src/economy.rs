//! Gold and economy tracking.

use vstd::prelude::*;

verus! {

/// The guild's gold reserves.
#[derive(Debug, Default)]
pub struct Gold(pub u32);

} // verus!
