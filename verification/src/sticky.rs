//! The labels under which a trace records the outcome of sticky routing.

use vstd::prelude::*;

verus! {

/// The bound credential was used.
pub const HIT: &'static str = "hit";

/// The session had no binding.
pub const MISS_FIRST: &'static str = "miss_first";

/// The bound credential could not be used.
pub const MISS_UNAVAILABLE: &'static str = "miss_unavailable";

/// Sticky routing was switched off.
pub const OFF: &'static str = "off";

} // verus!
