//! The Sinsemilla hash function and commitment scheme over the Pallas curve.
//!
//! A message is a sequence of bits. It is cut into chunks of `K` bits, each
//! chunk selects a generator point, and the points are folded into an
//! accumulator that starts at a domain-specific point `Q`. The commitment adds
//! a blinding term `R * r` to the hash point.

pub mod curve;
pub mod domain;
pub mod pad;

use vstd::prelude::*;

verus! {

/// Number of message bits in one chunk.
pub const K: usize = 10;

/// Personalization under which a hash domain's point `Q` is derived.
pub const Q_PERSONALIZATION: &'static str = "z.cash:SinsemillaQ";

/// Personalization under which the generator of each chunk value is derived.
pub const S_PERSONALIZATION: &'static str = "z.cash:SinsemillaS";

} // verus!
