//! Connection identities.

use rand::Rng;
use vstd::prelude::*;

verus! {

/// The identity of a connection: an opaque 32-bit value, given when the
/// connection is accepted and distinct among the live connections.
#[derive(Clone, Copy, Debug, PartialEq, Eq, Hash, Structural)]
pub struct ConnectionId(pub u32);

impl ConnectionId {
    /// The 32 bits of the identity.
    pub fn value(&self) -> (r: u32)
        ensures
            r == self.0,
    {
        self.0
    }
}

/// Draws 32 bits from the generator that `rand::thread_rng` keeps for the
/// calling thread, by `Rng::gen`. Nothing is claimed of the value. The
/// generator is seeded from the operating system when a thread first uses
/// it, and `thread_rng` panics where that seeding fails.
#[verifier::external_body]
pub(crate) fn random_u32() -> u32 {
    rand::thread_rng().gen::<u32>()
}

} // verus!
