//! Trusted boundary around the injected random source used to seed a grid.

use vstd::prelude::*;

verus! {

/// Relies on `rand::random::<bool>`: a boolean drawn from the thread-local
/// generator, alive with probability one half. Nothing can be promised of a
/// random value, so this wrapper has no `ensures`.
#[verifier::external_body]
pub(crate) fn random_alive() -> bool {
    rand::random::<bool>()
}

} // verus!
