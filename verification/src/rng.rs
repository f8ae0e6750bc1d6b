//! The random generator behind bank replenishment: nanorand's
//! thread-local WyRand, declared opaquely and reached through a single
//! bounded-draw wrapper.

use vstd::prelude::*;
use nanorand::Rng;

verus! {

#[verifier::external_type_specification]
#[verifier::external_body]
pub struct ExTlsWyRand(nanorand::tls::TlsWyRand);

/// Relies on nanorand::tls_rng: it hands back the calling thread's
/// generator.
#[verifier::external_body]
pub(crate) fn fresh_rng() -> nanorand::tls::TlsWyRand {
    nanorand::tls_rng()
}

/// Relies on nanorand's Rng::generate_range: a draw from `0..n` with
/// `n > 0` lies below `n`, whatever state the generator is in.
#[verifier::external_body]
pub(crate) fn draw_index(rng: &mut nanorand::tls::TlsWyRand, n: usize) -> (r: usize)
    requires
        n > 0,
    ensures
        r < n,
{
    rng.generate_range(0..n)
}

} // verus!
