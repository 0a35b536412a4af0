//! What the prover reads of its configuration.
use vstd::prelude::*;

verus! {

/// The parameters of the polynomial commitments.
#[derive(Clone, Copy, Debug, PartialEq, Eq, Structural)]
pub struct FriConfig {
    /// The rate of the code is `2^-rate_bits`.
    pub rate_bits: usize,
    /// The height of the Merkle tree caps.
    pub cap_height: usize,
}

/// The parameters of the prover.
#[derive(Clone, Copy, Debug, PartialEq, Eq, Structural)]
pub struct StarkConfig {
    /// How many times an argument over the base field is repeated.
    pub num_challenges: usize,
    pub fri_config: FriConfig,
}

} // verus!
