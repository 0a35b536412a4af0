//! Finished proofs.
use vstd::prelude::*;

verus! {

/// The proof of one table. `K` is the cap of a commitment, `O` holds openings,
/// and `P` is a proof that they are right.
pub struct StarkProof<K, O, P> {
    /// The commitment to the trace.
    pub trace_cap: K,
    /// The commitment to the running products, if there are any.
    pub permutation_zs_cap: Option<K>,
    /// The commitment to the pieces of the quotient polynomials.
    pub quotient_polys_cap: K,
    /// The committed polynomials at the opening point and one row further.
    pub openings: O,
    pub opening_proof: P,
}

/// The proof of one table with the public inputs that it was made for.
pub struct StarkProofWithPublicInputs<F, K, O, P> {
    pub proof: StarkProof<K, O, P>,
    pub public_inputs: Vec<F>,
}

impl<F, K, O, P> View for StarkProofWithPublicInputs<F, K, O, P> {
    type V = (StarkProof<K, O, P>, Seq<F>);

    open spec fn view(&self) -> (StarkProof<K, O, P>, Seq<F>) {
        (self.proof, self.public_inputs@)
    }
}

} // verus!
