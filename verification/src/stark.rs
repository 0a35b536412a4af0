//! The interface of a constraint system.
use crate::algebra;
use crate::config::StarkConfig;
use crate::field::Field;
use vstd::prelude::*;

verus! {

/// The values that constraints are evaluated on: a row of the trace, the row
/// after it, and the public inputs.
pub struct StarkEvaluationVars<'a, F> {
    pub local_values: &'a [F],
    pub next_values: &'a [F],
    pub public_inputs: &'a [F],
}

/// What a permutation argument adds to these values.
pub struct PermutationCheckVars<'a, F, Q> {
    pub local_zs: &'a [F],
    pub next_zs: &'a [F],
    pub permutation_challenge_sets: &'a Q,
}

/// What singles out rows at the point of an evaluation.
pub struct RowSelectors<F> {
    /// The point minus the last element of the trace domain.
    pub z_last: F,
    /// The Lagrange polynomial of the first element of the domain at the point.
    pub lagrange_basis_first: F,
    /// The Lagrange polynomial of the last element of the domain at the point.
    pub lagrange_basis_last: F,
}

/// A point at which constraints are evaluated, with all values that they read.
pub struct EvaluationPoint<F, Q> {
    pub local_values: Seq<F>,
    pub next_values: Seq<F>,
    pub public_inputs: Seq<F>,
    pub z_last: F,
    pub lagrange_basis_first: F,
    pub lagrange_basis_last: F,
    /// The running products of the permutation argument here and at the next
    /// point, and its challenges.
    pub permutation: Option<(Seq<F>, Seq<F>, Q)>,
}

/// The point that the arguments of an evaluation describe.
pub open spec fn evaluation_point<F, Q>(
    vars: StarkEvaluationVars<F>,
    permutation: Option<PermutationCheckVars<F, Q>>,
    selectors: RowSelectors<F>,
) -> EvaluationPoint<F, Q> {
    EvaluationPoint {
        local_values: vars.local_values@,
        next_values: vars.next_values@,
        public_inputs: vars.public_inputs@,
        z_last: selectors.z_last,
        lagrange_basis_first: selectors.lagrange_basis_first,
        lagrange_basis_last: selectors.lagrange_basis_last,
        permutation: match permutation {
            Some(p) => Some((p.local_zs@, p.next_zs@, *p.permutation_challenge_sets)),
            None => None,
        },
    }
}

/// A constraint system for one table, written by whoever defines the table. `Q`
/// holds the challenges of its permutation argument. Nothing is taken for granted
/// of what its methods return.
pub trait Stark<F: Field, Q>: Sized {
    /// How many times as long as the trace a quotient polynomial is.
    fn quotient_degree_factor(&self) -> usize;

    /// Whether the table makes a permutation argument.
    fn uses_permutation_args(&self) -> bool;

    /// How many permutation arguments are checked together.
    fn permutation_batch_size(&self) -> usize;

    /// Evaluates all constraints at a point.
    fn eval_constraints(
        &self,
        config: &StarkConfig,
        vars: StarkEvaluationVars<F>,
        permutation: Option<PermutationCheckVars<F, Q>>,
        selectors: RowSelectors<F>,
    ) -> Vec<F>;
}

/// What the prover asks of a constraint system beside its constraints.
#[derive(Clone, Copy, Debug, PartialEq, Eq, Structural)]
pub struct StarkParams {
    pub quotient_degree_factor: usize,
    /// There if the table makes a permutation argument.
    pub permutation_batch_size: Option<usize>,
}

/// Whether a constraint system may answer with these parameters.
pub open spec fn may_have<F: Field, Q, S: Stark<F, Q>>(stark: S, params: StarkParams) -> bool {
    &&& call_ensures(S::quotient_degree_factor, (&stark,), params.quotient_degree_factor)
    &&& call_ensures(S::uses_permutation_args, (&stark,), params.permutation_batch_size is Some)
    &&& params.permutation_batch_size matches Some(size) ==> call_ensures(
        S::permutation_batch_size,
        (&stark,),
        size,
    )
}

/// Asks a constraint system for its parameters.
pub fn params_of<F: Field, Q, S: Stark<F, Q>>(stark: &S) -> (r: StarkParams)
    ensures
        may_have::<F, Q, S>(*stark, r),
{
    let quotient_degree_factor = stark.quotient_degree_factor();
    let permutation_batch_size = if stark.uses_permutation_args() {
        Some(stark.permutation_batch_size())
    } else {
        None
    };
    StarkParams { quotient_degree_factor, permutation_batch_size }
}

/// Whether the constraints of a table may have these values at a point.
pub open spec fn may_yield<F: Field, Q, S: Stark<F, Q>>(
    stark: S,
    config: StarkConfig,
    point: EvaluationPoint<F, Q>,
    constraints: Seq<F>,
) -> bool {
    exists|
        vars: StarkEvaluationVars<F>,
        permutation: Option<PermutationCheckVars<F, Q>>,
        selectors: RowSelectors<F>,
        answer: Vec<F>,
    |
        {
            &&& #[trigger] call_ensures(
                S::eval_constraints,
                (&stark, &config, vars, permutation, selectors),
                answer,
            )
            &&& evaluation_point(vars, permutation, selectors) == point
            &&& answer@ == constraints
        }
}

/// The values of all constraints, combined for each challenge: with `alpha`, the
/// sum of `alpha^i` times the `i`-th constraint.
pub open spec fn combined<F: Field>(constraints: Seq<F>, alphas: Seq<F>) -> Seq<F> {
    alphas.map_values(|alpha: F| algebra::reduced_with_powers(constraints, alpha))
}

/// Combines the values of all constraints for each challenge.
pub fn combine_constraints<F: Field>(constraints: &[F], alphas: &[F]) -> (r: Vec<F>)
    ensures
        r@ == combined(constraints@, alphas@),
{
    let mut sums: Vec<F> = Vec::new();
    for k in 0..alphas.len()
        invariant
            sums@ == combined(constraints@, alphas@).take(k as int),
    {
        sums.push(algebra::reduce_with_powers(constraints, alphas[k]));
        assert(sums@ == combined(constraints@, alphas@).take(k + 1));
    }
    assert(sums@ == combined(constraints@, alphas@));
    sums
}

/// The parameters are answers of the constraint system itself: its degree factor,
/// and its batch size exactly if it says that it makes a permutation argument.
pub proof fn law_parameters_are_answers<F: Field, Q, S: Stark<F, Q>>(
    stark: S,
    params: StarkParams,
)
    requires
        may_have::<F, Q, S>(stark, params),
    ensures
        call_ensures(S::quotient_degree_factor, (&stark,), params.quotient_degree_factor),
        params.permutation_batch_size is None ==> call_ensures(
            S::uses_permutation_args,
            (&stark,),
            false,
        ),
        params.permutation_batch_size is Some ==> call_ensures(
            S::uses_permutation_args,
            (&stark,),
            true,
        ) && call_ensures(
            S::permutation_batch_size,
            (&stark,),
            params.permutation_batch_size->Some_0,
        ),
{
}

/// For each challenge `alpha` there is one combination: the sum of `alpha^i` times
/// the `i`-th constraint.
pub proof fn law_combinations<F: Field>(constraints: Seq<F>, alphas: Seq<F>, k: int)
    requires
        0 <= k < alphas.len(),
    ensures
        combined(constraints, alphas).len() == alphas.len(),
        combined(constraints, alphas)[k] == algebra::power_sum(constraints, alphas[k]),
{
    algebra::lemma_horner(constraints, alphas[k]);
}

} // verus!
