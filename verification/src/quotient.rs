//! The values of the quotient polynomials, and their pieces.
use crate::algebra;
use crate::bits;
use crate::config::StarkConfig;
use crate::field::Field;
use crate::polynomial;
use crate::polynomial::{PolynomialCoeffs, PolynomialValues};
use crate::stark;
use crate::stark::{
    EvaluationPoint, PermutationCheckVars, RowSelectors, Stark, StarkEvaluationVars,
};
use vstd::arithmetic::div_mod::*;
use vstd::arithmetic::mul::*;
use vstd::arithmetic::power2::*;
use vstd::bits::*;
use vstd::prelude::*;

verus! {

/// The domain on which quotient polynomials are evaluated.
#[derive(Clone, Copy, Debug, PartialEq, Eq, Structural)]
pub struct QuotientDomain {
    pub degree_bits: usize,
    /// The length of the trace.
    pub degree: usize,
    /// The binary logarithm of how many points of the domain fall on one row.
    pub quotient_degree_bits: usize,
    /// How far apart the points of the domain are among those of the low-degree
    /// extension that was committed to.
    pub step: usize,
    /// How many points of the domain lie between a row and the next one.
    pub next_step: usize,
    /// The number of points.
    pub size: usize,
}

/// Whether constraints of this degree are supported at this rate, and the
/// domain can be indexed.
pub open spec fn domain_exists(
    degree_bits: int,
    rate_bits: int,
    quotient_degree_factor: usize,
) -> bool {
    let quotient_degree_bits = bits::ceil_log2(quotient_degree_factor as nat);
    &&& quotient_degree_bits <= rate_bits
    &&& rate_bits - quotient_degree_bits < usize::BITS
    &&& degree_bits + quotient_degree_bits < usize::BITS
}

impl QuotientDomain {
    /// Whether this is the domain for a trace of `2^degree_bits` rows.
    pub open spec fn describes(
        self,
        degree_bits: int,
        rate_bits: int,
        quotient_degree_factor: usize,
    ) -> bool {
        let quotient_degree_bits = bits::ceil_log2(quotient_degree_factor as nat);
        &&& self.degree_bits == degree_bits
        &&& self.quotient_degree_bits == quotient_degree_bits
        &&& self.degree == pow2(degree_bits as nat)
        &&& self.step == pow2((rate_bits - quotient_degree_bits) as nat)
        &&& self.next_step == pow2(quotient_degree_bits)
        &&& self.size == pow2((degree_bits + quotient_degree_bits) as nat)
    }

    /// The domain for a trace of `2^degree_bits` rows.
    pub open spec fn of(
        degree_bits: usize,
        rate_bits: usize,
        quotient_degree_factor: usize,
    ) -> QuotientDomain {
        let quotient_degree_bits = bits::ceil_log2(quotient_degree_factor as nat);
        QuotientDomain {
            degree_bits,
            degree: pow2(degree_bits as nat) as usize,
            quotient_degree_bits: quotient_degree_bits as usize,
            step: pow2((rate_bits - quotient_degree_bits) as nat) as usize,
            next_step: pow2(quotient_degree_bits) as usize,
            size: pow2((degree_bits + quotient_degree_bits) as nat) as usize,
        }
    }

    /// All sizes of the domain fit: it is what its description says, it is not
    /// empty, and neither a step from one of its points to the next row nor the
    /// length of a quotient polynomial overflows.
    pub proof fn lemma_of(degree_bits: usize, rate_bits: usize, quotient_degree_factor: usize)
        requires
            domain_exists(degree_bits as int, rate_bits as int, quotient_degree_factor),
        ensures
            QuotientDomain::of(degree_bits, rate_bits, quotient_degree_factor).describes(
                degree_bits as int,
                rate_bits as int,
                quotient_degree_factor,
            ),
            ({
                let domain = QuotientDomain::of(degree_bits, rate_bits, quotient_degree_factor);
                &&& domain.size > 0
                &&& 0 < domain.next_step <= domain.size
                &&& domain.size + domain.next_step - 1 <= usize::MAX
                &&& domain.degree * quotient_degree_factor <= domain.size
            }),
    {
        let q = bits::ceil_log2(quotient_degree_factor as nat);
        lemma_usize_pow2_no_overflow(degree_bits as nat);
        lemma_usize_pow2_no_overflow((rate_bits - q) as nat);
        lemma_usize_pow2_no_overflow(q);
        lemma_usize_pow2_no_overflow((degree_bits + q) as nat);
        bits::lemma_pow2_monotonic(q, (degree_bits + q) as nat);
        bits::lemma_pow2_monotonic((degree_bits + q) as nat, (usize::BITS - 1) as nat);
        lemma2_to64();
        lemma2_to64_rest();
        lemma_pow2_adds(degree_bits as nat, q);
        bits::lemma_ceil_log2(quotient_degree_factor as nat);
        lemma_mul_inequality(
            quotient_degree_factor as int,
            pow2(q) as int,
            pow2(degree_bits as nat) as int,
        );
        lemma_mul_is_commutative(quotient_degree_factor as int, pow2(degree_bits as nat) as int);
        lemma_mul_is_commutative(pow2(q) as int, pow2(degree_bits as nat) as int);
    }

    /// The domain for a trace of `2^degree_bits` rows.
    pub fn new(degree_bits: usize, rate_bits: usize, quotient_degree_factor: usize) -> (r:
        QuotientDomain)
        requires
            domain_exists(degree_bits as int, rate_bits as int, quotient_degree_factor),
        ensures
            r == QuotientDomain::of(degree_bits, rate_bits, quotient_degree_factor),
            r.describes(degree_bits as int, rate_bits as int, quotient_degree_factor),
            r.degree == pow2(degree_bits as nat),
            r.degree * r.next_step == r.size,
            r.size * r.step == pow2((degree_bits + rate_bits) as nat),
            quotient_degree_factor <= r.next_step,
            r.next_step > 1 ==> r.next_step < 2 * quotient_degree_factor,
    {
        proof {
            QuotientDomain::lemma_of(degree_bits, rate_bits, quotient_degree_factor);
            law_domain(degree_bits, rate_bits, quotient_degree_factor);
        }
        let quotient_degree_bits = bits::log2_ceil(quotient_degree_factor);
        let degree = bits::power_of_2(degree_bits);
        let step = bits::power_of_2(rate_bits - quotient_degree_bits);
        let next_step = bits::power_of_2(quotient_degree_bits);
        proof {
            lemma_pow2_adds(degree_bits as nat, quotient_degree_bits as nat);
            lemma_usize_pow2_no_overflow((degree_bits + quotient_degree_bits) as nat);
            lemma_usize_shl_is_mul(degree, quotient_degree_bits);
        }
        let size: usize = degree << quotient_degree_bits;
        QuotientDomain { degree_bits, degree, quotient_degree_bits, step, next_step, size }
    }

    /// Whether there is such a domain.
    pub fn exists_for(degree_bits: usize, rate_bits: usize, quotient_degree_factor: usize) -> (r:
        bool)
        ensures
            r == domain_exists(degree_bits as int, rate_bits as int, quotient_degree_factor),
    {
        let width: usize = usize::BITS as usize;
        let quotient_degree_bits = bits::log2_ceil(quotient_degree_factor);
        quotient_degree_bits <= rate_bits && rate_bits - quotient_degree_bits < width && degree_bits
            < width && quotient_degree_bits < width - degree_bits
    }

    /// The place of the point one row after the `i`-th.
    pub open spec fn next_index(self, i: int) -> int {
        (i + self.next_step) % (self.size as int)
    }

    /// The place of the point `rows` rows after the `i`-th.
    pub open spec fn rows_on(self, i: int, rows: nat) -> int
        decreases rows,
    {
        if rows == 0 {
            i
        } else {
            self.next_index(self.rows_on(i, (rows - 1) as nat))
        }
    }
}

/// The vanishing polynomial of a trace domain of `degree` elements, at `x`:
/// `x^degree - 1`.
pub open spec fn vanishing<F: Field>(degree: nat, x: F) -> F {
    algebra::power(x, degree).minus_spec(F::one_spec())
}

/// What is computed outside for the evaluation of quotient polynomials.
pub struct QuotientInputs<F> {
    /// A generator of the group that the points are a coset of.
    pub generator: F,
    /// The shift of the coset.
    pub shift: F,
    /// The last element of the trace domain.
    pub last: F,
    /// The Lagrange polynomial of the first element of the trace domain.
    pub lagrange_first: PolynomialValues<F>,
    /// The Lagrange polynomial of the last element of the trace domain.
    pub lagrange_last: PolynomialValues<F>,
    /// The inverse of the vanishing polynomial of the trace domain.
    pub z_h_inverses: Vec<F>,
    /// All trace polynomials, point by point.
    pub trace_rows: Vec<Vec<F>>,
    /// All running products of the permutation argument, point by point.
    pub zs_rows: Option<Vec<Vec<F>>>,
}

impl<F: Field> QuotientInputs<F> {
    /// Whether there is a value for each of `size` points, and whether there are
    /// running products exactly if they are needed.
    pub open spec fn cover(&self, size: int, with_zs: bool) -> bool {
        &&& self.lagrange_first@.len() == size
        &&& self.lagrange_last@.len() == size
        &&& self.z_h_inverses.len() == size
        &&& self.trace_rows.len() == size
        &&& self.zs_rows is Some <==> with_zs
        &&& self.zs_rows matches Some(rows) ==> rows.len() == size
    }

    /// The `i`-th point of the domain.
    pub open spec fn x(&self, i: int) -> F {
        algebra::power(self.generator, i as nat).times_spec(self.shift)
    }

    /// Whether the points and the values computed from them belong to the trace
    /// domain: the generator has as many powers as there are points; the last
    /// element of the trace domain is the one before the first, one; and the
    /// inverses are those of the vanishing polynomial at the points.
    pub open spec fn belong_to(&self, domain: QuotientDomain) -> bool {
        &&& algebra::power(self.generator, domain.size as nat) == F::one_spec()
        &&& self.last.times_spec(algebra::power(self.generator, domain.next_step as nat))
            == F::one_spec()
        &&& forall|i: int|
            0 <= i < domain.size ==> (#[trigger] self.z_h_inverses[i]).times_spec(
                vanishing(domain.degree as nat, self.x(i)),
            ) == F::one_spec()
    }

    /// All values that constraints read at the `i`-th point.
    pub open spec fn point<Q>(
        &self,
        domain: QuotientDomain,
        public_inputs: Seq<F>,
        challenge_sets: Option<Q>,
        i: int,
    ) -> EvaluationPoint<F, Q> {
        EvaluationPoint {
            local_values: self.trace_rows[i]@,
            next_values: self.trace_rows[domain.next_index(i)]@,
            public_inputs,
            z_last: self.x(i).minus_spec(self.last),
            lagrange_basis_first: self.lagrange_first@[i],
            lagrange_basis_last: self.lagrange_last@[i],
            permutation: match (self.zs_rows, challenge_sets) {
                (Some(rows), Some(sets)) => Some(
                    (rows[i]@, rows[domain.next_index(i)]@, sets),
                ),
                _ => None,
            },
        }
    }
}

/// What a reference refers to, if there is one.
pub open spec fn referred<Q>(reference: Option<&Q>) -> Option<Q> {
    match reference {
        Some(value) => Some(*value),
        None => None,
    }
}

/// Whether the constraints of a table may have the values `rows[i]` at the `i`-th
/// point, for all points of the domain.
pub open spec fn may_yield_on<F: Field, Q, S: Stark<F, Q>>(
    stark: S,
    config: StarkConfig,
    domain: QuotientDomain,
    inputs: QuotientInputs<F>,
    public_inputs: Seq<F>,
    challenge_sets: Option<Q>,
    rows: Seq<Seq<F>>,
) -> bool {
    &&& rows.len() == domain.size
    &&& forall|i: int|
        0 <= i < rows.len() ==> stark::may_yield(
            stark,
            config,
            inputs.point(domain, public_inputs, challenge_sets, i),
            #[trigger] rows[i],
        )
}

/// The value of a quotient polynomial: the sum of `alpha^j` times the `j`-th
/// constraint, divided by the vanishing polynomial of the trace domain.
pub open spec fn quotient_value<F: Field>(constraints: Seq<F>, alpha: F, z_h_inverse: F) -> F {
    algebra::reduced_with_powers(constraints, alpha).times_spec(z_h_inverse)
}

/// The values on the whole domain of the quotient polynomials, in the order of
/// the challenges, from the values of all constraints point by point.
pub open spec fn quotient_values<F: Field>(
    rows: Seq<Seq<F>>,
    z_h_inverses: Seq<F>,
    alphas: Seq<F>,
) -> Seq<Seq<F>> {
    alphas.map_values(
        |alpha: F| Seq::new(rows.len(), |i: int| quotient_value(rows[i], alpha, z_h_inverses[i])),
    )
}

/// The values of all constraints at one point.
fn constraints_at<F: Field, Q, S: Stark<F, Q>>(
    stark: &S,
    config: &StarkConfig,
    domain: &QuotientDomain,
    inputs: &QuotientInputs<F>,
    public_inputs: &[F],
    challenge_sets: Option<&Q>,
    x: F,
    i: usize,
) -> (r: Vec<F>)
    requires
        domain.size > 0,
        i < domain.size,
        i + domain.next_step <= usize::MAX,
        inputs.cover(domain.size as int, challenge_sets is Some),
        x == inputs.x(i as int),
    ensures
        stark::may_yield(
            *stark,
            *config,
            inputs.point(
                *domain,
                public_inputs@,
                referred(challenge_sets),
                i as int,
            ),
            r@,
        ),
{
    let i_next = (i + domain.next_step) % domain.size;
    let selectors = RowSelectors {
        z_last: x.minus(inputs.last),
        lagrange_basis_first: inputs.lagrange_first.values[i],
        lagrange_basis_last: inputs.lagrange_last.values[i],
    };
    let vars = StarkEvaluationVars {
        local_values: inputs.trace_rows[i].as_slice(),
        next_values: inputs.trace_rows[i_next].as_slice(),
        public_inputs,
    };
    let permutation = match (&inputs.zs_rows, challenge_sets) {
        (Some(rows), Some(sets)) => Some(
            PermutationCheckVars {
                local_zs: rows[i].as_slice(),
                next_zs: rows[i_next].as_slice(),
                permutation_challenge_sets: sets,
            },
        ),
        _ => None,
    };
    let ghost point = stark::evaluation_point(vars, permutation, selectors);
    proof {
        let sets = referred(challenge_sets);
        assert(point == inputs.point(*domain, public_inputs@, sets, i as int));
    }
    stark.eval_constraints(config, vars, permutation, selectors)
}

/// The values of the quotient polynomials, from the values of all constraints
/// point by point.
pub fn divide_constraints<F: Field>(
    rows: &[Vec<F>],
    z_h_inverses: &[F],
    alphas: &[F],
) -> (r: Vec<PolynomialValues<F>>)
    requires
        rows.len() > 0,
        z_h_inverses.len() == rows.len(),
    ensures
        polynomial::values_of(r@) == quotient_values(
            polynomial::lists_of(rows@),
            z_h_inverses@,
            alphas@,
        ),
        r.len() == alphas.len(),
        forall|k: int| 0 <= k < r.len() ==> (#[trigger] r[k]).values.len() == rows.len(),
        forall|k: int, i: int|
            0 <= k < alphas.len() && 0 <= i < rows.len() ==> #[trigger] r[k].values[i]
                == algebra::power_sum(rows[i]@, alphas[k]).times_spec(z_h_inverses[i]),
{
    let mut values: Vec<Vec<F>> = Vec::new();
    for i in 0..rows.len()
        invariant
            z_h_inverses.len() == rows.len(),
            values.len() == i,
            forall|j: int| 0 <= j < i ==> (#[trigger] values[j]).len() == alphas.len(),
            forall|j: int, k: int|
                0 <= j < i && 0 <= k < alphas.len() ==> #[trigger] values[j][k] == quotient_value(
                    rows[j]@,
                    alphas[k],
                    z_h_inverses[j],
                ),
    {
        let evals = stark::combine_constraints(rows[i].as_slice(), alphas);
        // The combined constraints are divided by the vanishing polynomial.
        let denominator_inv = z_h_inverses[i];
        let mut scaled: Vec<F> = Vec::new();
        for k in 0..evals.len()
            invariant
                scaled.len() == k,
                forall|j: int|
                    0 <= j < k ==> #[trigger] scaled[j] == evals[j].times_spec(denominator_inv),
        {
            scaled.push(evals[k].times(denominator_inv));
        }
        values.push(scaled);
    }
    let columns = polynomial::transpose(&values);
    let ghost all = columns@;
    let mut polys: Vec<PolynomialValues<F>> = Vec::new();
    for column in iter: columns
        invariant
            iter.seq() == all,
            polys.len() == iter.index(),
            forall|k: int| 0 <= k < polys.len() ==> (#[trigger] polys[k]).values == all[k],
    {
        polys.push(PolynomialValues { values: column });
    }
    proof {
        let expected = quotient_values(polynomial::lists_of(rows@), z_h_inverses@, alphas@);
        assert(polys.len() == all.len() == alphas.len());
        assert forall|k: int| 0 <= k < alphas.len() implies polynomial::values_of(polys@)[k]
            == #[trigger] expected[k] by {
            assert(all[k].len() == rows.len());
            assert forall|i: int| 0 <= i < rows.len() implies all[k][i] == #[trigger] expected[k][i] by {
                assert(all[k][i] == values[i][k]);
            }
            assert(polys[k]@ =~= expected[k]);
        }
        assert(polynomial::values_of(polys@) =~= expected);
        assert forall|k: int, i: int|
            0 <= k < alphas.len() && 0 <= i < rows.len() implies #[trigger] polys[k].values[i]
            == algebra::power_sum(rows[i]@, alphas[k]).times_spec(z_h_inverses[i]) by {
            assert(all[k][i] == values[i][k]);
            algebra::lemma_horner(rows[i]@, alphas[k]);
        }
    }
    polys
}

/// The values on the whole domain of the quotient polynomials
/// `(sum alpha^j C_j(x)) / Z_H(x)` for `alpha` in `alphas`, where the `C_j` are
/// the constraints.
pub fn compute_quotient_values<F: Field, Q, S: Stark<F, Q>>(
    stark: &S,
    config: &StarkConfig,
    domain: &QuotientDomain,
    inputs: &QuotientInputs<F>,
    public_inputs: &[F],
    challenge_sets: Option<&Q>,
    alphas: &[F],
) -> (r: Vec<PolynomialValues<F>>)
    requires
        domain.size > 0,
        domain.size + domain.next_step - 1 <= usize::MAX,
        inputs.cover(domain.size as int, challenge_sets is Some),
    ensures
        exists|rows: Seq<Seq<F>>|
            {
                &&& #[trigger] may_yield_on(
                    *stark,
                    *config,
                    *domain,
                    *inputs,
                    public_inputs@,
                    referred(challenge_sets),
                    rows,
                )
                &&& polynomial::values_of(r@) == quotient_values(
                    rows,
                    inputs.z_h_inverses@,
                    alphas@,
                )
            },
{
    let ghost sets = referred(challenge_sets);
    let coset = algebra::cyclic_subgroup_coset_known_order(
        inputs.generator,
        inputs.shift,
        domain.size,
    );
    let mut rows: Vec<Vec<F>> = Vec::new();
    for i in 0..domain.size
        invariant
            domain.size > 0,
            domain.size + domain.next_step - 1 <= usize::MAX,
            inputs.cover(domain.size as int, challenge_sets is Some),
            sets == referred(challenge_sets),
            coset.len() == domain.size,
            forall|j: int| 0 <= j < domain.size ==> #[trigger] coset[j] == inputs.x(j),
            rows.len() == i,
            forall|j: int|
                0 <= j < i ==> stark::may_yield(
                    *stark,
                    *config,
                    inputs.point(*domain, public_inputs@, sets, j),
                    (#[trigger] rows[j])@,
                ),
    {
        let x = coset[i];
        rows.push(
            constraints_at(
                stark,
                config,
                domain,
                inputs,
                public_inputs,
                challenge_sets,
                x,
                i,
            ),
        );
    }
    proof {
        let answers = polynomial::lists_of(rows@);
        assert forall|i: int| 0 <= i < answers.len() implies stark::may_yield(
            *stark,
            *config,
            inputs.point(*domain, public_inputs@, sets, i),
            #[trigger] answers[i],
        ) by {
            assert(answers[i] == rows[i]@);
        }
        assert(may_yield_on(*stark, *config, *domain, *inputs, public_inputs@, sets, answers));
    }
    divide_constraints(rows.as_slice(), inputs.z_h_inverses.as_slice(), alphas)
}

/// The pieces of all quotient polynomials: each polynomial is trimmed to
/// `degree * quotient_degree_factor` coefficients, then cut into pieces of
/// `degree`.
pub open spec fn quotient_pieces<F>(
    polys: Seq<Seq<F>>,
    degree: int,
    quotient_degree_factor: int,
) -> Seq<Seq<F>> {
    polys.map_values(
        |p: Seq<F>| polynomial::chunks_of(p.take(degree * quotient_degree_factor), degree),
    ).flatten()
}

/// Trims all quotient polynomials and splits them into pieces as long as the
/// trace.
pub fn quotient_chunks<F: Field>(
    quotient_polys: Vec<PolynomialCoeffs<F>>,
    degree: usize,
    quotient_degree_factor: usize,
) -> (r: Vec<PolynomialCoeffs<F>>)
    requires
        degree > 0,
        degree * quotient_degree_factor <= usize::MAX,
        forall|k: int|
            0 <= k < quotient_polys.len() ==> polynomial::fits_len(
                (#[trigger] quotient_polys[k])@,
                degree * quotient_degree_factor,
            ),
    ensures
        polynomial::coeffs_of(r@) == quotient_pieces(
            polynomial::coeffs_of(quotient_polys@),
            degree as int,
            quotient_degree_factor as int,
        ),
{
    let len: usize = degree * quotient_degree_factor;
    let ghost cut = |p: Seq<F>| polynomial::chunks_of(p.take(len as int), degree as int);
    let ghost polys = quotient_polys@;
    let ghost pieces = polynomial::coeffs_of(polys).map_values(cut);
    let mut all: Vec<PolynomialCoeffs<F>> = Vec::new();
    assert(polynomial::coeffs_of(all@) =~= pieces.take(0).flatten());
    for poly in iter: quotient_polys
        invariant
            degree > 0,
            len == degree * quotient_degree_factor,
            iter.seq() == polys,
            forall|k: int|
                0 <= k < polys.len() ==> polynomial::fits_len((#[trigger] polys[k])@, len as int),
            cut == (|p: Seq<F>| polynomial::chunks_of(p.take(len as int), degree as int)),
            pieces == polynomial::coeffs_of(polys).map_values(cut),
            polynomial::coeffs_of(all@) == pieces.take(iter.index()).flatten(),
    {
        let ghost k = iter.index();
        let ghost before = all@;
        let mut quotient_poly = poly;
        let trimmed = quotient_poly.trim_to_len(len);
        assert(trimmed is Ok);
        let mut chunks = quotient_poly.chunks(degree);
        let ghost added = chunks@;
        all.append(&mut chunks);
        proof {
            assert(polys[k] == poly);
            assert(polynomial::coeffs_of(added) == pieces[k]);
            assert(polynomial::coeffs_of(all@) =~= polynomial::coeffs_of(before)
                + polynomial::coeffs_of(added));
            assert(pieces.take(k + 1) =~= pieces.take(k).push(pieces[k]));
            pieces.take(k).lemma_flatten_push(pieces[k]);
        }
    }
    assert(pieces.take(polys.len() as int) == pieces);
    all
}

/// Each quotient polynomial gives as many pieces as the degree factor says, and
/// the `j`-th of them holds its coefficients from `j * degree` on.
pub proof fn law_quotient_pieces<F>(
    polys: Seq<Seq<F>>,
    degree: int,
    factor: int,
    k: int,
    j: int,
)
    requires
        degree > 0,
        factor >= 0,
        forall|i: int| 0 <= i < polys.len() ==> (#[trigger] polys[i]).len() >= degree * factor,
        0 <= k < polys.len(),
        0 <= j < factor,
    ensures
        quotient_pieces(polys, degree, factor).len() == polys.len() * factor,
        0 <= k * factor + j < polys.len() * factor,
        0 <= j * degree <= (j + 1) * degree <= polys[k].len(),
        quotient_pieces(polys, degree, factor)[k * factor + j] == polys[k].subrange(
            j * degree,
            (j + 1) * degree,
        ),
    decreases polys.len(),
{
    let cut = |p: Seq<F>| polynomial::chunks_of(p.take(degree * factor), degree);
    let front = polys.drop_last();
    let last = polys.last();
    let n = front.len() as int;
    lemma_mul_nonnegative(degree, factor);
    assert(polys.map_values(cut) =~= front.map_values(cut).push(cut(last)));
    front.map_values(cut).lemma_flatten_push(cut(last));
    lemma_pieces_len(front, degree, factor);
    assert(cut(last).len() == factor) by {
        lemma_mul_is_commutative(degree, factor);
        lemma_fundamental_div_mod_converse(
            degree * factor + degree - 1,
            degree,
            factor,
            degree - 1,
        );
    }
    lemma_mul_is_distributive_add_other_way(factor, n, 1);
    assert((n + 1) * factor == n * factor + factor);
    lemma_mul_nonnegative(j, degree);
    assert((j + 1) * degree == j * degree + degree) by (nonlinear_arith);
    lemma_mul_inequality(j + 1, factor, degree);
    lemma_mul_is_commutative(degree, factor);
    lemma_mul_inequality(k, n, factor);
    lemma_mul_nonnegative(k, factor);
    if k == n {
        assert(cut(last)[j] == last.take(degree * factor).subrange(j * degree, (j + 1) * degree));
        assert(last.take(degree * factor).subrange(j * degree, (j + 1) * degree) =~= last.subrange(
            j * degree,
            (j + 1) * degree,
        ));
    } else {
        law_quotient_pieces(front, degree, factor, k, j);
    }
}

/// There are as many pieces as the degree factor says for each polynomial.
pub proof fn lemma_pieces_len<F>(polys: Seq<Seq<F>>, degree: int, factor: int)
    requires
        degree > 0,
        factor >= 0,
        forall|i: int| 0 <= i < polys.len() ==> (#[trigger] polys[i]).len() >= degree * factor,
    ensures
        quotient_pieces(polys, degree, factor).len() == polys.len() * factor,
    decreases polys.len(),
{
    let cut = |p: Seq<F>| polynomial::chunks_of(p.take(degree * factor), degree);
    if polys.len() == 0 {
        assert(polys.map_values(cut) =~= Seq::empty());
    } else {
        let front = polys.drop_last();
        let last = polys.last();
        lemma_pieces_len(front, degree, factor);
        assert(polys.map_values(cut) =~= front.map_values(cut).push(cut(last)));
        front.map_values(cut).lemma_flatten_push(cut(last));
        lemma_mul_nonnegative(degree, factor);
        lemma_mul_is_commutative(degree, factor);
        lemma_fundamental_div_mod_converse(
            degree * factor + degree - 1,
            degree,
            factor,
            degree - 1,
        );
        assert((front.len() + 1) * factor == front.len() * factor + factor) by (nonlinear_arith);
    }
}

/// The point one row further is the point times the generator of the trace
/// domain.
pub proof fn law_next_point<F: Field>(
    domain: QuotientDomain,
    inputs: QuotientInputs<F>,
    i: int,
)
    requires
        0 < domain.next_step <= domain.size,
        algebra::power(inputs.generator, domain.size as nat) == F::one_spec(),
        0 <= i < domain.size,
    ensures
        0 <= domain.next_index(i) < domain.size,
        inputs.x(domain.next_index(i)) == inputs.x(i).times_spec(
            algebra::power(inputs.generator, domain.next_step as nat),
        ),
{
    let g = inputs.generator;
    let size = domain.size as int;
    let step = domain.next_step as int;
    let next = domain.next_index(i);
    let shift = inputs.shift;
    let power_i = algebra::power(g, i as nat);
    let power_step = algebra::power(g, step as nat);
    let power_next = algebra::power(g, next as nat);
    algebra::lemma_swap_last(power_i, power_step, shift);
    if i == 0 {
        F::lemma_times_commutes(F::one_spec(), power_step);
        algebra::lemma_times_one_times(power_step, shift);
    } else {
        algebra::lemma_power_sum(g, i as nat, step as nat);
    }
    if i + step < size {
        lemma_small_mod((i + step) as nat, size as nat);
    } else {
        lemma_fundamental_div_mod_converse(i + step, size, 1, i + step - size);
        if next > 0 {
            algebra::lemma_power_sum(g, next as nat, size as nat);
            algebra::lemma_times_one_times(power_next, shift);
        }
    }
}

/// Going on row by row from the `i`-th point adds the distance of two rows each
/// time, around the domain; as many steps as there are rows lead back.
pub proof fn law_rows_cycle(
    domain: QuotientDomain,
    degree_bits: int,
    rate_bits: int,
    quotient_degree_factor: usize,
    i: int,
    rows: nat,
)
    requires
        degree_bits >= 0,
        domain.describes(degree_bits, rate_bits, quotient_degree_factor),
        0 <= i < domain.size,
    ensures
        domain.rows_on(i, rows) == (i + rows * domain.next_step) % (domain.size as int),
        domain.rows_on(i, domain.degree as nat) == i,
{
    lemma_rows_on(domain, i, rows);
    lemma_rows_on(domain, i, domain.degree as nat);
    lemma_pow2_adds(degree_bits as nat, bits::ceil_log2(quotient_degree_factor as nat));
    lemma_fundamental_div_mod_converse(i + domain.size, domain.size as int, 1, i);
}

/// Where a number of rows leads.
proof fn lemma_rows_on(domain: QuotientDomain, i: int, rows: nat)
    requires
        0 <= i < domain.size,
    ensures
        domain.rows_on(i, rows) == (i + rows * domain.next_step) % (domain.size as int),
    decreases rows,
{
    let size = domain.size as int;
    let step = domain.next_step as int;
    if rows == 0 {
        lemma_mul_basics(step);
        lemma_small_mod(i as nat, size as nat);
    } else {
        let before = (rows - 1) as nat;
        lemma_rows_on(domain, i, before);
        lemma_mul_is_distributive_add_other_way(step, before as int, 1);
        lemma_add_mod_noop_right(step, i + before * step, size);
    }
}

/// A quotient value times the vanishing polynomial gives back the combination
/// of the constraints: the sum of `alpha^j` times the `j`-th constraint.
pub proof fn law_quotient_times_vanishing<F: Field>(
    constraints: Seq<F>,
    alpha: F,
    z_h_inverse: F,
    z_h: F,
)
    requires
        z_h_inverse.times_spec(z_h) == F::one_spec(),
    ensures
        quotient_value(constraints, alpha, z_h_inverse).times_spec(z_h)
            == algebra::reduced_with_powers(constraints, alpha),
        quotient_value(constraints, alpha, z_h_inverse).times_spec(z_h) == algebra::power_sum(
            constraints,
            alpha,
        ),
{
    let c = algebra::reduced_with_powers(constraints, alpha);
    F::lemma_times_associates(c, z_h_inverse, z_h);
    F::lemma_results_canonical(
        algebra::reduced_with_powers(constraints.drop_first(), alpha).times_spec(alpha),
        constraints.first(),
    );
    F::lemma_times_one(c);
    algebra::lemma_horner(constraints, alpha);
}

/// The quotient formula: every value of a quotient polynomial, times the vanishing
/// polynomial of the trace domain at its point, is the sum of `alpha^j` times the
/// `j`-th constraint there. It holds whatever the values of the constraints are.
pub proof fn law_quotient_formula<F: Field>(
    domain: QuotientDomain,
    inputs: QuotientInputs<F>,
    rows: Seq<Seq<F>>,
    alphas: Seq<F>,
    k: int,
    i: int,
)
    requires
        inputs.belong_to(domain),
        rows.len() == domain.size,
        0 <= k < alphas.len(),
        0 <= i < domain.size,
    ensures
        quotient_values(rows, inputs.z_h_inverses@, alphas).len() == alphas.len(),
        quotient_values(rows, inputs.z_h_inverses@, alphas)[k].len() == rows.len(),
        quotient_values(rows, inputs.z_h_inverses@, alphas)[k][i].times_spec(
            algebra::power(inputs.x(i), domain.degree as nat).minus_spec(F::one_spec()),
        ) == algebra::power_sum(rows[i], alphas[k]),
{
    law_quotient_times_vanishing(
        rows[i],
        alphas[k],
        inputs.z_h_inverses[i],
        vanishing(domain.degree as nat, inputs.x(i)),
    );
}

/// The last element lies in the trace domain.
pub proof fn law_last_element<F: Field>(
    domain: QuotientDomain,
    inputs: QuotientInputs<F>,
    degree_bits: int,
    rate_bits: int,
    quotient_degree_factor: usize,
)
    requires
        degree_bits >= 0,
        domain.describes(degree_bits, rate_bits, quotient_degree_factor),
        inputs.belong_to(domain),
        inputs.last.canonical(),
    ensures
        algebra::power(inputs.last, domain.degree as nat) == F::one_spec(),
{
    let n = domain.degree as nat;
    let step = domain.next_step as nat;
    let q = bits::ceil_log2(quotient_degree_factor as nat);
    let g = algebra::power(inputs.generator, step);
    lemma_pow2_pos(q);
    lemma_pow2_adds(degree_bits as nat, q);
    lemma_mul_is_commutative(step as int, n as int);
    algebra::lemma_power_of_power(inputs.generator, step, n);
    algebra::lemma_power_of_product(inputs.last, g, n);
    algebra::lemma_power_of_one::<F>(n);
    algebra::lemma_power_canonical(inputs.last, n);
    F::lemma_times_one(algebra::power(inputs.last, n));
}

/// How the domain lies in the committed extension: there are as many points on a
/// row as the least power of two that is not below the degree factor; all rows
/// together make up the domain; and its points, `step` apart, cover the extension
/// of `2^(degree_bits + rate_bits)` points exactly.
pub proof fn law_domain(degree_bits: usize, rate_bits: usize, quotient_degree_factor: usize)
    requires
        domain_exists(degree_bits as int, rate_bits as int, quotient_degree_factor),
    ensures
        ({
            let domain = QuotientDomain::of(degree_bits, rate_bits, quotient_degree_factor);
            &&& domain.degree_bits == degree_bits
            &&& domain.degree == pow2(degree_bits as nat)
            &&& domain.next_step == pow2(domain.quotient_degree_bits as nat)
            &&& quotient_degree_factor <= domain.next_step
            &&& domain.next_step > 1 ==> domain.next_step < 2 * quotient_degree_factor
            &&& domain.degree * domain.next_step == domain.size
            &&& domain.size * domain.step == pow2((degree_bits + rate_bits) as nat)
        }),
{
    let q = bits::ceil_log2(quotient_degree_factor as nat);
    QuotientDomain::lemma_of(degree_bits, rate_bits, quotient_degree_factor);
    bits::lemma_ceil_log2(quotient_degree_factor as nat);
    if q == 0 {
        lemma2_to64();
    } else {
        lemma_pow2_unfold(q);
    }
    lemma_pow2_adds(degree_bits as nat, q);
    lemma_pow2_adds((degree_bits + q) as nat, (rate_bits - q) as nat);
}

/// When there is a domain: where `q` is the least exponent whose power of two is
/// not below the degree factor, the rate must allow for `q`, and all sizes must fit.
pub proof fn law_domain_exists(
    degree_bits: int,
    rate_bits: int,
    quotient_degree_factor: usize,
    q: nat,
)
    requires
        quotient_degree_factor <= pow2(q),
        q > 0 ==> pow2((q - 1) as nat) < quotient_degree_factor,
    ensures
        domain_exists(degree_bits, rate_bits, quotient_degree_factor) <==> {
            &&& q <= rate_bits
            &&& rate_bits - q < usize::BITS
            &&& degree_bits + q < usize::BITS
        },
{
    bits::lemma_log2_ceil_unique(quotient_degree_factor as nat, q as int);
}

/// The points of the domain: the first is the shift, and each further one is the
/// point before it times the generator.
pub proof fn law_points<F: Field>(inputs: QuotientInputs<F>, i: nat)
    requires
        inputs.shift.canonical(),
    ensures
        inputs.x(0) == inputs.shift,
        inputs.x(i as int + 1) == inputs.x(i as int).times_spec(inputs.generator),
{
    let g = inputs.generator;
    let shift = inputs.shift;
    F::lemma_times_commutes(F::one_spec(), shift);
    F::lemma_times_one(shift);
    if i == 0 {
        F::lemma_times_commutes(g, shift);
    } else {
        algebra::lemma_power_sum(g, i, 1);
        algebra::lemma_swap_last(algebra::power(g, i), g, shift);
    }
}

/// What is handed to the constraints at the `i`-th point, where the `j`-th is
/// `next_step` points further, around the domain: the trace and the running
/// products here and at that point, which is this point times the generator of the
/// trace domain. The values of the constraints are what they answer to just that.
pub proof fn law_handed_to_the_constraints<F: Field, Q, S: Stark<F, Q>>(
    stark: S,
    config: StarkConfig,
    domain: QuotientDomain,
    inputs: QuotientInputs<F>,
    public_inputs: Seq<F>,
    challenge_sets: Option<Q>,
    rows: Seq<Seq<F>>,
    i: int,
    j: int,
)
    requires
        may_yield_on(stark, config, domain, inputs, public_inputs, challenge_sets, rows),
        inputs.cover(domain.size as int, challenge_sets is Some),
        0 < domain.next_step <= domain.size,
        algebra::power(inputs.generator, domain.size as nat) == F::one_spec(),
        0 <= i < domain.size,
        0 <= j < domain.size,
        j == i + domain.next_step || j + domain.size == i + domain.next_step,
    ensures
        rows.len() == domain.size,
        inputs.x(j) == inputs.x(i).times_spec(
            algebra::power(inputs.generator, domain.next_step as nat),
        ),
        exists|
            vars: StarkEvaluationVars<F>,
            permutation: Option<PermutationCheckVars<F, Q>>,
            selectors: RowSelectors<F>,
            answer: Vec<F>,
        |
            {
                &&& #[trigger] call_ensures(
                    S::eval_constraints,
                    (&stark, &config, vars, permutation, selectors),
                    answer,
                )
                &&& answer@ == rows[i]
                &&& vars.local_values@ == inputs.trace_rows[i]@
                &&& vars.next_values@ == inputs.trace_rows[j]@
                &&& vars.public_inputs@ == public_inputs
                &&& selectors.z_last == algebra::power(inputs.generator, i as nat).times_spec(
                    inputs.shift,
                ).minus_spec(inputs.last)
                &&& selectors.lagrange_basis_first == inputs.lagrange_first.values[i]
                &&& selectors.lagrange_basis_last == inputs.lagrange_last.values[i]
                &&& permutation is Some <==> challenge_sets is Some
                &&& permutation is Some ==> {
                    &&& permutation->Some_0.local_zs@ == inputs.zs_rows->Some_0[i]@
                    &&& permutation->Some_0.next_zs@ == inputs.zs_rows->Some_0[j]@
                    &&& *permutation->Some_0.permutation_challenge_sets == challenge_sets->Some_0
                }
            },
{
    let size = domain.size as int;
    law_next_point(domain, inputs, i);
    if j == i + domain.next_step {
        lemma_small_mod(j as nat, size as nat);
    } else {
        lemma_fundamental_div_mod_converse(i + domain.next_step, size, 1, j);
    }
    let point = inputs.point(domain, public_inputs, challenge_sets, i);
    assert(stark::may_yield(stark, config, point, rows[i]));
    let (vars, permutation, selectors, answer) = choose|
        vars: StarkEvaluationVars<F>,
        permutation: Option<PermutationCheckVars<F, Q>>,
        selectors: RowSelectors<F>,
        answer: Vec<F>,
    |
        {
            &&& #[trigger] call_ensures(
                S::eval_constraints,
                (&stark, &config, vars, permutation, selectors),
                answer,
            )
            &&& stark::evaluation_point(vars, permutation, selectors) == point
            &&& answer@ == rows[i]
        };
    assert(call_ensures(
        S::eval_constraints,
        (&stark, &config, vars, permutation, selectors),
        answer,
    ));
}

/// Splitting a quotient polynomial loses nothing: at every `x`, its value is the sum
/// over its pieces, the `j`-th times `x^(j * degree)`.
pub proof fn law_pieces_make_up_the_quotient<F: Field>(
    polys: Seq<Seq<F>>,
    degree: int,
    factor: int,
    k: int,
    x: F,
)
    requires
        degree > 0,
        factor >= 0,
        forall|i: int|
            0 <= i < polys.len() ==> polynomial::fits_len(#[trigger] polys[i], degree * factor),
        0 <= k < polys.len(),
    ensures
        quotient_pieces(polys, degree, factor).len() == polys.len() * factor,
        algebra::power_sum(polys[k], x) == algebra::power_sum(
            Seq::new(
                factor as nat,
                |j: int| algebra::power_sum(
                    quotient_pieces(polys, degree, factor)[k * factor + j],
                    x,
                ),
            ),
            algebra::power(x, degree as nat),
        ),
{
    let len = degree * factor;
    let pieces = quotient_pieces(polys, degree, factor);
    let kept = polys[k].take(len);
    lemma_mul_nonnegative(degree, factor);
    lemma_mul_is_commutative(degree, factor);
    lemma_pieces_len(polys, degree, factor);
    polynomial::law_trimming_keeps_the_polynomial(polys[k], len, x);
    algebra::law_pieces_sum_up(kept, x, degree as nat, factor as nat);
    let sums = Seq::new(
        factor as nat,
        |j: int| algebra::power_sum(pieces[k * factor + j], x),
    );
    let cut_sums = Seq::new(
        factor as nat,
        |j: int|
            algebra::power_sum(
                kept.subrange(j * (degree as nat), (j + 1) * (degree as nat)),
                x,
            ),
    );
    assert forall|j: int| 0 <= j < factor implies sums[j] == #[trigger] cut_sums[j] by {
        law_quotient_pieces(polys, degree, factor, k, j);
        lemma_mul_inequality(j + 1, factor, degree);
        assert(kept.subrange(j * degree, (j + 1) * degree) =~= polys[k].subrange(
            j * degree,
            (j + 1) * degree,
        ));
    }
    assert(sums =~= cut_sums);
}

/// A reference that is there refers to its value; one that is not, to nothing.
pub proof fn law_referred<Q>(value: &Q)
    ensures
        referred(Some(value)) == Some(*value),
        referred(None::<&Q>) is None,
{
}

/// What the evaluation needs is there exactly if every list has one entry for each
/// point, and the running products are given exactly if they are asked for.
pub proof fn law_inputs_that_cover<F: Field>(
    inputs: QuotientInputs<F>,
    size: int,
    with_zs: bool,
)
    ensures
        inputs.cover(size, with_zs) <==> {
            &&& inputs.lagrange_first.values.len() == size
            &&& inputs.lagrange_last.values.len() == size
            &&& inputs.z_h_inverses.len() == size
            &&& inputs.trace_rows.len() == size
            &&& with_zs ==> inputs.zs_rows is Some && inputs.zs_rows->Some_0.len() == size
            &&& !with_zs ==> inputs.zs_rows is None
        },
{
}

} // verus!
