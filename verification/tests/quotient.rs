use starky2::algebra::{cyclic_subgroup_coset_known_order, exp_power_of_2, reduce_with_powers};
use starky2::config::{FriConfig, StarkConfig};
use starky2::field::{Field, GoldilocksField, ORDER};
use starky2::polynomial::{PolynomialCoeffs, PolynomialValues};
use starky2::quotient::{
    compute_quotient_values, divide_constraints, quotient_chunks, QuotientDomain, QuotientInputs,
};
use starky2::stark::{
    combine_constraints, params_of, PermutationCheckVars, RowSelectors, Stark, StarkEvaluationVars,
    StarkParams,
};

type F = GoldilocksField;

fn g(n: u64) -> F {
    F::from_canonical_u64(n)
}

fn list(ns: &[u64]) -> Vec<F> {
    ns.iter().map(|&n| g(n)).collect()
}

fn plain(p: &PolynomialValues<F>) -> Vec<u64> {
    p.values.iter().map(|e| e.to_canonical_u64()).collect()
}

/// Yields everything that it is given as constraints.
struct Echo;

impl Stark<F, Vec<F>> for Echo {
    fn quotient_degree_factor(&self) -> usize {
        1
    }

    fn uses_permutation_args(&self) -> bool {
        false
    }

    fn permutation_batch_size(&self) -> usize {
        1
    }

    fn eval_constraints(
        &self,
        _config: &StarkConfig,
        vars: StarkEvaluationVars<F>,
        permutation: Option<PermutationCheckVars<F, Vec<F>>>,
        selectors: RowSelectors<F>,
    ) -> Vec<F> {
        let mut all = vec![vars.local_values[0], vars.next_values[0], vars.public_inputs[0]];
        all.push(selectors.z_last);
        all.push(selectors.lagrange_basis_first);
        all.push(selectors.lagrange_basis_last);
        if let Some(p) = permutation {
            all.push(p.local_zs[0]);
            all.push(p.next_zs[0]);
            all.push(p.permutation_challenge_sets[0]);
        }
        all
    }
}

fn config() -> StarkConfig {
    StarkConfig { num_challenges: 2, fri_config: FriConfig { rate_bits: 1, cap_height: 0 } }
}

#[test]
fn domain_for_a_degree_factor_that_is_no_power_of_two() {
    let domain = QuotientDomain::new(3, 4, 3);
    assert_eq!(
        domain,
        QuotientDomain {
            degree_bits: 3,
            degree: 8,
            quotient_degree_bits: 2,
            step: 4,
            next_step: 4,
            size: 32,
        }
    );
}

#[test]
fn domain_as_large_as_the_trace() {
    let domain = QuotientDomain::new(2, 0, 1);
    assert_eq!((domain.degree, domain.step, domain.next_step, domain.size), (4, 1, 1, 4));
}

#[test]
fn constraints_of_too_high_degree_have_no_domain() {
    assert!(QuotientDomain::exists_for(3, 2, 4));
    assert!(!QuotientDomain::exists_for(3, 1, 4));
    assert!(!QuotientDomain::exists_for(3, 1, 3));
    assert!(!QuotientDomain::exists_for(usize::BITS as usize - 1, 1, 2));
    assert!(QuotientDomain::exists_for(usize::BITS as usize - 2, 1, 2));
    assert!(!QuotientDomain::exists_for(3, usize::BITS as usize + 1, 2));
    assert!(!QuotientDomain::exists_for(usize::MAX, 1, 2));
}

#[test]
fn rows_lead_around_the_domain() {
    let domain = QuotientDomain::new(2, 3, 2);
    let mut i: usize = 5;
    for _ in 0..domain.degree {
        i = (i + domain.next_step) % domain.size;
    }
    assert_eq!(i, 5);
}

#[test]
fn parameters_of_a_constraint_system() {
    assert_eq!(
        params_of::<F, Vec<F>, Echo>(&Echo),
        StarkParams { quotient_degree_factor: 1, permutation_batch_size: None }
    );
}

#[test]
fn constraints_are_combined_by_powers() {
    let constraints = list(&[1, 2, 3, 4, 5, 6]);
    assert_eq!(combine_constraints(&constraints, &list(&[10, 0, 1])), list(&[654321, 1, 21]));
    assert_eq!(combine_constraints(&[], &list(&[10])), list(&[0]));
    assert!(combine_constraints(&constraints, &[]).is_empty());
}

#[test]
fn combined_constraints_are_divided() {
    let rows = vec![list(&[1, 2]), list(&[3, 4]), list(&[5])];
    let values = divide_constraints(&rows, &list(&[1, 2, 3]), &list(&[10, 0]));
    assert_eq!(values.len(), 2);
    assert_eq!(plain(&values[0]), vec![21, 86, 15]);
    assert_eq!(plain(&values[1]), vec![1, 6, 15]);
}

#[test]
fn quotient_values_on_two_points() {
    let domain = QuotientDomain::new(1, 0, 1);
    assert_eq!((domain.size, domain.next_step), (2, 1));
    // The points are 5 and -5.
    let inputs = QuotientInputs {
        generator: g(ORDER - 1),
        shift: g(5),
        last: g(ORDER - 1),
        lagrange_first: PolynomialValues { values: list(&[1, 2]) },
        lagrange_last: PolynomialValues { values: list(&[3, 4]) },
        z_h_inverses: list(&[2, 3]),
        trace_rows: vec![list(&[7]), list(&[8])],
        zs_rows: None,
    };
    let values =
        compute_quotient_values(&Echo, &config(), &domain, &inputs, &[g(9)], None, &list(&[10, 0]));
    assert_eq!(values.len(), 2);
    // The constraints are 7, 8, 9, 6, 1, 3 at the first point and 8, 7, 9, -4, 2, 4
    // at the second.
    assert_eq!(plain(&values[0]), vec![2 * 316987, 3 * (420978 - 4000)]);
    assert_eq!(plain(&values[1]), vec![2 * 7, 3 * 8]);
}

#[test]
fn permutation_argument_is_handed_over() {
    let domain = QuotientDomain::new(1, 0, 1);
    let inputs = QuotientInputs {
        generator: g(ORDER - 1),
        shift: g(1),
        last: g(0),
        lagrange_first: PolynomialValues { values: list(&[0, 0]) },
        lagrange_last: PolynomialValues { values: list(&[0, 0]) },
        z_h_inverses: list(&[1, 1]),
        trace_rows: vec![list(&[0]), list(&[0])],
        zs_rows: Some(vec![list(&[2]), list(&[3])]),
    };
    let sets = list(&[4]);
    let values =
        compute_quotient_values(&Echo, &config(), &domain, &inputs, &[g(0)], Some(&sets), &[g(10)]);
    // The fourth constraint is the point itself, 1 or -1.
    assert_eq!(plain(&values[0]), vec![432_001_000, 423_000_000 - 1000]);
}

#[test]
fn quotient_times_vanishing_polynomial() {
    // 2 is inverse to 2^63 + ... : half of the order, rounded up.
    let half = g((ORDER + 1) / 2);
    assert_eq!(half.times(g(2)).to_canonical_u64(), 1);
    let domain = QuotientDomain::new(0, 0, 1);
    let inputs = QuotientInputs {
        generator: g(1),
        shift: g(3),
        last: g(1),
        lagrange_first: PolynomialValues { values: list(&[0]) },
        lagrange_last: PolynomialValues { values: list(&[0]) },
        z_h_inverses: vec![half],
        trace_rows: vec![list(&[1])],
        zs_rows: None,
    };
    let values =
        compute_quotient_values(&Echo, &config(), &domain, &inputs, &[g(5)], None, &[g(10)]);
    // The constraints are 1, 1, 5, 2.
    assert_eq!(values[0].values[0].times(g(2)).to_canonical_u64(), 2511);
}

#[test]
fn quotient_formula_on_a_coset_of_four_points() {
    let domain = QuotientDomain::new(1, 1, 2);
    assert_eq!((domain.degree, domain.next_step, domain.size), (2, 2, 4));
    // The points are 7, 7i, -7 and -7i with i = 2^48, and x^2 - 1 is 48 or -50.
    let generator = g(1 << 48);
    let inverses = list(&[
        18062436901301780481,
        11436981323037042279,
        18062436901301780481,
        11436981323037042279,
    ]);
    let last = g(ORDER - 1);
    // The generator has four powers, and the last element is in the trace domain,
    // just before one.
    assert!(exp_power_of_2(generator, 2).equals(F::one()));
    assert!(last.times(exp_power_of_2(generator, 1)).equals(F::one()));
    assert!(exp_power_of_2(last, domain.degree_bits).equals(F::one()));
    let inputs = QuotientInputs {
        generator,
        shift: g(7),
        last,
        lagrange_first: PolynomialValues { values: list(&[0, 0, 0, 0]) },
        lagrange_last: PolynomialValues { values: list(&[0, 0, 0, 0]) },
        z_h_inverses: inverses,
        trace_rows: vec![list(&[1]), list(&[2]), list(&[3]), list(&[4])],
        zs_rows: None,
    };
    let alphas = list(&[10, 3]);
    let values =
        compute_quotient_values(&Echo, &config(), &domain, &inputs, &[g(5)], None, &alphas);
    let points = cyclic_subgroup_coset_known_order(generator, g(7), 4);
    for i in 0..4 {
        let vanishing = exp_power_of_2(points[i], domain.degree_bits).minus(F::one());
        assert!(inputs.z_h_inverses[i].times(vanishing).equals(F::one()));
        // Rows two apart follow each other.
        let constraints = vec![
            inputs.trace_rows[i][0],
            inputs.trace_rows[(i + 2) % 4][0],
            g(5),
            points[i].minus(last),
        ];
        for k in 0..2 {
            let sum = reduce_with_powers(&constraints, alphas[k]);
            assert!(values[k].values[i].times(vanishing).equals(sum));
        }
    }
    // At the first point the constraints are 1, 3, 5, 8.
    assert_eq!(values[0].values[0].times(g(48)).to_canonical_u64(), 8531);
}

#[test]
fn pieces_of_two_quotient_polynomials() {
    let polys = vec![
        PolynomialCoeffs { coeffs: list(&[1, 2, 3, 4, 5, 6, 0, 0]) },
        PolynomialCoeffs { coeffs: list(&[7, 8, 9, 0, 0, 0, 0, 0]) },
    ];
    let pieces = quotient_chunks(polys, 2, 3);
    let plain: Vec<Vec<F>> = pieces.into_iter().map(|p| p.coeffs).collect();
    assert_eq!(
        plain,
        vec![
            list(&[1, 2]),
            list(&[3, 4]),
            list(&[5, 6]),
            list(&[7, 8]),
            list(&[9, 0]),
            list(&[0, 0]),
        ]
    );
}
