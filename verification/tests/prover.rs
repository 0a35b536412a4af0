use starky2::config::{FriConfig, StarkConfig};
use starky2::field::{Field, GoldilocksField, QuadraticExtension, ORDER};
use starky2::lookup::LookupData;
use starky2::polynomial::{PolynomialCoeffs, PolynomialValues};
use starky2::prover::{check_arities, prove, ProveAction, Prover};
use starky2::quotient::{QuotientDomain, QuotientInputs};
use starky2::stark::{PermutationCheckVars, RowSelectors, Stark, StarkEvaluationVars};
use starky2::table::{AllStarks, CrossTableLookup, Table};
use starky2::table_prover::{
    do_rest, Oracle, ProveError, TableAction, TableProof, TableProver,
};

type F = GoldilocksField;
type E = QuadraticExtension;
type Sets = Vec<F>;

fn g(n: u64) -> F {
    F::from_canonical_u64(n)
}

fn e(n: u64) -> E {
    E::from_basefield(g(n))
}

fn list(ns: &[u64]) -> Vec<F> {
    ns.iter().map(|&n| g(n)).collect()
}

fn poly(ns: &[u64]) -> PolynomialValues<F> {
    PolynomialValues { values: list(ns) }
}

fn config() -> StarkConfig {
    StarkConfig { num_challenges: 1, fri_config: FriConfig { rate_bits: 1, cap_height: 1 } }
}

/// One constraint: the entry of the next row minus that of this row; with a
/// permutation argument, the running product as well.
struct Steady {
    permutation: bool,
}

impl Stark<F, Sets> for Steady {
    fn quotient_degree_factor(&self) -> usize {
        2
    }

    fn uses_permutation_args(&self) -> bool {
        self.permutation
    }

    fn permutation_batch_size(&self) -> usize {
        3
    }

    fn eval_constraints(
        &self,
        _config: &StarkConfig,
        vars: StarkEvaluationVars<F>,
        permutation: Option<PermutationCheckVars<F, Sets>>,
        _selectors: RowSelectors<F>,
    ) -> Vec<F> {
        let mut all = vec![vars.next_values[0].minus(vars.local_values[0])];
        if let Some(p) = permutation {
            all.push(p.local_zs[0].times(p.permutation_challenge_sets[0]));
        }
        all
    }
}

fn inputs(zs: Option<Vec<Vec<F>>>) -> QuotientInputs<F> {
    QuotientInputs {
        generator: g(1 << 48),
        shift: g(1),
        last: g(ORDER - 1),
        lagrange_first: poly(&[0, 0, 0, 0]),
        lagrange_last: poly(&[0, 0, 0, 0]),
        z_h_inverses: list(&[1, 1, 1, 1]),
        trace_rows: vec![list(&[1]), list(&[2]), list(&[4]), list(&[8])],
        zs_rows: zs,
    }
}

fn plain(p: &PolynomialValues<F>) -> Vec<u64> {
    p.values.iter().map(|x| x.to_canonical_u64()).collect()
}

#[test]
fn table_without_permutation_argument() {
    let stark = Steady { permutation: false };
    let trace = vec![poly(&[5, 6])];
    let data = LookupData::default();
    let public_inputs = list(&[1]);
    let (mut prover, action): (TableProver<F, E, Sets, u8, u16, Steady>, TableAction<F, E>) =
        do_rest(&stark, &config(), &trace, &data, &public_inputs);
    assert!(matches!(action, TableAction::DrawAlphas { n: 1 }));
    assert_eq!(prover.params().quotient_degree_factor, 2);
    assert_eq!(prover.params().permutation_batch_size, None);

    match prover.alphas_drawn(list(&[10])) {
        TableAction::PrepareQuotient { domain, first_selector, last_selector, with_zs } => {
            assert_eq!(domain, QuotientDomain::new(1, 1, 2));
            assert_eq!(domain.size, 4);
            assert_eq!(plain(&first_selector), vec![1, 0]);
            assert_eq!(plain(&last_selector), vec![0, 1]);
            assert!(!with_zs);
        }
        _ => panic!("the quotient should be prepared"),
    }
    match prover.quotient_prepared(inputs(None)) {
        TableAction::InterpolateQuotient { values } => {
            assert_eq!(values.len(), 1);
            assert_eq!(plain(&values[0]), vec![3, 6, ORDER - 3, ORDER - 6]);
        }
        _ => panic!("the quotient should be interpolated"),
    }
    match prover.quotient_interpolated(vec![PolynomialCoeffs { coeffs: list(&[1, 2, 3, 4]) }]) {
        TableAction::CommitQuotient { chunks, rate_bits, cap_height } => {
            assert_eq!(chunks.len(), 2);
            assert_eq!(chunks[0].coeffs, list(&[1, 2]));
            assert_eq!(chunks[1].coeffs, list(&[3, 4]));
            assert_eq!((rate_bits, cap_height), (1, 1));
        }
        _ => panic!("the quotient should be committed to"),
    }
    assert!(matches!(prover.quotient_committed(42), TableAction::DrawZeta));
    match prover.zeta_drawn(e(3)) {
        Ok(TableAction::Open { zeta, degree_bits }) => {
            assert!(zeta.equals(e(3)));
            assert_eq!(degree_bits, 1);
        }
        _ => panic!("the polynomials should be opened"),
    }
    match prover.opened(77) {
        TableAction::ProveOpenings { oracles, zeta, degree_bits } => {
            assert_eq!(oracles, vec![Oracle::Trace, Oracle::Quotient]);
            assert!(zeta.equals(e(3)));
            assert_eq!(degree_bits, 1);
        }
        _ => panic!("the openings should be proved"),
    }
    let proof = prover.openings_proved("fri");
    assert_eq!(proof.permutation_zs_cap, None);
    assert_eq!(proof.quotient_polys_cap, 42);
    assert_eq!(proof.openings, 77);
    assert_eq!(proof.opening_proof, "fri");
}

#[test]
fn table_with_permutation_argument() {
    let stark = Steady { permutation: true };
    let trace = vec![poly(&[5, 6])];
    let data = LookupData { zs_beta_gammas: vec![(poly(&[9, 9]), g(1), g(2))] };
    let (mut prover, action): (TableProver<F, E, Sets, u8, u16, Steady>, TableAction<F, E>) =
        do_rest(&stark, &config(), &trace, &data, &[]);
    assert!(matches!(
        action,
        TableAction::PermutationArgument { num_challenges: 1, batch_size: 3 }
    ));
    match prover.permutation_argument(list(&[7]), vec![poly(&[2, 3])]) {
        TableAction::CommitZs { z_polys, rate_bits, cap_height } => {
            // The running product of the lookup is not among them.
            assert_eq!(z_polys.len(), 1);
            assert_eq!(plain(&z_polys[0]), vec![2, 3]);
            assert_eq!((rate_bits, cap_height), (1, 1));
        }
        _ => panic!("the running products should be committed to"),
    }
    assert!(matches!(prover.zs_committed(5), TableAction::DrawAlphas { n: 1 }));
    assert!(matches!(
        prover.alphas_drawn(list(&[10])),
        TableAction::PrepareQuotient { with_zs: true, .. }
    ));
    let zs = vec![list(&[1]), list(&[2]), list(&[3]), list(&[4])];
    match prover.quotient_prepared(inputs(Some(zs))) {
        TableAction::InterpolateQuotient { values } => {
            assert_eq!(plain(&values[0]), vec![73, 146, 207, 274]);
        }
        _ => panic!("the quotient should be interpolated"),
    }
    prover.quotient_interpolated(vec![PolynomialCoeffs { coeffs: list(&[0, 0, 0, 0]) }]);
    prover.quotient_committed(6);
    assert!(prover.zeta_drawn(e(2)).is_ok());
    match prover.opened(1) {
        TableAction::ProveOpenings { oracles, .. } => {
            assert_eq!(oracles, vec![Oracle::Trace, Oracle::Zs, Oracle::Quotient]);
        }
        _ => panic!("the openings should be proved"),
    }
    let proof = prover.openings_proved(0u8);
    assert_eq!(proof.permutation_zs_cap, Some(5));
    assert_eq!(proof.quotient_polys_cap, 6);
}

#[test]
fn no_running_products_no_commitment() {
    let stark = Steady { permutation: true };
    let trace = vec![poly(&[5, 6])];
    let data = LookupData::default();
    let (mut prover, _): (TableProver<F, E, Sets, u8, u16, Steady>, TableAction<F, E>) =
        do_rest(&stark, &config(), &trace, &data, &[]);
    assert!(matches!(
        prover.permutation_argument(list(&[7]), vec![]),
        TableAction::DrawAlphas { n: 1 }
    ));
    assert!(matches!(
        prover.alphas_drawn(list(&[10])),
        TableAction::PrepareQuotient { with_zs: false, .. }
    ));
}

#[test]
fn lookup_products_alone_are_not_committed_to() {
    let stark = Steady { permutation: false };
    let trace = vec![poly(&[5, 6])];
    let data = LookupData { zs_beta_gammas: vec![(poly(&[9, 9]), g(1), g(2))] };
    let (_, action): (TableProver<F, E, Sets, u8, u16, Steady>, TableAction<F, E>) =
        do_rest(&stark, &config(), &trace, &data, &[]);
    assert!(matches!(action, TableAction::DrawAlphas { n: 1 }));
}

#[test]
fn opening_point_in_the_trace_domain_is_refused() {
    let stark = Steady { permutation: false };
    let trace = vec![poly(&[5, 6])];
    let data = LookupData::default();
    let (mut prover, _): (TableProver<F, E, Sets, u8, u16, Steady>, TableAction<F, E>) =
        do_rest(&stark, &config(), &trace, &data, &[]);
    prover.alphas_drawn(list(&[10]));
    prover.quotient_prepared(inputs(None));
    prover.quotient_interpolated(vec![PolynomialCoeffs { coeffs: list(&[0, 0, 0, 0]) }]);
    prover.quotient_committed(1);
    for zeta in [e(1), e(ORDER - 1)] {
        match prover.zeta_drawn(zeta) {
            Err(error) => {
                assert_eq!(error, ProveError::OpeningPointInSubgroup);
                assert_eq!(error.message(), "Opening point is in the subgroup.");
            }
            Ok(_) => panic!("the point lies in the trace domain"),
        }
    }
    // Neither a point outside nor its product with the generator -1 is refused.
    assert!(prover.zeta_drawn(e(ORDER - 4)).is_ok());
}

#[test]
fn arities_that_fit_and_that_do_not() {
    let config = config();
    assert!(check_arities(&config, 3, &[]));
    assert!(check_arities(&config, 3, &[1, 2]));
    assert!(!check_arities(&config, 3, &[1, 3]));
    assert!(!check_arities(&config, 3, &[usize::MAX, usize::MAX]));
    let capped =
        StarkConfig { num_challenges: 1, fri_config: FriConfig { rate_bits: 1, cap_height: 5 } };
    assert!(!check_arities(&capped, 3, &[]));
    assert!(check_arities(&capped, 4, &[]));
}

#[test]
fn proof_over_both_tables() {
    let all_starks =
        AllStarks { cpu: Steady { permutation: false }, keccak: Steady { permutation: true } };
    let traces = vec![
        vec![poly(&[1, 2]), poly(&[3, 4])],
        vec![poly(&[4, 3, 2, 1]), poly(&[2, 1, 0, 0]), poly(&[0, 0, 0, 0]), poly(&[0, 0, 0, 0])],
    ];
    let lookups = vec![CrossTableLookup::new(Table::Cpu, vec![0], 1, vec![1], g(0))];
    let public_inputs = vec![list(&[11]), list(&[12, 13])];
    let (mut prover, action): (Prover<F, u8, u16, &str, Steady, Steady>, ProveAction<F>) =
        prove(all_starks, &config(), traces, lookups, public_inputs);
    // The first table has two polynomials.
    assert!(matches!(action, ProveAction::FriParams { degree_bits: 1 }));
    match prover.fri_params(&[1]) {
        ProveAction::CommitTrace { table, trace, rate_bits, cap_height } => {
            assert_eq!(table, Table::Cpu);
            assert_eq!(plain(&trace[1]), vec![3, 4]);
            assert_eq!((trace.len(), rate_bits, cap_height), (2, 1, 1));
        }
        _ => panic!("the first trace should be committed to"),
    }
    match prover.trace_committed(21) {
        ProveAction::CommitTrace { table, trace, .. } => {
            assert_eq!(table, Table::Keccak);
            assert_eq!(trace.len(), 4);
        }
        _ => panic!("the second trace should be committed to"),
    }
    assert!(matches!(
        prover.trace_committed(22),
        ProveAction::DrawLookupChallenges { lookups: 1, num_challenges: 1 }
    ));
    assert!(matches!(
        prover.lookup_challenges_drawn(&list(&[5, 10])),
        ProveAction::ProveTable { table: Table::Cpu }
    ));
    {
        let (_, action) = prover.cpu_table::<E, Sets>();
        assert!(matches!(action, TableAction::DrawAlphas { n: 1 }));
    }
    let cpu_proof = TableProof {
        permutation_zs_cap: None,
        quotient_polys_cap: 31,
        openings: 41,
        opening_proof: "cpu",
    };
    assert!(matches!(
        prover.table_proved(cpu_proof),
        ProveAction::ProveTable { table: Table::Keccak }
    ));
    {
        let (_, action) = prover.keccak_table::<E, Sets>();
        assert!(matches!(action, TableAction::PermutationArgument { batch_size: 3, .. }));
    }
    let keccak_proof = TableProof {
        permutation_zs_cap: Some(51),
        quotient_polys_cap: 32,
        openings: 42,
        opening_proof: "keccak",
    };
    assert!(matches!(prover.table_proved(keccak_proof), ProveAction::Finish));
    let proofs = prover.into_proofs();
    assert_eq!(proofs.len(), 2);
    assert_eq!(proofs[0].proof.trace_cap, 21);
    assert_eq!(proofs[0].proof.permutation_zs_cap, None);
    assert_eq!(proofs[0].proof.quotient_polys_cap, 31);
    assert_eq!(proofs[0].proof.openings, 41);
    assert_eq!(proofs[0].proof.opening_proof, "cpu");
    assert_eq!(proofs[0].public_inputs, list(&[11]));
    assert_eq!(proofs[1].proof.trace_cap, 22);
    assert_eq!(proofs[1].proof.permutation_zs_cap, Some(51));
    assert_eq!(proofs[1].proof.quotient_polys_cap, 32);
    assert_eq!(proofs[1].proof.openings, 42);
    assert_eq!(proofs[1].proof.opening_proof, "keccak");
    assert_eq!(proofs[1].public_inputs, list(&[12, 13]));
}
