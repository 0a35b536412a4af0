use starky2::config::{FriConfig, StarkConfig};
use starky2::field::{Field, GoldilocksField};
use starky2::lookup::{check_lookup, cross_table_lookup_zs, partial_products, LookupData};
use starky2::polynomial::PolynomialValues;
use starky2::table::{CrossTableLookup, Table, NUM_TABLES};

fn g(n: u64) -> GoldilocksField {
    GoldilocksField::from_canonical_u64(n)
}

fn poly(ns: &[u64]) -> PolynomialValues<GoldilocksField> {
    PolynomialValues { values: ns.iter().map(|&n| g(n)).collect() }
}

fn plain(p: &PolynomialValues<GoldilocksField>) -> Vec<u64> {
    p.values.iter().map(|e| e.to_canonical_u64()).collect()
}

fn config(num_challenges: usize) -> StarkConfig {
    StarkConfig { num_challenges, fri_config: FriConfig { rate_bits: 1, cap_height: 0 } }
}

fn lookup(
    looking_table: Table,
    looking: &[usize],
    looked_table: usize,
    looked: &[usize],
) -> CrossTableLookup<GoldilocksField> {
    CrossTableLookup::new(looking_table, looking.to_vec(), looked_table, looked.to_vec(), g(0))
}

fn traces() -> Vec<Vec<PolynomialValues<GoldilocksField>>> {
    vec![
        vec![poly(&[1, 2]), poly(&[3, 4])],
        vec![poly(&[4, 3]), poly(&[2, 1])],
    ]
}

#[test]
fn places_of_the_tables() {
    assert_eq!(Table::Cpu.index(), 0);
    assert_eq!(Table::Keccak.index(), 1);
    assert_eq!(NUM_TABLES, 2);
}

#[test]
fn products_of_combined_entries() {
    // The factors are 10 + 1 + 2 * 5 and 10 + 3 + 4 * 5.
    let trace = vec![poly(&[1, 2]), poly(&[3, 4])];
    assert_eq!(plain(&partial_products(&trace, &[0, 1], g(5), g(10))), vec![21, 693]);
    // The factors are 10 + 2 + 1 * 5 and 10 + 4 + 3 * 5.
    assert_eq!(plain(&partial_products(&trace, &[1, 0], g(5), g(10))), vec![17, 493]);
}

#[test]
fn products_of_no_columns_are_powers_of_gamma() {
    let trace = vec![poly(&[1, 2, 3])];
    assert_eq!(plain(&partial_products(&trace, &[], g(5), g(10))), vec![10, 100, 1000]);
    let trace = vec![poly(&[1, 2]), poly(&[]), poly(&[3])];
    assert_eq!(plain(&partial_products(&trace, &[], g(5), g(10))), vec![10, 100]);
}

#[test]
fn lookup_without_columns_over_short_traces() {
    // Fewer polynomials than values, on both sides.
    let traces = vec![vec![poly(&[1, 2])], vec![poly(&[4, 3, 2])]];
    let lookups = vec![lookup(Table::Cpu, &[], 1, &[])];
    assert!(check_lookup(&traces, &lookups[0]));
    let data = cross_table_lookup_zs(&config(1), &traces, &lookups, &[g(5), g(10)]);
    assert_eq!(plain(&data[0].zs_beta_gammas[0].0), vec![10, 100]);
    assert_eq!(plain(&data[1].zs_beta_gammas[0].0), vec![10, 100, 1000]);
    // One column already reads beyond the polynomials; no polynomial is too few.
    assert!(!check_lookup(&traces, &lookup(Table::Cpu, &[0], 1, &[0])));
    assert!(!check_lookup::<GoldilocksField>(
        &[vec![], vec![]],
        &lookup(Table::Cpu, &[], 1, &[])
    ));
}

#[test]
fn default_has_no_influence() {
    let with_default = |default: u64| {
        let lookups =
            vec![CrossTableLookup::new(Table::Cpu, vec![0, 1], 1, vec![1, 0], g(default))];
        let data = cross_table_lookup_zs(&config(1), &traces(), &lookups, &[g(5), g(10)]);
        (plain(&data[0].zs_beta_gammas[0].0), plain(&data[1].zs_beta_gammas[0].0))
    };
    assert_eq!(with_default(0), (vec![21, 693], vec![33, 693]));
    assert_eq!(with_default(0), with_default(987654321));
}

#[test]
fn products_over_an_empty_polynomial() {
    let trace = vec![poly(&[])];
    assert!(partial_products(&trace, &[7], g(5), g(10)).values.is_empty());
}

#[test]
fn each_product_takes_in_one_factor_more() {
    let trace = vec![poly(&[3, 1, 4]), poly(&[1, 5, 9]), poly(&[2, 6, 5])];
    let z = partial_products(&trace, &[2], g(5), g(10));
    assert!(z.values[0].equals(g(14)));
    assert!(z.values[1].equals(z.values[0].times(g(19))));
    assert!(z.values[2].equals(z.values[1].times(g(15))));
}

#[test]
fn permuted_rows_end_in_the_same_product() {
    let looking = vec![poly(&[1, 2, 0]), poly(&[3, 4, 0]), poly(&[5, 6, 0])];
    let looked = vec![poly(&[6, 0, 5]), poly(&[2, 0, 1]), poly(&[4, 0, 3])];
    for (beta, gamma) in [(2, 3), (12345, 67890), (0, 0)] {
        let a = partial_products(&looking, &[0, 1], g(beta), g(gamma));
        let b = partial_products(&looked, &[2, 0], g(beta), g(gamma));
        assert!(a.values[2].equals(b.values[2]));
    }
    let other = vec![poly(&[6, 0, 5]), poly(&[2, 0, 1]), poly(&[4, 0, 4])];
    let a = partial_products(&looking, &[0, 1], g(2), g(3));
    let b = partial_products(&other, &[2, 0], g(2), g(3));
    assert!(!a.values[2].equals(b.values[2]));
}

#[test]
fn empty_lookup_data() {
    let data: LookupData<GoldilocksField> = LookupData::default();
    assert!(data.is_empty());
    assert!(data.z_polys().is_empty());
}

#[test]
fn both_tables_get_the_products_of_a_lookup() {
    let lookups = vec![lookup(Table::Cpu, &[0, 1], 1, &[1, 0])];
    let data = cross_table_lookup_zs(&config(1), &traces(), &lookups, &[g(5), g(10)]);
    assert_eq!(data.len(), 2);
    assert_eq!(data[0].zs_beta_gammas.len(), 1);
    assert_eq!(data[1].zs_beta_gammas.len(), 1);
    let (z, beta, gamma) = &data[0].zs_beta_gammas[0];
    assert_eq!(plain(z), vec![21, 693]);
    assert_eq!((beta.to_canonical_u64(), gamma.to_canonical_u64()), (5, 10));
    // The factors are 10 + 3 + 4 * 5 and 10 + 1 + 2 * 5.
    let (z, beta, gamma) = &data[1].zs_beta_gammas[0];
    assert_eq!(plain(z), vec![33, 693]);
    assert_eq!((beta.to_canonical_u64(), gamma.to_canonical_u64()), (5, 10));
    assert!(!data[0].is_empty());
    assert_eq!(plain(&data[1].z_polys()[0]), vec![33, 693]);
}

#[test]
fn both_products_of_a_permuted_lookup_end_alike() {
    // Column 0 of the CPU table holds 1, 3, and column 1 of the Keccak table 3, 1.
    let lookups = vec![lookup(Table::Cpu, &[0], 1, &[1])];
    let data =
        cross_table_lookup_zs(&config(2), &traces(), &lookups, &[g(5), g(10), g(77), g(1234567)]);
    for round in 0..2 {
        let looking = &data[0].zs_beta_gammas[round];
        let looked = &data[1].zs_beta_gammas[round];
        assert!(looking.1.equals(looked.1) && looking.2.equals(looked.2));
        assert!(looking.0.values[1].equals(looked.0.values[1]));
        assert!(!looking.0.values[0].equals(looked.0.values[0]));
    }
}

#[test]
fn challenges_are_taken_in_turn() {
    let lookups = vec![lookup(Table::Cpu, &[0], 1, &[0]), lookup(Table::Keccak, &[1], 1, &[0])];
    let challenges: Vec<GoldilocksField> = (1..9).map(g).collect();
    let data = cross_table_lookup_zs(&config(2), &traces(), &lookups, &challenges);
    let pairs = |t: usize| -> Vec<(u64, u64)> {
        data[t]
            .zs_beta_gammas
            .iter()
            .map(|(_, b, c)| (b.to_canonical_u64(), c.to_canonical_u64()))
            .collect()
    };
    assert_eq!(pairs(0), vec![(1, 2), (3, 4)]);
    assert_eq!(pairs(1), vec![(1, 2), (3, 4), (5, 6), (5, 6), (7, 8), (7, 8)]);
    // The looking side comes first: 6 + 3 and 6 + 1, then 6 + 4 and 6 + 2.
    assert_eq!(plain(&data[1].zs_beta_gammas[2].0), vec![9, 63]);
    assert_eq!(plain(&data[1].zs_beta_gammas[3].0), vec![10, 80]);
}

#[test]
fn no_challenges_no_entries() {
    let lookups = vec![lookup(Table::Cpu, &[0], 1, &[0])];
    let data = cross_table_lookup_zs(&config(0), &traces(), &lookups, &[]);
    assert!(data[0].is_empty());
    assert!(data[1].is_empty());
    let data = cross_table_lookup_zs(&config(3), &traces(), &[], &[]);
    assert!(data[0].is_empty() && data[1].is_empty());
}

#[test]
fn lookups_that_fit_and_that_do_not() {
    let traces = traces();
    assert!(check_lookup(&traces, &lookup(Table::Cpu, &[0, 1], 1, &[1, 0])));
    // No third table, and no third column on either side.
    assert!(!check_lookup(&traces, &lookup(Table::Cpu, &[0], 2, &[0])));
    assert!(!check_lookup(&traces, &lookup(Table::Cpu, &[2], 1, &[0])));
    assert!(!check_lookup(&traces, &lookup(Table::Cpu, &[0], 1, &[2])));
    // Fewer polynomials than the first one has values, and none at all.
    assert!(!check_lookup(&vec![vec![poly(&[1, 2])]], &lookup(Table::Cpu, &[0], 0, &[0])));
    assert!(!check_lookup::<GoldilocksField>(&[vec![]], &lookup(Table::Cpu, &[0], 0, &[0])));
}
