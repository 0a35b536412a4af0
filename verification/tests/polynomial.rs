use starky2::field::GoldilocksField;
use starky2::polynomial::{
    clone_all, copy_of, transpose, PolynomialCoeffs, PolynomialValues, TrimError,
};

fn g(n: u64) -> GoldilocksField {
    GoldilocksField::from_canonical_u64(n)
}

fn list(ns: &[u64]) -> Vec<GoldilocksField> {
    ns.iter().map(|&n| g(n)).collect()
}

fn coeffs(ns: &[u64]) -> PolynomialCoeffs<GoldilocksField> {
    PolynomialCoeffs { coeffs: list(ns) }
}

#[test]
fn selectors() {
    assert_eq!(PolynomialValues::<GoldilocksField>::selector(4, 0).values, list(&[1, 0, 0, 0]));
    assert_eq!(PolynomialValues::<GoldilocksField>::selector(4, 3).values, list(&[0, 0, 0, 1]));
    assert_eq!(PolynomialValues::<GoldilocksField>::selector(1, 0).len(), 1);
}

#[test]
fn copies() {
    let p = PolynomialValues { values: list(&[7, 8]) };
    assert_eq!(p.clone().values, p.values);
    assert_eq!(copy_of(&[1usize, 2]), vec![1, 2]);
    let all = clone_all(&[p.clone(), PolynomialValues { values: list(&[9]) }]);
    assert_eq!(all.len(), 2);
    assert_eq!(all[0].values, list(&[7, 8]));
    assert_eq!(all[1].values, list(&[9]));
}

#[test]
fn trimming_drops_zeros() {
    let mut p = coeffs(&[1, 2, 0, 0]);
    assert!(p.can_trim_to_len(2));
    assert_eq!(p.trim_to_len(3), Ok(()));
    assert_eq!(p.coeffs, list(&[1, 2, 0]));
    assert_eq!(p.trim_to_len(2), Ok(()));
    assert_eq!(p.coeffs, list(&[1, 2]));
}

#[test]
fn trimming_refuses_a_nonzero_coefficient() {
    let mut p = coeffs(&[1, 2, 3]);
    assert!(!p.can_trim_to_len(2));
    assert_eq!(p.trim_to_len(2), Err(TrimError));
    assert_eq!(p.coeffs, list(&[1, 2, 3]));
}

#[test]
fn trimming_refuses_a_greater_length() {
    let mut p = coeffs(&[1, 2]);
    assert_eq!(p.trim_to_len(3), Err(TrimError));
    assert_eq!(p.coeffs, list(&[1, 2]));
}

#[test]
fn chunks_of_equal_length() {
    let pieces = coeffs(&[1, 2, 3, 4, 5, 6]).chunks(2);
    let plain: Vec<Vec<GoldilocksField>> = pieces.into_iter().map(|p| p.coeffs).collect();
    assert_eq!(plain, vec![list(&[1, 2]), list(&[3, 4]), list(&[5, 6])]);
}

#[test]
fn last_chunk_may_be_shorter() {
    let pieces = coeffs(&[1, 2, 3]).chunks(2);
    let plain: Vec<Vec<GoldilocksField>> = pieces.into_iter().map(|p| p.coeffs).collect();
    assert_eq!(plain, vec![list(&[1, 2]), list(&[3])]);
    assert!(coeffs(&[]).chunks(2).is_empty());
}

#[test]
fn chunks_put_together_again() {
    let p = coeffs(&[9, 8, 7, 6, 5]);
    let joined: Vec<GoldilocksField> = p.chunks(2).into_iter().flat_map(|c| c.coeffs).collect();
    assert_eq!(joined, p.coeffs);
}

#[test]
fn transposed_matrix() {
    let rows = vec![vec![1u8, 2, 3], vec![4, 5, 6]];
    assert_eq!(transpose(&rows), vec![vec![1, 4], vec![2, 5], vec![3, 6]]);
}
