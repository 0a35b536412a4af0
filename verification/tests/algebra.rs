use starky2::algebra::{cyclic_subgroup_coset_known_order, exp_power_of_2, reduce_with_powers};
use starky2::field::{Field, GoldilocksField, ORDER};

fn g(n: u64) -> GoldilocksField {
    GoldilocksField::from_canonical_u64(n)
}

fn plain(elements: &[GoldilocksField]) -> Vec<u64> {
    elements.iter().map(|e| e.to_canonical_u64()).collect()
}

#[test]
fn repeated_squaring() {
    assert_eq!(exp_power_of_2(g(3), 0).to_canonical_u64(), 3);
    assert_eq!(exp_power_of_2(g(3), 3).to_canonical_u64(), 6561);
    assert_eq!(exp_power_of_2(g(ORDER - 1), 1).to_canonical_u64(), 1);
}

#[test]
fn power_of_product_is_product_of_powers() {
    let x = g(123456789);
    let y = g(987654321987);
    assert!(exp_power_of_2(x.times(y), 5).equals(exp_power_of_2(x, 5).times(exp_power_of_2(y, 5))));
}

#[test]
fn reduction_is_the_sum_of_rising_powers() {
    assert_eq!(reduce_with_powers(&[g(1), g(2), g(3)], g(10)).to_canonical_u64(), 321);
    assert_eq!(reduce_with_powers(&[g(5)], g(10)).to_canonical_u64(), 5);
    assert_eq!(reduce_with_powers::<GoldilocksField>(&[], g(10)).to_canonical_u64(), 0);
    assert_eq!(reduce_with_powers(&[g(1), g(2), g(3)], g(0)).to_canonical_u64(), 1);
}

#[test]
fn coset_of_a_group_of_order_four() {
    // 2^48 has order four: its square is 2^96 == -1.
    let i = g(1 << 48);
    assert_eq!(i.times(i).to_canonical_u64(), ORDER - 1);
    let coset = cyclic_subgroup_coset_known_order(i, g(3), 4);
    assert_eq!(plain(&coset), vec![3, 3 << 48, ORDER - 3, ORDER - (3 << 48)]);
    assert!(coset[3].times(i).equals(coset[0]));
}

#[test]
fn empty_coset() {
    assert!(cyclic_subgroup_coset_known_order(g(2), g(3), 0).is_empty());
}
