use starky2::field::{Field, GoldilocksField, QuadraticExtension, ORDER};

fn g(n: u64) -> GoldilocksField {
    GoldilocksField::from_canonical_u64(n)
}

fn q(c0: u64, c1: u64) -> QuadraticExtension {
    QuadraticExtension { c0: g(c0), c1: g(c1) }
}

#[test]
fn order_is_the_goldilocks_prime() {
    assert_eq!(ORDER, 18446744069414584321);
}

#[test]
fn sums_wrap_at_the_order() {
    assert_eq!(g(2).plus(g(3)).to_canonical_u64(), 5);
    assert_eq!(g(ORDER - 1).plus(g(1)).to_canonical_u64(), 0);
    assert_eq!(g(ORDER - 1).plus(g(ORDER - 1)).to_canonical_u64(), ORDER - 2);
}

#[test]
fn differences_wrap_at_zero() {
    assert_eq!(g(5).minus(g(3)).to_canonical_u64(), 2);
    assert_eq!(g(0).minus(g(1)).to_canonical_u64(), ORDER - 1);
    assert_eq!(g(3).minus(g(ORDER - 1)).to_canonical_u64(), 4);
}

#[test]
fn products_are_reduced() {
    assert_eq!(g(6).times(g(7)).to_canonical_u64(), 42);
    assert_eq!(g(ORDER - 1).times(g(ORDER - 1)).to_canonical_u64(), 1);
    // 2^32 * 2^32 == 2^64 == 2^32 - 1 modulo the order.
    assert_eq!(g(1 << 32).times(g(1 << 32)).to_canonical_u64(), 4294967295);
}

#[test]
fn neutral_elements_and_equality() {
    assert!(GoldilocksField::zero().equals(g(0)));
    assert!(GoldilocksField::one().equals(g(1)));
    assert!(!g(4).equals(g(5)));
    assert!(QuadraticExtension::one().equals(q(1, 0)));
    assert!(QuadraticExtension::zero().equals(q(0, 0)));
    assert!(!q(1, 1).equals(q(1, 2)));
}

#[test]
fn extension_arithmetic() {
    assert!(q(0, 1).times(q(0, 1)).equals(q(7, 0)));
    // (2 + 3x) * (4 + 5x) == 8 + 7 * 15 + (10 + 12) x.
    assert!(q(2, 3).times(q(4, 5)).equals(q(113, 22)));
    assert!(q(2, 3).plus(q(4, 5)).equals(q(6, 8)));
    assert!(q(2, 3).minus(q(1, 4)).equals(q(1, ORDER - 1)));
    assert!(QuadraticExtension::from_basefield(g(9)).equals(q(9, 0)));
}

#[test]
fn extension_products_associate_and_distribute() {
    let a = q(ORDER - 1, 12345678901234567);
    let b = q(1 << 40, ORDER - 7);
    let c = q(99, 1 << 63);
    assert!(a.times(b).times(c).equals(a.times(b.times(c))));
    assert!(a.times(b.plus(c)).equals(a.times(b).plus(a.times(c))));
}
