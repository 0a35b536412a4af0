use starky2::bits::{log2_ceil, log2_strict, power_of_2};

#[test]
fn strict_logarithms() {
    assert_eq!(log2_strict(1), 0);
    assert_eq!(log2_strict(2), 1);
    assert_eq!(log2_strict(8), 3);
    assert_eq!(log2_strict(1 << 20), 20);
}

#[test]
fn rounded_logarithms() {
    assert_eq!(log2_ceil(0), 0);
    assert_eq!(log2_ceil(1), 0);
    assert_eq!(log2_ceil(2), 1);
    assert_eq!(log2_ceil(3), 2);
    assert_eq!(log2_ceil(4), 2);
    assert_eq!(log2_ceil(5), 3);
    assert_eq!(log2_ceil(1025), 11);
    assert_eq!(log2_ceil(usize::MAX), usize::BITS as usize);
}

#[test]
fn powers_of_two() {
    assert_eq!(power_of_2(0), 1);
    assert_eq!(power_of_2(10), 1024);
    assert_eq!(log2_strict(power_of_2(17)), 17);
}
