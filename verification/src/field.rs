//! The fields that the prover computes in.
use vstd::arithmetic::div_mod::*;
use vstd::arithmetic::mul::*;
use vstd::prelude::*;

verus! {

/// The arithmetic that the prover needs of a field.
///
/// Spec equality of two elements is equality in the field: an element has one
/// representation. The ring laws that every proof of the library uses are
/// proved by each implementation.
pub trait Field: Sized + Copy {
    /// Whether this is the representation of some element.
    spec fn canonical(self) -> bool;

    /// The neutral element of addition.
    spec fn zero_spec() -> Self;

    /// The neutral element of multiplication.
    spec fn one_spec() -> Self;

    /// `self + other`.
    spec fn plus_spec(self, other: Self) -> Self;

    /// `self - other`.
    spec fn minus_spec(self, other: Self) -> Self;

    /// `self * other`.
    spec fn times_spec(self, other: Self) -> Self;

    fn zero() -> (r: Self)
        ensures
            r == Self::zero_spec(),
    ;

    fn one() -> (r: Self)
        ensures
            r == Self::one_spec(),
    ;

    fn plus(self, other: Self) -> (r: Self)
        ensures
            r == self.plus_spec(other),
    ;

    fn minus(self, other: Self) -> (r: Self)
        ensures
            r == self.minus_spec(other),
    ;

    fn times(self, other: Self) -> (r: Self)
        ensures
            r == self.times_spec(other),
    ;

    fn equals(self, other: Self) -> (r: bool)
        ensures
            r == (self == other),
    ;

    proof fn lemma_results_canonical(a: Self, b: Self)
        ensures
            Self::zero_spec().canonical(),
            Self::one_spec().canonical(),
            a.plus_spec(b).canonical(),
            a.minus_spec(b).canonical(),
            a.times_spec(b).canonical(),
    ;

    proof fn lemma_plus_commutes(a: Self, b: Self)
        ensures
            a.plus_spec(b) == b.plus_spec(a),
    ;

    proof fn lemma_plus_associates(a: Self, b: Self, c: Self)
        ensures
            a.plus_spec(b).plus_spec(c) == a.plus_spec(b.plus_spec(c)),
    ;

    proof fn lemma_plus_zero(a: Self)
        requires
            a.canonical(),
        ensures
            a.plus_spec(Self::zero_spec()) == a,
    ;

    proof fn lemma_minus_plus(a: Self, b: Self)
        requires
            a.canonical(),
        ensures
            a.minus_spec(b).plus_spec(b) == a,
    ;

    proof fn lemma_times_commutes(a: Self, b: Self)
        ensures
            a.times_spec(b) == b.times_spec(a),
    ;

    proof fn lemma_times_associates(a: Self, b: Self, c: Self)
        ensures
            a.times_spec(b).times_spec(c) == a.times_spec(b.times_spec(c)),
    ;

    proof fn lemma_times_one(a: Self)
        requires
            a.canonical(),
        ensures
            a.times_spec(Self::one_spec()) == a,
    ;

    proof fn lemma_times_distributes(a: Self, b: Self, c: Self)
        ensures
            a.times_spec(b.plus_spec(c)) == a.times_spec(b).plus_spec(a.times_spec(c)),
    ;
}

/// The order of the Goldilocks field, `2^64 - 2^32 + 1`.
pub const ORDER: u64 = 0xFFFF_FFFF_0000_0001;

/// `x` reduced modulo the order of the Goldilocks field.
pub open spec fn reduced(x: int) -> int {
    x % (ORDER as int)
}

/// An element of the Goldilocks field, by its representative below the order.
#[derive(Clone, Copy, Debug, PartialEq, Eq, Structural)]
pub struct GoldilocksField {
    value: u64,
}

impl View for GoldilocksField {
    type V = int;

    closed spec fn view(&self) -> int {
        self.value as int
    }
}

impl GoldilocksField {
    #[verifier::type_invariant]
    spec fn below_order(self) -> bool {
        self.value < ORDER
    }

    /// The element that `x` reduces to.
    pub closed spec fn of(x: int) -> GoldilocksField {
        GoldilocksField { value: reduced(x) as u64 }
    }

    /// The element that `x` reduces to is represented by `x` modulo the order.
    pub proof fn lemma_of(x: int)
        ensures
            GoldilocksField::of(x)@ == reduced(x),
            GoldilocksField::of(x).canonical(),
    {
    }

    /// The element that `n` represents.
    pub fn from_canonical_u64(n: u64) -> (r: GoldilocksField)
        requires
            n < ORDER,
        ensures
            r@ == n,
            r == GoldilocksField::of(n as int),
    {
        GoldilocksField { value: n }
    }

    /// The representative of the element below the order.
    pub fn to_canonical_u64(self) -> (r: u64)
        ensures
            r == self@,
            r < ORDER,
    {
        proof {
            use_type_invariant(&self);
        }
        self.value
    }
}

impl Field for GoldilocksField {
    open spec fn canonical(self) -> bool {
        0 <= self@ < ORDER
    }

    open spec fn zero_spec() -> GoldilocksField {
        GoldilocksField::of(0)
    }

    open spec fn one_spec() -> GoldilocksField {
        GoldilocksField::of(1)
    }

    open spec fn plus_spec(self, other: GoldilocksField) -> GoldilocksField {
        GoldilocksField::of(self@ + other@)
    }

    open spec fn minus_spec(self, other: GoldilocksField) -> GoldilocksField {
        GoldilocksField::of(self@ - other@)
    }

    open spec fn times_spec(self, other: GoldilocksField) -> GoldilocksField {
        GoldilocksField::of(self@ * other@)
    }

    fn zero() -> (r: GoldilocksField) {
        GoldilocksField { value: 0 }
    }

    fn one() -> (r: GoldilocksField) {
        GoldilocksField { value: 1 }
    }

    fn plus(self, other: GoldilocksField) -> (r: GoldilocksField) {
        proof {
            use_type_invariant(&self);
            use_type_invariant(&other);
        }
        let sum: u128 = self.value as u128 + other.value as u128;
        GoldilocksField { value: (sum % ORDER as u128) as u64 }
    }

    fn minus(self, other: GoldilocksField) -> (r: GoldilocksField) {
        proof {
            use_type_invariant(&self);
            use_type_invariant(&other);
        }
        if self.value >= other.value {
            GoldilocksField { value: self.value - other.value }
        } else {
            proof {
                lemma_mod_add_multiples_vanish(self@ - other@, ORDER as int);
            }
            GoldilocksField { value: ORDER - other.value + self.value }
        }
    }

    fn times(self, other: GoldilocksField) -> (r: GoldilocksField) {
        proof {
            use_type_invariant(&self);
            use_type_invariant(&other);
            let (a, b): (int, int) = (self@, other@);
            assert(0 <= a * b <= (ORDER - 1) * (ORDER - 1)) by (nonlinear_arith)
                requires
                    0 <= a <= ORDER - 1,
                    0 <= b <= ORDER - 1,
            ;
        }
        let product: u128 = self.value as u128 * other.value as u128;
        GoldilocksField { value: (product % ORDER as u128) as u64 }
    }

    fn equals(self, other: GoldilocksField) -> (r: bool) {
        self.value == other.value
    }

    proof fn lemma_results_canonical(a: GoldilocksField, b: GoldilocksField) {
    }

    proof fn lemma_plus_commutes(a: GoldilocksField, b: GoldilocksField) {
    }

    proof fn lemma_plus_associates(a: GoldilocksField, b: GoldilocksField, c: GoldilocksField) {
        lemma_add_mod_noop_right(c@, a@ + b@, ORDER as int);
        lemma_add_mod_noop_right(a@, b@ + c@, ORDER as int);
    }

    proof fn lemma_plus_zero(a: GoldilocksField) {
        lemma_small_mod(a@ as nat, ORDER as nat);
    }

    proof fn lemma_minus_plus(a: GoldilocksField, b: GoldilocksField) {
        lemma_add_mod_noop_right(b@, a@ - b@, ORDER as int);
        lemma_small_mod(a@ as nat, ORDER as nat);
    }

    proof fn lemma_times_commutes(a: GoldilocksField, b: GoldilocksField) {
        lemma_mul_is_commutative(a@, b@);
    }

    proof fn lemma_times_associates(a: GoldilocksField, b: GoldilocksField, c: GoldilocksField) {
        lemma_mul_mod_noop_left(a@ * b@, c@, ORDER as int);
        lemma_mul_mod_noop_right(a@, b@ * c@, ORDER as int);
        lemma_mul_is_associative(a@, b@, c@);
    }

    proof fn lemma_times_one(a: GoldilocksField) {
        lemma_small_mod(1, ORDER as nat);
        assert(a@ * 1 == a@);
        lemma_small_mod(a@ as nat, ORDER as nat);
    }

    proof fn lemma_times_distributes(a: GoldilocksField, b: GoldilocksField, c: GoldilocksField) {
        lemma_mul_mod_noop_right(a@, b@ + c@, ORDER as int);
        lemma_mul_is_distributive_add(a@, b@, c@);
        lemma_add_mod_noop(a@ * b@, a@ * c@, ORDER as int);
    }
}

/// The element of the Goldilocks field whose square root the extension adjoins.
pub const W: u64 = 7;

/// An element `c0 + c1 * X` of the Goldilocks field extended by a root `X` of
/// `X^2 - W`.
#[derive(Clone, Copy, Debug, PartialEq, Eq, Structural)]
pub struct QuadraticExtension {
    pub c0: GoldilocksField,
    pub c1: GoldilocksField,
}

impl QuadraticExtension {
    /// The element with the two coordinates that `c0` and `c1` reduce to.
    pub open spec fn of(c0: int, c1: int) -> QuadraticExtension {
        QuadraticExtension { c0: GoldilocksField::of(c0), c1: GoldilocksField::of(c1) }
    }

    /// The image of a base field element.
    pub fn from_basefield(x: GoldilocksField) -> (r: QuadraticExtension)
        ensures
            r == (QuadraticExtension { c0: x, c1: GoldilocksField::of(0) }),
    {
        QuadraticExtension { c0: x, c1: GoldilocksField::zero() }
    }
}

/// Sums and products of congruent numbers are congruent.
proof fn lemma_congruent(a: int, b: int, c: int, d: int)
    requires
        reduced(a) == reduced(c),
        reduced(b) == reduced(d),
    ensures
        reduced(a + b) == reduced(c + d),
        reduced(a - b) == reduced(c - d),
        reduced(a * b) == reduced(c * d),
{
    lemma_add_mod_noop(a, b, ORDER as int);
    lemma_add_mod_noop(c, d, ORDER as int);
    lemma_sub_mod_noop(a, b, ORDER as int);
    lemma_sub_mod_noop(c, d, ORDER as int);
    lemma_mul_mod_noop(a, b, ORDER as int);
    lemma_mul_mod_noop(c, d, ORDER as int);
}

/// Replacing a reduced first factor by the number it stands for keeps the
/// coordinates of a product in the extension.
proof fn lemma_extension_product_of_reduced(a0: int, a1: int, b0: int, b1: int)
    ensures
        reduced(reduced(a0) * b0 + W * (reduced(a1) * b1)) == reduced(a0 * b0 + W * (a1 * b1)),
        reduced(reduced(a0) * b1 + reduced(a1) * b0) == reduced(a0 * b1 + a1 * b0),
{
    lemma_mod_twice(a0, ORDER as int);
    lemma_mod_twice(a1, ORDER as int);
    lemma_congruent(reduced(a0), b0, a0, b0);
    lemma_congruent(reduced(a0), b1, a0, b1);
    lemma_congruent(reduced(a1), b0, a1, b0);
    lemma_congruent(reduced(a1), b1, a1, b1);
    lemma_congruent(W as int, reduced(a1) * b1, W as int, a1 * b1);
    lemma_congruent(reduced(a0) * b0, W * (reduced(a1) * b1), a0 * b0, W * (a1 * b1));
    lemma_congruent(reduced(a0) * b1, reduced(a1) * b0, a0 * b1, a1 * b0);
}

/// A product distributes over a sum with a scaled second term.
proof fn lemma_scaled_sum_times(x: int, y: int, w: int, c: int)
    ensures
        (x + w * y) * c == x * c + w * (y * c),
{
    lemma_mul_is_distributive_add_other_way(c, x, w * y);
    lemma_mul_is_associative(w, y, c);
}

/// A product of three numbers may be taken from the second number on.
proof fn lemma_rotate_product(a: int, b: int, c: int)
    ensures
        (a * b) * c == (b * c) * a,
{
    lemma_mul_is_associative(a, b, c);
    lemma_mul_is_commutative(a, b * c);
}

impl Field for QuadraticExtension {
    open spec fn canonical(self) -> bool {
        self.c0.canonical() && self.c1.canonical()
    }

    open spec fn zero_spec() -> QuadraticExtension {
        QuadraticExtension::of(0, 0)
    }

    open spec fn one_spec() -> QuadraticExtension {
        QuadraticExtension::of(1, 0)
    }

    open spec fn plus_spec(self, other: QuadraticExtension) -> QuadraticExtension {
        QuadraticExtension::of(self.c0@ + other.c0@, self.c1@ + other.c1@)
    }

    open spec fn minus_spec(self, other: QuadraticExtension) -> QuadraticExtension {
        QuadraticExtension::of(self.c0@ - other.c0@, self.c1@ - other.c1@)
    }

    open spec fn times_spec(self, other: QuadraticExtension) -> QuadraticExtension {
        QuadraticExtension::of(
            self.c0@ * other.c0@ + W * (self.c1@ * other.c1@),
            self.c0@ * other.c1@ + self.c1@ * other.c0@,
        )
    }

    fn zero() -> (r: QuadraticExtension) {
        QuadraticExtension { c0: GoldilocksField::zero(), c1: GoldilocksField::zero() }
    }

    fn one() -> (r: QuadraticExtension) {
        QuadraticExtension { c0: GoldilocksField::one(), c1: GoldilocksField::zero() }
    }

    fn plus(self, other: QuadraticExtension) -> (r: QuadraticExtension) {
        QuadraticExtension { c0: self.c0.plus(other.c0), c1: self.c1.plus(other.c1) }
    }

    fn minus(self, other: QuadraticExtension) -> (r: QuadraticExtension) {
        QuadraticExtension { c0: self.c0.minus(other.c0), c1: self.c1.minus(other.c1) }
    }

    fn times(self, other: QuadraticExtension) -> (r: QuadraticExtension) {
        let w = GoldilocksField::from_canonical_u64(W);
        let r = QuadraticExtension {
            c0: self.c0.times(other.c0).plus(w.times(self.c1.times(other.c1))),
            c1: self.c0.times(other.c1).plus(self.c1.times(other.c0)),
        };
        proof {
            let (a0, a1, b0, b1) = (self.c0@, self.c1@, other.c0@, other.c1@);
            lemma_mul_mod_noop_right(W as int, a1 * b1, ORDER as int);
            lemma_add_mod_noop(a0 * b0, W * (a1 * b1), ORDER as int);
            lemma_add_mod_noop(a0 * b1, a1 * b0, ORDER as int);
        }
        r
    }

    fn equals(self, other: QuadraticExtension) -> (r: bool) {
        self.c0.equals(other.c0) && self.c1.equals(other.c1)
    }

    proof fn lemma_results_canonical(a: QuadraticExtension, b: QuadraticExtension) {
    }

    proof fn lemma_plus_commutes(a: QuadraticExtension, b: QuadraticExtension) {
    }

    proof fn lemma_plus_associates(
        a: QuadraticExtension,
        b: QuadraticExtension,
        c: QuadraticExtension,
    ) {
        GoldilocksField::lemma_plus_associates(a.c0, b.c0, c.c0);
        GoldilocksField::lemma_plus_associates(a.c1, b.c1, c.c1);
    }

    proof fn lemma_plus_zero(a: QuadraticExtension) {
        GoldilocksField::lemma_plus_zero(a.c0);
        GoldilocksField::lemma_plus_zero(a.c1);
    }

    proof fn lemma_minus_plus(a: QuadraticExtension, b: QuadraticExtension) {
        GoldilocksField::lemma_minus_plus(a.c0, b.c0);
        GoldilocksField::lemma_minus_plus(a.c1, b.c1);
    }

    proof fn lemma_times_commutes(a: QuadraticExtension, b: QuadraticExtension) {
        lemma_mul_is_commutative(a.c0@, b.c0@);
        lemma_mul_is_commutative(a.c1@, b.c1@);
        lemma_mul_is_commutative(a.c0@, b.c1@);
        lemma_mul_is_commutative(a.c1@, b.c0@);
    }

    proof fn lemma_times_associates(
        a: QuadraticExtension,
        b: QuadraticExtension,
        c: QuadraticExtension,
    ) {
        let (a0, a1) = (a.c0@, a.c1@);
        let (b0, b1) = (b.c0@, b.c1@);
        let (c0, c1) = (c.c0@, c.c1@);
        let w = W as int;
        let (ab0, ab1) = (a0 * b0 + w * (a1 * b1), a0 * b1 + a1 * b0);
        let (bc0, bc1) = (b0 * c0 + w * (b1 * c1), b0 * c1 + b1 * c0);
        lemma_extension_product_of_reduced(ab0, ab1, c0, c1);
        lemma_extension_product_of_reduced(bc0, bc1, a0, a1);
        QuadraticExtension::lemma_times_commutes(a, b.times_spec(c));
        lemma_scaled_sum_times(a0 * b0, a1 * b1, w, c0);
        lemma_scaled_sum_times(a0 * b0, a1 * b1, w, c1);
        lemma_scaled_sum_times(b0 * c0, b1 * c1, w, a0);
        lemma_scaled_sum_times(b0 * c0, b1 * c1, w, a1);
        lemma_scaled_sum_times(a0 * b1, a1 * b0, 1, c0);
        lemma_scaled_sum_times(a0 * b1, a1 * b0, 1, c1);
        lemma_scaled_sum_times(b0 * c1, b1 * c0, 1, a0);
        lemma_scaled_sum_times(b0 * c1, b1 * c0, 1, a1);
        lemma_rotate_product(a0, b0, c0);
        lemma_rotate_product(a0, b0, c1);
        lemma_rotate_product(a0, b1, c0);
        lemma_rotate_product(a0, b1, c1);
        lemma_rotate_product(a1, b0, c0);
        lemma_rotate_product(a1, b0, c1);
        lemma_rotate_product(a1, b1, c0);
        lemma_rotate_product(a1, b1, c1);
        lemma_mul_is_distributive_add(w, (a0 * b1) * c1, (a1 * b0) * c1);
        lemma_mul_is_distributive_add(w, (b0 * c1) * a1, (b1 * c0) * a1);
        assert(ab0 * c0 + w * (ab1 * c1) == bc0 * a0 + w * (bc1 * a1));
        assert(ab0 * c1 + ab1 * c0 == bc0 * a1 + bc1 * a0);
    }

    proof fn lemma_times_one(a: QuadraticExtension) {
        lemma_small_mod(0, ORDER as nat);
        lemma_small_mod(1, ORDER as nat);
        lemma_small_mod(a.c0@ as nat, ORDER as nat);
        lemma_small_mod(a.c1@ as nat, ORDER as nat);
        assert(a.c0@ * 1 + W * (a.c1@ * 0) == a.c0@);
        assert(a.c0@ * 0 + a.c1@ * 1 == a.c1@);
    }

    proof fn lemma_times_distributes(
        a: QuadraticExtension,
        b: QuadraticExtension,
        c: QuadraticExtension,
    ) {
        let (a0, a1) = (a.c0@, a.c1@);
        let (b0, b1) = (b.c0@, b.c1@);
        let (c0, c1) = (c.c0@, c.c1@);
        let w = W as int;
        let (s0, s1) = (b0 + c0, b1 + c1);
        lemma_extension_product_of_reduced(s0, s1, a0, a1);
        QuadraticExtension::lemma_times_commutes(a, b.plus_spec(c));
        lemma_add_mod_noop(a0 * b0 + w * (a1 * b1), a0 * c0 + w * (a1 * c1), ORDER as int);
        lemma_add_mod_noop(a0 * b1 + a1 * b0, a0 * c1 + a1 * c0, ORDER as int);
        assert(s0 * a0 + w * (s1 * a1) == (a0 * b0 + w * (a1 * b1)) + (a0 * c0 + w * (a1 * c1)))
            by (nonlinear_arith)
            requires
                s0 == b0 + c0,
                s1 == b1 + c1,
        ;
        assert(s0 * a1 + s1 * a0 == (a0 * b1 + a1 * b0) + (a0 * c1 + a1 * c0))
            by (nonlinear_arith)
            requires
                s0 == b0 + c0,
                s1 == b1 + c1,
        ;
    }
}

/// Goldilocks elements are added, subtracted and multiplied as the integers that
/// represent them, modulo `2^64 - 2^32 + 1`.
pub proof fn law_goldilocks_arithmetic(a: GoldilocksField, b: GoldilocksField)
    ensures
        a.plus_spec(b)@ == (a@ + b@) % 0xFFFF_FFFF_0000_0001,
        a.minus_spec(b)@ == (a@ - b@) % 0xFFFF_FFFF_0000_0001,
        a.times_spec(b)@ == (a@ * b@) % 0xFFFF_FFFF_0000_0001,
        GoldilocksField::zero_spec()@ == 0,
        GoldilocksField::one_spec()@ == 1,
        a.canonical() <==> 0 <= a@ < 0xFFFF_FFFF_0000_0001,
        a@ == b@ ==> a == b,
{
    GoldilocksField::lemma_of(a@ + b@);
    GoldilocksField::lemma_of(a@ - b@);
    GoldilocksField::lemma_of(a@ * b@);
    GoldilocksField::lemma_of(0);
    GoldilocksField::lemma_of(1);
}

/// Elements of the extension are added and subtracted coordinate by coordinate,
/// and multiplied as polynomials in `X` with `X^2 == 7`.
pub proof fn law_extension_arithmetic(a: QuadraticExtension, b: QuadraticExtension)
    ensures
        a.plus_spec(b) == (QuadraticExtension {
            c0: a.c0.plus_spec(b.c0),
            c1: a.c1.plus_spec(b.c1),
        }),
        a.minus_spec(b) == (QuadraticExtension {
            c0: a.c0.minus_spec(b.c0),
            c1: a.c1.minus_spec(b.c1),
        }),
        a.times_spec(b).c0@ == (a.c0@ * b.c0@ + 7 * (a.c1@ * b.c1@)) % 0xFFFF_FFFF_0000_0001,
        a.times_spec(b).c1@ == (a.c0@ * b.c1@ + a.c1@ * b.c0@) % 0xFFFF_FFFF_0000_0001,
        QuadraticExtension::zero_spec().c0@ == 0,
        QuadraticExtension::zero_spec().c1@ == 0,
        QuadraticExtension::one_spec().c0@ == 1,
        QuadraticExtension::one_spec().c1@ == 0,
{
    GoldilocksField::lemma_of(a.c0@ * b.c0@ + W * (a.c1@ * b.c1@));
    GoldilocksField::lemma_of(a.c0@ * b.c1@ + a.c1@ * b.c0@);
    GoldilocksField::lemma_of(0);
    GoldilocksField::lemma_of(1);
}

} // verus!
