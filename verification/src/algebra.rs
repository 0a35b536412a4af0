//! Powers, products and power sums of field elements.
use crate::field::Field;
use vstd::arithmetic::mul::*;
use vstd::arithmetic::power2::*;
use vstd::prelude::*;

verus! {

/// `x^n`.
pub open spec fn power<F: Field>(x: F, n: nat) -> F
    decreases n,
{
    if n == 0 {
        F::one_spec()
    } else if n == 1 {
        x
    } else {
        power(x, (n - 1) as nat).times_spec(x)
    }
}

/// The product of all elements of `s`.
pub open spec fn product<F: Field>(s: Seq<F>) -> F
    decreases s.len(),
{
    if s.len() == 0 {
        F::one_spec()
    } else {
        product(s.drop_last()).times_spec(s.last())
    }
}

/// `terms[0] + terms[1] * alpha + terms[2] * alpha^2 + ...`, by Horner's rule.
pub open spec fn reduced_with_powers<F: Field>(terms: Seq<F>, alpha: F) -> F
    decreases terms.len(),
{
    if terms.len() == 0 {
        F::zero_spec()
    } else {
        reduced_with_powers(terms.drop_first(), alpha).times_spec(alpha).plus_spec(terms.first())
    }
}

/// The sum of all `terms[i] * alpha^i`.
pub open spec fn power_sum<F: Field>(terms: Seq<F>, alpha: F) -> F
    decreases terms.len(),
{
    if terms.len() == 0 {
        F::zero_spec()
    } else {
        power_sum(terms.drop_last(), alpha).plus_spec(
            terms.last().times_spec(power(alpha, (terms.len() - 1) as nat)),
        )
    }
}

/// Powers with positive exponents multiply by adding the exponents.
pub proof fn lemma_power_sum<F: Field>(x: F, m: nat, n: nat)
    requires
        m >= 1,
        n >= 1,
    ensures
        power(x, m + n) == power(x, m).times_spec(power(x, n)),
    decreases n,
{
    if n > 1 {
        lemma_power_sum(x, m, (n - 1) as nat);
        F::lemma_times_associates(power(x, m), power(x, (n - 1) as nat), x);
    }
}

/// Every power of a canonical element is canonical.
pub proof fn lemma_power_canonical<F: Field>(x: F, n: nat)
    requires
        x.canonical(),
    ensures
        power(x, n).canonical(),
{
    F::lemma_results_canonical(x, x);
    if n > 1 {
        F::lemma_results_canonical(power(x, (n - 1) as nat), x);
    }
}

/// The inner two factors of a product of two products may change places.
pub proof fn lemma_exchange<F: Field>(a: F, b: F, c: F, d: F)
    ensures
        a.times_spec(b).times_spec(c.times_spec(d)) == a.times_spec(c).times_spec(b.times_spec(d)),
{
    F::lemma_times_associates(a, b, c.times_spec(d));
    F::lemma_times_associates(b, c, d);
    F::lemma_times_commutes(b, c);
    F::lemma_times_associates(c, b, d);
    F::lemma_times_associates(a, c, b.times_spec(d));
}

/// The last two factors of a product may change places.
pub proof fn lemma_swap_last<F: Field>(a: F, b: F, c: F)
    ensures
        a.times_spec(b).times_spec(c) == a.times_spec(c).times_spec(b),
{
    F::lemma_times_associates(a, b, c);
    F::lemma_times_commutes(b, c);
    F::lemma_times_associates(a, c, b);
}

/// A power of a product is the product of the powers.
pub proof fn lemma_power_of_product<F: Field>(x: F, y: F, n: nat)
    ensures
        power(x.times_spec(y), n) == power(x, n).times_spec(power(y, n)),
    decreases n,
{
    F::lemma_results_canonical(x, y);
    if n == 0 {
        F::lemma_times_one(F::one_spec());
    } else if n > 1 {
        lemma_power_of_product(x, y, (n - 1) as nat);
        lemma_exchange(power(x, (n - 1) as nat), power(y, (n - 1) as nat), x, y);
    }
}

/// A power of a power is the power with the product of the exponents.
pub proof fn lemma_power_of_power<F: Field>(x: F, m: nat, n: nat)
    requires
        m >= 1,
    ensures
        power(power(x, m), n) == power(x, m * n),
    decreases n,
{
    lemma_mul_basics(m as int);
    if n > 1 {
        let k = (n - 1) as nat;
        lemma_power_of_power(x, m, k);
        lemma_mul_is_distributive_add(m as int, k as int, 1);
        lemma_mul_strictly_positive(m as int, k as int);
        lemma_power_sum(x, m * k, m);
    }
}

/// One to any power is one.
pub proof fn lemma_power_of_one<F: Field>(n: nat)
    ensures
        power(F::one_spec(), n) == F::one_spec(),
    decreases n,
{
    if n > 1 {
        lemma_power_of_one::<F>((n - 1) as nat);
        F::lemma_results_canonical(F::one_spec(), F::one_spec());
        F::lemma_times_one(F::one_spec());
    }
}

/// A factor may be taken out of a product from any place.
pub proof fn lemma_product_remove<F: Field>(s: Seq<F>, i: int)
    requires
        0 <= i < s.len(),
    ensures
        product(s) == product(s.remove(i)).times_spec(s[i]),
    decreases s.len(),
{
    if i == s.len() - 1 {
        assert(s.remove(i) == s.drop_last());
    } else {
        let front = s.drop_last();
        lemma_product_remove(front, i);
        assert(s.remove(i).drop_last() == front.remove(i));
        assert(s.remove(i).last() == s.last());
        lemma_swap_last(product(front.remove(i)), s[i], s.last());
    }
}

/// The product of what `f` makes of each element of a list does not depend on
/// the order of the list.
pub proof fn lemma_product_of_permutation<A, F: Field>(
    s: Seq<A>,
    t: Seq<A>,
    f: spec_fn(A) -> F,
)
    requires
        s.to_multiset() == t.to_multiset(),
    ensures
        product(s.map_values(f)) == product(t.map_values(f)),
    decreases s.len(),
{
    s.to_multiset_ensures();
    t.to_multiset_ensures();
    if s.len() > 0 {
        let x = s.last();
        assert(s.contains(x));
        assert(t.to_multiset().count(x) > 0);
        assert(t.contains(x));
        let i = t.index_of(x);
        assert(s.remove(s.len() - 1) == s.drop_last());
        lemma_product_remove(t.map_values(f), i);
        assert(t.map_values(f).remove(i) =~= t.remove(i).map_values(f));
        assert(s.map_values(f).drop_last() =~= s.drop_last().map_values(f));
        lemma_product_of_permutation(s.drop_last(), t.remove(i), f);
    } else {
        assert(s.map_values(f) =~= t.map_values(f));
    }
}

/// A factor of one inside a product may be left out.
pub proof fn lemma_times_one_times<F: Field>(a: F, b: F)
    ensures
        a.times_spec(F::one_spec()).times_spec(b) == a.times_spec(b),
        a.times_spec(F::one_spec().times_spec(b)) == a.times_spec(b),
{
    F::lemma_times_associates(a, F::one_spec(), b);
    F::lemma_times_commutes(F::one_spec(), b);
    F::lemma_times_associates(a, b, F::one_spec());
    F::lemma_results_canonical(a, b);
    F::lemma_times_one(a.times_spec(b));
}

/// A factor of one in the second term of a sum may be left out.
pub proof fn lemma_plus_times_one<F: Field>(a: F, t: F)
    requires
        a.canonical(),
    ensures
        a.plus_spec(t.times_spec(F::one_spec())) == a.plus_spec(t),
{
    let one = F::one_spec();
    let sum = a.plus_spec(t);
    F::lemma_results_canonical(a, t);
    F::lemma_times_one(sum);
    F::lemma_times_one(a);
    F::lemma_times_commutes(sum, one);
    F::lemma_times_commutes(a, one);
    F::lemma_times_commutes(t, one);
    F::lemma_times_distributes(one, a, t);
}

/// Horner's rule computes the sum of the terms times rising powers.
pub proof fn lemma_horner<F: Field>(terms: Seq<F>, alpha: F)
    ensures
        reduced_with_powers(terms, alpha) == power_sum(terms, alpha),
    decreases terms.len(),
{
    if terms.len() > 0 {
        let front = terms.drop_last();
        lemma_horner(front, alpha);
        lemma_horner_append(front, terms.last(), alpha);
        assert(front.push(terms.last()) == terms);
    }
}

/// A further term enters Horner's rule with the next power.
proof fn lemma_horner_append<F: Field>(terms: Seq<F>, t: F, alpha: F)
    ensures
        reduced_with_powers(terms.push(t), alpha) == reduced_with_powers(terms, alpha).plus_spec(
            t.times_spec(power(alpha, terms.len())),
        ),
    decreases terms.len(),
{
    let zero = F::zero_spec();
    let all = terms.push(t);
    if terms.len() == 0 {
        assert(all.drop_first() == terms);
        lemma_zero_times(alpha);
        F::lemma_results_canonical(zero, zero);
        lemma_plus_times_one(zero, t);
    } else {
        let rest = terms.drop_first();
        lemma_horner_append(rest, t, alpha);
        assert(all.drop_first() == rest.push(t));
        let n: nat = rest.len();
        let r = reduced_with_powers(rest, alpha);
        let p = t.times_spec(power(alpha, n));
        // (r + t * alpha^n) * alpha + terms[0] is regrouped.
        F::lemma_times_commutes(r.plus_spec(p), alpha);
        F::lemma_times_distributes(alpha, r, p);
        F::lemma_times_commutes(alpha, r);
        F::lemma_times_commutes(alpha, p);
        F::lemma_times_associates(t, power(alpha, n), alpha);
        if n == 0 {
            lemma_times_one_times(t, alpha);
        } else {
            lemma_power_sum(alpha, n, 1);
        }
        let q = t.times_spec(power(alpha, n + 1));
        let ra = r.times_spec(alpha);
        F::lemma_plus_associates(ra, q, terms.first());
        F::lemma_plus_commutes(q, terms.first());
        F::lemma_plus_associates(ra, terms.first(), q);
    }
}

/// Zero times anything is zero.
pub proof fn lemma_zero_times<F: Field>(a: F)
    ensures
        F::zero_spec().times_spec(a) == F::zero_spec(),
{
    let zero = F::zero_spec();
    let z = a.times_spec(zero);
    F::lemma_results_canonical(a, zero);
    F::lemma_times_commutes(zero, a);
    F::lemma_plus_zero(zero);
    F::lemma_times_distributes(a, zero, zero);
    // z == z + z; taking z away on both sides leaves zero.
    lemma_cancel(z);
}

/// An element that does not change by adding itself is zero.
proof fn lemma_cancel<F: Field>(z: F)
    requires
        z.canonical(),
        z == z.plus_spec(z),
    ensures
        z == F::zero_spec(),
{
    let zero = F::zero_spec();
    let minus_z = zero.minus_spec(z);
    F::lemma_results_canonical(zero, z);
    F::lemma_minus_plus(zero, z);
    F::lemma_plus_associates(minus_z, z, z);
    F::lemma_plus_commutes(zero, z);
    F::lemma_plus_zero(z);
}

/// Squares `x` as often as `power_log` says.
pub fn exp_power_of_2<F: Field>(x: F, power_log: usize) -> (r: F)
    ensures
        r == power(x, pow2(power_log as nat)),
{
    let mut res = x;
    proof {
        lemma2_to64();
    }
    for i in 0..power_log
        invariant
            res == power(x, pow2(i as nat)),
    {
        proof {
            lemma_pow2_unfold((i + 1) as nat);
            lemma_pow2_pos(i as nat);
            lemma_power_sum(x, pow2(i as nat), pow2(i as nat));
        }
        res = res.times(res);
    }
    res
}

/// Combines the terms with rising powers of `alpha`.
pub fn reduce_with_powers<F: Field>(terms: &[F], alpha: F) -> (r: F)
    ensures
        r == reduced_with_powers(terms@, alpha),
        r == power_sum(terms@, alpha),
{
    let mut sum = F::zero();
    let mut i: usize = terms.len();
    assert(terms@.skip(i as int) == Seq::<F>::empty());
    while i > 0
        invariant
            i <= terms.len(),
            sum == reduced_with_powers(terms@.skip(i as int), alpha),
        decreases i,
    {
        i = i - 1;
        assert(terms@.skip(i as int).drop_first() == terms@.skip(i + 1));
        sum = sum.times(alpha).plus(terms[i]);
    }
    assert(terms@.skip(0) == terms@);
    proof {
        lemma_horner(terms@, alpha);
    }
    sum
}

/// The coset of a multiplicative subgroup of known order: the powers of
/// `generator` below `order`, each times `shift`.
pub fn cyclic_subgroup_coset_known_order<F: Field>(generator: F, shift: F, order: usize) -> (r: Vec<
    F,
>)
    ensures
        r.len() == order,
        forall|i: int|
            0 <= i < order ==> #[trigger] r[i] == power(generator, i as nat).times_spec(shift),
{
    let mut coset: Vec<F> = Vec::new();
    let mut current = F::one();
    for i in 0..order
        invariant
            coset.len() == i,
            current == power(generator, i as nat),
            forall|k: int|
                0 <= k < i ==> #[trigger] coset[k] == power(generator, k as nat).times_spec(shift),
    {
        coset.push(current.times(shift));
        current = if i == 0 {
            generator
        } else {
            current.times(generator)
        };
    }
    coset
}

/// The zeroth power is one, the first power is the element itself, and each
/// further one has one factor more.
pub proof fn law_power<F: Field>(x: F, n: nat)
    requires
        n >= 1,
    ensures
        power(x, 0) == F::one_spec(),
        power(x, 1) == x,
        power(x, n + 1) == power(x, n).times_spec(x),
{
    lemma_power_sum(x, n, 1);
}

/// No factor gives one, a single factor gives itself, and the product of two lists
/// put together is the product of their products.
pub proof fn law_product<F: Field>(x: F, s: Seq<F>, t: Seq<F>)
    requires
        x.canonical(),
    ensures
        product(Seq::<F>::empty()) == F::one_spec(),
        product(seq![x]) == x,
        product(s + t) == product(s).times_spec(product(t)),
    decreases t.len(),
{
    let one = F::one_spec();
    let single = seq![x];
    assert(single.drop_last() =~= Seq::<F>::empty());
    assert(product(single.drop_last()) == one);
    F::lemma_times_commutes(one, x);
    F::lemma_times_one(x);
    if t.len() == 0 {
        assert(s + t =~= s);
        F::lemma_results_canonical(product(s.drop_last()), s.last());
        F::lemma_times_one(product(s));
    } else {
        law_product(x, s, t.drop_last());
        assert((s + t).drop_last() =~= s + t.drop_last());
        F::lemma_times_associates(product(s), product(t.drop_last()), t.last());
    }
}

/// Every power sum is canonical.
proof fn lemma_power_sum_canonical<F: Field>(terms: Seq<F>, alpha: F)
    ensures
        power_sum(terms, alpha).canonical(),
{
    let n = terms.len();
    F::lemma_results_canonical(F::zero_spec(), F::zero_spec());
    if n > 0 {
        F::lemma_results_canonical(
            power_sum(terms.drop_last(), alpha),
            terms.last().times_spec(power(alpha, (n - 1) as nat)),
        );
    }
}

/// Nothing but zeros sums up to zero.
proof fn lemma_power_sum_of_zeros<F: Field>(terms: Seq<F>, alpha: F)
    requires
        forall|i: int| 0 <= i < terms.len() ==> #[trigger] terms[i] == F::zero_spec(),
    ensures
        power_sum(terms, alpha) == F::zero_spec(),
    decreases terms.len(),
{
    if terms.len() > 0 {
        let front = terms.drop_last();
        lemma_power_sum_of_zeros(front, alpha);
        lemma_zero_times(power(alpha, (terms.len() - 1) as nat));
        F::lemma_results_canonical(F::zero_spec(), F::zero_spec());
        F::lemma_plus_zero(F::zero_spec());
    }
}

/// The weight of the `k`-th term is `alpha^k`: if all other terms are zero, the sum
/// is that term times `alpha^k`.
pub proof fn law_weight_of_a_term<F: Field>(terms: Seq<F>, alpha: F, k: int)
    requires
        0 <= k < terms.len(),
        forall|i: int| 0 <= i < terms.len() && i != k ==> #[trigger] terms[i] == F::zero_spec(),
    ensures
        power_sum(terms, alpha) == terms[k].times_spec(power(alpha, k as nat)),
        reduced_with_powers(terms, alpha) == terms[k].times_spec(power(alpha, k as nat)),
    decreases terms.len(),
{
    let zero = F::zero_spec();
    let front = terms.drop_last();
    let m = (terms.len() - 1) as nat;
    let weighted = terms[k].times_spec(power(alpha, k as nat));
    F::lemma_results_canonical(terms[k], power(alpha, k as nat));
    if k == m {
        lemma_power_sum_of_zeros(front, alpha);
        F::lemma_plus_commutes(zero, weighted);
    } else {
        law_weight_of_a_term(front, alpha, k);
        lemma_zero_times(power(alpha, m));
    }
    F::lemma_plus_zero(weighted);
    lemma_horner(terms, alpha);
}

/// The sum of two lists of terms, place by place, sums up to the two sums together.
pub proof fn law_power_sums_add<F: Field>(s: Seq<F>, t: Seq<F>, both: Seq<F>, alpha: F)
    requires
        s.len() == t.len(),
        both.len() == s.len(),
        forall|i: int| 0 <= i < s.len() ==> #[trigger] both[i] == s[i].plus_spec(t[i]),
    ensures
        power_sum(both, alpha) == power_sum(s, alpha).plus_spec(power_sum(t, alpha)),
        reduced_with_powers(both, alpha) == reduced_with_powers(s, alpha).plus_spec(
            reduced_with_powers(t, alpha),
        ),
    decreases s.len(),
{
    let zero = F::zero_spec();
    if s.len() == 0 {
        F::lemma_results_canonical(zero, zero);
        F::lemma_plus_zero(zero);
    } else {
        law_power_sums_add(s.drop_last(), t.drop_last(), both.drop_last(), alpha);
        let p = power(alpha, (s.len() - 1) as nat);
        let a = power_sum(s.drop_last(), alpha);
        let b = power_sum(t.drop_last(), alpha);
        let c = s.last().times_spec(p);
        let d = t.last().times_spec(p);
        F::lemma_times_commutes(s.last().plus_spec(t.last()), p);
        F::lemma_times_distributes(p, s.last(), t.last());
        F::lemma_times_commutes(p, s.last());
        F::lemma_times_commutes(p, t.last());
        // (a + b) + (c + d) is regrouped to (a + c) + (b + d).
        F::lemma_plus_associates(a, b, c.plus_spec(d));
        F::lemma_plus_associates(b, c, d);
        F::lemma_plus_commutes(b, c);
        F::lemma_plus_associates(c, b, d);
        F::lemma_plus_associates(a, c, b.plus_spec(d));
    }
    lemma_horner(s, alpha);
    lemma_horner(t, alpha);
    lemma_horner(both, alpha);
}

/// The terms of a second list, put behind a first one, get the weights that they
/// have alone times the next power.
pub proof fn law_power_sums_join<F: Field>(s: Seq<F>, t: Seq<F>, alpha: F)
    ensures
        power_sum(s + t, alpha) == power_sum(s, alpha).plus_spec(
            power_sum(t, alpha).times_spec(power(alpha, s.len())),
        ),
    decreases t.len(),
{
    let a = power(alpha, s.len());
    let ps = power_sum(s, alpha);
    if t.len() == 0 {
        assert(s + t =~= s);
        lemma_zero_times(a);
        lemma_power_sum_canonical(s, alpha);
        F::lemma_plus_zero(ps);
    } else {
        let rest = t.drop_last();
        let x = t.last();
        let n = rest.len();
        let b = power(alpha, n);
        let pt = power_sum(rest, alpha);
        law_power_sums_join(s, rest, alpha);
        assert((s + t).drop_last() =~= s + rest);
        // x * alpha^(|s| + n) == (x * alpha^n) * alpha^|s|.
        F::lemma_times_associates(x, b, a);
        F::lemma_times_commutes(a, b);
        if n == 0 {
            lemma_times_one_times(x, a);
        } else if s.len() == 0 {
            F::lemma_times_commutes(F::one_spec(), b);
            lemma_times_one_times(x, b);
        } else {
            lemma_power_sum(alpha, s.len(), n);
        }
        // (pt + x * alpha^n) * alpha^|s| is multiplied out.
        F::lemma_times_commutes(pt.plus_spec(x.times_spec(b)), a);
        F::lemma_times_distributes(a, pt, x.times_spec(b));
        F::lemma_times_commutes(a, pt);
        F::lemma_times_commutes(a, x.times_spec(b));
        F::lemma_plus_associates(ps, pt.times_spec(a), x.times_spec(b).times_spec(a));
    }
}

/// A list cut into pieces of `len` terms each sums up to the sum over the pieces,
/// each summed up alone, with the powers of `alpha^len`.
pub proof fn law_pieces_sum_up<F: Field>(terms: Seq<F>, alpha: F, len: nat, pieces: nat)
    requires
        len >= 1,
        terms.len() == pieces * len,
    ensures
        power_sum(terms, alpha) == power_sum(
            Seq::new(
                pieces,
                |j: int| power_sum(terms.subrange(j * len, (j + 1) * len), alpha),
            ),
            power(alpha, len),
        ),
    decreases pieces,
{
    let sums = Seq::new(
        pieces,
        |j: int| power_sum(terms.subrange(j * len, (j + 1) * len), alpha),
    );
    if pieces == 0 {
        lemma_mul_basics(len as int);
    } else {
        let m = (pieces - 1) as nat;
        let cut = (m * len) as int;
        lemma_mul_is_distributive_add_other_way(len as int, m as int, 1);
        lemma_mul_nonnegative(m as int, len as int);
        let front = terms.take(cut);
        let back = terms.subrange(cut, terms.len() as int);
        assert(terms =~= front + back);
        law_power_sums_join(front, back, alpha);
        law_pieces_sum_up(front, alpha, len, m);
        let front_sums = Seq::new(
            m,
            |j: int| power_sum(front.subrange(j * len, (j + 1) * len), alpha),
        );
        assert forall|j: int| 0 <= j < m implies front_sums[j] == #[trigger] sums[j] by {
            lemma_mul_inequality(j + 1, m as int, len as int);
            lemma_mul_inequality(j, j + 1, len as int);
            lemma_mul_nonnegative(j, len as int);
            assert(front.subrange(j * len, (j + 1) * len) =~= terms.subrange(
                j * len,
                (j + 1) * len,
            ));
        }
        assert(sums.drop_last() =~= front_sums);
        lemma_mul_is_commutative(m as int, len as int);
        lemma_power_of_power(alpha, len, m);
    }
}

/// Zeros behind the other terms add nothing.
pub proof fn law_trailing_zeros_add_nothing<F: Field>(terms: Seq<F>, alpha: F, len: int)
    requires
        0 <= len <= terms.len(),
        forall|i: int| len <= i < terms.len() ==> #[trigger] terms[i] == F::zero_spec(),
    ensures
        power_sum(terms.take(len), alpha) == power_sum(terms, alpha),
{
    let front = terms.take(len);
    let back = terms.subrange(len, terms.len() as int);
    assert(terms =~= front + back);
    law_power_sums_join(front, back, alpha);
    lemma_power_sum_of_zeros(back, alpha);
    lemma_zero_times(power(alpha, front.len()));
    lemma_power_sum_canonical(front, alpha);
    F::lemma_plus_zero(power_sum(front, alpha));
}

} // verus!
