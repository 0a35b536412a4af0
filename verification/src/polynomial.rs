//! Polynomials in point-value form and in coefficient form.
use crate::algebra;
use crate::field::Field;
use vstd::arithmetic::div_mod::*;
use vstd::arithmetic::mul::*;
use vstd::prelude::*;

verus! {

/// A polynomial by its values on a subgroup, or on a coset of one.
#[derive(Debug, PartialEq, Eq)]
pub struct PolynomialValues<F> {
    pub values: Vec<F>,
}

impl<F> View for PolynomialValues<F> {
    type V = Seq<F>;

    open spec fn view(&self) -> Seq<F> {
        self.values@
    }
}

/// The values of each polynomial of a list.
pub open spec fn values_of<F>(polys: Seq<PolynomialValues<F>>) -> Seq<Seq<F>> {
    polys.map_values(|p: PolynomialValues<F>| p@)
}

/// One at `index`, zero elsewhere.
pub open spec fn selecting<F: Field>(len: nat, index: int) -> Seq<F> {
    Seq::new(
        len,
        |i: int|
            if i == index {
                F::one_spec()
            } else {
                F::zero_spec()
            },
    )
}

impl<F: Field> PolynomialValues<F> {
    /// The polynomial whose value is one at the given index and zero elsewhere.
    pub fn selector(len: usize, index: usize) -> (r: PolynomialValues<F>)
        requires
            index < len,
        ensures
            r@ == selecting::<F>(len as nat, index as int),
            r.values.len() == len,
            r.values[index as int] == F::one_spec(),
            forall|i: int|
                0 <= i < len && i != index ==> #[trigger] r.values[i] == F::zero_spec(),
    {
        let mut values: Vec<F> = Vec::new();
        for i in 0..len
            invariant
                values@ == selecting::<F>(len as nat, index as int).take(i as int),
        {
            values.push(if i == index { F::one() } else { F::zero() });
        }
        assert(values@ == selecting::<F>(len as nat, index as int));
        PolynomialValues { values }
    }

    /// The number of values.
    pub fn len(&self) -> (r: usize)
        ensures
            r == self@.len(),
    {
        self.values.len()
    }
}

/// A copy of a list of field elements.
pub fn copy_of<F: Copy>(elements: &[F]) -> (r: Vec<F>)
    ensures
        r@ == elements@,
{
    let mut copy: Vec<F> = Vec::new();
    for i in 0..elements.len()
        invariant
            copy@ == elements@.take(i as int),
    {
        copy.push(elements[i]);
    }
    assert(copy@ == elements@);
    copy
}

impl<F: Field> Clone for PolynomialValues<F> {
    fn clone(&self) -> (r: PolynomialValues<F>)
        ensures
            r@ == self@,
    {
        PolynomialValues { values: copy_of(self.values.as_slice()) }
    }
}

/// The same polynomials once more.
pub fn clone_all<F: Field>(polys: &[PolynomialValues<F>]) -> (r: Vec<PolynomialValues<F>>)
    ensures
        values_of(r@) == values_of(polys@),
{
    let mut all: Vec<PolynomialValues<F>> = Vec::new();
    for i in 0..polys.len()
        invariant
            values_of(all@) == values_of(polys@).take(i as int),
    {
        let ghost before = all@;
        let poly = polys[i].clone();
        all.push(poly);
        assert(values_of(all@) =~= values_of(before).push(poly@));
    }
    assert(values_of(all@) == values_of(polys@));
    all
}

/// The entries of each list.
pub open spec fn lists_of<F>(lists: Seq<Vec<F>>) -> Seq<Seq<F>> {
    lists.map_values(|list: Vec<F>| list@)
}

/// A polynomial by its coefficients, the constant one first.
#[derive(Debug, PartialEq, Eq)]
pub struct PolynomialCoeffs<F> {
    pub coeffs: Vec<F>,
}

impl<F> View for PolynomialCoeffs<F> {
    type V = Seq<F>;

    open spec fn view(&self) -> Seq<F> {
        self.coeffs@
    }
}

/// The coefficients of each polynomial of a list.
pub open spec fn coeffs_of<F>(polys: Seq<PolynomialCoeffs<F>>) -> Seq<Seq<F>> {
    polys.map_values(|p: PolynomialCoeffs<F>| p@)
}

/// Whether `coeffs` has at least `len` coefficients, all further ones zero.
pub open spec fn fits_len<F: Field>(coeffs: Seq<F>, len: int) -> bool {
    &&& coeffs.len() >= len
    &&& forall|i: int| len <= i < coeffs.len() ==> #[trigger] coeffs[i] == F::zero_spec()
}

/// Trimming was asked to drop a nonzero coefficient, or to reach a length
/// greater than the number of coefficients.
#[derive(Clone, Copy, Debug, PartialEq, Eq, Structural)]
pub struct TrimError;

impl<F: Field> PolynomialCoeffs<F> {
    /// Whether the polynomial can be trimmed to `len` coefficients.
    pub fn can_trim_to_len(&self, len: usize) -> (r: bool)
        ensures
            r == fits_len(self@, len as int),
            r <==> {
                &&& len <= self.coeffs.len()
                &&& forall|i: int|
                    len <= i < self.coeffs.len() ==> #[trigger] self.coeffs[i] == F::zero_spec()
            },
    {
        if self.coeffs.len() < len {
            return false;
        }
        for i in len..self.coeffs.len()
            invariant
                forall|k: int| len <= k < i ==> #[trigger] self@[k] == F::zero_spec(),
        {
            if !self.coeffs[i].equals(F::zero()) {
                return false;
            }
        }
        true
    }

    /// Drops leading zero coefficients until `len` coefficients are left. Fails
    /// if there are fewer than `len`, or if a coefficient to drop is not zero.
    pub fn trim_to_len(&mut self, len: usize) -> (r: Result<(), TrimError>)
        ensures
            r == (if fits_len(old(self)@, len as int) {
                Ok(())
            } else {
                Err(TrimError)
            }),
            final(self)@ == (if fits_len(old(self)@, len as int) {
                old(self)@.take(len as int)
            } else {
                old(self)@
            }),
            r is Ok <==> {
                &&& len <= old(self).coeffs.len()
                &&& forall|i: int|
                    len <= i < old(self).coeffs.len() ==> #[trigger] old(self).coeffs[i]
                        == F::zero_spec()
            },
            r is Ok ==> final(self).coeffs.len() == len,
            forall|i: int|
                0 <= i < final(self).coeffs.len() ==> #[trigger] final(self).coeffs[i] == old(
                    self,
                ).coeffs[i],
    {
        if !self.can_trim_to_len(len) {
            return Err(TrimError);
        }
        self.coeffs.truncate(len);
        Ok(())
    }

    /// Cuts the coefficients into pieces of `chunk_size`; the last piece may be
    /// shorter.
    pub fn chunks(&self, chunk_size: usize) -> (r: Vec<PolynomialCoeffs<F>>)
        requires
            chunk_size > 0,
        ensures
            coeffs_of(r@) == chunks_of(self@, chunk_size as int),
    {
        let mut pieces: Vec<PolynomialCoeffs<F>> = Vec::new();
        let n = self.coeffs.len();
        let ghost size = chunk_size as int;
        let mut start: usize = 0;
        proof {
            lemma_mul_basics(size);
            lemma_basic_div(size - 1, size);
            assert(chunks_of(self@.take(0), size) =~= coeffs_of(pieces@));
        }
        while start < n
            invariant
                chunk_size > 0,
                size == chunk_size,
                n == self@.len(),
                start <= n,
                start < n ==> start == pieces.len() * size,
                coeffs_of(pieces@) == chunks_of(self@.take(start as int), size),
            decreases n - start,
        {
            let end: usize = if n - start <= chunk_size {
                n
            } else {
                start + chunk_size
            };
            let piece = slice_of(self.coeffs.as_slice(), start, end);
            proof {
                let k = pieces.len() as int;
                lemma_mul_is_distributive_add_other_way(size, k, 1);
                assert(self@.take(end as int).take(start as int) == self@.take(start as int));
                assert(self@.take(end as int).subrange(start as int, end as int) == piece@);
                lemma_chunks_append(self@.take(end as int), size, k);
            }
            pieces.push(PolynomialCoeffs { coeffs: piece });
            assert(coeffs_of(pieces@) == chunks_of(self@.take(end as int), size));
            start = end;
        }
        assert(self@.take(n as int) == self@);
        pieces
    }
}

/// The elements from `start` up to `end`.
fn slice_of<F: Copy>(elements: &[F], start: usize, end: usize) -> (r: Vec<F>)
    requires
        start <= end <= elements.len(),
    ensures
        r@ == elements@.subrange(start as int, end as int),
{
    let mut part: Vec<F> = Vec::new();
    for i in start..end
        invariant
            start <= end <= elements.len(),
            part@ == elements@.subrange(start as int, i as int),
    {
        part.push(elements[i]);
        assert(part@ == elements@.subrange(start as int, i + 1));
    }
    part
}

/// `s` cut into pieces of `size` elements; the last piece may be shorter.
pub open spec fn chunks_of<F>(s: Seq<F>, size: int) -> Seq<Seq<F>>
    recommends
        size > 0,
{
    Seq::new(
        ((s.len() + size - 1) / size) as nat,
        |i: int|
            s.subrange(
                i * size,
                if (i + 1) * size <= s.len() {
                    (i + 1) * size
                } else {
                    s.len() as int
                },
            ),
    )
}

/// Cutting `s` is cutting its first `k` full pieces and appending the rest,
/// where the rest is one piece.
proof fn lemma_chunks_append<F>(s: Seq<F>, size: int, k: int)
    requires
        size > 0,
        k >= 0,
        k * size < s.len() <= (k + 1) * size,
    ensures
        chunks_of(s, size) == chunks_of(s.take(k * size), size).push(
            s.subrange(k * size, s.len() as int),
        ),
{
    let front = s.take(k * size);
    assert((s.len() + size - 1) / size == k + 1) by {
        let r = s.len() + size - 1 - (k + 1) * size;
        assert((k + 1) * size == k * size + size) by (nonlinear_arith);
        lemma_fundamental_div_mod_converse(s.len() + size - 1, size, k + 1, r);
    }
    assert((front.len() + size - 1) / size == k) by {
        lemma_fundamental_div_mod_converse(k * size + size - 1, size, k, size - 1);
    }
    assert forall|i: int| 0 <= i < k implies #[trigger] chunks_of(s, size)[i] == chunks_of(
        front,
        size,
    )[i] by {
        lemma_mul_inequality(i + 1, k, size);
        lemma_mul_inequality(i, i + 1, size);
        lemma_mul_nonnegative(i, size);
        assert(front.subrange(i * size, (i + 1) * size) == s.subrange(i * size, (i + 1) * size));
    }
    assert(chunks_of(s, size) =~= chunks_of(front, size).push(
        s.subrange(k * size, s.len() as int),
    ));
}

/// Every coefficient stands in the piece that its index names: cutting loses
/// none and keeps their order.
pub proof fn law_chunks_keep_coefficients<F>(s: Seq<F>, size: int, c: int)
    requires
        size > 0,
        0 <= c < s.len(),
    ensures
        0 <= c / size < chunks_of(s, size).len(),
        0 <= c % size < chunks_of(s, size)[c / size].len() <= size,
        s[c] == chunks_of(s, size)[c / size][c % size],
{
    let k = c / size;
    lemma_fundamental_div_mod(c, size);
    lemma_mul_is_commutative(k, size);
    lemma_div_pos_is_pos(c, size);
    lemma_mul_nonnegative(k, size);
    assert((k + 1) * size == k * size + size) by (nonlinear_arith);
    assert(k < (s.len() + size - 1) / size) by {
        lemma_div_is_ordered(k * size + size, s.len() + size - 1, size);
        lemma_div_multiples_vanish(k + 1, size);
        assert(size * (k + 1) == k * size + size) by (nonlinear_arith);
    }
}

/// The matrix with rows and columns exchanged. The first row says how many
/// columns there are.
pub fn transpose<F: Copy>(matrix: &Vec<Vec<F>>) -> (r: Vec<Vec<F>>)
    requires
        matrix.len() > 0,
        forall|i: int| 0 <= i < matrix.len() ==> (#[trigger] matrix[i]).len() >= matrix[0].len(),
    ensures
        r.len() == matrix[0].len(),
        forall|k: int| 0 <= k < r.len() ==> (#[trigger] r[k]).len() == matrix.len(),
        forall|k: int, i: int|
            0 <= k < r.len() && 0 <= i < matrix.len() ==> #[trigger] r[k][i] == matrix[i][k],
{
    let mut columns: Vec<Vec<F>> = Vec::new();
    let len = matrix[0].len();
    for k in 0..len
        invariant
            matrix.len() > 0,
            len == matrix[0].len(),
            forall|i: int| 0 <= i < matrix.len() ==> (#[trigger] matrix[i]).len() >= len,
            columns.len() == k,
            forall|j: int| 0 <= j < k ==> (#[trigger] columns[j]).len() == matrix.len(),
            forall|j: int, i: int|
                0 <= j < k && 0 <= i < matrix.len() ==> #[trigger] columns[j][i] == matrix[i][j],
    {
        let mut column: Vec<F> = Vec::new();
        for i in 0..matrix.len()
            invariant
                k < len,
                forall|i: int| 0 <= i < matrix.len() ==> (#[trigger] matrix[i]).len() >= len,
                column.len() == i,
                forall|j: int| 0 <= j < i ==> #[trigger] column[j] == matrix[j][k as int],
        {
            column.push(matrix[i][k]);
        }
        columns.push(column);
    }
    columns
}

/// The lists that stand for polynomials hold what the polynomials hold, in the same
/// order.
pub proof fn law_lists_hold_the_elements<F>(
    values: Seq<PolynomialValues<F>>,
    coeffs: Seq<PolynomialCoeffs<F>>,
    lists: Seq<Vec<F>>,
    i: int,
)
    ensures
        values_of(values).len() == values.len(),
        coeffs_of(coeffs).len() == coeffs.len(),
        lists_of(lists).len() == lists.len(),
        0 <= i < values.len() ==> values_of(values)[i] == values[i].values@,
        0 <= i < coeffs.len() ==> coeffs_of(coeffs)[i] == coeffs[i].coeffs@,
        0 <= i < lists.len() ==> lists_of(lists)[i] == lists[i]@,
{
}

/// A polynomial that can be trimmed is the same polynomial afterwards: it has the
/// same value at every `x`.
pub proof fn law_trimming_keeps_the_polynomial<F: Field>(coeffs: Seq<F>, len: int, x: F)
    requires
        0 <= len,
        fits_len(coeffs, len),
    ensures
        len <= coeffs.len(),
        algebra::power_sum(coeffs.take(len), x) == algebra::power_sum(coeffs, x),
{
    algebra::law_trailing_zeros_add_nothing(coeffs, x, len);
}

/// A polynomial can be trimmed to its own length, to any length between two to
/// which it can be trimmed, and to no length that drops a coefficient other than
/// zero or that it does not have.
pub proof fn law_what_can_be_trimmed<F: Field>(coeffs: Seq<F>, len: int, i: int)
    requires
        len >= 0,
    ensures
        fits_len(coeffs, coeffs.len() as int),
        fits_len(coeffs, len) && len <= i <= coeffs.len() ==> fits_len(coeffs, i),
        len > coeffs.len() ==> !fits_len(coeffs, len),
        len <= i < coeffs.len() && coeffs[i] != F::zero_spec() ==> !fits_len(coeffs, len),
        len < coeffs.len() && coeffs[len] == F::zero_spec() && fits_len(coeffs, len + 1)
            ==> fits_len(coeffs, len),
{
    if len < coeffs.len() && coeffs[len] == F::zero_spec() && fits_len(coeffs, len + 1) {
        assert forall|j: int| len <= j < coeffs.len() implies #[trigger] coeffs[j]
            == F::zero_spec() by {
            if j > len {
                assert(len + 1 <= j);
            }
        }
    }
}

/// No piece is empty, and every piece but the last is full.
pub proof fn law_chunks_are_full<F>(s: Seq<F>, size: int, k: int)
    requires
        size > 0,
        0 <= k < chunks_of(s, size).len(),
    ensures
        0 < chunks_of(s, size)[k].len() <= size,
        k + 1 < chunks_of(s, size).len() ==> chunks_of(s, size)[k].len() == size,
{
    let n = s.len() as int;
    let count = (n + size - 1) / size;
    lemma_fundamental_div_mod(n + size - 1, size);
    lemma_mul_is_commutative(size, count);
    lemma_mul_inequality(k + 1, count, size);
    lemma_mul_nonnegative(k, size);
    lemma_mul_is_distributive_add_other_way(size, k, 1);
    if k + 1 < count {
        lemma_mul_inequality(k + 2, count, size);
        lemma_mul_is_distributive_add_other_way(size, k, 2);
    }
}

} // verus!
