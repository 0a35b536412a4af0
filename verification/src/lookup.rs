//! The running products that tie the columns of one table to those of another.
use crate::algebra;
use crate::config::StarkConfig;
use crate::field::Field;
use crate::polynomial;
use crate::polynomial::PolynomialValues;
use crate::table::{CrossTableLookup, LookupModel, Table};
use vstd::arithmetic::div_mod::*;
use vstd::arithmetic::mul::*;
use vstd::prelude::*;

verus! {

/// The values at the places that `columns` lists.
pub open spec fn selected<F>(values: Seq<F>, columns: Seq<usize>) -> Seq<F> {
    columns.map_values(|j: usize| values[j as int])
}

/// What the polynomials of `trace` hold at the listed places, for as many
/// polynomials as the first one has values.
pub open spec fn looked_up_rows<F>(trace: Seq<Seq<F>>, columns: Seq<usize>) -> Seq<Seq<F>> {
    Seq::new(trace[0].len(), |i: int| selected(trace[i], columns))
}

/// A row as one field element: its entries combined with powers of `beta`, then
/// shifted by `gamma`.
pub open spec fn row_factor<F: Field>(row: Seq<F>, beta: F, gamma: F) -> F {
    gamma.plus_spec(algebra::reduced_with_powers(row, beta))
}

/// The factors of a running product.
pub open spec fn row_factors<F: Field>(
    trace: Seq<Seq<F>>,
    columns: Seq<usize>,
    beta: F,
    gamma: F,
) -> Seq<F> {
    looked_up_rows(trace, columns).map_values(|row: Seq<F>| row_factor(row, beta, gamma))
}

/// The products of the first factor, of the first two, and so on.
pub open spec fn running_products<F: Field>(factors: Seq<F>) -> Seq<F> {
    Seq::new(factors.len(), |i: int| algebra::product(factors.take(i + 1)))
}

/// Whether every entry that a running product over `trace` reads is there.
pub open spec fn has_rows<F>(trace: Seq<Seq<F>>, columns: Seq<usize>) -> bool {
    &&& trace.len() > 0
    &&& columns.len() > 0 ==> trace.len() >= trace[0].len()
    &&& forall|i: int, k: int|
        0 <= i < trace[0].len() && 0 <= k < columns.len() ==> #[trigger] columns[k]
            < (#[trigger] trace[i]).len()
}

/// The running products over `trace` of its rows, each combined with `beta` and
/// shifted by `gamma`.
pub fn partial_products<F: Field>(
    trace: &[PolynomialValues<F>],
    columns: &[usize],
    beta: F,
    gamma: F,
) -> (r: PolynomialValues<F>)
    requires
        has_rows(polynomial::values_of(trace@), columns@),
    ensures
        r@ == running_products(row_factors(polynomial::values_of(trace@), columns@, beta, gamma)),
{
    let ghost values = polynomial::values_of(trace@);
    let ghost factors = row_factors(values, columns@, beta, gamma);
    let mut partial_prod = F::one();
    let mut res: Vec<F> = Vec::new();
    let rows = trace[0].len();
    for i in 0..rows
        invariant
            values == polynomial::values_of(trace@),
            has_rows(values, columns@),
            rows == values[0].len(),
            factors == row_factors(values, columns@, beta, gamma),
            partial_prod == algebra::product(factors.take(i as int)),
            res@ == running_products(factors).take(i as int),
    {
        let mut row: Vec<F> = Vec::new();
        for k in 0..columns.len()
            invariant
                values == polynomial::values_of(trace@),
                has_rows(values, columns@),
                rows == values[0].len(),
                i < rows,
                row@ == selected(values[i as int], columns@).take(k as int),
        {
            assert(columns@[k as int] < values[i as int].len());
            row.push(trace[i].values[columns[k]]);
        }
        assert(row@ == selected(values[i as int], columns@));
        partial_prod = partial_prod.times(gamma.plus(algebra::reduce_with_powers(row.as_slice(), beta)));
        assert(factors.take(i + 1).drop_last() == factors.take(i as int));
        assert(factors.take(i + 1).last() == row_factor(row@, beta, gamma));
        res.push(partial_prod);
        assert(res@ == running_products(factors).take(i + 1));
    }
    assert(res@ == running_products(factors));
    PolynomialValues { values: res }
}

/// Lookup data for one table: the running products of its lookups, each with
/// the two challenges that it was made with.
pub struct LookupData<F: Field> {
    pub zs_beta_gammas: Vec<(PolynomialValues<F>, F, F)>,
}

impl<F: Field> View for LookupData<F> {
    type V = Seq<(Seq<F>, F, F)>;

    open spec fn view(&self) -> Seq<(Seq<F>, F, F)> {
        self.zs_beta_gammas@.map_values(|z: (PolynomialValues<F>, F, F)| (z.0@, z.1, z.2))
    }
}

impl<F: Field> Default for LookupData<F> {
    fn default() -> (r: LookupData<F>)
        ensures
            r@ == Seq::<(Seq<F>, F, F)>::empty(),
    {
        let r = LookupData { zs_beta_gammas: Vec::new() };
        assert(r@ =~= Seq::<(Seq<F>, F, F)>::empty());
        r
    }
}

impl<F: Field> LookupData<F> {
    /// Whether the table takes part in no lookup.
    pub fn is_empty(&self) -> (r: bool)
        ensures
            r == (self@.len() == 0),
            r == (self.zs_beta_gammas.len() == 0),
    {
        self.zs_beta_gammas.len() == 0
    }

    /// The running products alone.
    pub fn z_polys(&self) -> (r: Vec<PolynomialValues<F>>)
        ensures
            polynomial::values_of(r@) == self@.map_values(|z: (Seq<F>, F, F)| z.0),
            r.len() == self.zs_beta_gammas.len(),
            forall|i: int|
                0 <= i < r.len() ==> (#[trigger] r[i]).values@ == self.zs_beta_gammas[i].0.values@,
    {
        let mut polys: Vec<PolynomialValues<F>> = Vec::new();
        let ghost expected = self@.map_values(|z: (Seq<F>, F, F)| z.0);
        for i in 0..self.zs_beta_gammas.len()
            invariant
                expected == self@.map_values(|z: (Seq<F>, F, F)| z.0),
                polynomial::values_of(polys@) == expected.take(i as int),
        {
            let p = self.zs_beta_gammas[i].0.clone();
            assert(p@ == self@[i as int].0);
            let ghost before = polys@;
            polys.push(p);
            assert(polynomial::values_of(polys@) =~= polynomial::values_of(before).push(p@));
            assert(expected.take(i + 1) =~= expected.take(i as int).push(p@));
        }
        assert(polynomial::values_of(polys@) == expected);
        proof {
            assert(polynomial::values_of(polys@).len() == polys@.len());
            assert forall|i: int| 0 <= i < polys.len() implies (#[trigger] polys[i]).values@
                == self.zs_beta_gammas[i].0.values@ by {
                assert(polynomial::values_of(polys@)[i] == polys[i].values@);
            }
        }
        polys
    }
}

/// The values of the polynomials of each table.
pub open spec fn tables_of<F>(traces: Seq<Vec<PolynomialValues<F>>>) -> Seq<Seq<Seq<F>>> {
    traces.map_values(|trace: Vec<PolynomialValues<F>>| polynomial::values_of(trace@))
}

/// What each lookup of a list consists of.
pub open spec fn lookups_of<F: Field>(lookups: Seq<CrossTableLookup<F>>) -> Seq<LookupModel<F>> {
    lookups.map_values(|lookup: CrossTableLookup<F>| lookup@)
}

/// Whether both tables of a lookup are there, with all entries it reads.
pub open spec fn lookup_fits<F: Field>(traces: Seq<Seq<Seq<F>>>, lookup: LookupModel<F>) -> bool {
    &&& lookup.looking_table.position() < traces.len()
    &&& lookup.looked_table < traces.len()
    &&& has_rows(traces[lookup.looking_table.position() as int], lookup.looking_columns)
    &&& has_rows(traces[lookup.looked_table as int], lookup.looked_columns)
}

/// Tests whether every entry that a running product over `trace` reads is there.
fn check_rows<F: Field>(trace: &[PolynomialValues<F>], columns: &[usize]) -> (r: bool)
    ensures
        r == has_rows(polynomial::values_of(trace@), columns@),
{
    let ghost values = polynomial::values_of(trace@);
    if trace.len() == 0 {
        return false;
    }
    if columns.len() == 0 {
        return true;
    }
    if trace.len() < trace[0].len() {
        return false;
    }
    let rows = trace[0].len();
    for i in 0..rows
        invariant
            values == polynomial::values_of(trace@),
            0 < values.len(),
            rows == values[0].len() <= values.len(),
            forall|j: int, k: int|
                0 <= j < i && 0 <= k < columns.len() ==> #[trigger] columns[k]
                    < (#[trigger] values[j]).len(),
    {
        let len = trace[i].len();
        for c in 0..columns.len()
            invariant
                values == polynomial::values_of(trace@),
                0 <= i < values[0].len() <= values.len(),
                len == values[i as int].len(),
                forall|k: int| 0 <= k < c ==> #[trigger] columns[k] < len,
        {
            if columns[c] >= len {
                assert(!(columns@[c as int] < values[i as int].len()));
                return false;
            }
        }
    }
    true
}

/// Tests whether both tables of a lookup are there, with all entries it reads.
pub fn check_lookup<F: Field>(
    trace_poly_values: &[Vec<PolynomialValues<F>>],
    cross_table_lookup: &CrossTableLookup<F>,
) -> (r: bool)
    ensures
        r == lookup_fits(tables_of(trace_poly_values@), cross_table_lookup@),
{
    let looking_table = cross_table_lookup.looking_table();
    let looked_table = cross_table_lookup.looked_table();
    looking_table < trace_poly_values.len() && looked_table < trace_poly_values.len() && check_rows(
        trace_poly_values[looking_table].as_slice(),
        cross_table_lookup.looking_columns(),
    ) && check_rows(
        trace_poly_values[looked_table].as_slice(),
        cross_table_lookup.looked_columns(),
    )
}

/// What a lookup adds to the data of `table` for one pair of challenges: the
/// running product of the looking columns if they are of this table, then that
/// of the looked columns if they are.
pub open spec fn round_entries<F: Field>(
    traces: Seq<Seq<Seq<F>>>,
    lookup: LookupModel<F>,
    beta: F,
    gamma: F,
    table: int,
) -> Seq<(Seq<F>, F, F)> {
    let looking = lookup.looking_table.position() as int;
    let looked = lookup.looked_table as int;
    let z_looking = running_products(
        row_factors(traces[looking], lookup.looking_columns, beta, gamma),
    );
    let z_looked = running_products(
        row_factors(traces[looked], lookup.looked_columns, beta, gamma),
    );
    let first = if looking == table {
        seq![(z_looking, beta, gamma)]
    } else {
        Seq::empty()
    };
    if looked == table {
        first.push((z_looked, beta, gamma))
    } else {
        first
    }
}

/// The lookup data of `table` after `rounds` pairs of challenges, of which each
/// lookup takes `num_challenges` in turn.
pub open spec fn lookup_entries<F: Field>(
    traces: Seq<Seq<Seq<F>>>,
    lookups: Seq<LookupModel<F>>,
    num_challenges: nat,
    challenges: Seq<F>,
    rounds: nat,
    table: int,
) -> Seq<(Seq<F>, F, F)>
    decreases rounds,
{
    if rounds == 0 {
        Seq::empty()
    } else {
        let round = (rounds - 1) as nat;
        lookup_entries(traces, lookups, num_challenges, challenges, round, table) + round_entries(
            traces,
            lookups[(round / num_challenges) as int],
            challenges[2 * round as int],
            challenges[2 * round as int + 1],
            table,
        )
    }
}

/// Appends a running product with its challenges to the data of one table.
fn push_entry<F: Field>(
    acc: &mut Vec<LookupData<F>>,
    table: usize,
    z: PolynomialValues<F>,
    beta: F,
    gamma: F,
)
    requires
        table < old(acc).len(),
    ensures
        final(acc).len() == old(acc).len(),
        final(acc)[table as int]@ == old(acc)[table as int]@.push((z@, beta, gamma)),
        forall|t: int|
            0 <= t < old(acc).len() && t != table ==> #[trigger] final(acc)[t] == old(acc)[t],
{
    acc[table].zs_beta_gammas.push((z, beta, gamma));
    assert(acc[table as int]@ =~= old(acc)[table as int]@.push((z@, beta, gamma)));
}

/// The lookup data of every table. `challenges` are the challenges in the order
/// in which they were drawn: for each lookup in turn, `num_challenges` times a
/// `beta` and a `gamma`.
pub fn cross_table_lookup_zs<F: Field>(
    config: &StarkConfig,
    trace_poly_values: &[Vec<PolynomialValues<F>>],
    cross_table_lookups: &[CrossTableLookup<F>],
    challenges: &[F],
) -> (r: Vec<LookupData<F>>)
    requires
        challenges.len() == 2 * (cross_table_lookups.len() * config.num_challenges),
        config.num_challenges > 0 ==> forall|l: int|
            0 <= l < cross_table_lookups.len() ==> lookup_fits(
                tables_of(trace_poly_values@),
                (#[trigger] cross_table_lookups@[l])@,
            ),
    ensures
        r.len() == trace_poly_values.len(),
        forall|t: int|
            0 <= t < r.len() ==> (#[trigger] r[t])@ == lookup_entries(
                tables_of(trace_poly_values@),
                lookups_of(cross_table_lookups@),
                config.num_challenges as nat,
                challenges@,
                (cross_table_lookups.len() * config.num_challenges) as nat,
                t,
            ),
{
    let ghost traces = tables_of(trace_poly_values@);
    let ghost lookups = lookups_of(cross_table_lookups@);
    let num = config.num_challenges;
    let mut acc: Vec<LookupData<F>> = Vec::new();
    for t in 0..trace_poly_values.len()
        invariant
            acc.len() == t,
            forall|u: int| 0 <= u < t ==> (#[trigger] acc[u])@ == Seq::<(Seq<F>, F, F)>::empty(),
    {
        acc.push(LookupData::default());
    }
    let mut round: usize = 0;
    proof {
        lemma_mul_basics(num as int);
    }
    for l in 0..cross_table_lookups.len()
        invariant
            traces == tables_of(trace_poly_values@),
            lookups == lookups_of(cross_table_lookups@),
            num == config.num_challenges,
            acc.len() == trace_poly_values.len(),
            challenges.len() == 2 * (cross_table_lookups.len() * num),
            round == l * num,
            num > 0 ==> forall|l: int|
                0 <= l < cross_table_lookups.len() ==> lookup_fits(
                    traces,
                    (#[trigger] cross_table_lookups@[l])@,
                ),
            forall|t: int|
                0 <= t < acc.len() ==> (#[trigger] acc[t])@ == lookup_entries(
                    traces,
                    lookups,
                    num as nat,
                    challenges@,
                    round as nat,
                    t,
                ),
    {
        let lookup = &cross_table_lookups[l];
        let looking_table = lookup.looking_table();
        let looked_table = lookup.looked_table();
        proof {
            assert((l + 1) * num == l * num + num) by (nonlinear_arith);
            lemma_mul_inequality(l + 1, cross_table_lookups.len() as int, num as int);
        }
        for c in 0..num
            invariant
                traces == tables_of(trace_poly_values@),
                lookups == lookups_of(cross_table_lookups@),
                acc.len() == trace_poly_values.len(),
                challenges.len() == 2 * (cross_table_lookups.len() * num),
                l < cross_table_lookups.len(),
                (l + 1) * num <= cross_table_lookups.len() * num,
                (l + 1) * num == l * num + num,
                round == l * num + c,
                lookup == &cross_table_lookups[l as int],
                looking_table == lookup@.looking_table.position(),
                looked_table == lookup@.looked_table,
                num > 0 ==> lookup_fits(traces, lookup@),
                forall|t: int|
                    0 <= t < acc.len() ==> (#[trigger] acc[t])@ == lookup_entries(
                        traces,
                        lookups,
                        num as nat,
                        challenges@,
                        round as nat,
                        t,
                    ),
        {
            let beta = challenges[2 * round];
            let gamma = challenges[2 * round + 1];
            let ghost before = acc@;
            proof {
                lemma_fundamental_div_mod_converse(round as int, num as int, l as int, c as int);
                assert(lookups[l as int] == lookup@);
                assert(traces[looking_table as int] == polynomial::values_of(
                    trace_poly_values@[looking_table as int]@,
                ));
                assert(traces[looked_table as int] == polynomial::values_of(
                    trace_poly_values@[looked_table as int]@,
                ));
            }
            let z_looking = partial_products(
                trace_poly_values[looking_table].as_slice(),
                lookup.looking_columns(),
                beta,
                gamma,
            );
            let z_looked = partial_products(
                trace_poly_values[looked_table].as_slice(),
                lookup.looked_columns(),
                beta,
                gamma,
            );
            push_entry(&mut acc, looking_table, z_looking, beta, gamma);
            push_entry(&mut acc, looked_table, z_looked, beta, gamma);
            assert forall|t: int| 0 <= t < acc.len() implies (#[trigger] acc[t])@
                == lookup_entries(
                traces,
                lookups,
                num as nat,
                challenges@,
                (round + 1) as nat,
                t,
            ) by {
                assert(acc[t]@ =~= before[t]@ + round_entries(traces, lookup@, beta, gamma, t));
            }
            round = round + 1;
        }
    }
    acc
}

/// A running product starts with the first factor, takes in one factor more at
/// each place, and ends with the product of all factors.
pub proof fn law_running_products<F: Field>(factors: Seq<F>, i: int)
    requires
        0 <= i < factors.len(),
        factors[0].canonical(),
    ensures
        running_products(factors).len() == factors.len(),
        running_products(factors)[0] == factors[0],
        i > 0 ==> running_products(factors)[i] == running_products(factors)[i - 1].times_spec(
            factors[i],
        ),
        running_products(factors).last() == algebra::product(factors),
{
    let first = factors.take(1);
    assert(first.drop_last() =~= Seq::empty());
    assert(algebra::product(first.drop_last()) == F::one_spec());
    F::lemma_times_commutes(F::one_spec(), factors[0]);
    F::lemma_times_one(factors[0]);
    assert(factors.take(i + 1).drop_last() == factors.take(i));
    assert(factors.take(factors.len() as int) == factors);
}

/// If the looking columns of one trace hold the same rows as the looked columns
/// of another, each as often and in any order, then both running products end in
/// the same element, whatever the challenges are.
pub proof fn law_permuted_rows<F: Field>(
    looking: Seq<Seq<F>>,
    looking_columns: Seq<usize>,
    looked: Seq<Seq<F>>,
    looked_columns: Seq<usize>,
    beta: F,
    gamma: F,
)
    requires
        looking[0].len() > 0,
        looked_up_rows(looking, looking_columns).to_multiset() == looked_up_rows(
            looked,
            looked_columns,
        ).to_multiset(),
    ensures
        looked[0].len() == looking[0].len(),
        running_products(row_factors(looking, looking_columns, beta, gamma)).last()
            == running_products(row_factors(looked, looked_columns, beta, gamma)).last(),
{
    let s = looked_up_rows(looking, looking_columns);
    let t = looked_up_rows(looked, looked_columns);
    let f = |row: Seq<F>| row_factor(row, beta, gamma);
    s.to_multiset_ensures();
    t.to_multiset_ensures();
    algebra::lemma_product_of_permutation(s, t, f);
    let a = row_factors(looking, looking_columns, beta, gamma);
    let b = row_factors(looked, looked_columns, beta, gamma);
    assert(a.take(a.len() as int) == a);
    assert(b.take(b.len() as int) == b);
}

/// For a lookup of rows that are all there in the looked columns, each as often
/// and in any order, every round gives both tables an entry with the same two
/// challenges, and the two running products end in the same element.
pub proof fn law_lookup_agrees<F: Field>(
    traces: Seq<Seq<Seq<F>>>,
    lookup: LookupModel<F>,
    beta: F,
    gamma: F,
)
    requires
        traces[lookup.looking_table.position() as int][0].len() > 0,
        looked_up_rows(
            traces[lookup.looking_table.position() as int],
            lookup.looking_columns,
        ).to_multiset() == looked_up_rows(
            traces[lookup.looked_table as int],
            lookup.looked_columns,
        ).to_multiset(),
    ensures
        ({
            let looking = round_entries(
                traces,
                lookup,
                beta,
                gamma,
                lookup.looking_table.position() as int,
            );
            let looked = round_entries(traces, lookup, beta, gamma, lookup.looked_table as int);
            &&& looking.len() > 0
            &&& looked.len() > 0
            &&& looking.first().1 == beta && looked.last().1 == beta
            &&& looking.first().2 == gamma && looked.last().2 == gamma
            &&& looking.first().0.last() == looked.last().0.last()
        }),
{
    law_permuted_rows(
        traces[lookup.looking_table.position() as int],
        lookup.looking_columns,
        traces[lookup.looked_table as int],
        lookup.looked_columns,
        beta,
        gamma,
    );
}

/// The entries of one round stand together in the data of a table, after those
/// of all rounds before it: one for each side of the lookup that is on the table,
/// made from the two challenges of that round.
pub proof fn law_entries_in_order<F: Field>(
    traces: Seq<Seq<Seq<F>>>,
    lookups: Seq<LookupModel<F>>,
    num_challenges: nat,
    challenges: Seq<F>,
    round: nat,
    rounds: nat,
    table: int,
)
    requires
        round < rounds,
    ensures
        ({
            let before = lookup_entries(
                traces,
                lookups,
                num_challenges,
                challenges,
                round,
                table,
            );
            let all = lookup_entries(traces, lookups, num_challenges, challenges, rounds, table);
            let added = round_entries(
                traces,
                lookups[(round / num_challenges) as int],
                challenges[2 * round as int],
                challenges[2 * round as int + 1],
                table,
            );
            &&& before.len() + added.len() <= all.len()
            &&& all.subrange(before.len() as int, (before.len() + added.len()) as int) == added
        }),
    decreases rounds,
{
    let last = (rounds - 1) as nat;
    let before = lookup_entries(traces, lookups, num_challenges, challenges, round, table);
    let shorter = lookup_entries(traces, lookups, num_challenges, challenges, last, table);
    let all = lookup_entries(traces, lookups, num_challenges, challenges, rounds, table);
    let added = round_entries(
        traces,
        lookups[(round / num_challenges) as int],
        challenges[2 * round as int],
        challenges[2 * round as int + 1],
        table,
    );
    if round < last {
        law_entries_in_order(traces, lookups, num_challenges, challenges, round, last, table);
        assert(all.subrange(before.len() as int, (before.len() + added.len()) as int)
            =~= shorter.subrange(before.len() as int, (before.len() + added.len()) as int));
    } else {
        assert(all.subrange(before.len() as int, (before.len() + added.len()) as int) =~= added);
    }
}

/// Two lists of lookups that differ in nothing but their defaults fit the same
/// traces, and give every table the same data: a default has no influence.
pub proof fn law_default_has_no_influence<F: Field>(
    traces: Seq<Seq<Seq<F>>>,
    lookups: Seq<LookupModel<F>>,
    others: Seq<LookupModel<F>>,
    num_challenges: nat,
    challenges: Seq<F>,
    rounds: nat,
    table: int,
)
    requires
        lookups.len() == others.len(),
        rounds <= lookups.len() * num_challenges,
        forall|l: int|
            0 <= l < lookups.len() ==> (LookupModel { default: others[l].default, ..lookups[l] })
                == #[trigger] others[l],
    ensures
        forall|l: int|
            0 <= l < lookups.len() ==> lookup_fits(traces, #[trigger] lookups[l]) == lookup_fits(
                traces,
                others[l],
            ),
        lookup_entries(traces, lookups, num_challenges, challenges, rounds, table)
            == lookup_entries(traces, others, num_challenges, challenges, rounds, table),
    decreases rounds,
{
    assert forall|l: int| 0 <= l < lookups.len() implies lookup_fits(
        traces,
        #[trigger] lookups[l],
    ) == lookup_fits(traces, others[l]) by {
        assert((LookupModel { default: others[l].default, ..lookups[l] }) == others[l]);
    }
    if rounds > 0 {
        let round = (rounds - 1) as nat;
        let n = num_challenges as int;
        law_default_has_no_influence(
            traces,
            lookups,
            others,
            num_challenges,
            challenges,
            round,
            table,
        );
        if n == 0 {
            lemma_mul_basics(lookups.len() as int);
        }
        let l = round as int / n;
        lemma_div_pos_is_pos(round as int, n);
        lemma_div_by_multiple_is_strongly_ordered(
            round as int,
            lookups.len() * n,
            lookups.len() as int,
            n,
        );
        lemma_div_by_multiple(lookups.len() as int, n);
        assert((LookupModel { default: others[l].default, ..lookups[l] }) == others[l]);
    }
}

/// How many sides of the lookups are on `table`.
pub open spec fn mentions<F: Field>(lookups: Seq<LookupModel<F>>, table: int) -> nat
    decreases lookups.len(),
{
    if lookups.len() == 0 {
        0
    } else {
        mentions(lookups.drop_last(), table) + sides(lookups.last(), table)
    }
}

/// How many sides of a lookup are on `table`.
pub open spec fn sides<F: Field>(lookup: LookupModel<F>, table: int) -> nat {
    let looking: nat = if lookup.looking_table.position() == table {
        1
    } else {
        0
    };
    let looked: nat = if lookup.looked_table == table {
        1
    } else {
        0
    };
    looking + looked
}

/// A table has one entry for each challenge pair and each side of a lookup that
/// is on it; so its data is empty exactly if no lookup mentions it, or no
/// challenges are drawn.
pub proof fn law_number_of_entries<F: Field>(
    traces: Seq<Seq<Seq<F>>>,
    lookups: Seq<LookupModel<F>>,
    num_challenges: nat,
    challenges: Seq<F>,
    table: int,
)
    ensures
        ({
            let entries = lookup_entries(
                traces,
                lookups,
                num_challenges,
                challenges,
                lookups.len() * num_challenges,
                table,
            );
            &&& entries.len() == num_challenges * mentions(lookups, table)
            &&& entries.len() == 0 <==> num_challenges == 0 || mentions(lookups, table) == 0
        }),
{
    lemma_entries_of_lookups(traces, lookups, num_challenges, challenges, lookups.len(), table);
    assert(lookups.take(lookups.len() as int) == lookups);
    let n = num_challenges as int;
    let m = mentions(lookups, table) as int;
    if n != 0 && m != 0 {
        lemma_mul_strictly_positive(n, m);
    } else {
        lemma_mul_basics(n);
        lemma_mul_basics(m);
    }
}

/// How many entries the first lookups give.
proof fn lemma_entries_of_lookups<F: Field>(
    traces: Seq<Seq<Seq<F>>>,
    lookups: Seq<LookupModel<F>>,
    num_challenges: nat,
    challenges: Seq<F>,
    n: nat,
    table: int,
)
    requires
        n <= lookups.len(),
    ensures
        lookup_entries(
            traces,
            lookups,
            num_challenges,
            challenges,
            n * num_challenges,
            table,
        ).len() == num_challenges * mentions(lookups.take(n as int), table),
    decreases n,
{
    if n == 0 {
        lemma_mul_basics(num_challenges as int);
    } else {
        let m = (n - 1) as nat;
        lemma_entries_of_lookups(traces, lookups, num_challenges, challenges, m, table);
        lemma_entries_of_rounds(
            traces,
            lookups,
            num_challenges,
            challenges,
            m,
            num_challenges,
            table,
        );
        assert(lookups.take(n as int).drop_last() == lookups.take(m as int));
        lemma_mul_is_distributive_add_other_way(num_challenges as int, m as int, 1);
        lemma_mul_is_distributive_add(
            num_challenges as int,
            mentions(lookups.take(m as int), table) as int,
            sides(lookups[m as int], table) as int,
        );
        lemma_mul_is_commutative(num_challenges as int, sides(lookups[m as int], table) as int);
    }
}

/// How many entries the first rounds of one lookup add.
proof fn lemma_entries_of_rounds<F: Field>(
    traces: Seq<Seq<Seq<F>>>,
    lookups: Seq<LookupModel<F>>,
    num_challenges: nat,
    challenges: Seq<F>,
    l: nat,
    c: nat,
    table: int,
)
    requires
        l < lookups.len(),
        c <= num_challenges,
    ensures
        lookup_entries(
            traces,
            lookups,
            num_challenges,
            challenges,
            l * num_challenges + c,
            table,
        ).len() == lookup_entries(
            traces,
            lookups,
            num_challenges,
            challenges,
            l * num_challenges,
            table,
        ).len() + c * sides(lookups[l as int], table),
    decreases c,
{
    let k = sides(lookups[l as int], table) as int;
    if c == 0 {
        lemma_mul_basics(k);
    } else {
        let d = (c - 1) as nat;
        lemma_entries_of_rounds(traces, lookups, num_challenges, challenges, l, d, table);
        lemma_mul_is_distributive_add_other_way(k, d as int, 1);
        lemma_mul_nonnegative(l as int, num_challenges as int);
        let round = l * num_challenges + d;
        lemma_fundamental_div_mod_converse(round as int, num_challenges as int, l as int, d as int);
    }
}

/// The factor that a row adds to a running product is `gamma` plus the sum over all
/// listed columns: the entry of the `k`-th one times `beta^k`. The first value is
/// the first factor, and each further value has one factor more.
pub proof fn law_partial_products<F: Field>(
    trace: Seq<Seq<F>>,
    columns: Seq<usize>,
    beta: F,
    gamma: F,
    i: int,
)
    requires
        0 <= i < trace[0].len(),
    ensures
        ({
            let z = running_products(row_factors(trace, columns, beta, gamma));
            let row = Seq::new(columns.len(), |k: int| trace[i][columns[k] as int]);
            let factor = gamma.plus_spec(algebra::power_sum(row, beta));
            &&& z.len() == trace[0].len()
            &&& i == 0 ==> z[i] == factor
            &&& i > 0 ==> z[i] == z[i - 1].times_spec(factor)
        }),
{
    let factors = row_factors(trace, columns, beta, gamma);
    let row = Seq::new(columns.len(), |k: int| trace[i][columns[k] as int]);
    assert(selected(trace[i], columns) =~= row);
    algebra::lemma_horner(row, beta);
    algebra::lemma_horner(selected(trace[0], columns), beta);
    F::lemma_results_canonical(gamma, algebra::power_sum(selected(trace[0], columns), beta));
    law_running_products(factors, i);
}

/// A column that holds the only entry of a row other than zero gives the factor
/// `gamma` plus that entry times the power of `beta` for the place of the column.
pub proof fn law_weight_of_a_column<F: Field>(row: Seq<F>, beta: F, gamma: F, k: int)
    requires
        0 <= k < row.len(),
        forall|i: int| 0 <= i < row.len() && i != k ==> #[trigger] row[i] == F::zero_spec(),
    ensures
        row_factor(row, beta, gamma) == gamma.plus_spec(
            row[k].times_spec(algebra::power(beta, k as nat)),
        ),
{
    algebra::law_weight_of_a_term(row, beta, k);
}

/// Where a running product can be computed, there is a first polynomial, and for
/// each of its places there is a polynomial that has all listed places.
pub proof fn law_entries_read_are_there<F>(
    trace: Seq<Seq<F>>,
    columns: Seq<usize>,
    i: int,
    k: int,
)
    requires
        has_rows(trace, columns),
    ensures
        trace.len() > 0,
        0 <= i < trace[0].len() && 0 <= k < columns.len() ==> i < trace.len() && columns[k]
            < trace[i].len(),
{
}

/// A running product can be computed wherever there is a first polynomial, and for
/// each of its places there is a polynomial that has all listed places.
pub proof fn law_entries_there_suffice<F>(trace: Seq<Seq<F>>, columns: Seq<usize>)
    requires
        trace.len() > 0,
        forall|i: int, k: int|
            0 <= i < trace[0].len() && 0 <= k < columns.len() ==> i < trace.len()
                && #[trigger] columns[k] < (#[trigger] trace[i]).len(),
    ensures
        has_rows(trace, columns),
{
    if columns.len() > 0 && trace.len() < trace[0].len() {
        // The place behind the last polynomial would be read as well.
        let i = trace.len() as int;
        assert(columns[0] < trace[i].len());
    }
}

/// A lookup fits exactly if both its tables are there, with a running product over
/// each.
pub proof fn law_lookups_that_fit<F: Field>(traces: Seq<Seq<Seq<F>>>, lookup: LookupModel<F>)
    ensures
        lookup_fits(traces, lookup) <==> {
            let looking: int = if lookup.looking_table is Cpu {
                0
            } else {
                1
            };
            &&& looking < traces.len()
            &&& lookup.looked_table < traces.len()
            &&& has_rows(traces[looking], lookup.looking_columns)
            &&& has_rows(traces[lookup.looked_table as int], lookup.looked_columns)
        },
{
}

/// The lists that stand for traces, lookups and lookup data hold what these hold,
/// in the same order.
pub proof fn law_lists_hold_the_tables<F: Field>(
    traces: Seq<Vec<PolynomialValues<F>>>,
    lookups: Seq<CrossTableLookup<F>>,
    data: LookupData<F>,
    t: int,
    i: int,
)
    ensures
        tables_of(traces).len() == traces.len(),
        lookups_of(lookups).len() == lookups.len(),
        data@.len() == data.zs_beta_gammas.len(),
        0 <= t < traces.len() ==> tables_of(traces)[t].len() == traces[t].len(),
        0 <= t < traces.len() && 0 <= i < traces[t].len() ==> tables_of(traces)[t][i]
            == traces[t][i].values@,
        0 <= i < lookups.len() ==> lookups_of(lookups)[i] == lookups[i]@,
        0 <= i < data.zs_beta_gammas.len() ==> {
            &&& data@[i].0 == data.zs_beta_gammas[i].0.values@
            &&& data@[i].1 == data.zs_beta_gammas[i].1
            &&& data@[i].2 == data.zs_beta_gammas[i].2
        },
{
}

/// Where the entries of the `c`-th round of the `l`-th lookup stand, and what they
/// are: both tables get the two challenges that were drawn for this round, and a
/// running product over their own columns. On a table, an entry stands behind those
/// of all lookups and rounds before; where both sides are on one table, the looking
/// side comes first.
pub proof fn law_entries_of_a_round<F: Field>(
    traces: Seq<Seq<Seq<F>>>,
    lookups: Seq<LookupModel<F>>,
    num_challenges: nat,
    challenges: Seq<F>,
    l: nat,
    c: nat,
    i: int,
)
    requires
        l < lookups.len(),
        c < num_challenges,
    ensures
        ({
            let round = (l * num_challenges + c) as int;
            let beta = challenges[2 * round];
            let gamma = challenges[2 * round + 1];
            let lookup = lookups[l as int];
            let looking: int = if lookup.looking_table is Cpu {
                0
            } else {
                1
            };
            let looked = lookup.looked_table as int;
            let rounds = lookups.len() * num_challenges;
            let all = |t: int|
                lookup_entries(traces, lookups, num_challenges, challenges, rounds, t);
            let place = |t: int|
                (num_challenges * mentions(lookups.take(l as int), t) + c * sides(lookup, t)) as int;
            let p = place(looking);
            let q = if looking == looked {
                place(looked) + 1
            } else {
                place(looked)
            };
            &&& p < all(looking).len()
            &&& q < all(looked).len()
            &&& all(looking)[p].1 == beta && all(looking)[p].2 == gamma
            &&& all(looked)[q].1 == beta && all(looked)[q].2 == gamma
            &&& all(looking)[p].0.len() == traces[looking][0].len()
            &&& all(looked)[q].0.len() == traces[looked][0].len()
            &&& 0 <= i < traces[looking][0].len() ==> {
                let z = all(looking)[p].0;
                let row = Seq::new(
                    lookup.looking_columns.len(),
                    |k: int| traces[looking][i][lookup.looking_columns[k] as int],
                );
                let factor = gamma.plus_spec(algebra::power_sum(row, beta));
                &&& i == 0 ==> z[i] == factor
                &&& i > 0 ==> z[i] == z[i - 1].times_spec(factor)
            }
            &&& 0 <= i < traces[looked][0].len() ==> {
                let z = all(looked)[q].0;
                let row = Seq::new(
                    lookup.looked_columns.len(),
                    |k: int| traces[looked][i][lookup.looked_columns[k] as int],
                );
                let factor = gamma.plus_spec(algebra::power_sum(row, beta));
                &&& i == 0 ==> z[i] == factor
                &&& i > 0 ==> z[i] == z[i - 1].times_spec(factor)
            }
        }),
{
    let n = num_challenges as int;
    let lookup = lookups[l as int];
    let looking = lookup.looking_table.position() as int;
    let looked = lookup.looked_table as int;
    let round = l * num_challenges + c;
    let rounds = lookups.len() * num_challenges;
    lemma_mul_nonnegative(l as int, n);
    lemma_mul_is_distributive_add_other_way(n, l as int, 1);
    lemma_mul_inequality((l + 1) as int, lookups.len() as int, n);
    lemma_fundamental_div_mod_converse(round as int, n, l as int, c as int);
    let beta = challenges[2 * round as int];
    let gamma = challenges[2 * round as int + 1];
    lemma_place_of_a_round(traces, lookups, num_challenges, challenges, l, c, looking);
    lemma_place_of_a_round(traces, lookups, num_challenges, challenges, l, c, looked);
    let z_looking = running_products(
        row_factors(traces[looking], lookup.looking_columns, beta, gamma),
    );
    let z_looked = running_products(
        row_factors(traces[looked], lookup.looked_columns, beta, gamma),
    );
    let on_looking = round_entries(traces, lookup, beta, gamma, looking);
    let on_looked = round_entries(traces, lookup, beta, gamma, looked);
    assert(on_looking[0] == (z_looking, beta, gamma));
    if looking == looked {
        assert(on_looked[1] == (z_looked, beta, gamma));
    } else {
        assert(on_looked[0] == (z_looked, beta, gamma));
    }
    assert(z_looking.len() == traces[looking][0].len());
    assert(z_looked.len() == traces[looked][0].len());
    if 0 <= i < traces[looking][0].len() {
        law_partial_products(traces[looking], lookup.looking_columns, beta, gamma, i);
    }
    if 0 <= i < traces[looked][0].len() {
        law_partial_products(traces[looked], lookup.looked_columns, beta, gamma, i);
    }
}

/// Where the entries of one round stand on a table.
proof fn lemma_place_of_a_round<F: Field>(
    traces: Seq<Seq<Seq<F>>>,
    lookups: Seq<LookupModel<F>>,
    num_challenges: nat,
    challenges: Seq<F>,
    l: nat,
    c: nat,
    table: int,
)
    requires
        l < lookups.len(),
        c < num_challenges,
    ensures
        ({
            let round = (l * num_challenges + c) as int;
            let all = lookup_entries(
                traces,
                lookups,
                num_challenges,
                challenges,
                lookups.len() * num_challenges,
                table,
            );
            let added = round_entries(
                traces,
                lookups[l as int],
                challenges[2 * round],
                challenges[2 * round + 1],
                table,
            );
            let place = num_challenges * mentions(lookups.take(l as int), table) + c * sides(
                lookups[l as int],
                table,
            );
            &&& place + added.len() <= all.len()
            &&& forall|e: int| 0 <= e < added.len() ==> all[place + e] == #[trigger] added[e]
        }),
{
    let n = num_challenges as int;
    let round = l * num_challenges + c;
    let rounds = lookups.len() * num_challenges;
    lemma_mul_nonnegative(l as int, n);
    lemma_mul_is_distributive_add_other_way(n, l as int, 1);
    lemma_mul_inequality((l + 1) as int, lookups.len() as int, n);
    lemma_fundamental_div_mod_converse(round as int, n, l as int, c as int);
    lemma_entries_of_lookups(traces, lookups, num_challenges, challenges, l, table);
    lemma_entries_of_rounds(traces, lookups, num_challenges, challenges, l, c, table);
    law_entries_in_order(traces, lookups, num_challenges, challenges, round, rounds, table);
    let before = lookup_entries(traces, lookups, num_challenges, challenges, round, table);
    let all = lookup_entries(traces, lookups, num_challenges, challenges, rounds, table);
    let added = round_entries(
        traces,
        lookups[l as int],
        challenges[2 * round as int],
        challenges[2 * round as int + 1],
        table,
    );
    let stretch = all.subrange(before.len() as int, (before.len() + added.len()) as int);
    assert forall|e: int| 0 <= e < added.len() implies all[before.len() + e]
        == #[trigger] added[e] by {
        assert(stretch[e] == all[before.len() + e]);
    }
}

} // verus!
