//! The part of a proof that concerns one table, from its permutation argument
//! to its opening proof.
//!
//! The work on polynomials and on the transcript is done outside. Each method
//! of [`TableProver`] takes what came of one piece of that work and returns the
//! next piece to do.
use crate::algebra;
use crate::bits;
use crate::config::StarkConfig;
use crate::field::Field;
use crate::lookup::LookupData;
use crate::polynomial;
use crate::polynomial::{PolynomialCoeffs, PolynomialValues};
use crate::quotient;
use crate::quotient::{QuotientDomain, QuotientInputs};
use crate::stark;
use crate::stark::{
    PermutationCheckVars, RowSelectors, Stark, StarkEvaluationVars, StarkParams,
};
use vstd::arithmetic::mul::*;
use vstd::arithmetic::power2::*;
use vstd::bits::*;
use vstd::prelude::*;

verus! {

/// A batch of committed polynomials of a table.
#[derive(Clone, Copy, Debug, PartialEq, Eq, Structural)]
pub enum Oracle {
    /// The trace.
    Trace,
    /// The running products.
    Zs,
    /// The pieces of the quotient polynomials.
    Quotient,
}

/// The work to do next for a table.
pub enum TableAction<F, E> {
    /// Draw `num_challenges` sets of `batch_size` permutation challenges from the
    /// transcript and compute the running products of the permutation argument.
    PermutationArgument { num_challenges: usize, batch_size: usize },
    /// Commit to the running products, without blinding, and let the transcript
    /// observe the cap.
    CommitZs { z_polys: Vec<PolynomialValues<F>>, rate_bits: usize, cap_height: usize },
    /// Draw `n` challenges from the transcript.
    DrawAlphas { n: usize },
    /// Compute what the evaluation of the quotient polynomials needs: the two
    /// selectors are extended onto the coset of `domain`, and the committed
    /// polynomials are read at its points.
    PrepareQuotient {
        domain: QuotientDomain,
        first_selector: PolynomialValues<F>,
        last_selector: PolynomialValues<F>,
        with_zs: bool,
    },
    /// Interpolate the quotient polynomials from their values on the coset.
    InterpolateQuotient { values: Vec<PolynomialValues<F>> },
    /// Commit to the pieces of the quotient polynomials, without blinding, and
    /// let the transcript observe the cap.
    CommitQuotient { chunks: Vec<PolynomialCoeffs<F>>, rate_bits: usize, cap_height: usize },
    /// Draw a challenge of the extension field from the transcript.
    DrawZeta,
    /// Open all committed polynomials of the table at `zeta` and at the point one
    /// row further, and let the transcript observe the openings.
    Open { zeta: E, degree_bits: usize },
    /// Prove the openings of the listed batches.
    ProveOpenings { oracles: Vec<Oracle>, zeta: E, degree_bits: usize },
}

/// The work to do next, with lists in place of vectors.
pub enum TableActionModel<F, E> {
    PermutationArgument { num_challenges: usize, batch_size: usize },
    CommitZs { z_polys: Seq<Seq<F>>, rate_bits: usize, cap_height: usize },
    DrawAlphas { n: usize },
    PrepareQuotient {
        domain: QuotientDomain,
        first_selector: Seq<F>,
        last_selector: Seq<F>,
        with_zs: bool,
    },
    InterpolateQuotient { values: Seq<Seq<F>> },
    CommitQuotient { chunks: Seq<Seq<F>>, rate_bits: usize, cap_height: usize },
    DrawZeta,
    Open { zeta: E, degree_bits: usize },
    ProveOpenings { oracles: Seq<Oracle>, zeta: E, degree_bits: usize },
}

impl<F, E> View for TableAction<F, E> {
    type V = TableActionModel<F, E>;

    open spec fn view(&self) -> TableActionModel<F, E> {
        match *self {
            TableAction::PermutationArgument { num_challenges, batch_size } =>
                TableActionModel::PermutationArgument { num_challenges, batch_size },
            TableAction::CommitZs { z_polys, rate_bits, cap_height } =>
                TableActionModel::CommitZs {
                    z_polys: polynomial::values_of(z_polys@),
                    rate_bits,
                    cap_height,
                },
            TableAction::DrawAlphas { n } => TableActionModel::DrawAlphas { n },
            TableAction::PrepareQuotient { domain, first_selector, last_selector, with_zs } =>
                TableActionModel::PrepareQuotient {
                    domain,
                    first_selector: first_selector@,
                    last_selector: last_selector@,
                    with_zs,
                },
            TableAction::InterpolateQuotient { values } =>
                TableActionModel::InterpolateQuotient { values: polynomial::values_of(values@) },
            TableAction::CommitQuotient { chunks, rate_bits, cap_height } =>
                TableActionModel::CommitQuotient {
                    chunks: polynomial::coeffs_of(chunks@),
                    rate_bits,
                    cap_height,
                },
            TableAction::DrawZeta => TableActionModel::DrawZeta,
            TableAction::Open { zeta, degree_bits } => TableActionModel::Open { zeta, degree_bits },
            TableAction::ProveOpenings { oracles, zeta, degree_bits } =>
                TableActionModel::ProveOpenings { oracles: oracles@, zeta, degree_bits },
        }
    }
}

/// What a table prover waits for.
#[derive(Clone, Copy, Debug, PartialEq, Eq, Structural)]
pub enum TableStage {
    Permutation,
    Zs,
    Alphas,
    QuotientInputs,
    QuotientPolys,
    QuotientCap,
    Zeta,
    Openings,
    OpeningProof,
}

/// Why no proof was made.
#[derive(Clone, Copy, Debug, PartialEq, Eq, Structural)]
pub enum ProveError {
    /// The point at which the polynomials were to be opened lies in the trace
    /// domain, so that an opening would give away a row.
    OpeningPointInSubgroup,
}

impl ProveError {
    /// The error in words.
    pub fn message(&self) -> (r: &'static str)
        ensures
            r@ == "Opening point is in the subgroup."@,
    {
        "Opening point is in the subgroup."
    }
}

/// What a table prover knows. `Q` holds permutation challenges, `K` is the cap
/// of a commitment, and `O` holds openings.
pub struct TableModel<F, E, Q, K, O, S> {
    pub stark: S,
    pub params: StarkParams,
    pub config: StarkConfig,
    pub trace: Seq<Seq<F>>,
    pub lookups: Seq<(Seq<F>, F, F)>,
    pub public_inputs: Seq<F>,
    pub degree_bits: usize,
    pub stage: TableStage,
    pub challenge_sets: Option<Q>,
    pub zs_cap: Option<K>,
    pub alphas: Seq<F>,
    pub quotient_cap: Option<K>,
    pub zeta: Option<E>,
    pub openings: Option<O>,
}

/// The running products that are committed to: those of the permutation
/// argument, if there is one. Those of lookups are not among them.
pub open spec fn committed_zs<F>(permutation_zs: Option<Seq<Seq<F>>>) -> Seq<Seq<F>> {
    match permutation_zs {
        Some(zs) => zs,
        None => Seq::empty(),
    }
}

impl<F: Field, E: Field, Q, K, O, S: Stark<F, Q>> TableModel<F, E, Q, K, O, S> {
    /// What each stage needs is there, and the trace has `2^degree_bits` rows.
    pub open spec fn valid(self) -> bool {
        &&& self.trace.len() > 0
        &&& pow2(self.degree_bits as nat) == self.trace[0].len()
        &&& self.degree_bits < usize::BITS
        &&& self.stage is Zeta || self.stage is Openings || self.stage is OpeningProof
            ==> self.quotient_cap is Some
        &&& self.stage is Openings || self.stage is OpeningProof ==> self.zeta is Some
        &&& self.stage is OpeningProof ==> self.openings is Some
        &&& self.stage is QuotientInputs || self.stage is QuotientPolys ==> self.alphas.len()
            == self.config.num_challenges
        &&& self.stage is QuotientInputs || self.stage is QuotientPolys ==> quotient::domain_exists(
            self.degree_bits as int,
            self.config.fri_config.rate_bits as int,
            self.params.quotient_degree_factor,
        )
    }

    /// A prover that has done nothing yet.
    pub open spec fn start(
        stark: S,
        params: StarkParams,
        config: StarkConfig,
        trace: Seq<Seq<F>>,
        lookups: Seq<(Seq<F>, F, F)>,
        public_inputs: Seq<F>,
        degree_bits: usize,
    ) -> TableModel<F, E, Q, K, O, S> {
        TableModel {
            stark,
            params,
            config,
            trace,
            lookups,
            public_inputs,
            degree_bits,
            stage: TableStage::Permutation,
            challenge_sets: None,
            zs_cap: None,
            alphas: Seq::empty(),
            quotient_cap: None,
            zeta: None,
            openings: None,
        }
    }

    /// The first piece of work: the permutation argument if the table makes one.
    pub open spec fn begin(self) -> (TableModel<F, E, Q, K, O, S>, TableActionModel<F, E>) {
        match self.params.permutation_batch_size {
            Some(batch_size) => (
                self,
                TableActionModel::PermutationArgument {
                    num_challenges: self.config.num_challenges,
                    batch_size,
                },
            ),
            None => self.after_permutation(None, None),
        }
    }

    /// The domain on which the quotient polynomials are evaluated.
    pub open spec fn domain(self) -> QuotientDomain {
        QuotientDomain::of(
            self.degree_bits,
            self.config.fri_config.rate_bits,
            self.params.quotient_degree_factor,
        )
    }

    /// Whether the permutation argument is part of the constraints: its challenges
    /// were drawn and its running products committed to.
    pub open spec fn with_zs(self) -> bool {
        self.zs_cap is Some && self.challenge_sets is Some
    }

    /// Goes on once the running products of the permutation argument, if there
    /// is one, are known: they are committed to unless there are none.
    pub open spec fn after_permutation(
        self,
        challenge_sets: Option<Q>,
        permutation_zs: Option<Seq<Seq<F>>>,
    ) -> (TableModel<F, E, Q, K, O, S>, TableActionModel<F, E>) {
        let z_polys = committed_zs(permutation_zs);
        if z_polys.len() > 0 {
            (
                TableModel { stage: TableStage::Zs, challenge_sets, ..self },
                TableActionModel::CommitZs {
                    z_polys,
                    rate_bits: self.config.fri_config.rate_bits,
                    cap_height: self.config.fri_config.cap_height,
                },
            )
        } else {
            (
                TableModel { stage: TableStage::Alphas, challenge_sets, ..self },
                TableActionModel::DrawAlphas { n: self.config.num_challenges },
            )
        }
    }

    /// Goes on once the running products are committed to.
    pub open spec fn after_zs(self, cap: K) -> (
        TableModel<F, E, Q, K, O, S>,
        TableActionModel<F, E>,
    ) {
        (
            TableModel { stage: TableStage::Alphas, zs_cap: Some(cap), ..self },
            TableActionModel::DrawAlphas { n: self.config.num_challenges },
        )
    }

    /// Goes on once the challenges that combine the constraints are drawn.
    pub open spec fn after_alphas(self, alphas: Seq<F>) -> (
        TableModel<F, E, Q, K, O, S>,
        TableActionModel<F, E>,
    ) {
        let domain = self.domain();
        (
            TableModel { stage: TableStage::QuotientInputs, alphas, ..self },
            TableActionModel::PrepareQuotient {
                domain,
                first_selector: polynomial::selecting(domain.degree as nat, 0),
                last_selector: polynomial::selecting(domain.degree as nat, domain.degree - 1),
                with_zs: self.with_zs(),
            },
        )
    }

    /// Whether the constraints may have the values `rows[i]` at the `i`-th point of
    /// the domain.
    pub open spec fn may_yield(self, inputs: QuotientInputs<F>, rows: Seq<Seq<F>>) -> bool {
        quotient::may_yield_on(
            self.stark,
            self.config,
            self.domain(),
            inputs,
            self.public_inputs,
            if self.with_zs() {
                self.challenge_sets
            } else {
                None
            },
            rows,
        )
    }

    /// Goes on once all constraints are evaluated.
    pub open spec fn after_constraints(self, rows: Seq<Seq<F>>, z_h_inverses: Seq<F>) -> (
        TableModel<F, E, Q, K, O, S>,
        TableActionModel<F, E>,
    ) {
        (
            TableModel { stage: TableStage::QuotientPolys, ..self },
            TableActionModel::InterpolateQuotient {
                values: quotient::quotient_values(rows, z_h_inverses, self.alphas),
            },
        )
    }

    /// Goes on once the quotient polynomials are interpolated.
    pub open spec fn after_quotient_polys(self, polys: Seq<Seq<F>>) -> (
        TableModel<F, E, Q, K, O, S>,
        TableActionModel<F, E>,
    ) {
        (
            TableModel { stage: TableStage::QuotientCap, ..self },
            TableActionModel::CommitQuotient {
                chunks: quotient::quotient_pieces(
                    polys,
                    self.trace[0].len() as int,
                    self.params.quotient_degree_factor as int,
                ),
                rate_bits: self.config.fri_config.rate_bits,
                cap_height: self.config.fri_config.cap_height,
            },
        )
    }

    /// Goes on once the pieces of the quotient polynomials are committed to.
    pub open spec fn after_quotient_cap(self, cap: K) -> (
        TableModel<F, E, Q, K, O, S>,
        TableActionModel<F, E>,
    ) {
        (
            TableModel { stage: TableStage::Zeta, quotient_cap: Some(cap), ..self },
            TableActionModel::DrawZeta,
        )
    }

    /// Whether an opening point lies in the trace domain.
    pub open spec fn in_subgroup(self, zeta: E) -> bool {
        algebra::power(zeta, pow2(self.degree_bits as nat)) == E::one_spec()
    }

    /// Goes on once an opening point outside the trace domain is drawn.
    pub open spec fn after_zeta(self, zeta: E) -> (
        TableModel<F, E, Q, K, O, S>,
        TableActionModel<F, E>,
    ) {
        (
            TableModel { stage: TableStage::Openings, zeta: Some(zeta), ..self },
            TableActionModel::Open { zeta, degree_bits: self.degree_bits },
        )
    }

    /// The committed batches, in the order in which they were made.
    pub open spec fn oracles(self) -> Seq<Oracle> {
        if self.zs_cap is Some {
            seq![Oracle::Trace, Oracle::Zs, Oracle::Quotient]
        } else {
            seq![Oracle::Trace, Oracle::Quotient]
        }
    }

    /// Goes on once all batches are opened.
    pub open spec fn after_openings(self, openings: O) -> (
        TableModel<F, E, Q, K, O, S>,
        TableActionModel<F, E>,
    ) {
        (
            TableModel { stage: TableStage::OpeningProof, openings: Some(openings), ..self },
            TableActionModel::ProveOpenings {
                oracles: self.oracles(),
                zeta: self.zeta->Some_0,
                degree_bits: self.degree_bits,
            },
        )
    }
}

/// What a table prover hands over: the commitments made after the trace, the
/// openings, and their proof.
pub struct TableProof<K, O, P> {
    pub permutation_zs_cap: Option<K>,
    pub quotient_polys_cap: K,
    pub openings: O,
    pub opening_proof: P,
}

/// The prover of one table.
pub struct TableProver<'a, F: Field, E: Field, Q, K, O, S> {
    stark: &'a S,
    params: StarkParams,
    config: StarkConfig,
    trace_poly_values: &'a [PolynomialValues<F>],
    lookup_data: &'a LookupData<F>,
    public_inputs: &'a [F],
    degree_bits: usize,
    stage: TableStage,
    challenge_sets: Option<Q>,
    zs_cap: Option<K>,
    alphas: Vec<F>,
    quotient_cap: Option<K>,
    zeta: Option<E>,
    openings: Option<O>,
}

impl<'a, F: Field, E: Field, Q, K, O, S> View for TableProver<'a, F, E, Q, K, O, S> {
    type V = TableModel<F, E, Q, K, O, S>;

    closed spec fn view(&self) -> TableModel<F, E, Q, K, O, S> {
        TableModel {
            stark: *self.stark,
            params: self.params,
            config: self.config,
            trace: polynomial::values_of(self.trace_poly_values@),
            lookups: self.lookup_data@,
            public_inputs: self.public_inputs@,
            degree_bits: self.degree_bits,
            stage: self.stage,
            challenge_sets: self.challenge_sets,
            zs_cap: self.zs_cap,
            alphas: self.alphas@,
            quotient_cap: self.quotient_cap,
            zeta: self.zeta,
            openings: self.openings,
        }
    }
}

/// Which of the running products are committed to.
fn select_z_polys<F: Field>(
    permutation_zs: Option<Vec<PolynomialValues<F>>>,
    lookup_data: &LookupData<F>,
) -> (r: Vec<PolynomialValues<F>>)
    ensures
        polynomial::values_of(r@) == committed_zs(
            match permutation_zs {
                Some(zs) => Some(polynomial::values_of(zs@)),
                None => None,
            },
        ),
{
    match (permutation_zs, lookup_data.is_empty()) {
        (None, true) => {
            let r = lookup_data.z_polys();
            assert(polynomial::values_of(r@) =~= Seq::<Seq<F>>::empty());
            r
        },
        (None, false) => {
            let r: Vec<PolynomialValues<F>> = Vec::new();
            assert(polynomial::values_of(r@) =~= Seq::<Seq<F>>::empty());
            r
        },
        (Some(zs), true) => {
            let mut all = zs;
            let mut lookup_zs = lookup_data.z_polys();
            assert(polynomial::values_of(lookup_zs@).len() == 0);
            assert(lookup_zs@.len() == 0);
            all.append(&mut lookup_zs);
            assert(all@ =~= zs@);
            all
        },
        (Some(zs), false) => zs,
    }
}

/// Starts the part of a proof that concerns one table.
pub fn do_rest<'a, F: Field, E: Field, Q, K, O, S: Stark<F, Q>>(
    stark: &'a S,
    config: &StarkConfig,
    trace_poly_values: &'a [PolynomialValues<F>],
    lookup_data: &'a LookupData<F>,
    public_inputs: &'a [F],
) -> (r: (TableProver<'a, F, E, Q, K, O, S>, TableAction<F, E>))
    requires
        trace_poly_values.len() > 0,
        is_pow2(trace_poly_values[0]@.len() as int),
    ensures
        r.0@.valid(),
        stark::may_have::<F, Q, S>(*stark, r.0@.params),
        (r.0@, r.1@) == TableModel::<F, E, Q, K, O, S>::start(
            *stark,
            r.0@.params,
            *config,
            polynomial::values_of(trace_poly_values@),
            lookup_data@,
            public_inputs@,
            r.0@.degree_bits,
        ).begin(),
        pow2(r.0@.degree_bits as nat) == trace_poly_values[0].values.len(),
{
    let degree = trace_poly_values[0].len();
    let degree_bits = bits::log2_strict(degree);
    let params = stark::params_of::<F, Q, S>(stark);
    let mut prover: TableProver<'a, F, E, Q, K, O, S> = TableProver {
        stark,
        params,
        config: *config,
        trace_poly_values,
        lookup_data,
        public_inputs,
        degree_bits,
        stage: TableStage::Permutation,
        challenge_sets: None,
        zs_cap: None,
        alphas: Vec::new(),
        quotient_cap: None,
        zeta: None,
        openings: None,
    };
    assert(prover@ == TableModel::<F, E, Q, K, O, S>::start(
        *stark,
        params,
        *config,
        polynomial::values_of(trace_poly_values@),
        lookup_data@,
        public_inputs@,
        degree_bits,
    ));
    let action = match params.permutation_batch_size {
        Some(batch_size) => TableAction::PermutationArgument {
            num_challenges: config.num_challenges,
            batch_size,
        },
        None => prover.choose_zs(None, None),
    };
    (prover, action)
}

impl<'a, F: Field, E: Field, Q, K, O, S: Stark<F, Q>> TableProver<'a, F, E, Q, K, O, S> {
    /// What the constraint system answered when it was asked for its parameters.
    pub fn params(&self) -> (r: StarkParams)
        ensures
            r == self@.params,
    {
        self.params
    }

    /// Decides which running products are committed to.
    fn choose_zs(
        &mut self,
        challenge_sets: Option<Q>,
        permutation_zs: Option<Vec<PolynomialValues<F>>>,
    ) -> (r: TableAction<F, E>)
        requires
            old(self)@.valid(),
            old(self)@.stage is Permutation,
        ensures
            final(self)@.valid(),
            (final(self)@, r@) == old(self)@.after_permutation(
                challenge_sets,
                match permutation_zs {
                    Some(zs) => Some(polynomial::values_of(zs@)),
                    None => None,
                },
            ),
    {
        let z_polys = select_z_polys(permutation_zs, self.lookup_data);
        assert(polynomial::values_of(z_polys@).len() == z_polys@.len());
        self.challenge_sets = challenge_sets;
        if z_polys.len() > 0 {
            self.stage = TableStage::Zs;
            TableAction::CommitZs {
                z_polys,
                rate_bits: self.config.fri_config.rate_bits,
                cap_height: self.config.fri_config.cap_height,
            }
        } else {
            self.stage = TableStage::Alphas;
            TableAction::DrawAlphas { n: self.config.num_challenges }
        }
    }

    /// Takes the challenges and the running products of the permutation argument.
    pub fn permutation_argument(
        &mut self,
        challenge_sets: Q,
        permutation_zs: Vec<PolynomialValues<F>>,
    ) -> (r: TableAction<F, E>)
        requires
            old(self)@.valid(),
            old(self)@.stage is Permutation,
        ensures
            final(self)@.valid(),
            (final(self)@, r@) == old(self)@.after_permutation(
                Some(challenge_sets),
                Some(polynomial::values_of(permutation_zs@)),
            ),
    {
        self.choose_zs(Some(challenge_sets), Some(permutation_zs))
    }

    /// Takes the cap of the committed running products.
    pub fn zs_committed(&mut self, cap: K) -> (r: TableAction<F, E>)
        requires
            old(self)@.valid(),
            old(self)@.stage is Zs,
        ensures
            final(self)@.valid(),
            (final(self)@, r@) == old(self)@.after_zs(cap),
    {
        self.zs_cap = Some(cap);
        self.stage = TableStage::Alphas;
        TableAction::DrawAlphas { n: self.config.num_challenges }
    }

    /// Takes the challenges that combine the constraints.
    pub fn alphas_drawn(&mut self, alphas: Vec<F>) -> (r: TableAction<F, E>)
        requires
            old(self)@.valid(),
            old(self)@.stage is Alphas,
            alphas.len() == old(self)@.config.num_challenges,
            quotient::domain_exists(
                old(self)@.degree_bits as int,
                old(self)@.config.fri_config.rate_bits as int,
                old(self)@.params.quotient_degree_factor,
            ),
        ensures
            final(self)@.valid(),
            (final(self)@, r@) == old(self)@.after_alphas(alphas@),
            r is PrepareQuotient,
            r->first_selector.values.len() == old(self)@.trace[0].len(),
            r->last_selector.values.len() == old(self)@.trace[0].len(),
            forall|row: int|
                0 <= row < old(self)@.trace[0].len() ==> #[trigger] r->first_selector.values[row]
                    == if row == 0 {
                    F::one_spec()
                } else {
                    F::zero_spec()
                },
            forall|row: int|
                0 <= row < old(self)@.trace[0].len() ==> #[trigger] r->last_selector.values[row]
                    == if row == old(self)@.trace[0].len() - 1 {
                    F::one_spec()
                } else {
                    F::zero_spec()
                },
            r->domain.size * r->domain.step == pow2(
                (old(self)@.degree_bits + old(self)@.config.fri_config.rate_bits) as nat,
            ),
            r->domain.degree * r->domain.next_step == r->domain.size,
    {
        let domain = QuotientDomain::new(
            self.degree_bits,
            self.config.fri_config.rate_bits,
            self.params.quotient_degree_factor,
        );
        proof {
            lemma_pow2_pos(self.degree_bits as nat);
        }
        let first_selector = PolynomialValues::selector(domain.degree, 0);
        let last_selector = PolynomialValues::selector(domain.degree, domain.degree - 1);
        self.alphas = alphas;
        self.stage = TableStage::QuotientInputs;
        let with_zs = self.zs_cap.is_some() && self.challenge_sets.is_some();
        TableAction::PrepareQuotient { domain, first_selector, last_selector, with_zs }
    }

    /// Takes what the evaluation of the quotient polynomials needs, and evaluates
    /// them.
    pub fn quotient_prepared(&mut self, inputs: QuotientInputs<F>) -> (r: TableAction<F, E>)
        requires
            old(self)@.valid(),
            old(self)@.stage is QuotientInputs,
            inputs.cover(old(self)@.domain().size as int, old(self)@.with_zs()),
        ensures
            final(self)@.valid(),
            exists|rows: Seq<Seq<F>>|
                {
                    &&& #[trigger] old(self)@.may_yield(inputs, rows)
                    &&& (final(self)@, r@) == old(self)@.after_constraints(
                        rows,
                        inputs.z_h_inverses@,
                    )
                },
    {
        let quotient_degree_factor = self.params.quotient_degree_factor;
        let rate_bits = self.config.fri_config.rate_bits;
        let domain = QuotientDomain::new(self.degree_bits, rate_bits, quotient_degree_factor);
        proof {
            QuotientDomain::lemma_of(self.degree_bits, rate_bits, quotient_degree_factor);
        }
        let challenge_sets = match (&self.zs_cap, &self.challenge_sets) {
            (Some(_), Some(sets)) => Some(sets),
            _ => None,
        };
        let values = quotient::compute_quotient_values(
            self.stark,
            &self.config,
            &domain,
            &inputs,
            self.public_inputs,
            challenge_sets,
            self.alphas.as_slice(),
        );
        self.stage = TableStage::QuotientPolys;
        proof {
            let sets = if old(self)@.with_zs() {
                old(self)@.challenge_sets
            } else {
                None
            };
            let rows = choose|rows: Seq<Seq<F>>|
                {
                    &&& #[trigger] quotient::may_yield_on(
                        *self.stark,
                        self.config,
                        domain,
                        inputs,
                        self.public_inputs@,
                        sets,
                        rows,
                    )
                    &&& polynomial::values_of(values@) == quotient::quotient_values(
                        rows,
                        inputs.z_h_inverses@,
                        self.alphas@,
                    )
                };
            assert(old(self)@.may_yield(inputs, rows));
        }
        TableAction::InterpolateQuotient { values }
    }

    /// Takes the quotient polynomials, one for each challenge, and splits them into
    /// pieces.
    pub fn quotient_interpolated(&mut self, quotient_polys: Vec<PolynomialCoeffs<F>>) -> (r:
        TableAction<F, E>)
        requires
            old(self)@.valid(),
            old(self)@.stage is QuotientPolys,
            quotient_polys.len() == old(self)@.alphas.len(),
            forall|k: int|
                0 <= k < quotient_polys.len() ==> polynomial::fits_len(
                    (#[trigger] quotient_polys[k])@,
                    old(self)@.trace[0].len() * old(self)@.params.quotient_degree_factor,
                ),
        ensures
            final(self)@.valid(),
            (final(self)@, r@) == old(self)@.after_quotient_polys(
                polynomial::coeffs_of(quotient_polys@),
            ),
            r@->chunks.len() == old(self)@.config.num_challenges
                * old(self)@.params.quotient_degree_factor,
    {
        let quotient_degree_factor = self.params.quotient_degree_factor;
        let degree = self.trace_poly_values[0].len();
        proof {
            QuotientDomain::lemma_of(
                self.degree_bits,
                self.config.fri_config.rate_bits,
                quotient_degree_factor,
            );
            lemma_pow2_pos(self.degree_bits as nat);
        }
        proof {
            let polys = polynomial::coeffs_of(quotient_polys@);
            assert forall|k: int| 0 <= k < polys.len() implies (#[trigger] polys[k]).len() >= degree
                * quotient_degree_factor by {
                assert(polys[k] == quotient_polys[k]@);
            }
            quotient::lemma_pieces_len(polys, degree as int, quotient_degree_factor as int);
        }
        let chunks = quotient::quotient_chunks(quotient_polys, degree, quotient_degree_factor);
        self.stage = TableStage::QuotientCap;
        TableAction::CommitQuotient {
            chunks,
            rate_bits: self.config.fri_config.rate_bits,
            cap_height: self.config.fri_config.cap_height,
        }
    }

    /// Takes the cap of the committed pieces of the quotient polynomials.
    pub fn quotient_committed(&mut self, cap: K) -> (r: TableAction<F, E>)
        requires
            old(self)@.valid(),
            old(self)@.stage is QuotientCap,
        ensures
            final(self)@.valid(),
            (final(self)@, r@) == old(self)@.after_quotient_cap(cap),
    {
        self.quotient_cap = Some(cap);
        self.stage = TableStage::Zeta;
        TableAction::DrawZeta
    }

    /// Takes the point at which all polynomials are opened. To avoid leaking
    /// witness data, neither it nor the point one row further may lie in the trace
    /// domain; it suffices to test the first.
    pub fn zeta_drawn(&mut self, zeta: E) -> (r: Result<TableAction<F, E>, ProveError>)
        requires
            old(self)@.valid(),
            old(self)@.stage is Zeta,
        ensures
            final(self)@.valid(),
            old(self)@.in_subgroup(zeta) ==> {
                &&& r == Err::<TableAction<F, E>, ProveError>(ProveError::OpeningPointInSubgroup)
                &&& final(self)@ == old(self)@
            },
            !old(self)@.in_subgroup(zeta) ==> {
                &&& r is Ok
                &&& (final(self)@, r->Ok_0@) == old(self)@.after_zeta(zeta)
            },
            r is Err <==> algebra::power(zeta, old(self)@.trace[0].len()) == E::one_spec(),
    {
        if algebra::exp_power_of_2(zeta, self.degree_bits).equals(E::one()) {
            return Err(ProveError::OpeningPointInSubgroup);
        }
        self.zeta = Some(zeta);
        self.stage = TableStage::Openings;
        Ok(TableAction::Open { zeta, degree_bits: self.degree_bits })
    }

    /// Takes the openings of all committed polynomials.
    pub fn opened(&mut self, openings: O) -> (r: TableAction<F, E>)
        requires
            old(self)@.valid(),
            old(self)@.stage is Openings,
        ensures
            final(self)@.valid(),
            (final(self)@, r@) == old(self)@.after_openings(openings),
    {
        let mut oracles: Vec<Oracle> = Vec::new();
        oracles.push(Oracle::Trace);
        if self.zs_cap.is_some() {
            oracles.push(Oracle::Zs);
        }
        oracles.push(Oracle::Quotient);
        assert(oracles@ =~= self@.oracles());
        let zeta = self.zeta.unwrap();
        self.openings = Some(openings);
        self.stage = TableStage::OpeningProof;
        TableAction::ProveOpenings { oracles, zeta, degree_bits: self.degree_bits }
    }

    /// Takes the proof of the openings, and hands over the proof of the table.
    pub fn openings_proved<P>(self, opening_proof: P) -> (r: TableProof<K, O, P>)
        requires
            self@.valid(),
            self@.stage is OpeningProof,
        ensures
            r.permutation_zs_cap == self@.zs_cap,
            Some(r.quotient_polys_cap) == self@.quotient_cap,
            Some(r.openings) == self@.openings,
            r.opening_proof == opening_proof,
    {
        TableProof {
            permutation_zs_cap: self.zs_cap,
            quotient_polys_cap: self.quotient_cap.unwrap(),
            openings: self.openings.unwrap(),
            opening_proof,
        }
    }
}

/// The point one row after an opening point lies in the trace domain exactly if
/// the opening point does: both have the same power, as the generator of the
/// domain has as many powers as the domain has elements.
pub proof fn law_next_opening_point<F: Field, E: Field, Q, K, O, S: Stark<F, Q>>(
    table: TableModel<F, E, Q, K, O, S>,
    generator: E,
    zeta: E,
)
    requires
        zeta.canonical(),
        algebra::power(generator, pow2(table.degree_bits as nat)) == E::one_spec(),
    ensures
        algebra::power(generator.times_spec(zeta), pow2(table.degree_bits as nat))
            == algebra::power(zeta, pow2(table.degree_bits as nat)),
        table.in_subgroup(generator.times_spec(zeta)) <==> table.in_subgroup(zeta),
{
    let n = pow2(table.degree_bits as nat);
    algebra::lemma_power_of_product(generator, zeta, n);
    algebra::lemma_power_canonical(zeta, n);
    E::lemma_times_commutes(E::one_spec(), algebra::power(zeta, n));
    E::lemma_times_one(algebra::power(zeta, n));
}

/// A run of a table prover asks for its pieces of work in one order: first, if the
/// table makes one, for the permutation argument; the running products are
/// committed to if there are any, before the challenges that combine the
/// constraints are drawn; the quotient is committed to before the opening point is
/// drawn; all commitments are opened. Whatever came of each piece, the prover then
/// holds just that.
pub proof fn law_table_run<F: Field, E: Field, Q, K, O, S: Stark<F, Q>>(
    stark: S,
    params: StarkParams,
    config: StarkConfig,
    trace: Seq<Seq<F>>,
    lookups: Seq<(Seq<F>, F, F)>,
    public_inputs: Seq<F>,
    degree_bits: usize,
    challenge_sets: Q,
    permutation_zs: Seq<Seq<F>>,
    zs_cap: K,
    alphas: Seq<F>,
    rows: Seq<Seq<F>>,
    z_h_inverses: Seq<F>,
    polys: Seq<Seq<F>>,
    quotient_cap: K,
    zeta: E,
    openings: O,
)
    ensures
        ({
            let table = TableModel::<F, E, Q, K, O, S>::start(
                stark,
                params,
                config,
                trace,
                lookups,
                public_inputs,
                degree_bits,
            );
            let argues = params.permutation_batch_size is Some;
            let commits = argues && permutation_zs.len() > 0;
            let (begun, first) = table.begin();
            let (chosen, second) = if argues {
                begun.after_permutation(Some(challenge_sets), Some(permutation_zs))
            } else {
                (begun, first)
            };
            let (ready, third) = if commits {
                chosen.after_zs(zs_cap)
            } else {
                (chosen, second)
            };
            let (combining, fourth) = ready.after_alphas(alphas);
            let (dividing, fifth) = combining.after_constraints(rows, z_h_inverses);
            let (split, sixth) = dividing.after_quotient_polys(polys);
            let (committed, seventh) = split.after_quotient_cap(quotient_cap);
            let (opening, eighth) = committed.after_zeta(zeta);
            let (done, ninth) = opening.after_openings(openings);
            &&& argues ==> begun.stage is Permutation && first == (TableActionModel::<
                F,
                E,
            >::PermutationArgument {
                num_challenges: config.num_challenges,
                batch_size: params.permutation_batch_size->Some_0,
            })
            &&& commits ==> chosen.stage is Zs && second == (TableActionModel::<F, E>::CommitZs {
                z_polys: permutation_zs,
                rate_bits: config.fri_config.rate_bits,
                cap_height: config.fri_config.cap_height,
            })
            &&& third == (TableActionModel::<F, E>::DrawAlphas { n: config.num_challenges })
            &&& ready.stage is Alphas
            &&& fourth is PrepareQuotient && combining.stage is QuotientInputs
            &&& fourth->with_zs == commits
            &&& fourth->domain == QuotientDomain::of(
                degree_bits,
                config.fri_config.rate_bits,
                params.quotient_degree_factor,
            )
            &&& dividing.stage is QuotientPolys && fifth == (TableActionModel::<
                F,
                E,
            >::InterpolateQuotient {
                values: quotient::quotient_values(rows, z_h_inverses, alphas),
            })
            &&& split.stage is QuotientCap && sixth == (TableActionModel::<F, E>::CommitQuotient {
                chunks: quotient::quotient_pieces(
                    polys,
                    trace[0].len() as int,
                    params.quotient_degree_factor as int,
                ),
                rate_bits: config.fri_config.rate_bits,
                cap_height: config.fri_config.cap_height,
            })
            &&& seventh is DrawZeta && committed.stage is Zeta
            &&& opening.stage is Openings && eighth == (TableActionModel::<F, E>::Open {
                zeta,
                degree_bits,
            })
            &&& ninth == (TableActionModel::<F, E>::ProveOpenings {
                oracles: if commits {
                    seq![Oracle::Trace, Oracle::Zs, Oracle::Quotient]
                } else {
                    seq![Oracle::Trace, Oracle::Quotient]
                },
                zeta,
                degree_bits,
            })
            &&& done == (TableModel {
                stage: TableStage::OpeningProof,
                challenge_sets: if argues {
                    Some(challenge_sets)
                } else {
                    None
                },
                zs_cap: if commits {
                    Some(zs_cap)
                } else {
                    None
                },
                alphas,
                quotient_cap: Some(quotient_cap),
                zeta: Some(zeta),
                openings: Some(openings),
                ..table
            })
            &&& done.stark == stark && done.params == params && done.config == config
            &&& done.trace == trace && done.lookups == lookups
            &&& done.public_inputs == public_inputs && done.degree_bits == degree_bits
        }),
{
}

/// The selectors that are asked for with the quotient have as many values as the
/// trace has rows. The first is one on the first row, the last is one on the last
/// row, and both are zero on every other row.
pub proof fn law_selectors<F: Field, E: Field, Q, K, O, S: Stark<F, Q>>(
    table: TableModel<F, E, Q, K, O, S>,
    alphas: Seq<F>,
    row: int,
)
    requires
        table.valid(),
        0 <= row < table.trace[0].len(),
    ensures
        ({
            let action = table.after_alphas(alphas).1;
            &&& action is PrepareQuotient
            &&& action->first_selector.len() == table.trace[0].len()
            &&& action->last_selector.len() == table.trace[0].len()
            &&& row == 0 ==> action->first_selector[row] == F::one_spec()
            &&& row > 0 ==> action->first_selector[row] == F::zero_spec()
            &&& row == table.trace[0].len() - 1 ==> action->last_selector[row] == F::one_spec()
            &&& row < table.trace[0].len() - 1 ==> action->last_selector[row] == F::zero_spec()
        }),
{
    lemma_usize_pow2_no_overflow(table.degree_bits as nat);
}

/// The domain that is asked for with the quotient has `next_step` points for each
/// row of the trace, enough for the degree factor, and covers the committed
/// extension with its points `step` apart.
pub proof fn law_table_domain<F: Field, E: Field, Q, K, O, S: Stark<F, Q>>(
    table: TableModel<F, E, Q, K, O, S>,
    alphas: Seq<F>,
)
    requires
        table.valid(),
        quotient::domain_exists(
            table.degree_bits as int,
            table.config.fri_config.rate_bits as int,
            table.params.quotient_degree_factor,
        ),
    ensures
        ({
            let domain = table.after_alphas(alphas).1->domain;
            &&& domain.degree == table.trace[0].len()
            &&& domain.degree * domain.next_step == domain.size
            &&& domain.size * domain.step == pow2(
                (table.degree_bits + table.config.fri_config.rate_bits) as nat,
            )
            &&& table.params.quotient_degree_factor <= domain.next_step
            &&& domain.next_step > 1 ==> domain.next_step < 2
                * table.params.quotient_degree_factor
        }),
{
    quotient::law_domain(
        table.degree_bits,
        table.config.fri_config.rate_bits,
        table.params.quotient_degree_factor,
    );
}

/// What a table prover hands to the constraints of its table: its own public
/// inputs, the trace and, if its permutation argument is committed to, the running
/// products with the challenges that they were made from, here and at the point one
/// row further.
pub proof fn law_table_hands_to_the_constraints<F: Field, E: Field, Q, K, O, S: Stark<F, Q>>(
    table: TableModel<F, E, Q, K, O, S>,
    inputs: QuotientInputs<F>,
    rows: Seq<Seq<F>>,
    i: int,
    j: int,
)
    requires
        table.valid(),
        table.stage is QuotientInputs,
        table.may_yield(inputs, rows),
        inputs.cover(
            table.domain().size as int,
            table.zs_cap is Some && table.challenge_sets is Some,
        ),
        algebra::power(inputs.generator, table.domain().size as nat) == F::one_spec(),
        0 <= i < table.domain().size,
        0 <= j < table.domain().size,
        j == i + table.domain().next_step || j + table.domain().size == i
            + table.domain().next_step,
    ensures
        rows.len() == table.domain().size,
        inputs.x(j) == inputs.x(i).times_spec(
            algebra::power(inputs.generator, table.domain().next_step as nat),
        ),
        exists|
            vars: StarkEvaluationVars<F>,
            permutation: Option<PermutationCheckVars<F, Q>>,
            selectors: RowSelectors<F>,
            answer: Vec<F>,
        |
            {
                &&& #[trigger] call_ensures(
                    S::eval_constraints,
                    (&table.stark, &table.config, vars, permutation, selectors),
                    answer,
                )
                &&& answer@ == rows[i]
                &&& vars.local_values@ == inputs.trace_rows[i]@
                &&& vars.next_values@ == inputs.trace_rows[j]@
                &&& vars.public_inputs@ == table.public_inputs
                &&& selectors.z_last == inputs.x(i).minus_spec(inputs.last)
                &&& selectors.lagrange_basis_first == inputs.lagrange_first.values[i]
                &&& selectors.lagrange_basis_last == inputs.lagrange_last.values[i]
                &&& permutation is Some <==> table.zs_cap is Some && table.challenge_sets is Some
                &&& permutation is Some ==> {
                    &&& permutation->Some_0.local_zs@ == inputs.zs_rows->Some_0[i]@
                    &&& permutation->Some_0.next_zs@ == inputs.zs_rows->Some_0[j]@
                    &&& Some(*permutation->Some_0.permutation_challenge_sets)
                        == table.challenge_sets
                }
            },
{
    let sets = if table.zs_cap is Some {
        table.challenge_sets
    } else {
        None
    };
    QuotientDomain::lemma_of(
        table.degree_bits,
        table.config.fri_config.rate_bits,
        table.params.quotient_degree_factor,
    );
    quotient::law_handed_to_the_constraints(
        table.stark,
        table.config,
        table.domain(),
        inputs,
        table.public_inputs,
        sets,
        rows,
        i,
        j,
    );
}

/// No element of the trace domain is taken as an opening point: every power of an
/// element that has as many powers as the trace has rows is refused.
pub proof fn law_trace_domain_is_refused<F: Field, E: Field, Q, K, O, S: Stark<F, Q>>(
    table: TableModel<F, E, Q, K, O, S>,
    generator: E,
    k: nat,
)
    requires
        table.valid(),
        algebra::power(generator, table.trace[0].len()) == E::one_spec(),
    ensures
        table.in_subgroup(algebra::power(generator, k)),
{
    let n = table.trace[0].len();
    lemma_pow2_pos(table.degree_bits as nat);
    algebra::lemma_power_of_one::<E>(n);
    algebra::lemma_power_of_one::<E>(k);
    if k > 0 {
        algebra::lemma_power_of_power(generator, k, n);
        algebra::lemma_power_of_power(generator, n, k);
        lemma_mul_is_commutative(k as int, n as int);
    }
}

/// What a piece of work says is what its model says: every number under its own
/// name, and every polynomial in its place.
pub proof fn law_actions_as_they_are<F, E>(action: TableAction<F, E>, i: int)
    ensures
        (match action {
            TableAction::PermutationArgument { num_challenges, batch_size } => {
                &&& action@ is PermutationArgument
                &&& action@->num_challenges == num_challenges
                &&& action@->batch_size == batch_size
            },
            TableAction::CommitZs { z_polys, rate_bits, cap_height } => {
                &&& action@ is CommitZs
                &&& action@->z_polys.len() == z_polys.len()
                &&& 0 <= i < z_polys.len() ==> action@->z_polys[i] == z_polys[i].values@
                &&& action@->CommitZs_rate_bits == rate_bits
                &&& action@->CommitZs_cap_height == cap_height
            },
            TableAction::DrawAlphas { n } => action@ is DrawAlphas && action@->n == n,
            TableAction::PrepareQuotient { domain, first_selector, last_selector, with_zs } => {
                &&& action@ is PrepareQuotient
                &&& action@->domain == domain
                &&& action@->first_selector == first_selector.values@
                &&& action@->last_selector == last_selector.values@
                &&& action@->with_zs == with_zs
            },
            TableAction::InterpolateQuotient { values } => {
                &&& action@ is InterpolateQuotient
                &&& action@->values.len() == values.len()
                &&& 0 <= i < values.len() ==> action@->values[i] == values[i].values@
            },
            TableAction::CommitQuotient { chunks, rate_bits, cap_height } => {
                &&& action@ is CommitQuotient
                &&& action@->chunks.len() == chunks.len()
                &&& 0 <= i < chunks.len() ==> action@->chunks[i] == chunks[i].coeffs@
                &&& action@->CommitQuotient_rate_bits == rate_bits
                &&& action@->CommitQuotient_cap_height == cap_height
            },
            TableAction::DrawZeta => action@ is DrawZeta,
            TableAction::Open { zeta, degree_bits } => {
                &&& action@ is Open
                &&& action@->Open_zeta == zeta
                &&& action@->Open_degree_bits == degree_bits
            },
            TableAction::ProveOpenings { oracles, zeta, degree_bits } => {
                &&& action@ is ProveOpenings
                &&& action@->oracles == oracles@
                &&& action@->ProveOpenings_zeta == zeta
                &&& action@->ProveOpenings_degree_bits == degree_bits
            },
        }),
{
}

} // verus!
