//! A proof over all tables, from the commitments to the traces to the list of
//! the proofs of the tables.
//!
//! As for one table, the work on polynomials and on the transcript is done
//! outside: each method of [`Prover`] takes what came of one piece of that work
//! and returns the next piece to do.
use crate::bits;
use crate::config::StarkConfig;
use crate::field::Field;
use crate::lookup;
use crate::lookup::LookupData;
use crate::polynomial;
use crate::polynomial::PolynomialValues;
use crate::stark_proof::{StarkProof, StarkProofWithPublicInputs};
use crate::stark;
use crate::stark::Stark;
use crate::table::{AllStarks, CrossTableLookup, LookupModel, Table, NUM_TABLES};
use crate::table_prover;
use crate::table_prover::{TableAction, TableModel, TableProof, TableProver};
use vstd::arithmetic::power2::*;
use vstd::prelude::*;

verus! {

/// The work to do next.
pub enum ProveAction<F> {
    /// Find the reduction arities of FRI for polynomials of length
    /// `2^degree_bits`.
    FriParams { degree_bits: usize },
    /// Commit to the trace of `table`, without blinding, and let the transcript
    /// observe the cap. The transcript is new with the first table.
    CommitTrace {
        table: Table,
        trace: Vec<PolynomialValues<F>>,
        rate_bits: usize,
        cap_height: usize,
    },
    /// For each of `lookups` lookups in turn, draw `num_challenges` times two
    /// challenges from the transcript.
    DrawLookupChallenges { lookups: usize, num_challenges: usize },
    /// Prove `table`, which begins with [`Prover::cpu_table`] or
    /// [`Prover::keccak_table`].
    ProveTable { table: Table },
    /// Nothing is left to do.
    Finish,
}

/// The work to do next, with lists in place of vectors.
pub enum ProveActionModel<F> {
    FriParams { degree_bits: usize },
    CommitTrace { table: Table, trace: Seq<Seq<F>>, rate_bits: usize, cap_height: usize },
    DrawLookupChallenges { lookups: nat, num_challenges: usize },
    ProveTable { table: Table },
    Finish,
}

impl<F> View for ProveAction<F> {
    type V = ProveActionModel<F>;

    open spec fn view(&self) -> ProveActionModel<F> {
        match *self {
            ProveAction::FriParams { degree_bits } => ProveActionModel::FriParams { degree_bits },
            ProveAction::CommitTrace { table, trace, rate_bits, cap_height } =>
                ProveActionModel::CommitTrace {
                    table,
                    trace: polynomial::values_of(trace@),
                    rate_bits,
                    cap_height,
                },
            ProveAction::DrawLookupChallenges { lookups, num_challenges } =>
                ProveActionModel::DrawLookupChallenges { lookups: lookups as nat, num_challenges },
            ProveAction::ProveTable { table } => ProveActionModel::ProveTable { table },
            ProveAction::Finish => ProveActionModel::Finish,
        }
    }
}

/// What a prover waits for.
#[derive(Clone, Copy, Debug, PartialEq, Eq, Structural)]
pub enum ProveStage {
    FriParams,
    TraceCap { table: Table },
    LookupChallenges,
    TableProof { table: Table },
    Finished,
}

/// The sum of the reduction arities.
pub open spec fn total_arities(arities: Seq<usize>) -> int
    decreases arities.len(),
{
    if arities.len() == 0 {
        0
    } else {
        total_arities(arities.drop_last()) + arities.last()
    }
}

/// Whether FRI with these arities leaves no less than the cap of a commitment
/// holds.
pub open spec fn arities_fit(config: StarkConfig, degree_bits: int, arities: Seq<usize>) -> bool {
    total_arities(arities) <= degree_bits + config.fri_config.rate_bits
        - config.fri_config.cap_height
}

/// What a prover knows. `K` is the cap of a commitment, `O` holds openings, and
/// `P` is a proof that they are right.
pub struct ProverModel<F, K, O, P, S, T> {
    pub all_starks: AllStarks<S, T>,
    pub config: StarkConfig,
    pub traces: Seq<Seq<Seq<F>>>,
    pub lookups: Seq<LookupModel<F>>,
    pub public_inputs: Seq<Seq<F>>,
    pub degree_bits: usize,
    pub stage: ProveStage,
    /// The caps of the traces whose tables are not proved yet.
    pub trace_caps: Seq<K>,
    pub lookup_data: Seq<Seq<(Seq<F>, F, F)>>,
    pub proofs: Seq<(StarkProof<K, O, P>, Seq<F>)>,
}

impl<F: Field, K, O, P, S, T> ProverModel<F, K, O, P, S, T> {
    /// There is one trace and one list of public inputs for each table, and what
    /// each stage needs is there.
    pub open spec fn valid(self) -> bool {
        &&& self.traces.len() == NUM_TABLES
        &&& self.public_inputs.len() == NUM_TABLES
        &&& match self.stage {
            ProveStage::FriParams => self.trace_caps.len() == 0 && self.proofs.len() == 0,
            ProveStage::TraceCap { table } => {
                self.trace_caps.len() == table.position() && self.proofs.len() == 0
            },
            ProveStage::LookupChallenges => {
                self.trace_caps.len() == NUM_TABLES && self.proofs.len() == 0
            },
            ProveStage::TableProof { table } => {
                &&& self.trace_caps.len() == NUM_TABLES - table.position()
                &&& self.lookup_data.len() == NUM_TABLES
                &&& self.proofs.len() == table.position()
            },
            ProveStage::Finished => {
                self.trace_caps.len() == 0 && self.proofs.len() == NUM_TABLES
            },
        }
    }

    /// A prover that has done nothing yet.
    pub open spec fn start(
        all_starks: AllStarks<S, T>,
        config: StarkConfig,
        traces: Seq<Seq<Seq<F>>>,
        lookups: Seq<LookupModel<F>>,
        public_inputs: Seq<Seq<F>>,
        degree_bits: usize,
    ) -> ProverModel<F, K, O, P, S, T> {
        ProverModel {
            all_starks,
            config,
            traces,
            lookups,
            public_inputs,
            degree_bits,
            stage: ProveStage::FriParams,
            trace_caps: Seq::empty(),
            lookup_data: Seq::empty(),
            proofs: Seq::empty(),
        }
    }

    /// Goes on with the commitment to the trace of `table`.
    pub open spec fn committing(self, table: Table) -> (
        ProverModel<F, K, O, P, S, T>,
        ProveActionModel<F>,
    ) {
        (
            ProverModel { stage: ProveStage::TraceCap { table }, ..self },
            ProveActionModel::CommitTrace {
                table,
                trace: self.traces[table.position() as int],
                rate_bits: self.config.fri_config.rate_bits,
                cap_height: self.config.fri_config.cap_height,
            },
        )
    }

    /// Goes on once the trace of a table is committed to: with that of the next
    /// table, or with the lookups.
    pub open spec fn after_trace(self, cap: K) -> (
        ProverModel<F, K, O, P, S, T>,
        ProveActionModel<F>,
    ) {
        let taken = ProverModel { trace_caps: self.trace_caps.push(cap), ..self };
        if self.stage == (ProveStage::TraceCap { table: Table::Cpu }) {
            taken.committing(Table::Keccak)
        } else {
            (
                ProverModel { stage: ProveStage::LookupChallenges, ..taken },
                ProveActionModel::DrawLookupChallenges {
                    lookups: self.lookups.len(),
                    num_challenges: self.config.num_challenges,
                },
            )
        }
    }

    /// The lookup data of all tables.
    pub open spec fn looked_up(self, challenges: Seq<F>) -> Seq<Seq<(Seq<F>, F, F)>> {
        Seq::new(
            self.traces.len(),
            |t: int|
                lookup::lookup_entries(
                    self.traces,
                    self.lookups,
                    self.config.num_challenges as nat,
                    challenges,
                    (self.lookups.len() * self.config.num_challenges) as nat,
                    t,
                ),
        )
    }

    /// Goes on once the challenges of the lookups are drawn.
    pub open spec fn after_lookup_challenges(self, challenges: Seq<F>) -> (
        ProverModel<F, K, O, P, S, T>,
        ProveActionModel<F>,
    ) {
        (
            ProverModel {
                stage: ProveStage::TableProof { table: Table::Cpu },
                lookup_data: self.looked_up(challenges),
                ..self
            },
            ProveActionModel::ProveTable { table: Table::Cpu },
        )
    }

    /// The proof of `table`, with the commitment to its trace and its public
    /// inputs.
    pub open spec fn assembled(self, table: Table, proof: TableProof<K, O, P>) -> (
        StarkProof<K, O, P>,
        Seq<F>,
    ) {
        (
            StarkProof {
                trace_cap: self.trace_caps[0],
                permutation_zs_cap: proof.permutation_zs_cap,
                quotient_polys_cap: proof.quotient_polys_cap,
                openings: proof.openings,
                opening_proof: proof.opening_proof,
            },
            self.public_inputs[table.position() as int],
        )
    }

    /// Goes on once a table is proved: with the next table, or to the end.
    pub open spec fn after_table(self, proof: TableProof<K, O, P>) -> (
        ProverModel<F, K, O, P, S, T>,
        ProveActionModel<F>,
    ) {
        let table = self.stage->TableProof_table;
        let taken = ProverModel {
            trace_caps: self.trace_caps.drop_first(),
            proofs: self.proofs.push(self.assembled(table, proof)),
            ..self
        };
        match table {
            Table::Cpu => (
                ProverModel { stage: ProveStage::TableProof { table: Table::Keccak }, ..taken },
                ProveActionModel::ProveTable { table: Table::Keccak },
            ),
            Table::Keccak => (
                ProverModel { stage: ProveStage::Finished, ..taken },
                ProveActionModel::Finish,
            ),
        }
    }
}

/// The lookup data of each table.
pub open spec fn data_of<F: Field>(data: Seq<LookupData<F>>) -> Seq<Seq<(Seq<F>, F, F)>> {
    data.map_values(|d: LookupData<F>| d@)
}

/// The proofs of a list.
pub open spec fn proofs_of<F, K, O, P>(
    proofs: Seq<StarkProofWithPublicInputs<F, K, O, P>>,
) -> Seq<(StarkProof<K, O, P>, Seq<F>)> {
    proofs.map_values(|p: StarkProofWithPublicInputs<F, K, O, P>| p@)
}

/// The prover of all tables.
pub struct Prover<F: Field, K, O, P, S, T> {
    all_starks: AllStarks<S, T>,
    config: StarkConfig,
    trace_poly_values: Vec<Vec<PolynomialValues<F>>>,
    cross_table_lookups: Vec<CrossTableLookup<F>>,
    public_inputs: Vec<Vec<F>>,
    degree_bits: usize,
    stage: ProveStage,
    trace_caps: Vec<K>,
    lookup_data: Vec<LookupData<F>>,
    proofs: Vec<StarkProofWithPublicInputs<F, K, O, P>>,
}

impl<F: Field, K, O, P, S, T> View for Prover<F, K, O, P, S, T> {
    type V = ProverModel<F, K, O, P, S, T>;

    closed spec fn view(&self) -> ProverModel<F, K, O, P, S, T> {
        ProverModel {
            all_starks: self.all_starks,
            config: self.config,
            traces: lookup::tables_of(self.trace_poly_values@),
            lookups: lookup::lookups_of(self.cross_table_lookups@),
            public_inputs: polynomial::lists_of(self.public_inputs@),
            degree_bits: self.degree_bits,
            stage: self.stage,
            trace_caps: self.trace_caps@,
            lookup_data: data_of(self.lookup_data@),
            proofs: proofs_of(self.proofs@),
        }
    }
}

/// Tests whether FRI with these arities leaves no less than the cap of a
/// commitment holds.
pub fn check_arities(config: &StarkConfig, degree_bits: usize, arities: &[usize]) -> (r: bool)
    ensures
        r == arities_fit(*config, degree_bits as int, arities@),
        r <==> total_arities(arities@) + config.fri_config.cap_height <= degree_bits
            + config.fri_config.rate_bits,
{
    let all: u128 = degree_bits as u128 + config.fri_config.rate_bits as u128;
    let cap: u128 = config.fri_config.cap_height as u128;
    proof {
        lemma_total_of_prefix(arities@, 0);
    }
    if all < cap {
        return false;
    }
    let mut room: u128 = all - cap;
    for i in 0..arities.len()
        invariant
            room + total_arities(arities@.take(i as int)) == degree_bits
                + config.fri_config.rate_bits - config.fri_config.cap_height,
    {
        let arity: u128 = arities[i] as u128;
        proof {
            assert(arities@.take(i + 1).drop_last() == arities@.take(i as int));
            lemma_total_of_prefix(arities@, i + 1);
        }
        if room < arity {
            return false;
        }
        room = room - arity;
    }
    assert(arities@.take(arities.len() as int) == arities@);
    true
}

/// The sum of the first arities is not above the sum of all.
proof fn lemma_total_of_prefix(arities: Seq<usize>, n: int)
    requires
        0 <= n <= arities.len(),
    ensures
        0 <= total_arities(arities.take(n)) <= total_arities(arities),
    decreases arities.len(),
{
    if n == arities.len() {
        assert(arities.take(n) == arities);
        if n > 0 {
            lemma_total_of_prefix(arities.drop_last(), n - 1);
        }
    } else {
        lemma_total_of_prefix(arities.drop_last(), n);
        assert(arities.drop_last().take(n) == arities.take(n));
    }
}

/// Starts a proof over all tables.
pub fn prove<F: Field, K, O, P, S, T>(
    all_starks: AllStarks<S, T>,
    config: &StarkConfig,
    trace_poly_values: Vec<Vec<PolynomialValues<F>>>,
    cross_table_lookups: Vec<CrossTableLookup<F>>,
    public_inputs: Vec<Vec<F>>,
) -> (r: (Prover<F, K, O, P, S, T>, ProveAction<F>))
    requires
        trace_poly_values.len() == NUM_TABLES,
        public_inputs.len() == NUM_TABLES,
        is_pow2(trace_poly_values[0].len() as int),
    ensures
        r.0@.valid(),
        pow2(r.0@.degree_bits as nat) == trace_poly_values[0].len(),
        r.0@ == ProverModel::<F, K, O, P, S, T>::start(
            all_starks,
            *config,
            lookup::tables_of(trace_poly_values@),
            lookup::lookups_of(cross_table_lookups@),
            polynomial::lists_of(public_inputs@),
            r.0@.degree_bits,
        ),
        r.1@ == (ProveActionModel::<F>::FriParams { degree_bits: r.0@.degree_bits }),
{
    let degree = trace_poly_values[0].len();
    let degree_bits = bits::log2_strict(degree);
    let prover = Prover {
        all_starks,
        config: *config,
        trace_poly_values,
        cross_table_lookups,
        public_inputs,
        degree_bits,
        stage: ProveStage::FriParams,
        trace_caps: Vec::new(),
        lookup_data: Vec::new(),
        proofs: Vec::new(),
    };
    assert(prover@.trace_caps =~= Seq::<K>::empty());
    assert(prover@.lookup_data =~= Seq::<Seq<(Seq<F>, F, F)>>::empty());
    assert(prover@.proofs =~= Seq::<(StarkProof<K, O, P>, Seq<F>)>::empty());
    (prover, ProveAction::FriParams { degree_bits })
}

impl<F: Field, K, O, P, S, T> Prover<F, K, O, P, S, T> {
    /// The constraint systems of all tables.
    pub fn all_starks(&self) -> (r: &AllStarks<S, T>)
        ensures
            *r == self@.all_starks,
    {
        &self.all_starks
    }

    /// Asks for the commitment to the trace of `table`.
    fn commit_trace(&mut self, table: Table) -> (r: ProveAction<F>)
        requires
            old(self)@.traces.len() == NUM_TABLES,
        ensures
            (final(self)@, r@) == old(self)@.committing(table),
    {
        self.stage = ProveStage::TraceCap { table };
        let trace = polynomial::clone_all(self.trace_poly_values[table.index()].as_slice());
        ProveAction::CommitTrace {
            table,
            trace,
            rate_bits: self.config.fri_config.rate_bits,
            cap_height: self.config.fri_config.cap_height,
        }
    }

    /// Takes the reduction arities of FRI.
    pub fn fri_params(&mut self, arities: &[usize]) -> (r: ProveAction<F>)
        requires
            old(self)@.valid(),
            old(self)@.stage is FriParams,
            arities_fit(old(self)@.config, old(self)@.degree_bits as int, arities@),
        ensures
            final(self)@.valid(),
            (final(self)@, r@) == old(self)@.committing(Table::Cpu),
    {
        self.commit_trace(Table::Cpu)
    }

    /// Takes the cap of the committed trace of the table that was asked for.
    pub fn trace_committed(&mut self, cap: K) -> (r: ProveAction<F>)
        requires
            old(self)@.valid(),
            old(self)@.stage is TraceCap,
        ensures
            final(self)@.valid(),
            (final(self)@, r@) == old(self)@.after_trace(cap),
    {
        self.trace_caps.push(cap);
        match self.stage {
            ProveStage::TraceCap { table: Table::Cpu } => self.commit_trace(Table::Keccak),
            _ => {
                self.stage = ProveStage::LookupChallenges;
                ProveAction::DrawLookupChallenges {
                    lookups: self.cross_table_lookups.len(),
                    num_challenges: self.config.num_challenges,
                }
            },
        }
    }

    /// Takes the challenges of the lookups, in the order in which they were drawn.
    pub fn lookup_challenges_drawn(&mut self, challenges: &[F]) -> (r: ProveAction<F>)
        requires
            old(self)@.valid(),
            old(self)@.stage is LookupChallenges,
            challenges.len() == 2 * (old(self)@.lookups.len() * old(self)@.config.num_challenges),
            old(self)@.config.num_challenges > 0 ==> forall|l: int|
                0 <= l < old(self)@.lookups.len() ==> lookup::lookup_fits(
                    old(self)@.traces,
                    #[trigger] old(self)@.lookups[l],
                ),
        ensures
            final(self)@.valid(),
            (final(self)@, r@) == old(self)@.after_lookup_challenges(challenges@),
    {
        proof {
            let lookups = self.cross_table_lookups@;
            assert(forall|l: int|
                0 <= l < lookups.len() ==> (#[trigger] lookups[l])@ == self@.lookups[l]);
        }
        self.lookup_data = lookup::cross_table_lookup_zs(
            &self.config,
            self.trace_poly_values.as_slice(),
            self.cross_table_lookups.as_slice(),
            challenges,
        );
        assert(data_of(self.lookup_data@) =~= self@.looked_up(challenges@));
        self.stage = ProveStage::TableProof { table: Table::Cpu };
        ProveAction::ProveTable { table: Table::Cpu }
    }

    /// Starts the proof of the CPU table.
    pub fn cpu_table<E: Field, Q>(&self) -> (r: (
        TableProver<F, E, Q, K, O, S>,
        TableAction<F, E>,
    )) where S: Stark<F, Q>
        requires
            self@.valid(),
            self@.stage == (ProveStage::TableProof { table: Table::Cpu }),
            self@.traces[0].len() > 0,
            is_pow2(self@.traces[0][0].len() as int),
        ensures
            r.0@.valid(),
            stark::may_have::<F, Q, S>(self@.all_starks.cpu, r.0@.params),
            (r.0@, r.1@) == TableModel::<F, E, Q, K, O, S>::start(
                self@.all_starks.cpu,
                r.0@.params,
                self@.config,
                self@.traces[0],
                self@.lookup_data[0],
                self@.public_inputs[0],
                r.0@.degree_bits,
            ).begin(),            pow2(r.0@.degree_bits as nat) == self@.traces[0][0].len(),
    {
        let table: usize = Table::Cpu.index();
        table_prover::do_rest(
            &self.all_starks.cpu,
            &self.config,
            self.trace_poly_values[table].as_slice(),
            &self.lookup_data[table],
            self.public_inputs[table].as_slice(),
        )
    }

    /// Starts the proof of the Keccak table.
    pub fn keccak_table<E: Field, Q>(&self) -> (r: (
        TableProver<F, E, Q, K, O, T>,
        TableAction<F, E>,
    )) where T: Stark<F, Q>
        requires
            self@.valid(),
            self@.stage == (ProveStage::TableProof { table: Table::Keccak }),
            self@.traces[1].len() > 0,
            is_pow2(self@.traces[1][0].len() as int),
        ensures
            r.0@.valid(),
            stark::may_have::<F, Q, T>(self@.all_starks.keccak, r.0@.params),
            (r.0@, r.1@) == TableModel::<F, E, Q, K, O, T>::start(
                self@.all_starks.keccak,
                r.0@.params,
                self@.config,
                self@.traces[1],
                self@.lookup_data[1],
                self@.public_inputs[1],
                r.0@.degree_bits,
            ).begin(),            pow2(r.0@.degree_bits as nat) == self@.traces[1][0].len(),
    {
        let table: usize = Table::Keccak.index();
        table_prover::do_rest(
            &self.all_starks.keccak,
            &self.config,
            self.trace_poly_values[table].as_slice(),
            &self.lookup_data[table],
            self.public_inputs[table].as_slice(),
        )
    }

    /// Takes the proof of the table that was asked for.
    pub fn table_proved(&mut self, table_proof: TableProof<K, O, P>) -> (r: ProveAction<F>)
        requires
            old(self)@.valid(),
            old(self)@.stage is TableProof,
        ensures
            final(self)@.valid(),
            (final(self)@, r@) == old(self)@.after_table(table_proof),
    {
        let table = match self.stage {
            ProveStage::TableProof { table } => table,
            _ => Table::Cpu,
        };
        let trace_cap = self.trace_caps.remove(0);
        let public_inputs = polynomial::copy_of(self.public_inputs[table.index()].as_slice());
        let ghost before = self.proofs@;
        let assembled = StarkProofWithPublicInputs {
            proof: StarkProof {
                trace_cap,
                permutation_zs_cap: table_proof.permutation_zs_cap,
                quotient_polys_cap: table_proof.quotient_polys_cap,
                openings: table_proof.openings,
                opening_proof: table_proof.opening_proof,
            },
            public_inputs,
        };
        self.proofs.push(assembled);
        proof {
            assert(self.trace_caps@ =~= old(self)@.trace_caps.drop_first());
            assert(proofs_of(self.proofs@) =~= proofs_of(before).push(assembled@));
        }
        match table {
            Table::Cpu => {
                self.stage = ProveStage::TableProof { table: Table::Keccak };
                ProveAction::ProveTable { table: Table::Keccak }
            },
            Table::Keccak => {
                self.stage = ProveStage::Finished;
                ProveAction::Finish
            },
        }
    }

    /// Hands over the proofs, in the order of the tables.
    pub fn into_proofs(self) -> (r: Vec<StarkProofWithPublicInputs<F, K, O, P>>)
        requires
            self@.valid(),
            self@.stage is Finished,
        ensures
            proofs_of(r@) == self@.proofs,
            r.len() == NUM_TABLES,
            forall|t: int|
                0 <= t < r.len() ==> (#[trigger] r[t]).proof == self@.proofs[t].0
                    && r[t].public_inputs@ == self@.proofs[t].1,
    {
        proof {
            assert(proofs_of(self.proofs@).len() == self.proofs@.len());
            assert forall|t: int| 0 <= t < self.proofs.len() implies (#[trigger] self.proofs[t]).proof
                == self@.proofs[t].0 && self.proofs[t].public_inputs@ == self@.proofs[t].1 by {
                assert(proofs_of(self.proofs@)[t] == self.proofs[t]@);
            }
        }
        self.proofs
    }
}

/// A run of the prover asks for its pieces of work in one order: both traces are
/// committed to before any challenge is drawn, the lookups are settled before any
/// table is proved, and the CPU table is proved before the Keccak table. It ends
/// with one proof for each table, in this order, each with the commitment to the
/// trace and the public inputs of its own table.
pub proof fn law_prove_run<F: Field, K, O, P, S, T>(
    all_starks: AllStarks<S, T>,
    config: StarkConfig,
    traces: Seq<Seq<Seq<F>>>,
    lookups: Seq<LookupModel<F>>,
    public_inputs: Seq<Seq<F>>,
    degree_bits: usize,
    cpu_cap: K,
    keccak_cap: K,
    challenges: Seq<F>,
    cpu_proof: TableProof<K, O, P>,
    keccak_proof: TableProof<K, O, P>,
)
    ensures
        ({
            let begun = ProverModel::<F, K, O, P, S, T>::start(
                all_starks,
                config,
                traces,
                lookups,
                public_inputs,
                degree_bits,
            );
            let (m1, first) = begun.committing(Table::Cpu);
            let (m2, second) = m1.after_trace(cpu_cap);
            let (m3, third) = m2.after_trace(keccak_cap);
            let (m4, fourth) = m3.after_lookup_challenges(challenges);
            let (m5, fifth) = m4.after_table(cpu_proof);
            let (m6, sixth) = m5.after_table(keccak_proof);
            &&& first == (ProveActionModel::<F>::CommitTrace {
                table: Table::Cpu,
                trace: traces[0],
                rate_bits: config.fri_config.rate_bits,
                cap_height: config.fri_config.cap_height,
            })
            &&& second == (ProveActionModel::<F>::CommitTrace {
                table: Table::Keccak,
                trace: traces[1],
                rate_bits: config.fri_config.rate_bits,
                cap_height: config.fri_config.cap_height,
            })
            &&& third == (ProveActionModel::<F>::DrawLookupChallenges {
                lookups: lookups.len(),
                num_challenges: config.num_challenges,
            })
            &&& fourth == (ProveActionModel::<F>::ProveTable { table: Table::Cpu })
            &&& fifth == (ProveActionModel::<F>::ProveTable { table: Table::Keccak })
            &&& sixth == ProveActionModel::<F>::Finish
            &&& m1.stage == (ProveStage::TraceCap { table: Table::Cpu })
            &&& m2.stage == (ProveStage::TraceCap { table: Table::Keccak })
            &&& m3.stage is LookupChallenges
            &&& m4.stage == (ProveStage::TableProof { table: Table::Cpu })
            &&& m5.stage == (ProveStage::TableProof { table: Table::Keccak })
            &&& m4.lookup_data == begun.looked_up(challenges)
            &&& m4.lookup_data.len() == traces.len()
            &&& forall|t: int|
                0 <= t < traces.len() ==> #[trigger] m4.lookup_data[t] == lookup::lookup_entries(
                    traces,
                    lookups,
                    config.num_challenges as nat,
                    challenges,
                    lookups.len() * (config.num_challenges as nat),
                    t,
                )
            &&& m5 == (ProverModel {
                stage: m5.stage,
                trace_caps: m5.trace_caps,
                proofs: m5.proofs,
                ..m4
            })
            &&& m4.all_starks == all_starks && m4.config == config && m4.traces == traces
            &&& m4.public_inputs == public_inputs && m4.lookups == lookups
            &&& m5.lookup_data == m4.lookup_data
            &&& m6.stage is Finished
            &&& m6.proofs == seq![
                (
                    StarkProof {
                        trace_cap: cpu_cap,
                        permutation_zs_cap: cpu_proof.permutation_zs_cap,
                        quotient_polys_cap: cpu_proof.quotient_polys_cap,
                        openings: cpu_proof.openings,
                        opening_proof: cpu_proof.opening_proof,
                    },
                    public_inputs[0],
                ),
                (
                    StarkProof {
                        trace_cap: keccak_cap,
                        permutation_zs_cap: keccak_proof.permutation_zs_cap,
                        quotient_polys_cap: keccak_proof.quotient_polys_cap,
                        openings: keccak_proof.openings,
                        opening_proof: keccak_proof.opening_proof,
                    },
                    public_inputs[1],
                ),
            ]
        }),
{
    let begun = ProverModel::<F, K, O, P, S, T>::start(
        all_starks,
        config,
        traces,
        lookups,
        public_inputs,
        degree_bits,
    );
    let m4 = begun.committing(Table::Cpu).0.after_trace(cpu_cap).0.after_trace(
        keccak_cap,
    ).0.after_lookup_challenges(challenges).0;
    assert(m4.trace_caps =~= seq![cpu_cap, keccak_cap]);
    assert(m4.trace_caps.drop_first() =~= seq![keccak_cap]);
}

/// The sum of no arities is nothing, that of one is itself, and that of two lists
/// put together is the sum of both; FRI may reduce by no more than leaves the cap.
pub proof fn law_arities(
    config: StarkConfig,
    degree_bits: int,
    s: Seq<usize>,
    t: Seq<usize>,
    arity: usize,
)
    ensures
        total_arities(Seq::<usize>::empty()) == 0,
        total_arities(seq![arity]) == arity,
        total_arities(s + t) == total_arities(s) + total_arities(t),
        arities_fit(config, degree_bits, s) <==> total_arities(s) + config.fri_config.cap_height
            <= degree_bits + config.fri_config.rate_bits,
    decreases t.len(),
{
    assert(seq![arity].drop_last() =~= Seq::<usize>::empty());
    assert(total_arities(seq![arity].drop_last()) == 0);
    if t.len() == 0 {
        assert(s + t =~= s);
    } else {
        law_arities(config, degree_bits, s, t.drop_last(), arity);
        assert((s + t).drop_last() =~= s + t.drop_last());
    }
}

/// What a piece of work says is what its model says: every number under its own
/// name, and every polynomial in its place.
pub proof fn law_actions_as_they_are<F>(action: ProveAction<F>, i: int)
    ensures
        (match action {
            ProveAction::FriParams { degree_bits } => {
                action@ is FriParams && action@->degree_bits == degree_bits
            },
            ProveAction::CommitTrace { table, trace, rate_bits, cap_height } => {
                &&& action@ is CommitTrace
                &&& action@->CommitTrace_table == table
                &&& action@->trace.len() == trace.len()
                &&& 0 <= i < trace.len() ==> action@->trace[i] == trace[i].values@
                &&& action@->rate_bits == rate_bits
                &&& action@->cap_height == cap_height
            },
            ProveAction::DrawLookupChallenges { lookups, num_challenges } => {
                &&& action@ is DrawLookupChallenges
                &&& action@->lookups == lookups
                &&& action@->num_challenges == num_challenges
            },
            ProveAction::ProveTable { table } => {
                action@ is ProveTable && action@->ProveTable_table == table
            },
            ProveAction::Finish => action@ is Finish,
        }),
{
}

} // verus!
