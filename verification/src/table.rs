//! The tables, and the lookups between them.
use crate::field::Field;
use vstd::prelude::*;

verus! {

/// A table of the trace.
#[derive(Clone, Copy, Debug, PartialEq, Eq, Structural)]
pub enum Table {
    Cpu,
    Keccak,
}

/// How many tables there are.
pub const NUM_TABLES: usize = 2;

impl Table {
    /// The place of the table among all tables.
    pub open spec fn position(self) -> nat {
        match self {
            Table::Cpu => 0,
            Table::Keccak => 1,
        }
    }

    /// The place of the table among all tables.
    pub fn index(self) -> (r: usize)
        ensures
            r == self.position(),
            r < NUM_TABLES,
    {
        match self {
            Table::Cpu => 0,
            Table::Keccak => 1,
        }
    }
}

/// The constraint systems of all tables.
pub struct AllStarks<C, K> {
    pub cpu: C,
    pub keccak: K,
}

/// A lookup of columns of one table in columns of another.
#[derive(Debug)]
pub struct CrossTableLookup<F: Field> {
    looking_table: Table,
    looking_columns: Vec<usize>,
    looked_table: usize,
    looked_columns: Vec<usize>,
    default: F,
}

/// What a lookup consists of.
pub struct LookupModel<F> {
    pub looking_table: Table,
    pub looking_columns: Seq<usize>,
    pub looked_table: usize,
    pub looked_columns: Seq<usize>,
    pub default: F,
}

impl<F: Field> View for CrossTableLookup<F> {
    type V = LookupModel<F>;

    closed spec fn view(&self) -> LookupModel<F> {
        LookupModel {
            looking_table: self.looking_table,
            looking_columns: self.looking_columns@,
            looked_table: self.looked_table,
            looked_columns: self.looked_columns@,
            default: self.default,
        }
    }
}

impl<F: Field> CrossTableLookup<F> {
    /// As many columns look as are looked at.
    #[verifier::type_invariant]
    spec fn columns_match(self) -> bool {
        self.looking_columns@.len() == self.looked_columns@.len()
    }

    /// A lookup of `looking_columns` of `looking_table` in `looked_columns` of
    /// `looked_table`.
    pub fn new(
        looking_table: Table,
        looking_columns: Vec<usize>,
        looked_table: usize,
        looked_columns: Vec<usize>,
        default: F,
    ) -> (r: CrossTableLookup<F>)
        requires
            looking_columns.len() == looked_columns.len(),
        ensures
            r@ == (LookupModel {
                looking_table,
                looking_columns: looking_columns@,
                looked_table,
                looked_columns: looked_columns@,
                default,
            }),
    {
        CrossTableLookup { looking_table, looking_columns, looked_table, looked_columns, default }
    }

    /// The place of the looking table.
    pub(crate) fn looking_table(&self) -> (r: usize)
        ensures
            r == self@.looking_table.position(),
    {
        self.looking_table.index()
    }

    pub(crate) fn looking_columns(&self) -> (r: &[usize])
        ensures
            r@ == self@.looking_columns,
    {
        self.looking_columns.as_slice()
    }

    /// The place of the looked table.
    pub(crate) fn looked_table(&self) -> (r: usize)
        ensures
            r == self@.looked_table,
    {
        self.looked_table
    }

    pub(crate) fn looked_columns(&self) -> (r: &[usize])
        ensures
            r@ == self@.looked_columns,
    {
        self.looked_columns.as_slice()
    }
}

/// The CPU table comes first and the Keccak table second, and there are no others.
pub proof fn law_order_of_tables(table: Table)
    ensures
        NUM_TABLES == 2,
        table is Cpu ==> table.position() == 0,
        table is Keccak ==> table.position() == 1,
        table.position() < NUM_TABLES,
{
}

} // verus!
