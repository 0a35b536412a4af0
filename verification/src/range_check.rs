//! Range checks of 32-bit values in a circuit.
//!
//! A range-check gate holds one value in each of its input limbs and sees to it
//! that the value has no more than 32 bits. It is added to the circuit outside;
//! the library says how large it is and what its wires are connected to.
use vstd::prelude::*;

verus! {

/// A cell of the circuit: the row of a gate, and one of its wires.
#[derive(Clone, Copy, Debug, PartialEq, Eq, Structural)]
pub struct Wire {
    pub row: usize,
    pub column: usize,
}

/// Where a value of the circuit stands.
#[derive(Clone, Copy, Debug, PartialEq, Eq, Structural)]
pub enum Target {
    Wire(Wire),
    /// Not bound to a cell yet.
    VirtualTarget { index: usize },
}

impl Target {
    /// The target of a wire in a row.
    pub fn wire(row: usize, column: usize) -> (r: Target)
        ensures
            r == Target::Wire(Wire { row, column }),
    {
        Target::Wire(Wire { row, column })
    }
}

/// A target for a value that is meant to have 32 bits.
#[derive(Clone, Copy, Debug, PartialEq, Eq, Structural)]
pub struct U32Target(pub Target);

/// What is connected: the wire of the `i`-th input limb with the `i`-th value.
pub open spec fn connections(
    gate_index: usize,
    limb_wires: Seq<usize>,
    vals: Seq<U32Target>,
) -> Seq<(Target, Target)> {
    Seq::new(
        vals.len(),
        |i: int|
            (Target::Wire(Wire { row: gate_index, column: limb_wires[i] }), vals[i].0),
    )
}

/// A range check whose gate is still to be added.
pub struct RangeCheck {
    vals: Vec<U32Target>,
}

impl View for RangeCheck {
    type V = Seq<U32Target>;

    closed spec fn view(&self) -> Seq<U32Target> {
        self.vals@
    }
}

/// Starts a range check of all `vals` in one gate.
pub fn range_check_u32_circuit(vals: Vec<U32Target>) -> (r: RangeCheck)
    ensures
        r@ == vals@,
{
    RangeCheck { vals }
}

impl RangeCheck {
    /// How many input limbs are needed: one for each value.
    pub fn num_input_limbs(&self) -> (r: usize)
        ensures
            r == self@.len(),
    {
        self.vals.len()
    }

    /// Takes the row of the added gate and the wires of its input limbs, and
    /// returns what is to be connected.
    pub fn gate_added(self, gate_index: usize, limb_wires: &[usize]) -> (r: Vec<(Target, Target)>)
        requires
            limb_wires.len() == self@.len(),
        ensures
            r@ == connections(gate_index, limb_wires@, self@),
            r.len() == self@.len(),
            forall|i: int|
                0 <= i < r.len() ==> {
                    &&& (#[trigger] r[i]).0 == Target::Wire(
                        Wire { row: gate_index, column: limb_wires[i] },
                    )
                    &&& r[i].1 == self@[i].0
                },
    {
        let mut pairs: Vec<(Target, Target)> = Vec::new();
        let num_input_limbs = self.vals.len();
        for i in 0..num_input_limbs
            invariant
                num_input_limbs == self.vals.len(),
                limb_wires.len() == self.vals.len(),
                pairs@ == connections(gate_index, limb_wires@, self@).take(i as int),
        {
            pairs.push((Target::wire(gate_index, limb_wires[i]), self.vals[i].0));
            assert(pairs@ == connections(gate_index, limb_wires@, self@).take(i + 1));
        }
        assert(pairs@ == connections(gate_index, limb_wires@, self@));
        pairs
    }
}

/// Every value is connected to exactly one wire, and no two values to the same
/// wire if the wires of the limbs differ.
pub proof fn law_each_value_has_its_wire(
    gate_index: usize,
    limb_wires: Seq<usize>,
    vals: Seq<U32Target>,
    i: int,
    j: int,
)
    requires
        limb_wires.len() == vals.len(),
        limb_wires.no_duplicates(),
        0 <= i < vals.len(),
        0 <= j < vals.len(),
    ensures
        connections(gate_index, limb_wires, vals).len() == vals.len(),
        connections(gate_index, limb_wires, vals)[i].1 == vals[i].0,
        connections(gate_index, limb_wires, vals)[i].0 == connections(
            gate_index,
            limb_wires,
            vals,
        )[j].0 <==> i == j,
{
}

/// The `i`-th value is connected to a wire in the row of the added gate, in the
/// column that the `i`-th input limb has there; and nothing else is connected.
pub proof fn law_values_meet_the_added_row(
    gate_index: usize,
    limb_wires: Seq<usize>,
    vals: Seq<U32Target>,
    i: int,
)
    requires
        limb_wires.len() == vals.len(),
        0 <= i < vals.len(),
    ensures
        connections(gate_index, limb_wires, vals).len() == vals.len(),
        connections(gate_index, limb_wires, vals)[i].0 is Wire,
        connections(gate_index, limb_wires, vals)[i].0->Wire_0.row == gate_index,
        connections(gate_index, limb_wires, vals)[i].0->Wire_0.column == limb_wires[i],
        connections(gate_index, limb_wires, vals)[i].1 == vals[i].0,
{
}

/// Range checks of two lists of values in one row connect what the range check of
/// both lists together does: what is connected for a value depends on nothing but
/// the value and its own limb.
pub proof fn law_values_are_connected_alone(
    gate_index: usize,
    wires: Seq<usize>,
    more_wires: Seq<usize>,
    vals: Seq<U32Target>,
    more_vals: Seq<U32Target>,
)
    requires
        wires.len() == vals.len(),
        more_wires.len() == more_vals.len(),
    ensures
        connections(gate_index, wires + more_wires, vals + more_vals) == connections(
            gate_index,
            wires,
            vals,
        ) + connections(gate_index, more_wires, more_vals),
{
}

} // verus!
