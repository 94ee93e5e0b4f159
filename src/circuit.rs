//! A fixed-capacity arithmetic circuit of addition and multiplication gates.
//!
//! Wire values and selectors are elements of the scalar field. Each gate
//! records its three wire values in the columns `a`, `b`, `c` and switches
//! on the selector of its kind at its own row.

use crate::field::{modulus, Scalar};
use vstd::prelude::*;

verus! {

/// A wire value: an element of the scalar field.
#[derive(Debug, Clone, Copy, PartialEq, Eq, Structural)]
pub struct F(pub Scalar);

impl F {
    /// The element as an integer in [0, r).
    pub open spec fn val(self) -> int {
        self.0.value()
    }

    pub fn zero() -> (r: F)
        ensures
            r.val() == 0,
    {
        F(Scalar::zero())
    }

    pub fn one() -> (r: F)
        ensures
            r.val() == 1,
    {
        F(Scalar::one())
    }

    /// `self + other` in the field.
    pub fn add(self, other: F) -> (r: F)
        ensures
            r.val() == (self.val() + other.val()) % modulus(),
    {
        F(self.0.add(&other.0))
    }

    /// `self * other` in the field.
    pub fn mul(self, other: F) -> (r: F)
        ensures
            r.val() == (self.val() * other.val()) % modulus(),
    {
        F(self.0.mul(&other.0))
    }
}

#[derive(Debug, Clone, Copy, PartialEq, Eq, Structural)]
pub enum GateType {
    Add,
    Mul,
}

/// A wire: its position in the circuit's wiring and the value it carries.
#[derive(Debug, Clone, Copy)]
pub struct Wire {
    pub index: usize,
    pub value: F,
}

#[derive(Debug, Clone, Copy)]
pub struct Gate {
    pub gate_type: GateType,
    pub left_wire: Wire,
    pub right_wire: Wire,
    pub output_wire: Wire,
}

/// The selector columns, one entry per row of the circuit.
#[derive(Debug, Clone)]
pub struct CircuitSelectors {
    pub q_add: Vec<F>,
    pub q_mul: Vec<F>,
    /// Reserved for constant terms: stays zero on every row.
    pub q_c: Vec<F>,
}

#[derive(Debug)]
pub struct Circuit {
    /// The capacity: the largest number of gates the circuit can hold.
    pub n: usize,
    /// Left wire values, one per gate.
    pub a: Vec<F>,
    /// Right wire values, one per gate.
    pub b: Vec<F>,
    /// Output wire values, one per gate.
    pub c: Vec<F>,
    pub gates: Vec<Gate>,
    pub selectors: CircuitSelectors,
}

#[derive(Debug, Clone, Copy, PartialEq, Eq, Structural)]
pub enum CircuitError {
    /// Every row of the circuit already holds a gate.
    CapacityExceeded,
}

/// Whether a gate of kind `t` with wire values `a`, `b`, `c` satisfies its
/// constraint in the field: `a + b == c` for addition, `a * b == c` for
/// multiplication.
pub open spec fn gate_holds(t: GateType, a: F, b: F, c: F) -> bool {
    match t {
        GateType::Add => (a.val() + b.val()) % modulus() == c.val(),
        GateType::Mul => (a.val() * b.val()) % modulus() == c.val(),
    }
}

/// The value of the selector of kind `kind` on a row that holds a gate of
/// type `t`: one when the kinds agree, else zero.
pub open spec fn selector_for(t: GateType, kind: GateType) -> int {
    if t == kind {
        1
    } else {
        0
    }
}

/// Whether `new` is the column `old` with the entry at `idx` set to the
/// value `v`.
pub open spec fn column_set(old: Seq<F>, new: Seq<F>, idx: int, v: int) -> bool {
    &&& new.len() == old.len()
    &&& new[idx].val() == v
    &&& forall|j: int| 0 <= j < old.len() && j != idx ==> #[trigger] new[j] == old[j]
}

/// Whether `new` is `old` with `gate` recorded on the next free row: its
/// wire values appended to the value columns and the selector of its kind
/// set on that row.
pub open spec fn gate_appended(old: Circuit, new: Circuit, gate: Gate) -> bool {
    let idx = old.gates@.len() as int;
    &&& new.n == old.n
    &&& new.gates@ == old.gates@.push(gate)
    &&& new.a@ == old.a@.push(gate.left_wire.value)
    &&& new.b@ == old.b@.push(gate.right_wire.value)
    &&& new.c@ == old.c@.push(gate.output_wire.value)
    &&& column_set(
        old.selectors.q_add@,
        new.selectors.q_add@,
        idx,
        selector_for(gate.gate_type, GateType::Add),
    )
    &&& column_set(
        old.selectors.q_mul@,
        new.selectors.q_mul@,
        idx,
        selector_for(gate.gate_type, GateType::Mul),
    )
    &&& new.selectors.q_c@ == old.selectors.q_c@
}

/// Recording a gate sets, on its row, the selector of its kind to one and
/// the other to zero.
pub proof fn lemma_gate_selectors(old: Circuit, new: Circuit, gate: Gate)
    requires
        old.well_formed(),
        old.gates@.len() < old.n,
        gate_appended(old, new, gate),
    ensures
        gate.gate_type == GateType::Add ==> new.selectors.q_add@[old.gates@.len() as int].val()
            == 1 && new.selectors.q_mul@[old.gates@.len() as int].val() == 0,
        gate.gate_type == GateType::Mul ==> new.selectors.q_mul@[old.gates@.len() as int].val()
            == 1 && new.selectors.q_add@[old.gates@.len() as int].val() == 0,
{
}

/// After a gate is recorded the circuit's constraints hold exactly when they
/// held before and the new gate's own constraint holds: a circuit built from
/// consistent gates passes, and one inconsistent gate makes it fail.
pub proof fn lemma_gate_satisfaction(old: Circuit, new: Circuit, gate: Gate)
    requires
        old.well_formed(),
        gate_appended(old, new, gate),
    ensures
        new.satisfied() == (old.satisfied() && gate_holds(
            gate.gate_type,
            gate.left_wire.value,
            gate.right_wire.value,
            gate.output_wire.value,
        )),
{
    let k = old.gates@.len() as int;
    if new.satisfied() {
        assert forall|i: int| 0 <= i < old.gates@.len() implies gate_holds(
            #[trigger] old.gates@[i].gate_type,
            old.a@[i],
            old.b@[i],
            old.c@[i],
        ) by {
            assert(new.gates@[i] == old.gates@[i]);
        }
        assert(new.gates@[k] == gate);
    }
    if old.satisfied() && gate_holds(
        gate.gate_type,
        gate.left_wire.value,
        gate.right_wire.value,
        gate.output_wire.value,
    ) {
        assert forall|i: int| 0 <= i < new.gates@.len() implies gate_holds(
            #[trigger] new.gates@[i].gate_type,
            new.a@[i],
            new.b@[i],
            new.c@[i],
        ) by {
            if i < k {
                assert(new.gates@[i] == old.gates@[i]);
            }
        }
    }
}

impl Circuit {
    /// Column lengths and selector entries agree with the recorded gates.
    pub open spec fn well_formed(&self) -> bool {
        let g = self.gates@;
        &&& self.columns_aligned()
        &&& g.len() <= self.n
        &&& self.selectors.q_add@.len() == self.n
        &&& self.selectors.q_mul@.len() == self.n
        &&& self.selectors.q_c@.len() == self.n
        &&& self.wires_recorded()
        &&& self.selectors_recorded()
        &&& self.free_rows_clear()
    }

    /// One entry of each value column per gate.
    pub open spec fn columns_aligned(&self) -> bool {
        &&& self.a@.len() == self.gates@.len()
        &&& self.b@.len() == self.gates@.len()
        &&& self.c@.len() == self.gates@.len()
    }

    /// Row `i` of the value columns holds the wire values of gate `i`.
    pub open spec fn wires_recorded(&self) -> bool {
        forall|i: int| 0 <= i < self.gates@.len() ==> {
            &&& #[trigger] self.a@[i] == self.gates@[i].left_wire.value
            &&& self.b@[i] == self.gates@[i].right_wire.value
            &&& self.c@[i] == self.gates@[i].output_wire.value
        }
    }

    /// On row `i`, the selectors are those of the kind of gate `i`.
    pub open spec fn selectors_recorded(&self) -> bool {
        &&& forall|i: int|
            0 <= i < self.gates@.len() ==> #[trigger] self.selectors.q_add@[i].val() == selector_for(
                self.gates@[i].gate_type,
                GateType::Add,
            )
        &&& forall|i: int|
            0 <= i < self.gates@.len() ==> #[trigger] self.selectors.q_mul@[i].val() == selector_for(
                self.gates@[i].gate_type,
                GateType::Mul,
            )
    }

    /// Rows without a gate have zero selectors, and `q_c` is zero throughout.
    pub open spec fn free_rows_clear(&self) -> bool {
        &&& forall|i: int| self.gates@.len() <= i < self.n ==> {
            &&& #[trigger] self.selectors.q_add@[i].val() == 0
            &&& self.selectors.q_mul@[i].val() == 0
        }
        &&& forall|i: int| 0 <= i < self.n ==> #[trigger] self.selectors.q_c@[i].val() == 0
    }

    /// Whether every recorded gate satisfies its constraint.
    pub open spec fn satisfied(&self) -> bool {
        forall|i: int|
            0 <= i < self.gates@.len() ==> gate_holds(
                #[trigger] self.gates@[i].gate_type,
                self.a@[i],
                self.b@[i],
                self.c@[i],
            )
    }

    /// An empty circuit with room for `size` gates.
    pub fn new(size: usize) -> (r: Circuit)
        ensures
            r.well_formed(),
            r.n == size,
            r.gates@.len() == 0,
    {
        let mut q_add: Vec<F> = Vec::with_capacity(size);
        let mut q_mul: Vec<F> = Vec::with_capacity(size);
        let mut q_c: Vec<F> = Vec::with_capacity(size);
        let mut i: usize = 0;
        while i < size
            invariant
                i <= size,
                q_add@.len() == i,
                q_mul@.len() == i,
                q_c@.len() == i,
                forall|j: int| 0 <= j < i ==> #[trigger] q_add@[j].val() == 0,
                forall|j: int| 0 <= j < i ==> #[trigger] q_mul@[j].val() == 0,
                forall|j: int| 0 <= j < i ==> #[trigger] q_c@[j].val() == 0,
            decreases size - i,
        {
            q_add.push(F::zero());
            q_mul.push(F::zero());
            q_c.push(F::zero());
            i = i + 1;
        }
        Circuit {
            n: size,
            a: Vec::with_capacity(size),
            b: Vec::with_capacity(size),
            c: Vec::with_capacity(size),
            gates: Vec::with_capacity(size),
            selectors: CircuitSelectors { q_add, q_mul, q_c },
        }
    }

    /// Appends a gate on the next free row, or answers that the circuit is
    /// full and leaves it unchanged.
    pub fn add_gate(&mut self, gate: Gate) -> (r: Result<(), CircuitError>)
        requires
            old(self).well_formed(),
        ensures
            final(self).well_formed(),
            final(self).n == old(self).n,
            old(self).gates@.len() >= old(self).n ==> {
                &&& r == Err::<(), CircuitError>(CircuitError::CapacityExceeded)
                &&& *final(self) == *old(self)
            },
            old(self).gates@.len() < old(self).n ==> {
                &&& r is Ok
                &&& gate_appended(*old(self), *final(self), gate)
            },
    {
        let idx = self.gates.len();
        if idx >= self.n {
            return Err(CircuitError::CapacityExceeded);
        }
        assert(self.selectors.q_add@[idx as int].val() == 0);
        assert(self.selectors.q_mul@[idx as int].val() == 0);
        match gate.gate_type {
            GateType::Add => {
                self.selectors.q_add.set(idx, F::one());
            },
            GateType::Mul => {
                self.selectors.q_mul.set(idx, F::one());
            },
        }
        self.a.push(gate.left_wire.value);
        self.b.push(gate.right_wire.value);
        self.c.push(gate.output_wire.value);
        self.gates.push(gate);
        let ghost g = self.gates@;
        assert forall|i: int| 0 <= i < g.len() implies {
            &&& #[trigger] self.a@[i] == g[i].left_wire.value
            &&& self.b@[i] == g[i].right_wire.value
            &&& self.c@[i] == g[i].output_wire.value
        } by {
            if i < idx {
                assert(old(self).a@[i] == g[i].left_wire.value);
            }
        }
        assert forall|i: int| 0 <= i < self.gates@.len() implies #[trigger] self.selectors.q_add@[i].val()
            == selector_for(self.gates@[i].gate_type, GateType::Add) by {
            if i < idx {
                assert(old(self).selectors.q_add@[i].val() == selector_for(
                    g[i].gate_type,
                    GateType::Add,
                ));
            } else {
                assert(g[i] == gate);
            }
        }
        assert forall|i: int| 0 <= i < self.gates@.len() implies #[trigger] self.selectors.q_mul@[i].val()
            == selector_for(self.gates@[i].gate_type, GateType::Mul) by {
            if i < idx {
                assert(old(self).selectors.q_mul@[i].val() == selector_for(
                    g[i].gate_type,
                    GateType::Mul,
                ));
            } else {
                assert(g[i] == gate);
            }
        }
        assert forall|i: int| g.len() <= i < self.n implies {
            &&& #[trigger] self.selectors.q_add@[i].val() == 0
            &&& self.selectors.q_mul@[i].val() == 0
        } by {
            assert(old(self).selectors.q_add@[i].val() == 0);
        }
        assert(self.selectors.q_c@ == old(self).selectors.q_c@);
        assert(self.wires_recorded());
        assert(self.selectors_recorded());
        assert(self.free_rows_clear());
        Ok(())
    }

    /// Whether every recorded gate satisfies its constraint in the field;
    /// the scan stops at the first gate that does not.
    pub fn verify_constraints(&self) -> (r: bool)
        requires
            self.columns_aligned(),
        ensures
            r == self.satisfied(),
    {
        let mut i: usize = 0;
        while i < self.gates.len()
            invariant
                self.columns_aligned(),
                i <= self.gates@.len(),
                forall|j: int|
                    0 <= j < i ==> gate_holds(
                        #[trigger] self.gates@[j].gate_type,
                        self.a@[j],
                        self.b@[j],
                        self.c@[j],
                    ),
            decreases self.gates@.len() - i,
        {
            let a = self.a[i];
            let b = self.b[i];
            let c = self.c[i];
            let ok = match self.gates[i].gate_type {
                GateType::Add => a.add(b).0.equals(&c.0),
                GateType::Mul => a.mul(b).0.equals(&c.0),
            };
            if !ok {
                return false;
            }
            i = i + 1;
        }
        true
    }
}

} // verus!
