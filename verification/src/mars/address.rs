//! How the fields of an instruction lead to the cells that it works on.

use vstd::prelude::*;

use crate::load_file::{AddressMode, Field, Instruction, Offset};
use crate::mars::Core;

verus! {

/// One of the two fields of a cell.
#[derive(Copy, Clone, Debug, PartialEq, Eq, Structural)]
pub enum Side {
    A,
    B,
}

/// What an address mode does to the field that it goes through.
#[derive(Copy, Clone, Debug, PartialEq, Eq, Structural)]
pub enum Adjustment {
    /// The field is left as it is.
    Keep,
    /// The field is decremented before it is read.
    Before,
    /// The field is incremented after it was read.
    After,
}

impl AddressMode {
    /// The field of the intermediate cell that an indirect mode goes
    /// through; none for the immediate and the direct mode.
    pub open spec fn through(self) -> Option<Side> {
        match self {
            AddressMode::Immediate | AddressMode::Direct => None,
            AddressMode::IndirectA
            | AddressMode::PreDecIndirectA
            | AddressMode::PostIncIndirectA => Some(Side::A),
            AddressMode::IndirectB
            | AddressMode::PreDecIndirectB
            | AddressMode::PostIncIndirectB => Some(Side::B),
        }
    }

    /// What the mode does to the field that it goes through.
    pub open spec fn adjustment(self) -> Adjustment {
        match self {
            AddressMode::PreDecIndirectA | AddressMode::PreDecIndirectB => Adjustment::Before,
            AddressMode::PostIncIndirectA | AddressMode::PostIncIndirectB => Adjustment::After,
            _ => Adjustment::Keep,
        }
    }

    /// The field of the intermediate cell that an indirect mode goes
    /// through, and what the mode does to it.
    pub fn indirection(self) -> (r: Option<(Side, Adjustment)>)
        ensures
            match r {
                Some((side, adjustment)) => self.through() == Some(side) && self.adjustment()
                    == adjustment,
                None => self.through().is_none(),
            },
    {
        match self {
            AddressMode::Immediate | AddressMode::Direct => None,
            AddressMode::IndirectA => Some((Side::A, Adjustment::Keep)),
            AddressMode::IndirectB => Some((Side::B, Adjustment::Keep)),
            AddressMode::PreDecIndirectA => Some((Side::A, Adjustment::Before)),
            AddressMode::PreDecIndirectB => Some((Side::B, Adjustment::Before)),
            AddressMode::PostIncIndirectA => Some((Side::A, Adjustment::After)),
            AddressMode::PostIncIndirectB => Some((Side::B, Adjustment::After)),
        }
    }
}

impl Instruction {
    /// The field on one side of the instruction.
    pub open spec fn field(self, side: Side) -> Field {
        match side {
            Side::A => self.a_field,
            Side::B => self.b_field,
        }
    }

    /// The number of the field on one side, reduced to a core of `size` cells.
    pub open spec fn number(self, side: Side, size: int) -> int {
        self.field(side).value as int % size
    }

    /// The instruction with another number in the field on one side.
    pub open spec fn with_number(self, side: Side, number: int) -> Instruction {
        match side {
            Side::A => Instruction {
                a_field: Field { address_mode: self.a_field.address_mode, value: number as i32 },
                ..self
            },
            Side::B => Instruction {
                b_field: Field { address_mode: self.b_field.address_mode, value: number as i32 },
                ..self
            },
        }
    }

    /// The number of the field on one side as an offset into a core.
    pub fn offset_of(&self, side: Side, core_size: i32) -> (r: Offset)
        requires
            core_size > 0,
        ensures
            r == Offset::spec_new(self.field(side).value as int, core_size as int),
            r.spec_value() == self.number(side, core_size as int),
            r.modulus() == core_size,
    {
        match side {
            Side::A => Offset::new(self.a_field.value, core_size),
            Side::B => Offset::new(self.b_field.value, core_size),
        }
    }

    /// Replace the number of the field on one side by the value of an offset.
    pub fn set_number(&mut self, side: Side, number: Offset)
        ensures
            *final(self) == old(self).with_number(side, number.spec_value()),
    {
        match side {
            Side::A => self.a_field.set_value(number),
            Side::B => self.b_field.set_value(number),
        }
    }
}

/// The cells after the number on one side of the cell `at` was changed by
/// `delta`, modulo the number of cells.
pub open spec fn adjusted(cells: Seq<Instruction>, at: int, side: Side, delta: int) -> Seq<
    Instruction,
> {
    let size = cells.len() as int;
    cells.update(at, cells[at].with_number(side, (cells[at].number(side, size) + delta) % size))
}

/// The cell that an indirect mode reaches from the intermediate cell `mid`.
pub open spec fn target(cells: Seq<Instruction>, mid: int, side: Side) -> int {
    let size = cells.len() as int;
    (mid + cells[mid].number(side, size)) % size
}

/// Evaluating one operand of the instruction at `pc`: the cells afterwards,
/// the cell that the operand points to, and the copy of that cell that the
/// instruction works with.
///
/// An immediate operand points to the instruction itself, a direct one to
/// the cell at the distance of its number. An indirect one goes on from
/// there by the number in a field of that intermediate cell. That field is
/// decremented first, or incremented after the copy was taken, where the
/// mode says so.
pub open spec fn resolve(cells: Seq<Instruction>, pc: int, field: Field) -> (
    Seq<Instruction>,
    int,
    Instruction,
) {
    let size = cells.len() as int;
    let mid = (pc + field.value as int % size) % size;
    match field.address_mode.through() {
        None => if field.address_mode == AddressMode::Immediate {
            (cells, pc, cells[pc])
        } else {
            (cells, mid, cells[mid])
        },
        Some(side) => match field.address_mode.adjustment() {
            Adjustment::Keep => (cells, target(cells, mid, side), cells[target(cells, mid, side)]),
            Adjustment::Before => {
                let before = adjusted(cells, mid, side, -1);
                (before, target(before, mid, side), before[target(before, mid, side)])
            },
            Adjustment::After => (
                adjusted(cells, mid, side, 1),
                target(cells, mid, side),
                cells[target(cells, mid, side)],
            ),
        },
    }
}

/// Change the number on one side of a cell by `delta`.
fn adjust(core: &mut Core, at: Offset, side: Side, delta: i32)
    requires
        old(core).wf(),
        at.modulus() == old(core).size(),
    ensures
        final(core).wf(),
        final(core).cells() == adjusted(old(core).cells(), at.spec_value(), side, delta as int),
        final(core).same_but_cells(*old(core)),
{
    let size: i32 = core.len();
    proof {
        use_type_invariant(&at);
    }
    let number = core.get_offset(at).offset_of(side, size) + delta;
    let mut cell: Instruction = *core.get_offset(at);
    cell.set_number(side, number);
    proof {
        vstd::arithmetic::div_mod::lemma_add_mod_noop_right(
            old(core).cells()[at.spec_value()].number(side, size as int),
            delta as int,
            size as int,
        );
    }
    core.set_offset(at, cell);
}

/// Evaluate one operand of the instruction at `pc`: the cell that it points
/// to and a copy of that cell. The core keeps what the address mode does
/// to the intermediate cell.
pub fn resolve_operand(core: &mut Core, pc: Offset, field: Field) -> (r: (Offset, Instruction))
    requires
        old(core).wf(),
        pc.modulus() == old(core).size(),
    ensures
        final(core).wf(),
        final(core).cells() == resolve(old(core).cells(), pc.spec_value(), field).0,
        final(core).same_but_cells(*old(core)),
        r.0.modulus() == old(core).size(),
        r.0.spec_value() == resolve(old(core).cells(), pc.spec_value(), field).1,
        r.1 == resolve(old(core).cells(), pc.spec_value(), field).2,
{
    let size: i32 = core.len();
    proof {
        use_type_invariant(&pc);
    }
    let mid = pc + field.value;
    match field.address_mode.indirection() {
        None => {
            if matches!(field.address_mode, AddressMode::Immediate) {
                (pc, *core.get_offset(pc))
            } else {
                (mid, *core.get_offset(mid))
            }
        },
        Some((side, adjustment)) => {
            if matches!(adjustment, Adjustment::Before) {
                adjust(core, mid, side, -1);
            }
            let pointer = mid + core.get_offset(mid).offset_of(side, size);
            let operand: Instruction = *core.get_offset(pointer);
            if matches!(adjustment, Adjustment::After) {
                adjust(core, mid, side, 1);
            }
            (pointer, operand)
        },
    }
}

} // verus!
