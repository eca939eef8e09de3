//! Which fields of its operands an instruction works on.

use vstd::prelude::*;

use crate::load_file::Modifier;
use crate::mars::address::Side;

verus! {

impl Modifier {
    /// The pairs of fields that the modifier selects. The first side of a
    /// pair is the field that is read from the A-operand. The second is the
    /// field of the B-operand that is read with it, and that takes the
    /// result in the cell that the B-operand points to.
    ///
    /// `I` selects what `F` does; an opcode that handles whole instructions
    /// looks at the modifier first.
    pub open spec fn selected(self) -> ((Side, Side), Option<(Side, Side)>) {
        match self {
            Modifier::A => ((Side::A, Side::A), None),
            Modifier::B => ((Side::B, Side::B), None),
            Modifier::AB => ((Side::A, Side::B), None),
            Modifier::BA => ((Side::B, Side::A), None),
            Modifier::F | Modifier::I => ((Side::A, Side::A), Some((Side::B, Side::B))),
            Modifier::X => ((Side::A, Side::B), Some((Side::B, Side::A))),
        }
    }

    /// The pairs of fields that the modifier selects.
    pub fn sides(self) -> (r: ((Side, Side), Option<(Side, Side)>))
        ensures
            r == self.selected(),
    {
        match self {
            Modifier::A => ((Side::A, Side::A), None),
            Modifier::B => ((Side::B, Side::B), None),
            Modifier::AB => ((Side::A, Side::B), None),
            Modifier::BA => ((Side::B, Side::A), None),
            Modifier::F | Modifier::I => ((Side::A, Side::A), Some((Side::B, Side::B))),
            Modifier::X => ((Side::A, Side::B), Some((Side::B, Side::A))),
        }
    }

    /// Whether the modifier asks for whole instructions.
    pub fn is_whole(self) -> (r: bool)
        ensures
            r == (self == Modifier::I),
    {
        matches!(self, Modifier::I)
    }
}

} // verus!
