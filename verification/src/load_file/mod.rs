//! The resolved form of a Redcode program and the types it is made of.

use vstd::prelude::*;

pub mod dump;
pub mod offset;

pub use offset::Offset;

verus! {

/// The operation that an instruction performs.
#[derive(Copy, Clone, Debug, PartialEq, Eq, Structural, Hash)]
pub enum Opcode {
    Dat,
    Mov,
    Add,
    Sub,
    Mul,
    Div,
    Mod,
    Jmp,
    Jmz,
    Jmn,
    Djn,
    Cmp,
    /// `SEQ`, the other name of `CMP`. The variant is not called `Seq`, which is the
    /// name of the sequences that the contracts speak of.
    Skeq,
    Sne,
    Slt,
    Spl,
    Nop,
    Ldp,
    Stp,
}

/// Selects the fields of its operands that an opcode works on.
#[derive(Copy, Clone, Debug, PartialEq, Eq, Structural, Hash)]
pub enum Modifier {
    A,
    B,
    AB,
    BA,
    F,
    X,
    I,
}

/// How the number of a field leads to the cell that it means.
#[derive(Copy, Clone, Debug, PartialEq, Eq, Structural, Hash)]
pub enum AddressMode {
    /// `#`: the operand is the number itself.
    Immediate,
    /// `$`: the cell at the number's distance from the instruction.
    Direct,
    /// `*`: through the A-field of the cell that the number points to.
    IndirectA,
    /// `@`: through the B-field of the cell that the number points to.
    IndirectB,
    /// `{`: as `*`, after that A-field was decremented.
    PreDecIndirectA,
    /// `<`: as `@`, after that B-field was decremented.
    PreDecIndirectB,
    /// `}`: as `*`; that A-field is incremented afterwards.
    PostIncIndirectA,
    /// `>`: as `@`; that B-field is incremented afterwards.
    PostIncIndirectB,
}

/// One operand of an instruction: an address mode and a number.
#[derive(Copy, Clone, Debug, PartialEq, Eq, Structural, Hash)]
pub struct Field {
    pub address_mode: AddressMode,
    pub value: i32,
}

/// One cell of a core.
#[derive(Copy, Clone, Debug, PartialEq, Eq, Structural, Hash)]
pub struct Instruction {
    pub opcode: Opcode,
    pub modifier: Modifier,
    pub a_field: Field,
    pub b_field: Field,
}

/// A resolved program: its instructions in order, and the index of the one
/// that runs first.
#[derive(Clone, Debug, PartialEq, Eq)]
pub struct Program {
    pub instructions: Vec<Instruction>,
    pub origin: Option<usize>,
}

/// What the comments of a source file say of the warrior. The texts are
/// held as the bytes of the source.
#[derive(Clone, Debug, PartialEq, Eq)]
pub struct Metadata {
    /// Whether a `;redcode` line was present.
    pub redcode: bool,
    /// What the last `;name` line says.
    pub name: Option<Vec<u8>>,
    /// What the last `;author` line says.
    pub author: Option<Vec<u8>>,
    /// What the `;strategy` lines say, one line for each.
    pub strategy: Option<Vec<u8>>,
}

/// What is known about a warrior, in contracts.
pub struct Described {
    pub redcode: bool,
    pub name: Option<Seq<u8>>,
    pub author: Option<Seq<u8>>,
    pub strategy: Option<Seq<u8>>,
}

/// A text that may be missing, in contracts.
pub open spec fn shown_text(text: Option<Vec<u8>>) -> Option<Seq<u8>> {
    match text {
        Some(text) => Some(text@),
        None => None,
    }
}

impl Metadata {
    /// What is known about the warrior, in contracts.
    pub open spec fn shown(self) -> Described {
        Described {
            redcode: self.redcode,
            name: shown_text(self.name),
            author: shown_text(self.author),
            strategy: shown_text(self.strategy),
        }
    }
}

impl Described {
    /// Nothing is known.
    pub open spec fn nothing() -> Described {
        Described { redcode: false, name: None, author: None, strategy: None }
    }
}

/// A program together with what is known about it.
#[derive(Clone, Debug, PartialEq, Eq)]
pub struct Warrior {
    pub program: Program,
    pub metadata: Metadata,
}

impl Opcode {
    /// Whether the opcode reads or writes the private storage of a warrior.
    /// These opcodes are recognised and never executed.
    pub open spec fn is_p_space(self) -> bool {
        self == Opcode::Ldp || self == Opcode::Stp
    }

    /// Whether the opcode reads or writes the private storage of a warrior.
    pub fn uses_p_space(self) -> (r: bool)
        ensures
            r == self.is_p_space(),
    {
        match self {
            Opcode::Ldp | Opcode::Stp => true,
            _ => false,
        }
    }
}

/// The modifier that an instruction has when its source names none.
pub open spec fn default_modifier(opcode: Opcode, a_mode: AddressMode, b_mode: AddressMode)
    -> Modifier {
    match opcode {
        Opcode::Dat => Modifier::F,
        Opcode::Mov | Opcode::Cmp | Opcode::Skeq | Opcode::Sne => if a_mode
            == AddressMode::Immediate {
            Modifier::AB
        } else if b_mode == AddressMode::Immediate {
            Modifier::B
        } else {
            Modifier::I
        },
        Opcode::Add | Opcode::Sub | Opcode::Mul | Opcode::Div | Opcode::Mod => if a_mode
            == AddressMode::Immediate {
            Modifier::AB
        } else if b_mode == AddressMode::Immediate {
            Modifier::B
        } else {
            Modifier::F
        },
        Opcode::Slt | Opcode::Ldp | Opcode::Stp => if a_mode == AddressMode::Immediate {
            Modifier::AB
        } else {
            Modifier::B
        },
        Opcode::Jmp | Opcode::Jmz | Opcode::Jmn | Opcode::Djn | Opcode::Spl | Opcode::Nop =>
            Modifier::B,
    }
}

impl Modifier {
    /// The modifier that an instruction has when its source names none.
    pub fn default_88_to_94(opcode: Opcode, a_mode: AddressMode, b_mode: AddressMode) -> (r:
        Modifier)
        ensures
            r == default_modifier(opcode, a_mode, b_mode),
    {
        let a_immediate = matches!(a_mode, AddressMode::Immediate);
        let b_immediate = matches!(b_mode, AddressMode::Immediate);
        match opcode {
            Opcode::Dat => Modifier::F,
            Opcode::Jmp | Opcode::Jmz | Opcode::Jmn | Opcode::Djn | Opcode::Spl | Opcode::Nop =>
                Modifier::B,
            Opcode::Slt | Opcode::Ldp | Opcode::Stp => if a_immediate {
                Modifier::AB
            } else {
                Modifier::B
            },
            Opcode::Mov | Opcode::Cmp | Opcode::Skeq | Opcode::Sne => if a_immediate {
                Modifier::AB
            } else if b_immediate {
                Modifier::B
            } else {
                Modifier::I
            },
            Opcode::Add | Opcode::Sub | Opcode::Mul | Opcode::Div | Opcode::Mod => if a_immediate {
                Modifier::AB
            } else if b_immediate {
                Modifier::B
            } else {
                Modifier::F
            },
        }
    }
}

impl Field {
    /// A field in direct mode.
    pub fn direct(value: i32) -> (r: Field)
        ensures
            r == (Field { address_mode: AddressMode::Direct, value }),
    {
        Field { address_mode: AddressMode::Direct, value }
    }

    /// A field in immediate mode.
    pub fn immediate(value: i32) -> (r: Field)
        ensures
            r == (Field { address_mode: AddressMode::Immediate, value }),
    {
        Field { address_mode: AddressMode::Immediate, value }
    }

    /// The number of the field.
    pub fn unwrap_value(&self) -> (v: i32)
        ensures
            v == self.value,
    {
        self.value
    }

    /// Replace the number of the field by the value of an offset.
    pub fn set_value(&mut self, offset: Offset)
        ensures
            final(self).value == offset.spec_value(),
            final(self).address_mode == old(self).address_mode,
    {
        self.value = offset.value();
    }

    /// The field with its number reduced to the range of a core.
    pub open spec fn normalized(self, core_size: int) -> Field {
        Field { address_mode: self.address_mode, value: (self.value as int % core_size) as i32 }
    }

}

impl Default for Field {
    fn default() -> (r: Field)
        ensures
            r == (Field { address_mode: AddressMode::Direct, value: 0 }),
    {
        Field { address_mode: AddressMode::Direct, value: 0 }
    }
}

impl Instruction {
    /// The instruction that fills a core before any warrior is loaded.
    pub open spec fn spec_default() -> Instruction {
        Instruction {
            opcode: Opcode::Dat,
            modifier: Modifier::F,
            a_field: Field { address_mode: AddressMode::Direct, value: 0 },
            b_field: Field { address_mode: AddressMode::Direct, value: 0 },
        }
    }

    /// An instruction with the modifier that its opcode and address modes
    /// call for.
    pub fn new(opcode: Opcode, a_field: Field, b_field: Field) -> (r: Instruction)
        ensures
            r == (Instruction {
                opcode,
                modifier: default_modifier(opcode, a_field.address_mode, b_field.address_mode),
                a_field,
                b_field,
            }),
    {
        let modifier = Modifier::default_88_to_94(
            opcode,
            a_field.address_mode,
            b_field.address_mode,
        );
        Instruction { opcode, modifier, a_field, b_field }
    }

    /// The instruction with the numbers of both fields reduced to the range
    /// of a core.
    pub open spec fn normalized(self, core_size: int) -> Instruction {
        Instruction {
            opcode: self.opcode,
            modifier: self.modifier,
            a_field: self.a_field.normalized(core_size),
            b_field: self.b_field.normalized(core_size),
        }
    }
}

impl Default for Instruction {
    fn default() -> (r: Instruction)
        ensures
            r == Instruction::spec_default(),
    {
        Instruction {
            opcode: Opcode::Dat,
            modifier: Modifier::F,
            a_field: Field::direct(0),
            b_field: Field::direct(0),
        }
    }
}

impl Program {
    /// Where execution starts: the origin, or the first instruction if the
    /// program names none.
    pub open spec fn spec_origin(self) -> nat {
        match self.origin {
            Some(origin) => origin as nat,
            None => 0,
        }
    }
}

impl Default for Program {
    fn default() -> (r: Program)
        ensures
            r.instructions@ == Seq::<Instruction>::empty(),
            r.origin == None::<usize>,
    {
        Program { instructions: Vec::new(), origin: None }
    }
}

impl Default for Metadata {
    fn default() -> (r: Metadata)
        ensures
            r.shown() == Described::nothing(),
    {
        Metadata { redcode: false, name: None, author: None, strategy: None }
    }
}

impl Warrior {
    /// The number of instructions of the warrior.
    pub fn len(&self) -> (n: usize)
        ensures
            n == self.program.instructions@.len(),
    {
        self.program.instructions.len()
    }

    /// Whether the warrior has no instruction at all.
    pub fn is_empty(&self) -> (r: bool)
        ensures
            r == (self.program.instructions@.len() == 0),
    {
        self.program.instructions.len() == 0
    }
}

impl Default for Warrior {
    fn default() -> (r: Warrior)
        ensures
            r.program.instructions@ == Seq::<Instruction>::empty(),
            r.program.origin == None::<usize>,
            r.metadata.shown() == Described::nothing(),
    {
        Warrior { program: Program::default(), metadata: Metadata::default() }
    }
}

} // verus!
