//! The load file: the text that a resolved program is written down as.
//!
//! The first line holds `ORG` and the origin. Each line after it holds
//! one instruction: the opcode, a dot and the modifier, filled up with
//! blanks to eight characters, and then the two fields with a comma and a
//! blank between them. A field is the sign of its address mode and its
//! number.

use vstd::prelude::*;
use vstd::string::StringSliceAdditionalSpecFns;

use crate::load_file::{AddressMode, Field, Instruction, Modifier, Opcode, Program, Warrior};
use crate::parser::grammar::ascii;
use crate::parser::phase::text::{append, digits_of, write_number};

verus! {

/// How wide the column of the opcodes is.
pub const COLUMN: usize = 8;

/// The name of an opcode.
pub open spec fn opcode_name(opcode: Opcode) -> Seq<u8> {
    match opcode {
        Opcode::Dat => "DAT".spec_bytes(),
        Opcode::Mov => "MOV".spec_bytes(),
        Opcode::Add => "ADD".spec_bytes(),
        Opcode::Sub => "SUB".spec_bytes(),
        Opcode::Mul => "MUL".spec_bytes(),
        Opcode::Div => "DIV".spec_bytes(),
        Opcode::Mod => "MOD".spec_bytes(),
        Opcode::Jmp => "JMP".spec_bytes(),
        Opcode::Jmz => "JMZ".spec_bytes(),
        Opcode::Jmn => "JMN".spec_bytes(),
        Opcode::Djn => "DJN".spec_bytes(),
        Opcode::Cmp => "CMP".spec_bytes(),
        Opcode::Skeq => "SEQ".spec_bytes(),
        Opcode::Sne => "SNE".spec_bytes(),
        Opcode::Slt => "SLT".spec_bytes(),
        Opcode::Spl => "SPL".spec_bytes(),
        Opcode::Nop => "NOP".spec_bytes(),
        Opcode::Ldp => "LDP".spec_bytes(),
        Opcode::Stp => "STP".spec_bytes(),
    }
}

/// The name of a modifier.
pub open spec fn modifier_name(modifier: Modifier) -> Seq<u8> {
    match modifier {
        Modifier::A => "A".spec_bytes(),
        Modifier::B => "B".spec_bytes(),
        Modifier::AB => "AB".spec_bytes(),
        Modifier::BA => "BA".spec_bytes(),
        Modifier::F => "F".spec_bytes(),
        Modifier::X => "X".spec_bytes(),
        Modifier::I => "I".spec_bytes(),
    }
}

/// The sign of an address mode.
pub open spec fn sign_of(mode: AddressMode) -> u8 {
    match mode {
        AddressMode::Immediate => ascii::HASH,
        AddressMode::Direct => ascii::DOLLAR,
        AddressMode::IndirectA => ascii::STAR,
        AddressMode::IndirectB => ascii::AT,
        AddressMode::PreDecIndirectA => ascii::OPEN_BRACE,
        AddressMode::PreDecIndirectB => ascii::LESS,
        AddressMode::PostIncIndirectA => ascii::CLOSE_BRACE,
        AddressMode::PostIncIndirectB => ascii::GREATER,
    }
}

/// A number as it is written: its digits, behind a `-` if it is negative.
pub open spec fn written_number(value: i32) -> Seq<u8> {
    if value < 0 {
        seq![ascii::MINUS] + digits_of((-value) as nat)
    } else {
        digits_of(value as nat)
    }
}

/// A field as it is written.
pub open spec fn written_field(field: Field) -> Seq<u8> {
    seq![sign_of(field.address_mode)] + written_number(field.value)
}

/// A text filled up with blanks to the width of the column of opcodes.
pub open spec fn filled(text: Seq<u8>) -> Seq<u8> {
    if text.len() < COLUMN {
        text + Seq::new((COLUMN - text.len()) as nat, |i: int| ascii::SPACE)
    } else {
        text
    }
}

/// An instruction as it is written.
pub open spec fn written_instruction(instruction: Instruction) -> Seq<u8> {
    filled(opcode_name(instruction.opcode) + seq![ascii::DOT] + modifier_name(instruction.modifier))
        + written_field(instruction.a_field) + seq![ascii::COMMA, ascii::SPACE] + written_field(
        instruction.b_field,
    )
}

/// The first `count` instructions as they are written, each on a line.
pub open spec fn written_lines(instructions: Seq<Instruction>, count: nat) -> Seq<u8>
    decreases count,
{
    if count == 0 || count > instructions.len() {
        Seq::empty()
    } else {
        written_lines(instructions, (count - 1) as nat) + written_instruction(
            instructions[count - 1],
        ) + seq![ascii::NEWLINE]
    }
}

/// The load file of a program.
pub open spec fn listing(instructions: Seq<Instruction>, origin: nat) -> Seq<u8> {
    filled("ORG".spec_bytes()) + digits_of(origin) + seq![ascii::NEWLINE] + written_lines(
        instructions,
        instructions.len(),
    )
}

/// The name of an opcode.
pub fn name_of_opcode(opcode: Opcode) -> (r: &'static str)
    ensures
        r.spec_bytes() == opcode_name(opcode),
{
    match opcode {
        Opcode::Dat => "DAT",
        Opcode::Mov => "MOV",
        Opcode::Add => "ADD",
        Opcode::Sub => "SUB",
        Opcode::Mul => "MUL",
        Opcode::Div => "DIV",
        Opcode::Mod => "MOD",
        Opcode::Jmp => "JMP",
        Opcode::Jmz => "JMZ",
        Opcode::Jmn => "JMN",
        Opcode::Djn => "DJN",
        Opcode::Cmp => "CMP",
        Opcode::Skeq => "SEQ",
        Opcode::Sne => "SNE",
        Opcode::Slt => "SLT",
        Opcode::Spl => "SPL",
        Opcode::Nop => "NOP",
        Opcode::Ldp => "LDP",
        Opcode::Stp => "STP",
    }
}

/// The name of a modifier.
pub fn name_of_modifier(modifier: Modifier) -> (r: &'static str)
    ensures
        r.spec_bytes() == modifier_name(modifier),
{
    match modifier {
        Modifier::A => "A",
        Modifier::B => "B",
        Modifier::AB => "AB",
        Modifier::BA => "BA",
        Modifier::F => "F",
        Modifier::X => "X",
        Modifier::I => "I",
    }
}

/// The sign of an address mode.
pub fn sign(mode: AddressMode) -> (r: u8)
    ensures
        r == sign_of(mode),
{
    match mode {
        AddressMode::Immediate => ascii::HASH,
        AddressMode::Direct => ascii::DOLLAR,
        AddressMode::IndirectA => ascii::STAR,
        AddressMode::IndirectB => ascii::AT,
        AddressMode::PreDecIndirectA => ascii::OPEN_BRACE,
        AddressMode::PreDecIndirectB => ascii::LESS,
        AddressMode::PostIncIndirectA => ascii::CLOSE_BRACE,
        AddressMode::PostIncIndirectB => ascii::GREATER,
    }
}

/// Write a text at the end of `out`.
fn write_text(out: &mut Vec<u8>, text: &str)
    ensures
        final(out)@ == old(out)@ + text.spec_bytes(),
{
    let bytes = text.as_bytes();
    append(out, bytes, 0, bytes.len());
    proof {
        assert(bytes@.subrange(0, bytes@.len() as int) =~= bytes@);
    }
}

/// Write blanks at the end of `out`, as many as the text from `start` on
/// lacks to the width of the column of opcodes.
fn fill(out: &mut Vec<u8>, start: usize)
    requires
        start <= old(out)@.len(),
    ensures
        final(out)@ == old(out)@.take(start as int) + filled(old(out)@.skip(start as int)),
{
    let ghost text = out@.skip(start as int);
    proof {
        assert(out@ =~= out@.take(start as int) + text);
    }
    while out.len() - start < COLUMN
        invariant
            start <= old(out)@.len() <= out@.len(),
            text == old(out)@.skip(start as int),
            out@.len() - start <= COLUMN || out@ == old(out)@,
            out@ == old(out)@.take(start as int) + text + Seq::new(
                (out@.len() - old(out)@.len()) as nat,
                |i: int| ascii::SPACE,
            ),
        decreases COLUMN + start - out@.len(),
    {
        out.push(ascii::SPACE);
        proof {
            assert(out@ =~= old(out)@.take(start as int) + text + Seq::new(
                (out@.len() - old(out)@.len()) as nat,
                |i: int| ascii::SPACE,
            ));
        }
    }
    proof {
        if text.len() >= COLUMN {
            assert(out@ =~= old(out)@.take(start as int) + text);
        }
    }
}

impl Field {
    /// Write the field at the end of `out`.
    pub fn write(&self, out: &mut Vec<u8>)
        ensures
            final(out)@ == old(out)@ + written_field(*self),
    {
        out.push(sign(self.address_mode));
        if self.value < 0 {
            out.push(ascii::MINUS);
            write_number(out, (-(self.value as i64)) as u64);
        } else {
            write_number(out, self.value as u64);
        }
        proof {
            assert(out@ =~= old(out)@ + written_field(*self));
        }
    }
}

impl Instruction {
    /// Write the instruction at the end of `out`.
    pub fn write(&self, out: &mut Vec<u8>)
        ensures
            final(out)@ == old(out)@ + written_instruction(*self),
    {
        let start: usize = out.len();
        write_text(out, name_of_opcode(self.opcode));
        out.push(ascii::DOT);
        write_text(out, name_of_modifier(self.modifier));
        proof {
            assert(out@.take(start as int) =~= old(out)@);
            assert(out@.skip(start as int) =~= opcode_name(self.opcode) + seq![ascii::DOT]
                + modifier_name(self.modifier));
        }
        fill(out, start);
        let ghost operation = out@;
        self.a_field.write(out);
        out.push(ascii::COMMA);
        out.push(ascii::SPACE);
        self.b_field.write(out);
        proof {
            assert(out@ =~= operation + written_field(self.a_field) + seq![
                ascii::COMMA,
                ascii::SPACE,
            ] + written_field(self.b_field));
            assert(out@ =~= old(out)@ + written_instruction(*self));
        }
    }

    /// The instruction as it is written in a load file.
    pub fn dump(&self) -> (r: Vec<u8>)
        ensures
            r@ == written_instruction(*self),
    {
        let mut out: Vec<u8> = Vec::new();
        self.write(&mut out);
        proof {
            assert(Seq::<u8>::empty() + written_instruction(*self) =~= written_instruction(*self));
        }
        out
    }
}

impl Program {
    /// The load file of the program.
    pub fn dump(&self) -> (r: Vec<u8>)
        ensures
            r@ == listing(self.instructions@, self.spec_origin()),
    {
        let mut out: Vec<u8> = Vec::new();
        write_text(&mut out, "ORG");
        proof {
            assert(out@.take(0) =~= Seq::<u8>::empty());
            assert(out@.skip(0) =~= "ORG".spec_bytes());
        }
        fill(&mut out, 0);
        let origin: usize = match self.origin {
            Some(origin) => origin,
            None => 0,
        };
        write_number(&mut out, origin as u64);
        out.push(ascii::NEWLINE);
        let ghost head = out@;
        proof {
            assert(head =~= filled("ORG".spec_bytes()) + digits_of(origin as nat) + seq![
                ascii::NEWLINE,
            ]);
        }
        let mut i: usize = 0;
        while i < self.instructions.len()
            invariant
                0 <= i <= self.instructions@.len(),
                out@ == head + written_lines(self.instructions@, i as nat),
            decreases self.instructions@.len() - i,
        {
            self.instructions[i].write(&mut out);
            out.push(ascii::NEWLINE);
            i = i + 1;
            proof {
                assert(out@ =~= head + written_lines(self.instructions@, i as nat));
            }
        }
        out
    }
}

impl Warrior {
    /// The load file of the warrior.
    pub fn dump(&self) -> (r: Vec<u8>)
        ensures
            r@ == listing(self.program.instructions@, self.program.spec_origin()),
    {
        self.program.dump()
    }
}

} // verus!
