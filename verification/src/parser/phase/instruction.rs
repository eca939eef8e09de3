//! From the tree of an instruction to the instruction.

use vstd::prelude::*;

use crate::load_file::{default_modifier, AddressMode, Field, Instruction, Modifier, Opcode};
use crate::parser::error::{Error, ErrorKind};
use crate::parser::grammar::ascii;
use crate::parser::grammar::expression::EXPRESSION;
use crate::parser::grammar::lexical::{keyword_at, keyword_of, lower, to_lower, Keyword};
use crate::parser::grammar::{lemma_inner_trees, Pair, Rule, Tree};
use crate::parser::phase::evaluation::expression::{bounds, evaluate, value_of, Binding, Bound};
use crate::parser::phase::expansion::{lies_in, spans};

verus! {

/// The address mode that a sign stands for.
pub open spec fn mode_of(sign: u8) -> Option<AddressMode> {
    if sign == ascii::HASH {
        Some(AddressMode::Immediate)
    } else if sign == ascii::DOLLAR {
        Some(AddressMode::Direct)
    } else if sign == ascii::STAR {
        Some(AddressMode::IndirectA)
    } else if sign == ascii::AT {
        Some(AddressMode::IndirectB)
    } else if sign == ascii::OPEN_BRACE {
        Some(AddressMode::PreDecIndirectA)
    } else if sign == ascii::LESS {
        Some(AddressMode::PreDecIndirectB)
    } else if sign == ascii::CLOSE_BRACE {
        Some(AddressMode::PostIncIndirectA)
    } else if sign == ascii::GREATER {
        Some(AddressMode::PostIncIndirectB)
    } else {
        None
    }
}

/// The modifier that a lower-case letter spells.
pub open spec fn modifier_of(letter: u8) -> Option<Modifier> {
    if letter == ascii::A {
        Some(Modifier::A)
    } else if letter == ascii::B {
        Some(Modifier::B)
    } else if letter == ascii::F {
        Some(Modifier::F)
    } else if letter == ascii::X {
        Some(Modifier::X)
    } else if letter == ascii::I {
        Some(Modifier::I)
    } else {
        None
    }
}

/// The modifier that two lower-case letters spell.
pub open spec fn modifier_of_two(first: u8, second: u8) -> Option<Modifier> {
    if first == ascii::A && second == ascii::B {
        Some(Modifier::AB)
    } else if first == ascii::B && second == ascii::A {
        Some(Modifier::BA)
    } else {
        None
    }
}

/// The modifier that the text of a tree spells.
pub open spec fn modifier_at(tree: Tree, s: Seq<u8>) -> Option<Modifier> {
    if !spans(tree, s) {
        None
    } else if tree.end - tree.start == 1 {
        modifier_of(lower(s[tree.start]))
    } else if tree.end - tree.start == 2 {
        modifier_of_two(lower(s[tree.start]), lower(s[tree.start + 1]))
    } else {
        None
    }
}

/// The opcode that the text of a tree spells.
pub open spec fn opcode_at(tree: Tree, s: Seq<u8>) -> Option<Opcode> {
    match keyword_at(s, tree.start, tree.end) {
        Some(Keyword::Operation(opcode)) => if spans(tree, s) {
            Some(opcode)
        } else {
            None
        },
        _ => None,
    }
}

/// An error at the beginning of a tree.
pub open spec fn fault(kind: ErrorKind, tree: Tree) -> Error {
    Error::at(kind, tree.start)
}

/// The field that the tree of a field stands for on the line of the
/// instruction `line`. A field without a sign is direct.
pub open spec fn field_of(tree: Tree, s: Seq<u8>, scope: Seq<Bound>, line: i32) -> Result<
    Field,
    Error,
> {
    let sign = tree.inner[0];
    if tree.rule != Rule::Field || !(1 <= tree.inner.len() <= 2) {
        Err(fault(ErrorKind::Malformed, tree))
    } else if tree.inner.len() == 1 {
        match value_of(tree.inner[0], s, scope, line, EXPRESSION) {
            Ok(value) => Ok(Field { address_mode: AddressMode::Direct, value }),
            Err(error) => Err(error),
        }
    } else if sign.rule != Rule::AddressMode || !(0 <= sign.start < s.len()) || mode_of(
        s[sign.start],
    ).is_none() {
        Err(fault(ErrorKind::Malformed, sign))
    } else {
        match value_of(tree.inner[1], s, scope, line, EXPRESSION) {
            Ok(value) => Ok(Field { address_mode: mode_of(s[sign.start]).unwrap(), value }),
            Err(error) => Err(error),
        }
    }
}

/// The opcode and the modifier, if one is given, that the tree of an
/// operation stands for.
pub open spec fn operation_of(tree: Tree, s: Seq<u8>) -> Result<(Opcode, Option<Modifier>), Error> {
    if tree.rule != Rule::Operation || !(1 <= tree.inner.len() <= 2) {
        Err(fault(ErrorKind::Malformed, tree))
    } else {
        match opcode_at(tree.inner[0], s) {
            None => Err(fault(ErrorKind::Malformed, tree)),
            Some(opcode) => if opcode.is_p_space() {
                Err(fault(ErrorKind::UnsupportedOpcode, tree))
            } else if tree.inner.len() == 1 {
                Ok((opcode, None))
            } else {
                match modifier_at(tree.inner[1], s) {
                    None => Err(fault(ErrorKind::Malformed, tree.inner[1])),
                    Some(modifier) => Ok((opcode, Some(modifier))),
                }
            },
        }
    }
}

/// The fields of an instruction of which the source gives one. With `DAT`
/// it is the second field, and the first is `#0`. With `JMP`, `SPL` and
/// `NOP` it is the first, and the second is `$0`. The other opcodes need
/// both fields.
pub open spec fn completed(opcode: Opcode, given: Field) -> Option<(Field, Field)> {
    match opcode {
        Opcode::Dat => Some((Field { address_mode: AddressMode::Immediate, value: 0 }, given)),
        Opcode::Jmp | Opcode::Spl | Opcode::Nop => Some(
            (given, Field { address_mode: AddressMode::Direct, value: 0 }),
        ),
        _ => None,
    }
}

/// The instruction that the tree of an instruction stands for on the line
/// of the instruction `line`. Where the source names no modifier, the
/// instruction has the one that its opcode and address modes call for.
pub open spec fn instruction_of(tree: Tree, s: Seq<u8>, scope: Seq<Bound>, line: i32) -> Result<
    Instruction,
    Error,
> {
    if tree.rule != Rule::Instruction || !(2 <= tree.inner.len() <= 3) {
        Err(fault(ErrorKind::Malformed, tree))
    } else {
        match operation_of(tree.inner[0], s) {
            Err(error) => Err(error),
            Ok((opcode, modifier)) => match field_of(tree.inner[1], s, scope, line) {
                Err(error) => Err(error),
                Ok(first) => {
                    let fields: Result<(Field, Field), Error> = if tree.inner.len() == 3 {
                        match field_of(tree.inner[2], s, scope, line) {
                            Err(error) => Err(error),
                            Ok(second) => Ok((first, second)),
                        }
                    } else {
                        match completed(opcode, first) {
                            Some(both) => Ok(both),
                            None => Err(Error::at(ErrorKind::MissingField, tree.end)),
                        }
                    };
                    match fields {
                        Err(error) => Err(error),
                        Ok((a_field, b_field)) => Ok(
                            Instruction {
                                opcode,
                                modifier: match modifier {
                                    Some(modifier) => modifier,
                                    None => default_modifier(
                                        opcode,
                                        a_field.address_mode,
                                        b_field.address_mode,
                                    ),
                                },
                                a_field,
                                b_field,
                            },
                        ),
                    }
                },
            },
        }
    }
}

/// The address mode that a sign stands for.
pub fn read_mode(sign: u8) -> (r: Option<AddressMode>)
    ensures
        r == mode_of(sign),
{
    if sign == ascii::HASH {
        Some(AddressMode::Immediate)
    } else if sign == ascii::DOLLAR {
        Some(AddressMode::Direct)
    } else if sign == ascii::STAR {
        Some(AddressMode::IndirectA)
    } else if sign == ascii::AT {
        Some(AddressMode::IndirectB)
    } else if sign == ascii::OPEN_BRACE {
        Some(AddressMode::PreDecIndirectA)
    } else if sign == ascii::LESS {
        Some(AddressMode::PreDecIndirectB)
    } else if sign == ascii::CLOSE_BRACE {
        Some(AddressMode::PostIncIndirectA)
    } else if sign == ascii::GREATER {
        Some(AddressMode::PostIncIndirectB)
    } else {
        None
    }
}

/// The modifier that the text of a pair spells.
pub fn read_modifier(pair: &Pair, s: &[u8]) -> (r: Option<Modifier>)
    ensures
        r == modifier_at(pair.tree(), s@),
{
    proof {
        lemma_inner_trees(*pair);
    }
    if !lies_in(pair, s) {
        return None;
    }
    let length: usize = pair.end - pair.start;
    if length == 1 {
        let letter: u8 = to_lower(s[pair.start]);
        if letter == ascii::A {
            Some(Modifier::A)
        } else if letter == ascii::B {
            Some(Modifier::B)
        } else if letter == ascii::F {
            Some(Modifier::F)
        } else if letter == ascii::X {
            Some(Modifier::X)
        } else if letter == ascii::I {
            Some(Modifier::I)
        } else {
            None
        }
    } else if length == 2 {
        let first: u8 = to_lower(s[pair.start]);
        let second: u8 = to_lower(s[pair.start + 1]);
        if first == ascii::A && second == ascii::B {
            Some(Modifier::AB)
        } else if first == ascii::B && second == ascii::A {
            Some(Modifier::BA)
        } else {
            None
        }
    } else {
        None
    }
}

/// The opcode that the text of a pair spells.
pub fn read_opcode(pair: &Pair, s: &[u8]) -> (r: Option<Opcode>)
    ensures
        r == opcode_at(pair.tree(), s@),
{
    proof {
        lemma_inner_trees(*pair);
    }
    if !lies_in(pair, s) {
        return None;
    }
    match keyword_of(s, pair.start, pair.end) {
        Some(Keyword::Operation(opcode)) => Some(opcode),
        _ => None,
    }
}

/// The field that the pair of a field stands for on the line of the
/// instruction `line`.
pub fn read_field(pair: &Pair, s: &[u8], bindings: &[Binding], line: i32) -> (r: Result<
    Field,
    Error,
>)
    ensures
        r == field_of(pair.tree(), s@, bounds(bindings@), line),
{
    proof {
        lemma_inner_trees(*pair);
    }
    let n: usize = pair.inner.len();
    if !matches!(pair.rule, Rule::Field) || !(1 <= n && n <= 2) {
        return Err(Error::new(ErrorKind::Malformed, pair.start));
    }
    proof {
        assert(pair.tree().inner[0] == pair.inner@[0].tree());
        lemma_inner_trees(pair.inner@[0]);
    }
    if n == 1 {
        return match evaluate(&pair.inner[0], s, bindings, line) {
            Ok(value) => Ok(Field { address_mode: AddressMode::Direct, value }),
            Err(error) => Err(error),
        };
    }
    proof {
        assert(pair.tree().inner[1] == pair.inner@[1].tree());
    }
    let sign = &pair.inner[0];
    if !matches!(sign.rule, Rule::AddressMode) || sign.start >= s.len() {
        return Err(Error::new(ErrorKind::Malformed, sign.start));
    }
    let address_mode = match read_mode(s[sign.start]) {
        Some(mode) => mode,
        None => {
            return Err(Error::new(ErrorKind::Malformed, sign.start));
        },
    };
    match evaluate(&pair.inner[1], s, bindings, line) {
        Ok(value) => Ok(Field { address_mode, value }),
        Err(error) => Err(error),
    }
}

/// The opcode and the modifier, if one is given, that the pair of an
/// operation stands for.
pub fn read_operation(pair: &Pair, s: &[u8]) -> (r: Result<(Opcode, Option<Modifier>), Error>)
    ensures
        r == operation_of(pair.tree(), s@),
{
    proof {
        lemma_inner_trees(*pair);
    }
    let n: usize = pair.inner.len();
    if !matches!(pair.rule, Rule::Operation) || !(1 <= n && n <= 2) {
        return Err(Error::new(ErrorKind::Malformed, pair.start));
    }
    proof {
        assert(pair.tree().inner[0] == pair.inner@[0].tree());
    }
    let opcode = match read_opcode(&pair.inner[0], s) {
        Some(opcode) => opcode,
        None => {
            return Err(Error::new(ErrorKind::Malformed, pair.start));
        },
    };
    if opcode.uses_p_space() {
        return Err(Error::new(ErrorKind::UnsupportedOpcode, pair.start));
    }
    if n == 1 {
        return Ok((opcode, None));
    }
    proof {
        assert(pair.tree().inner[1] == pair.inner@[1].tree());
        lemma_inner_trees(pair.inner@[1]);
    }
    match read_modifier(&pair.inner[1], s) {
        Some(modifier) => Ok((opcode, Some(modifier))),
        None => Err(Error::new(ErrorKind::Malformed, pair.inner[1].start)),
    }
}

/// The fields of an instruction of which the source gives one.
pub fn complete(opcode: Opcode, given: Field) -> (r: Option<(Field, Field)>)
    ensures
        r == completed(opcode, given),
{
    match opcode {
        Opcode::Dat => Some((Field::immediate(0), given)),
        Opcode::Jmp | Opcode::Spl | Opcode::Nop => Some((given, Field::direct(0))),
        _ => None,
    }
}

/// The instruction that the pair of an instruction stands for on the line
/// of the instruction `line`.
pub fn read_instruction(pair: &Pair, s: &[u8], bindings: &[Binding], line: i32) -> (r: Result<
    Instruction,
    Error,
>)
    ensures
        r == instruction_of(pair.tree(), s@, bounds(bindings@), line),
{
    proof {
        lemma_inner_trees(*pair);
    }
    let n: usize = pair.inner.len();
    if !matches!(pair.rule, Rule::Instruction) || !(2 <= n && n <= 3) {
        return Err(Error::new(ErrorKind::Malformed, pair.start));
    }
    proof {
        assert(pair.tree().inner[0] == pair.inner@[0].tree());
        assert(pair.tree().inner[1] == pair.inner@[1].tree());
    }
    let (opcode, modifier) = match read_operation(&pair.inner[0], s) {
        Ok(found) => found,
        Err(error) => {
            return Err(error);
        },
    };
    let first = match read_field(&pair.inner[1], s, bindings, line) {
        Ok(field) => field,
        Err(error) => {
            return Err(error);
        },
    };
    let (a_field, b_field) = if n == 3 {
        proof {
            assert(pair.tree().inner[2] == pair.inner@[2].tree());
        }
        match read_field(&pair.inner[2], s, bindings, line) {
            Ok(second) => (first, second),
            Err(error) => {
                return Err(error);
            },
        }
    } else {
        match complete(opcode, first) {
            Some(both) => both,
            None => {
                return Err(Error::new(ErrorKind::MissingField, pair.end));
            },
        }
    };
    match modifier {
        Some(modifier) => Ok(Instruction { opcode, modifier, a_field, b_field }),
        None => Ok(Instruction::new(opcode, a_field, b_field)),
    }
}

} // verus!
