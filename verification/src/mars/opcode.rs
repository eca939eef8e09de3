//! What each opcode does in a simulation step.

use vstd::prelude::*;

use crate::load_file::{Instruction, Modifier, Offset, Opcode};
use crate::mars::address::{resolve, resolve_operand, Side};
use crate::mars::process::Error;
use crate::mars::Core;

verus! {

/// What an instruction asks of the scheduler after it was executed.
#[derive(Copy, Clone, Debug, PartialEq, Eq, Structural)]
pub struct Executed {
    /// How far the thread moves on. Without it the thread goes to the next
    /// cell.
    pub program_counter_offset: Option<Offset>,
    /// Whether a new thread is to be started.
    pub should_split: bool,
}

/// Whether two opcodes are the same.
pub fn same_opcode(a: Opcode, b: Opcode) -> (r: bool)
    ensures
        r == (a == b),
{
    a == b
}

/// The number that an opcode writes for a pair of numbers, `a` from the
/// A-operand and `b` from the B-operand, in a core of `size` cells. Opcodes
/// that write no number give none, and so does a division by zero.
pub open spec fn combine(opcode: Opcode, a: int, b: int, size: int) -> Option<int> {
    match opcode {
        Opcode::Mov => Some(a),
        Opcode::Add => Some((a + b) % size),
        Opcode::Sub => Some((b - a) % size),
        Opcode::Mul => Some((a * b) % size),
        Opcode::Div => if b == 0 {
            None
        } else {
            Some((a / b) % size)
        },
        Opcode::Mod => if b == 0 {
            None
        } else {
            Some((a % b) % size)
        },
        Opcode::Djn => Some((b - 1) % size),
        _ => None,
    }
}

/// Whether an opcode fails on a pair of numbers: a division by zero.
pub open spec fn fails(opcode: Opcode, b: int) -> bool {
    (opcode == Opcode::Div || opcode == Opcode::Mod) && b == 0
}

/// What an opcode that tests its operands finds of one pair of numbers.
pub open spec fn test(opcode: Opcode, a: int, b: int, size: int) -> bool {
    match opcode {
        Opcode::Cmp | Opcode::Skeq => a == b,
        Opcode::Sne => a != b,
        Opcode::Slt => a < b,
        Opcode::Jmz => b == 0,
        Opcode::Jmn => b != 0,
        Opcode::Djn => (b - 1) % size != 0,
        _ => false,
    }
}

/// Whether a testing opcode acts only if the test holds of every selected
/// pair. The other testing opcodes act if it holds of one.
pub open spec fn wants_all(opcode: Opcode) -> bool {
    opcode == Opcode::Cmp || opcode == Opcode::Skeq || opcode == Opcode::Slt
}

/// Whether the test of an opcode holds of its operands, under a modifier.
/// With `I` the comparing opcodes look at the whole instructions.
pub open spec fn holds(
    opcode: Opcode,
    modifier: Modifier,
    a: Instruction,
    b: Instruction,
    size: int,
) -> bool {
    let (first, second) = modifier.selected();
    let one = test(opcode, a.number(first.0, size), b.number(first.1, size), size);
    if modifier == Modifier::I && (opcode == Opcode::Cmp || opcode == Opcode::Skeq) {
        a == b
    } else if modifier == Modifier::I && opcode == Opcode::Sne {
        a != b
    } else {
        match second {
            None => one,
            Some(second) => {
                let other = test(opcode, a.number(second.0, size), b.number(second.1, size), size);
                if wants_all(opcode) {
                    one && other
                } else {
                    one || other
                }
            },
        }
    }
}

/// The cells after an opcode wrote what it makes of one pair of fields
/// into the cell `at`.
pub open spec fn written(
    cells: Seq<Instruction>,
    at: int,
    opcode: Opcode,
    a: Instruction,
    b: Instruction,
    pair: (Side, Side),
) -> Seq<Instruction> {
    let size = cells.len() as int;
    match combine(opcode, a.number(pair.0, size), b.number(pair.1, size), size) {
        Some(number) => cells.update(at, cells[at].with_number(pair.1, number)),
        None => cells,
    }
}

/// The cells after an opcode has written under a modifier. With `I`, `MOV`
/// copies the whole A-operand.
pub open spec fn committed(
    cells: Seq<Instruction>,
    at: int,
    opcode: Opcode,
    modifier: Modifier,
    a: Instruction,
    b: Instruction,
) -> Seq<Instruction> {
    let (first, second) = modifier.selected();
    if modifier == Modifier::I && opcode == Opcode::Mov {
        cells.update(at, a)
    } else {
        let once = written(cells, at, opcode, a, b, first);
        match second {
            None => once,
            Some(second) => written(once, at, opcode, a, b, second),
        }
    }
}

/// Whether an opcode fails on its operands under a modifier.
pub open spec fn fails_under(
    opcode: Opcode,
    modifier: Modifier,
    b: Instruction,
    size: int,
) -> bool {
    let (first, second) = modifier.selected();
    fails(opcode, b.number(first.1, size)) || match second {
        None => false,
        Some(second) => fails(opcode, b.number(second.1, size)),
    }
}

/// How far the thread moves on after an opcode that succeeded; none where
/// it goes to the next cell. `jump` is the distance to the cell that the
/// A-operand points to.
pub open spec fn moves(opcode: Opcode, holds: bool, jump: Offset, skip: Offset) -> Option<Offset> {
    match opcode {
        Opcode::Jmp | Opcode::Spl => Some(jump),
        Opcode::Jmz | Opcode::Jmn | Opcode::Djn => if holds {
            Some(jump)
        } else {
            None
        },
        Opcode::Cmp | Opcode::Skeq | Opcode::Sne | Opcode::Slt => if holds {
            Some(skip)
        } else {
            None
        },
        _ => None,
    }
}

/// Executing the instruction in the cell `pc`: the cells afterwards and
/// what the scheduler is told.
///
/// The A-operand is evaluated first, then the B-operand; each leaves in the
/// cells what its address mode does. `DAT` then ends the thread. The other
/// opcodes write into the cell that the B-operand points to, test their
/// operands, or both. A division by zero ends the thread after the pairs
/// with another divisor were written.
pub open spec fn spec_execute(cells: Seq<Instruction>, pc: int) -> (
    Seq<Instruction>,
    Result<Executed, Error>,
) {
    let size = cells.len() as int;
    let instruction = cells[pc];
    let opcode = instruction.opcode;
    let modifier = instruction.modifier;
    let (cells_a, a_pointer, a) = resolve(cells, pc, instruction.a_field);
    let (cells_b, b_pointer, b) = resolve(cells_a, pc, instruction.b_field);
    let jump = Offset::spec_new(a_pointer - pc, size);
    let skip = Offset::spec_new(2, size);
    let outcome = if opcode == Opcode::Dat {
        Err(Error::ExecuteDat(Offset::spec_new(pc, size)))
    } else if fails_under(opcode, modifier, b, size) {
        Err(Error::DivideByZero)
    } else {
        Ok(
            Executed {
                program_counter_offset: moves(
                    opcode,
                    holds(opcode, modifier, a, b, size),
                    jump,
                    skip,
                ),
                should_split: opcode == Opcode::Spl,
            },
        )
    };
    (committed(cells_b, b_pointer, opcode, modifier, a, b), outcome)
}

/// The number that an opcode writes for a pair of numbers, if any.
fn combined(opcode: Opcode, a: Offset, b: Offset) -> (r: Option<Offset>)
    requires
        a.modulus() == b.modulus(),
    ensures
        match r {
            Some(number) => combine(opcode, a.spec_value(), b.spec_value(), a.modulus()) == Some(
                number.spec_value(),
            ) && number.modulus() == a.modulus(),
            None => combine(opcode, a.spec_value(), b.spec_value(), a.modulus()).is_none(),
        },
{
    proof {
        use_type_invariant(&a);
        use_type_invariant(&b);
        vstd::arithmetic::div_mod::lemma_sub_mod_noop_right(
            b.spec_value(),
            1,
            b.modulus(),
        );
    }
    match opcode {
        Opcode::Mov => Some(a),
        Opcode::Add => Some(a + b),
        Opcode::Sub => Some(b - a),
        Opcode::Mul => Some(a * b),
        Opcode::Div => if b.value() == 0 {
            None
        } else {
            Some(a / b)
        },
        Opcode::Mod => if b.value() == 0 {
            None
        } else {
            Some(a % b)
        },
        Opcode::Djn => Some(b - 1),
        _ => None,
    }
}

/// What a testing opcode finds of one pair of numbers.
fn tested(opcode: Opcode, a: Offset, b: Offset) -> (r: bool)
    requires
        a.modulus() == b.modulus(),
    ensures
        r == test(opcode, a.spec_value(), b.spec_value(), a.modulus()),
{
    proof {
        use_type_invariant(&a);
        use_type_invariant(&b);
        vstd::arithmetic::div_mod::lemma_sub_mod_noop_right(
            b.spec_value(),
            1,
            b.modulus(),
        );
    }
    match opcode {
        Opcode::Cmp | Opcode::Skeq => a.value() == b.value(),
        Opcode::Sne => a.value() != b.value(),
        Opcode::Slt => a.value() < b.value(),
        Opcode::Jmz => b.value() == 0,
        Opcode::Jmn => b.value() != 0,
        Opcode::Djn => (b - 1).value() != 0,
        _ => false,
    }
}

/// Let an opcode work on one pair of fields: write what it makes of them
/// into the cell `at`, and report its test and whether it failed.
fn run_on_fields(
    core: &mut Core,
    at: Offset,
    opcode: Opcode,
    a: &Instruction,
    b: &Instruction,
    pair: (Side, Side),
) -> (r: (bool, bool))
    requires
        old(core).wf(),
        at.modulus() == old(core).size(),
    ensures
        final(core).wf(),
        final(core).same_but_cells(*old(core)),
        final(core).cells() == written(old(core).cells(), at.spec_value(), opcode, *a, *b, pair),
        r.0 == test(
            opcode,
            a.number(pair.0, old(core).size()),
            b.number(pair.1, old(core).size()),
            old(core).size(),
        ),
        r.1 == fails(opcode, b.number(pair.1, old(core).size())),
{
    let size: i32 = core.len();
    proof {
        use_type_invariant(&at);
    }
    let a_number = a.offset_of(pair.0, size);
    let b_number = b.offset_of(pair.1, size);
    let failed = (same_opcode(opcode, Opcode::Div) || same_opcode(opcode, Opcode::Mod))
        && b_number.value() == 0;
    if let Some(number) = combined(opcode, a_number, b_number) {
        let mut cell: Instruction = *core.get_offset(at);
        cell.set_number(pair.1, number);
        core.set_offset(at, cell);
    }
    (tested(opcode, a_number, b_number), failed)
}

/// Execute the instruction at the program counter. The core keeps what the
/// instruction wrote; the result tells the scheduler where the thread goes
/// on, or why it ended.
pub fn execute(core: &mut Core, program_counter: Offset) -> (r: Result<Executed, Error>)
    requires
        old(core).wf(),
        program_counter.modulus() == old(core).size(),
    ensures
        final(core).wf(),
        final(core).same_but_cells(*old(core)),
        final(core).cells() == spec_execute(old(core).cells(), program_counter.spec_value()).0,
        r == spec_execute(old(core).cells(), program_counter.spec_value()).1,
{
    proof {
        use_type_invariant(&program_counter);
        vstd::arithmetic::div_mod::lemma_small_mod(
            program_counter.spec_value() as nat,
            program_counter.modulus() as nat,
        );
    }
    let instruction: Instruction = *core.get_offset(program_counter);
    let opcode = instruction.opcode;
    let modifier = instruction.modifier;
    let skip_one = core.offset(2);

    let (a_pointer, a) = resolve_operand(core, program_counter, instruction.a_field);
    let (b_pointer, b) = resolve_operand(core, program_counter, instruction.b_field);

    // For jumping opcodes, this is the distance that they jump
    let jump_offset = a_pointer - program_counter;

    let (first, second) = modifier.sides();
    let whole = modifier.is_whole();
    let mut holds: bool;
    let mut failed: bool;
    if whole && same_opcode(opcode, Opcode::Mov) {
        core.set_offset(b_pointer, a);
        holds = false;
        failed = false;
    } else {
        let (held, fail) = run_on_fields(core, b_pointer, opcode, &a, &b, first);
        holds = held;
        failed = fail;
        if let Some(second) = second {
            let (held, fail) = run_on_fields(core, b_pointer, opcode, &a, &b, second);
            let all = matches!(opcode, Opcode::Cmp | Opcode::Skeq | Opcode::Slt);
            holds = if all {
                holds && held
            } else {
                holds || held
            };
            failed = failed || fail;
        }
    }
    if whole {
        if matches!(opcode, Opcode::Cmp | Opcode::Skeq) {
            holds = a == b;
        } else if matches!(opcode, Opcode::Sne) {
            holds = a != b;
        }
    }
    if matches!(opcode, Opcode::Dat) {
        return Err(Error::ExecuteDat(program_counter));
    }
    if failed {
        return Err(Error::DivideByZero);
    }
    let program_counter_offset = match opcode {
        Opcode::Jmp | Opcode::Spl => Some(jump_offset),
        Opcode::Jmz | Opcode::Jmn | Opcode::Djn => if holds {
            Some(jump_offset)
        } else {
            None
        },
        Opcode::Cmp | Opcode::Skeq | Opcode::Sne | Opcode::Slt => if holds {
            Some(skip_one)
        } else {
            None
        },
        _ => None,
    };
    Ok(Executed { program_counter_offset, should_split: matches!(opcode, Opcode::Spl) })
}

} // verus!
