//! The assembler: from the text of a warrior to its resolved program.
//!
//! Substitutions and loops are expanded first. Then the labels are
//! collected, the expressions are given their values and the instructions
//! are made.

use vstd::prelude::*;
use vstd::slice::slice_to_vec;
use vstd::string::StringSliceAdditionalSpecFns;

use crate::load_file::{Described, Program, Warrior};
use crate::mars::CoreConfig;
use crate::parser::error::{Error, Warning, WarningKind};
use crate::parser::phase::assembly::{
    assemble, assembled, collect, collected, Assembled, Assembly, Collected, Collection,
};
use crate::parser::phase::comment::{describe, described};
use crate::parser::phase::evaluation::expression::{bounds, Binding, Bound, Meaning};
use crate::parser::phase::expansion::{expand, expanded, Expanded, Expansion};

pub mod error;
pub mod grammar;
pub mod phase;
pub mod round_trip;

verus! {

/// The names that the assembler knows without a declaration, and what they
/// stand for: the limits of the battle, and the index of the instruction
/// of the line.
pub open spec fn constants(config: CoreConfig) -> Seq<Bound> {
    seq![
        Bound { name: "CORESIZE".spec_bytes(), meaning: Meaning::Constant(config.core_size) },
        Bound { name: "MAXCYCLES".spec_bytes(), meaning: Meaning::Constant(config.max_cycles) },
        Bound {
            name: "MAXPROCESSES".spec_bytes(),
            meaning: Meaning::Constant(config.max_processes),
        },
        Bound {
            name: "MAXLENGTH".spec_bytes(),
            meaning: Meaning::Constant(config.max_warrior_length),
        },
        Bound { name: "MINDISTANCE".spec_bytes(), meaning: Meaning::Constant(config.min_distance) },
        Bound { name: "CURLINE".spec_bytes(), meaning: Meaning::CurrentLine },
    ]
}

/// What is remarked on a program as a whole: that it has no instruction,
/// and that its origin lies behind its last instruction.
pub open spec fn remarks(program: Assembled) -> Seq<Warning> {
    let empty = if program.instructions.len() == 0 {
        seq![Warning { kind: WarningKind::EmptyWarrior, line: 0 }]
    } else {
        Seq::empty()
    };
    match program.origin {
        Some(origin) => if origin >= program.instructions.len() {
            empty.push(Warning { kind: WarningKind::OriginOutOfRange, line: 0 })
        } else {
            empty
        },
        None => empty,
    }
}

/// The program that a source text assembles to, with what is remarked on
/// it; or the error that ends the assembly, with what was remarked before.
pub open spec fn assembly(source: Seq<u8>, config: CoreConfig) -> Result<
    (Assembled, Seq<Warning>),
    (Error, Seq<Warning>),
> {
    match expanded(
        source,
        0,
        1,
        Expanded {
            scope: Seq::empty(),
            continuing: false,
            text: Seq::empty(),
            numbers: Seq::empty(),
        },
        constants(config),
    ) {
        Err(error) => Err((error, Seq::empty())),
        Ok(lines) => match collected(
            lines.text,
            0,
            0,
            Collected { labels: Seq::empty(), count: 0, warnings: Seq::empty() },
            lines.numbers,
            constants(config),
        ) {
            Err(failed) => Err(failed),
            Ok(found) => match assembled(
                lines.text,
                0,
                0,
                Assembled { instructions: Seq::empty(), origin: None },
                lines.numbers,
                constants(config) + found.labels,
                config.core_size,
            ) {
                Err(error) => Err((error, found.warnings)),
                Ok(program) => Ok((program, found.warnings + remarks(program))),
            },
        },
    }
}

/// A constant of the assembler.
fn constant(name: &str, value: i32) -> (r: Binding)
    ensures
        r.bound() == (Bound { name: name.spec_bytes(), meaning: Meaning::Constant(value) }),
{
    Binding { name: slice_to_vec(name.as_bytes()), meaning: Meaning::Constant(value) }
}

/// The names that the assembler knows without a declaration.
pub fn make_constants(config: &CoreConfig) -> (r: Vec<Binding>)
    ensures
        bounds(r@) == constants(*config),
{
    let mut r: Vec<Binding> = Vec::new();
    r.push(constant("CORESIZE", config.core_size));
    r.push(constant("MAXCYCLES", config.max_cycles));
    r.push(constant("MAXPROCESSES", config.max_processes));
    r.push(constant("MAXLENGTH", config.max_warrior_length));
    r.push(constant("MINDISTANCE", config.min_distance));
    r.push(
        Binding { name: slice_to_vec("CURLINE".as_bytes()), meaning: Meaning::CurrentLine },
    );
    proof {
        assert(bounds(r@) =~= constants(*config));
    }
    r
}

/// Add to the warnings what is remarked on a program as a whole.
fn remark(program: &Assembly, warnings: &mut Vec<Warning>)
    ensures
        final(warnings)@ == old(warnings)@ + remarks(program.shown()),
{
    if program.instructions.len() == 0 {
        warnings.push(Warning { kind: WarningKind::EmptyWarrior, line: 0 });
    }
    if let Some(origin) = program.origin {
        if origin >= program.instructions.len() {
            warnings.push(Warning { kind: WarningKind::OriginOutOfRange, line: 0 });
        }
    }
    proof {
        assert(warnings@ =~= old(warnings)@ + remarks(program.shown()));
    }
}

/// Assemble the source of a warrior for a battle with the given limits.
/// Returned is the warrior with what is remarked on it; or the error that
/// ends the assembly, with what was remarked before.
pub fn parse_bytes(source: &[u8], config: &CoreConfig) -> (r: Result<
    (Warrior, Vec<Warning>),
    (Error, Vec<Warning>),
>)
    requires
        config.core_size > 0,
    ensures
        match r {
            Ok((warrior, warnings)) => {
                &&& assembly(source@, *config) == Ok::<
                    (Assembled, Seq<Warning>),
                    (Error, Seq<Warning>),
                >(
                    (
                        Assembled {
                            instructions: warrior.program.instructions@,
                            origin: warrior.program.origin,
                        },
                        warnings@,
                    ),
                )
                &&& warrior.metadata.shown() == described(source@, 0, Described::nothing())
            },
            Err((error, warnings)) => assembly(source@, *config) == Err::<
                (Assembled, Seq<Warning>),
                (Error, Seq<Warning>),
            >((error, warnings@)),
        },
{
    let fixed = make_constants(config);
    let mut lines = Expansion::new();
    if let Err(error) = expand(source, 1, &mut lines, fixed.as_slice()) {
        return Err((error, Vec::new()));
    }
    let mut found = Collection { labels: Vec::new(), count: 0, warnings: Vec::new() };
    proof {
        assert(bounds(found.labels@) =~= Seq::<Bound>::empty());
    }
    if let Err(error) = collect(
        lines.text.as_slice(),
        lines.numbers.as_slice(),
        fixed.as_slice(),
        &mut found,
    ) {
        return Err((error, found.warnings));
    }
    let mut scope = fixed;
    proof {
        assert(bounds(scope@ + found.labels@) =~= bounds(scope@) + bounds(found.labels@));
    }
    scope.append(&mut found.labels);
    let mut program = Assembly { instructions: Vec::new(), origin: None };
    if let Err(error) = assemble(
        lines.text.as_slice(),
        lines.numbers.as_slice(),
        scope.as_slice(),
        config.core_size,
        &mut program,
    ) {
        return Err((error, found.warnings));
    }
    let mut warnings = found.warnings;
    remark(&program, &mut warnings);
    let warrior = Warrior {
        program: Program { instructions: program.instructions, origin: program.origin },
        metadata: describe(source),
    };
    Ok((warrior, warnings))
}

/// Assemble the source of a warrior for a battle with the given limits.
pub fn parse_with(source: &str, config: &CoreConfig) -> (r: Result<
    (Warrior, Vec<Warning>),
    (Error, Vec<Warning>),
>)
    requires
        config.core_size > 0,
    ensures
        match r {
            Ok((warrior, warnings)) => {
                &&& assembly(source.spec_bytes(), *config) == Ok::<
                    (Assembled, Seq<Warning>),
                    (Error, Seq<Warning>),
                >(
                    (
                        Assembled {
                            instructions: warrior.program.instructions@,
                            origin: warrior.program.origin,
                        },
                        warnings@,
                    ),
                )
                &&& warrior.metadata.shown() == described(
                    source.spec_bytes(),
                    0,
                    Described::nothing(),
                )
            },
            Err((error, warnings)) => assembly(source.spec_bytes(), *config) == Err::<
                (Assembled, Seq<Warning>),
                (Error, Seq<Warning>),
            >((error, warnings@)),
        },
{
    parse_bytes(source.as_bytes(), config)
}

/// Assemble the source of a warrior for a battle with the standard
/// limits.
pub fn parse(source: &str) -> (r: Result<(Warrior, Vec<Warning>), (Error, Vec<Warning>)>)
    ensures
        match r {
            Ok((warrior, warnings)) => {
                &&& assembly(source.spec_bytes(), CoreConfig::spec_default()) == Ok::<
                    (Assembled, Seq<Warning>),
                    (Error, Seq<Warning>),
                >(
                    (
                        Assembled {
                            instructions: warrior.program.instructions@,
                            origin: warrior.program.origin,
                        },
                        warnings@,
                    ),
                )
                &&& warrior.metadata.shown() == described(
                    source.spec_bytes(),
                    0,
                    Described::nothing(),
                )
            },
            Err((error, warnings)) => assembly(source.spec_bytes(), CoreConfig::spec_default())
                == Err::<(Assembled, Seq<Warning>), (Error, Seq<Warning>)>((error, warnings@)),
        },
{
    let config = CoreConfig::default();
    parse_with(source, &config)
}

} // verus!
