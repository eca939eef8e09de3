//! From the expanded lines to the program.
//!
//! The lines are read twice. The first time the labels are collected:
//! each stands for the index of the instruction that follows it. The
//! second time the instructions are made, with the values of their
//! fields, and the origin is set. `END` ends the program, and nothing that
//! follows it is read.

use vstd::prelude::*;
use vstd::slice::slice_subrange;

use crate::load_file::offset::{normalized, offset_value};
use crate::load_file::Instruction;
use crate::parser::error::{Error, ErrorKind, Warning, WarningKind};
use crate::parser::grammar::expression::EXPRESSION;
use crate::parser::grammar::line::line;
use crate::parser::grammar::{lemma_inner_trees, trees, Grammar, Pair, Rule, Tree};
use crate::parser::phase::evaluation::expression::{
    bounds, evaluate, find_meaning, lookup, value_of, Binding, Bound, Meaning,
};
use crate::parser::phase::expansion::{
    copy_of, lies_in, line_bounds, next_line, parsed_as, spans,
};
use crate::parser::phase::instruction::{instruction_of, read_instruction};

verus! {

/// The labels that were collected, and what was remarked on them.
#[derive(Debug)]
pub struct Collection {
    /// The labels, each with the index of its instruction.
    pub labels: Vec<Binding>,
    /// How many instructions were seen.
    pub count: i32,
    pub warnings: Vec<Warning>,
}

/// A collection as contracts speak of it.
pub struct Collected {
    pub labels: Seq<Bound>,
    pub count: i32,
    pub warnings: Seq<Warning>,
}

impl Collection {
    /// The collection as contracts speak of it.
    pub open spec fn shown(self) -> Collected {
        Collected { labels: bounds(self.labels@), count: self.count, warnings: self.warnings@ }
    }
}

/// The number of the source line that the `k`th of the expanded lines came
/// from; 0 where it is not known.
pub open spec fn number_of(numbers: Seq<usize>, k: int) -> usize {
    if 0 <= k < numbers.len() {
        numbers[k]
    } else {
        0
    }
}

/// How many of the trees of a line are labels that the line declares: all
/// that stand in front of its statement.
pub open spec fn declared_in(found: Seq<Tree>) -> int {
    if found.len() >= 1 && found.last().rule == Rule::Instruction {
        found.len() - 1
    } else if found.len() >= 2 && (found[found.len() - 2].rule == Rule::Org || found[found.len()
        - 2].rule == Rule::End || found[found.len() - 2].rule == Rule::For) {
        found.len() - 2
    } else if found.len() >= 1 && found.last().rule != Rule::Label {
        found.len() - 1
    } else {
        found.len() as int
    }
}

/// The collection after the first `m` trees of a line were declared as
/// labels of the instruction that comes next. A label must not be declared
/// twice. A label with the name of a constant is remarked on, and hides
/// the constant.
pub open spec fn declared(
    st: Collected,
    raw: Seq<u8>,
    found: Seq<Tree>,
    m: nat,
    constants: Seq<Bound>,
    number: usize,
) -> Result<Collected, (Error, Seq<Warning>)>
    decreases m,
{
    if m == 0 {
        Ok(st)
    } else if m > found.len() {
        Err((Error { kind: ErrorKind::Malformed, line: number, column: 0 }, st.warnings))
    } else {
        match declared(st, raw, found, (m - 1) as nat, constants, number) {
            Err(failed) => Err(failed),
            Ok(before) => {
                let tree = found[m - 1];
                let name = raw.subrange(tree.start, tree.end);
                if tree.rule != Rule::Label || !spans(tree, raw) {
                    Err(
                        (
                            Error {
                                kind: ErrorKind::Malformed,
                                line: number,
                                column: tree.start as usize,
                            },
                            before.warnings,
                        ),
                    )
                } else if lookup(before.labels, name, before.labels.len()).is_some() {
                    Err(
                        (
                            Error {
                                kind: ErrorKind::DuplicateLabel,
                                line: number,
                                column: tree.start as usize,
                            },
                            before.warnings,
                        ),
                    )
                } else {
                    Ok(
                        Collected {
                            labels: before.labels.push(
                                Bound { name, meaning: Meaning::Address(before.count) },
                            ),
                            count: before.count,
                            warnings: if lookup(constants, name, constants.len()).is_some() {
                                before.warnings.push(
                                    Warning { kind: WarningKind::ShadowedConstant, line: number },
                                )
                            } else {
                                before.warnings
                            },
                        },
                    )
                }
            },
        }
    }
}

/// What the statement of a line is, given the trees of the line.
#[derive(Copy, Clone, Debug, PartialEq, Eq, Structural)]
pub enum Statement {
    /// No statement: the line is empty or declares labels only.
    Nothing,
    /// An instruction, at the given place among the trees.
    Instruction(usize),
    /// `ORG`, with the expression at the given place.
    Origin(usize),
    /// `END`; with an expression, the expression is at the given place.
    End(Option<usize>),
    /// A statement that has no place among the expanded lines, at the
    /// given column.
    Misplaced(usize),
}

/// What the statement of a line is.
pub open spec fn statement_of(found: Seq<Tree>) -> Statement {
    let n = found.len() as int;
    if n >= 1 && found[n - 1].rule == Rule::Instruction {
        Statement::Instruction((n - 1) as usize)
    } else if n >= 2 && found[n - 2].rule == Rule::Org {
        Statement::Origin((n - 1) as usize)
    } else if n >= 2 && found[n - 2].rule == Rule::End {
        Statement::End(Some((n - 1) as usize))
    } else if n >= 2 && found[n - 2].rule == Rule::For {
        Statement::Misplaced(found[n - 2].start as usize)
    } else if n >= 1 && found[n - 1].rule == Rule::End {
        Statement::End(None)
    } else if n >= 1 && found[n - 1].rule != Rule::Label {
        Statement::Misplaced(found[n - 1].start as usize)
    } else {
        Statement::Nothing
    }
}

/// The collection after a line was read, and whether the program ends
/// with the line.
pub open spec fn collected_line(
    st: Collected,
    raw: Seq<u8>,
    constants: Seq<Bound>,
    number: usize,
) -> Result<(Collected, bool), (Error, Seq<Warning>)> {
    match line(raw) {
        Err(column) => Err(
            (Error { kind: ErrorKind::Syntax, line: number, column: column as usize }, st.warnings),
        ),
        Ok(found) => match declared(
            st,
            raw,
            found,
            declared_in(found) as nat,
            constants,
            number,
        ) {
            Err(failed) => Err(failed),
            Ok(after) => match statement_of(found) {
                Statement::Instruction(_) => if after.count == i32::MAX {
                    Err(
                        (
                            Error {
                                kind: ErrorKind::TooManyInstructions,
                                line: number,
                                column: 0,
                            },
                            after.warnings,
                        ),
                    )
                } else {
                    Ok((Collected { count: (after.count + 1) as i32, ..after }, false))
                },
                Statement::Misplaced(column) => Err(
                    (Error { kind: ErrorKind::Syntax, line: number, column }, after.warnings),
                ),
                Statement::End(_) => Ok((after, true)),
                _ => Ok((after, false)),
            },
        },
    }
}

/// The collection after the lines of a text were read from `i` on, where
/// the line at `i` is the `k`th of the text.
pub open spec fn collected(
    s: Seq<u8>,
    i: int,
    k: int,
    st: Collected,
    numbers: Seq<usize>,
    constants: Seq<Bound>,
) -> Result<Collected, (Error, Seq<Warning>)>
    decreases s.len() - i,
{
    let (e, next) = line_bounds(s, i);
    if !(0 <= i < s.len()) || !(i < next <= s.len()) {
        Ok(st)
    } else {
        match collected_line(st, s.subrange(i, e), constants, number_of(numbers, k)) {
            Err(failed) => Err(failed),
            Ok((after, ended)) => if ended {
                Ok(after)
            } else {
                collected(s, next, k + 1, after, numbers, constants)
            },
        }
    }
}

/// The number of the source line that the `k`th of the expanded lines came
/// from.
pub fn source_line(numbers: &[usize], k: usize) -> (r: usize)
    ensures
        r == number_of(numbers@, k as int),
{
    if k < numbers.len() {
        numbers[k]
    } else {
        0
    }
}

/// What the statement of a line is.
pub fn find_statement(pairs: &Vec<Pair>) -> (r: Statement)
    ensures
        r == statement_of(trees(pairs@)),
        match r {
            Statement::Instruction(place) | Statement::Origin(place) | Statement::End(
                Some(place),
            ) => place == pairs@.len() - 1,
            _ => true,
        },
{
    let n: usize = pairs.len();
    proof {
        if n >= 1 {
            lemma_inner_trees(pairs@[n - 1]);
            assert(trees(pairs@)[n - 1] == pairs@[n - 1].tree());
        }
        if n >= 2 {
            lemma_inner_trees(pairs@[n - 2]);
            assert(trees(pairs@)[n - 2] == pairs@[n - 2].tree());
        }
    }
    if n >= 1 && matches!(pairs[n - 1].rule, Rule::Instruction) {
        Statement::Instruction(n - 1)
    } else if n >= 2 && matches!(pairs[n - 2].rule, Rule::Org) {
        Statement::Origin(n - 1)
    } else if n >= 2 && matches!(pairs[n - 2].rule, Rule::End) {
        Statement::End(Some(n - 1))
    } else if n >= 2 && matches!(pairs[n - 2].rule, Rule::For) {
        Statement::Misplaced(pairs[n - 2].start)
    } else if n >= 1 && matches!(pairs[n - 1].rule, Rule::End) {
        Statement::End(None)
    } else if n >= 1 && !matches!(pairs[n - 1].rule, Rule::Label) {
        Statement::Misplaced(pairs[n - 1].start)
    } else {
        Statement::Nothing
    }
}

/// How many of the pairs of a line are labels that the line declares.
pub fn count_declared(pairs: &Vec<Pair>) -> (r: usize)
    ensures
        r == declared_in(trees(pairs@)),
        r <= pairs@.len(),
{
    let n: usize = pairs.len();
    proof {
        if n >= 1 {
            lemma_inner_trees(pairs@[n - 1]);
            assert(trees(pairs@)[n - 1] == pairs@[n - 1].tree());
        }
        if n >= 2 {
            lemma_inner_trees(pairs@[n - 2]);
            assert(trees(pairs@)[n - 2] == pairs@[n - 2].tree());
        }
    }
    if n >= 1 && matches!(pairs[n - 1].rule, Rule::Instruction) {
        n - 1
    } else if n >= 2 && matches!(pairs[n - 2].rule, Rule::Org | Rule::End | Rule::For) {
        n - 2
    } else if n >= 1 && !matches!(pairs[n - 1].rule, Rule::Label) {
        n - 1
    } else {
        n
    }
}

/// Declare the first `m` pairs of a line as labels of the instruction that
/// comes next.
pub fn declare(
    st: &mut Collection,
    raw: &[u8],
    pairs: &Vec<Pair>,
    m: usize,
    constants: &[Binding],
    number: usize,
) -> (r: Result<(), Error>)
    requires
        m <= pairs@.len(),
    ensures
        match r {
            Ok(()) => declared(
                old(st).shown(),
                raw@,
                trees(pairs@),
                m as nat,
                bounds(constants@),
                number,
            ) == Ok::<Collected, (Error, Seq<Warning>)>(final(st).shown()),
            Err(error) => declared(
                old(st).shown(),
                raw@,
                trees(pairs@),
                m as nat,
                bounds(constants@),
                number,
            ) == Err::<Collected, (Error, Seq<Warning>)>((error, final(st).warnings@)),
        },
{
    let mut j: usize = 0;
    while j < m
        invariant
            0 <= j <= m <= pairs@.len(),
            declared(
                old(st).shown(),
                raw@,
                trees(pairs@),
                j as nat,
                bounds(constants@),
                number,
            ) == Ok::<Collected, (Error, Seq<Warning>)>(st.shown()),
        decreases m - j,
    {
        let pair = &pairs[j];
        proof {
            lemma_inner_trees(*pair);
            assert(trees(pairs@)[j as int] == pair.tree());
        }
        let failed: Option<Error> = if !matches!(pair.rule, Rule::Label) || !lies_in(pair, raw) {
            Some(Error { kind: ErrorKind::Malformed, line: number, column: pair.start })
        } else if find_meaning(st.labels.as_slice(), raw, pair.start, pair.end).is_some() {
            Some(Error { kind: ErrorKind::DuplicateLabel, line: number, column: pair.start })
        } else {
            None
        };
        if let Some(error) = failed {
            proof {
                lemma_declared_fails(
                    old(st).shown(),
                    raw@,
                    trees(pairs@),
                    (j + 1) as nat,
                    m as nat,
                    bounds(constants@),
                    number,
                );
            }
            return Err(error);
        }
        if find_meaning(constants, raw, pair.start, pair.end).is_some() {
            st.warnings.push(Warning { kind: WarningKind::ShadowedConstant, line: number });
        }
        let binding = Binding {
            name: copy_of(raw, pair.start, pair.end),
            meaning: Meaning::Address(st.count),
        };
        proof {
            assert(bounds(st.labels@.push(binding)) =~= bounds(st.labels@).push(binding.bound()));
        }
        st.labels.push(binding);
        j = j + 1;
    }
    Ok(())
}

/// Once declaring the labels of a line has failed, it fails in the same
/// way however many are declared.
pub proof fn lemma_declared_fails(
    st: Collected,
    raw: Seq<u8>,
    found: Seq<Tree>,
    m: nat,
    more: nat,
    constants: Seq<Bound>,
    number: usize,
)
    requires
        m <= more <= found.len(),
        declared(st, raw, found, m, constants, number).is_err(),
    ensures
        declared(st, raw, found, more, constants, number) == declared(
            st,
            raw,
            found,
            m,
            constants,
            number,
        ),
    decreases more - m,
{
    if m < more {
        lemma_declared_fails(st, raw, found, m, (more - 1) as nat, constants, number);
    }
}

/// Read a line for its labels. Returned is whether the program ends with
/// the line.
pub fn collect_line(st: &mut Collection, raw: &[u8], constants: &[Binding], number: usize) -> (r:
    Result<bool, Error>)
    ensures
        match r {
            Ok(ended) => collected_line(old(st).shown(), raw@, bounds(constants@), number) == Ok::<
                (Collected, bool),
                (Error, Seq<Warning>),
            >((final(st).shown(), ended)),
            Err(error) => collected_line(old(st).shown(), raw@, bounds(constants@), number)
                == Err::<(Collected, bool), (Error, Seq<Warning>)>((error, final(st).warnings@)),
        },
{
    let parsed = Grammar::line(raw);
    proof {
        assert(parsed_as(parsed) == line(raw@));
    }
    let pairs = match parsed {
        Ok(pairs) => pairs,
        Err(error) => {
            return Err(Error { kind: ErrorKind::Syntax, line: number, column: error.column });
        },
    };
    let m = count_declared(&pairs);
    if let Err(error) = declare(st, raw, &pairs, m, constants, number) {
        return Err(error);
    }
    match find_statement(&pairs) {
        Statement::Instruction(_) => {
            if st.count == i32::MAX {
                return Err(
                    Error { kind: ErrorKind::TooManyInstructions, line: number, column: 0 },
                );
            }
            st.count = st.count + 1;
            Ok(false)
        },
        Statement::Misplaced(column) => Err(
            Error { kind: ErrorKind::Syntax, line: number, column },
        ),
        Statement::End(_) => Ok(true),
        _ => Ok(false),
    }
}

/// Read the lines of a text for their labels.
pub fn collect(s: &[u8], numbers: &[usize], constants: &[Binding], st: &mut Collection) -> (r:
    Result<(), Error>)
    ensures
        match r {
            Ok(()) => collected(s@, 0, 0, old(st).shown(), numbers@, bounds(constants@)) == Ok::<
                Collected,
                (Error, Seq<Warning>),
            >(final(st).shown()),
            Err(error) => collected(s@, 0, 0, old(st).shown(), numbers@, bounds(constants@))
                == Err::<Collected, (Error, Seq<Warning>)>((error, final(st).warnings@)),
        },
{
    let mut at: usize = 0;
    let mut k: usize = 0;
    while at < s.len()
        invariant
            0 <= at <= s@.len(),
            k <= at,
            collected(s@, at as int, k as int, st.shown(), numbers@, bounds(constants@))
                == collected(s@, 0, 0, old(st).shown(), numbers@, bounds(constants@)),
        decreases s@.len() - at,
    {
        let (e, next) = next_line(s, at);
        match collect_line(st, slice_subrange(s, at, e), constants, source_line(numbers, k)) {
            Err(error) => {
                return Err(error);
            },
            Ok(ended) => {
                if ended {
                    return Ok(());
                }
            },
        }
        at = next;
        k = k + 1;
    }
    Ok(())
}

/// The program as far as it is made.
#[derive(Debug)]
pub struct Assembly {
    pub instructions: Vec<Instruction>,
    pub origin: Option<usize>,
}

/// A program as contracts speak of it.
pub struct Assembled {
    pub instructions: Seq<Instruction>,
    pub origin: Option<usize>,
}

impl Assembly {
    /// The program as contracts speak of it.
    pub open spec fn shown(self) -> Assembled {
        Assembled { instructions: self.instructions@, origin: self.origin }
    }
}

/// The origin that an expression gives: its value, reduced to the size of
/// the core. A label stands for the index of its instruction.
pub open spec fn origin_of(tree: Tree, s: Seq<u8>, scope: Seq<Bound>, core_size: i32) -> Result<
    usize,
    Error,
> {
    match value_of(tree, s, scope, 0, EXPRESSION) {
        Ok(value) => Ok(normalized(value as int, core_size as int) as usize),
        Err(error) => Err(error),
    }
}

/// The program after the origin was set by the expression at `place`. It
/// must not have been set before.
pub open spec fn with_origin(
    st: Assembled,
    raw: Seq<u8>,
    found: Seq<Tree>,
    place: int,
    scope: Seq<Bound>,
    core_size: i32,
) -> Result<Assembled, Error> {
    if !(0 <= place < found.len()) {
        Err(Error::at(ErrorKind::Malformed, 0))
    } else if st.origin.is_some() {
        Err(Error::at(ErrorKind::DuplicateOrigin, found[place].start))
    } else {
        match origin_of(found[place], raw, scope, core_size) {
            Ok(origin) => Ok(Assembled { instructions: st.instructions, origin: Some(origin) }),
            Err(error) => Err(error),
        }
    }
}

/// The program after a line was read, and whether the program ends with
/// the line.
pub open spec fn assembled_line(
    st: Assembled,
    raw: Seq<u8>,
    scope: Seq<Bound>,
    number: usize,
    core_size: i32,
) -> Result<(Assembled, bool), Error> {
    match line(raw) {
        Err(column) => Err(
            Error { kind: ErrorKind::Syntax, line: number, column: column as usize },
        ),
        Ok(found) => match statement_of(found) {
            Statement::Instruction(place) => if st.instructions.len() >= i32::MAX || place
                >= found.len() {
                Err(Error { kind: ErrorKind::TooManyInstructions, line: number, column: 0 })
            } else {
                match instruction_of(
                    found[place as int],
                    raw,
                    scope,
                    st.instructions.len() as i32,
                ) {
                    Ok(instruction) => Ok(
                        (
                            Assembled {
                                instructions: st.instructions.push(instruction),
                                origin: st.origin,
                            },
                            false,
                        ),
                    ),
                    Err(error) => Err(error.in_line(number)),
                }
            },
            Statement::Origin(place) => match with_origin(
                st,
                raw,
                found,
                place as int,
                scope,
                core_size,
            ) {
                Ok(after) => Ok((after, false)),
                Err(error) => Err(error.in_line(number)),
            },
            Statement::End(Some(place)) => match with_origin(
                st,
                raw,
                found,
                place as int,
                scope,
                core_size,
            ) {
                Ok(after) => Ok((after, true)),
                Err(error) => Err(error.in_line(number)),
            },
            Statement::End(None) => Ok((st, true)),
            Statement::Misplaced(column) => Err(
                Error { kind: ErrorKind::Syntax, line: number, column },
            ),
            Statement::Nothing => Ok((st, false)),
        },
    }
}

/// The program after the lines of a text were read from `i` on, where the
/// line at `i` is the `k`th of the text.
pub open spec fn assembled(
    s: Seq<u8>,
    i: int,
    k: int,
    st: Assembled,
    numbers: Seq<usize>,
    scope: Seq<Bound>,
    core_size: i32,
) -> Result<Assembled, Error>
    decreases s.len() - i,
{
    let (e, next) = line_bounds(s, i);
    if !(0 <= i < s.len()) || !(i < next <= s.len()) {
        Ok(st)
    } else {
        match assembled_line(st, s.subrange(i, e), scope, number_of(numbers, k), core_size) {
            Err(error) => Err(error),
            Ok((after, ended)) => if ended {
                Ok(after)
            } else {
                assembled(s, next, k + 1, after, numbers, scope, core_size)
            },
        }
    }
}

/// Set the origin by the expression at `place`.
pub fn set_origin(
    st: &mut Assembly,
    raw: &[u8],
    pairs: &Vec<Pair>,
    place: usize,
    scope: &[Binding],
    core_size: i32,
) -> (r: Result<(), Error>)
    requires
        core_size > 0,
    ensures
        match r {
            Ok(()) => with_origin(
                old(st).shown(),
                raw@,
                trees(pairs@),
                place as int,
                bounds(scope@),
                core_size,
            ) == Ok::<Assembled, Error>(final(st).shown()),
            Err(error) => with_origin(
                old(st).shown(),
                raw@,
                trees(pairs@),
                place as int,
                bounds(scope@),
                core_size,
            ) == Err::<Assembled, Error>(error),
        },
{
    if place >= pairs.len() {
        return Err(Error::new(ErrorKind::Malformed, 0));
    }
    proof {
        lemma_inner_trees(pairs@[place as int]);
        assert(trees(pairs@)[place as int] == pairs@[place as int].tree());
    }
    if st.origin.is_some() {
        return Err(Error::new(ErrorKind::DuplicateOrigin, pairs[place].start));
    }
    match evaluate(&pairs[place], raw, scope, 0) {
        Ok(value) => {
            st.origin = Some(offset_value(value, core_size) as usize);
            Ok(())
        },
        Err(error) => Err(error),
    }
}

/// Read a line for its statement. Returned is whether the program ends
/// with the line.
pub fn assemble_line(
    st: &mut Assembly,
    raw: &[u8],
    scope: &[Binding],
    number: usize,
    core_size: i32,
) -> (r: Result<bool, Error>)
    requires
        core_size > 0,
    ensures
        match r {
            Ok(ended) => assembled_line(old(st).shown(), raw@, bounds(scope@), number, core_size)
                == Ok::<(Assembled, bool), Error>((final(st).shown(), ended)),
            Err(error) => assembled_line(
                old(st).shown(),
                raw@,
                bounds(scope@),
                number,
                core_size,
            ) == Err::<(Assembled, bool), Error>(error),
        },
{
    let parsed = Grammar::line(raw);
    proof {
        assert(parsed_as(parsed) == line(raw@));
    }
    let pairs = match parsed {
        Ok(pairs) => pairs,
        Err(error) => {
            return Err(Error { kind: ErrorKind::Syntax, line: number, column: error.column });
        },
    };
    match find_statement(&pairs) {
        Statement::Instruction(place) => {
            if st.instructions.len() >= i32::MAX as usize || place >= pairs.len() {
                return Err(
                    Error { kind: ErrorKind::TooManyInstructions, line: number, column: 0 },
                );
            }
            proof {
                assert(trees(pairs@)[place as int] == pairs@[place as int].tree());
            }
            match read_instruction(&pairs[place], raw, scope, st.instructions.len() as i32) {
                Ok(instruction) => {
                    st.instructions.push(instruction);
                    Ok(false)
                },
                Err(error) => Err(error.on_line(number)),
            }
        },
        Statement::Origin(place) => match set_origin(st, raw, &pairs, place, scope, core_size) {
            Ok(()) => Ok(false),
            Err(error) => Err(error.on_line(number)),
        },
        Statement::End(Some(place)) => match set_origin(
            st,
            raw,
            &pairs,
            place,
            scope,
            core_size,
        ) {
            Ok(()) => Ok(true),
            Err(error) => Err(error.on_line(number)),
        },
        Statement::End(None) => Ok(true),
        Statement::Misplaced(column) => Err(
            Error { kind: ErrorKind::Syntax, line: number, column },
        ),
        Statement::Nothing => Ok(false),
    }
}

/// Read the lines of a text for their statements.
pub fn assemble(
    s: &[u8],
    numbers: &[usize],
    scope: &[Binding],
    core_size: i32,
    st: &mut Assembly,
) -> (r: Result<(), Error>)
    requires
        core_size > 0,
    ensures
        match r {
            Ok(()) => assembled(s@, 0, 0, old(st).shown(), numbers@, bounds(scope@), core_size)
                == Ok::<Assembled, Error>(final(st).shown()),
            Err(error) => assembled(
                s@,
                0,
                0,
                old(st).shown(),
                numbers@,
                bounds(scope@),
                core_size,
            ) == Err::<Assembled, Error>(error),
        },
{
    let mut at: usize = 0;
    let mut k: usize = 0;
    while at < s.len()
        invariant
            0 <= at <= s@.len(),
            k <= at,
            core_size > 0,
            assembled(s@, at as int, k as int, st.shown(), numbers@, bounds(scope@), core_size)
                == assembled(s@, 0, 0, old(st).shown(), numbers@, bounds(scope@), core_size),
        decreases s@.len() - at,
    {
        let (e, next) = next_line(s, at);
        match assemble_line(
            st,
            slice_subrange(s, at, e),
            scope,
            source_line(numbers, k),
            core_size,
        ) {
            Err(error) => {
                return Err(error);
            },
            Ok(ended) => {
                if ended {
                    return Ok(());
                }
            },
        }
        at = next;
        k = k + 1;
    }
    Ok(())
}

} // verus!
