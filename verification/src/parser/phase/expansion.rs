//! Expanding substitutions and loops.
//!
//! `EQU` gives a name to a text, and every later occurrence of the name is
//! replaced by the text. The text may go on in lines that begin with
//! `EQU`. `FOR` repeats the lines up to its `ROF` as often as its count
//! says; a label in front of `FOR` names the number of the repetition,
//! from 1 on, within the repeated lines. Loops may lie within loops.
//! What is defined within a loop is forgotten at the end of each
//! repetition. What comes out is the text of the lines that are left, with
//! the number of the source line that each of them came from.

use vstd::prelude::*;
use vstd::slice::slice_subrange;

use crate::parser::error::{Error, ErrorKind};
use crate::parser::grammar::ascii;
use crate::parser::grammar::expression::EXPRESSION;
use crate::parser::grammar::line::{find, first_of, line, SyntaxError};
use crate::parser::grammar::{lemma_inner_trees, trees, Grammar, Pair, Rule, Tree};
use crate::parser::phase::evaluation::expression::{
    bounds, evaluate, value_of, Binding, Bound,
};
use crate::parser::phase::text::{
    all_named, append, count_newlines, defined, digits_of, find_definition, has_name,
    lemma_all_named_push, mentions, newlines_in, replaced, substitute, write_number, Definition,
    Named,
};

verus! {

/// What a line means to the expansion.
#[derive(Copy, Clone, Debug, PartialEq, Eq, Structural)]
pub enum LineKind {
    /// A text is given a name, or the text of the line before goes on.
    Equ,
    /// A loop begins.
    For,
    /// A loop ends.
    Rof,
    /// Any other line, whether it follows the grammar or not.
    Other,
}

/// The expansion as far as it has come.
#[derive(Debug)]
pub struct Expansion {
    /// The texts that have a name.
    pub scope: Vec<Definition>,
    /// Whether the last line was an `EQU`, so that its text can go on.
    pub continuing: bool,
    /// The lines that are left, each with a newline behind it.
    pub text: Vec<u8>,
    /// For each line that is left, the number of the source line that it
    /// came from.
    pub numbers: Vec<usize>,
}

/// An expansion as contracts speak of it.
pub struct Expanded {
    pub scope: Seq<Named>,
    pub continuing: bool,
    pub text: Seq<u8>,
    pub numbers: Seq<usize>,
}

impl Expansion {
    /// The expansion as contracts speak of it.
    pub open spec fn shown(self) -> Expanded {
        Expanded {
            scope: all_named(self.scope@),
            continuing: self.continuing,
            text: self.text@,
            numbers: self.numbers@,
        }
    }

    /// An expansion that has not begun.
    pub fn new() -> (r: Expansion)
        ensures
            r.shown() == (Expanded {
                scope: Seq::empty(),
                continuing: false,
                text: Seq::empty(),
                numbers: Seq::empty(),
            }),
    {
        let r = Expansion {
            scope: Vec::new(),
            continuing: false,
            text: Vec::new(),
            numbers: Vec::new(),
        };
        proof {
            assert(all_named(r.scope@) =~= Seq::<Named>::empty());
        }
        r
    }
}

/// What a line means to the expansion, given what it parses to.
pub open spec fn kind_of(parsed: Result<Seq<Tree>, int>) -> LineKind {
    match parsed {
        Ok(found) => if found.len() >= 1 && found.last().rule == Rule::Substitution {
            LineKind::Equ
        } else if found.len() >= 2 && found[found.len() - 2].rule == Rule::For {
            LineKind::For
        } else if found.len() >= 1 && found.last().rule == Rule::Rof {
            LineKind::Rof
        } else {
            LineKind::Other
        },
        Err(_) => LineKind::Other,
    }
}

/// The trees that a line parses to; none where it does not parse.
pub open spec fn found_in(parsed: Result<Seq<Tree>, int>) -> Seq<Tree> {
    match parsed {
        Ok(found) => found,
        Err(_) => Seq::empty(),
    }
}

/// The number of the next line.
pub open spec fn following(number: usize) -> usize {
    if number < usize::MAX {
        (number + 1) as usize
    } else {
        number
    }
}

/// Where the line that begins at `i` ends, and where the next one begins.
pub open spec fn line_bounds(s: Seq<u8>, i: int) -> (int, int) {
    let e = first_of(s, i, ascii::NEWLINE);
    (
        e,
        if e < s.len() {
            e + 1
        } else {
            e
        },
    )
}

/// The code of a line: what stands in front of its comment.
pub open spec fn code_of(raw: Seq<u8>) -> Seq<u8> {
    raw.take(first_of(raw, 0, ascii::SEMICOLON))
}

/// Whether a tree lies within a text.
pub open spec fn spans(tree: Tree, s: Seq<u8>) -> bool {
    0 <= tree.start <= tree.end <= s.len()
}

/// The expansion after a line was left in it: the code of the line with
/// each defined name replaced. Where a name stands for several lines,
/// they all come from the same source line.
pub open spec fn emitted(st: Expanded, raw: Seq<u8>, number: usize) -> Expanded {
    let text = replaced(code_of(raw), 0, st.scope);
    Expanded {
        scope: st.scope,
        continuing: false,
        text: st.text + text + seq![ascii::NEWLINE],
        numbers: st.numbers + Seq::new(newlines_in(text, 0) + 1, |k: int| number),
    }
}

/// The expansion after an `EQU` line, which parses to `found`. With a
/// label the line gives a name to its text, in which the names that are
/// defined so far are replaced. The name must be new and must not occur in
/// its own text. Without a label the text of the line before goes on,
/// which must have been an `EQU` too.
pub open spec fn defining(st: Expanded, raw: Seq<u8>, found: Seq<Tree>) -> Result<
    Expanded,
    Error,
> {
    let given = found.last();
    let text = replaced(raw.subrange(given.start, given.end), 0, st.scope);
    if found.len() == 0 || !spans(given, raw) {
        Err(Error::at(ErrorKind::Malformed, 0))
    } else if found.len() == 1 {
        if !st.continuing || st.scope.len() == 0 {
            Err(Error::at(ErrorKind::Continuation, given.start))
        } else {
            Ok(
                Expanded {
                    scope: st.scope.drop_last().push(
                        Named {
                            name: st.scope.last().name,
                            text: st.scope.last().text + seq![ascii::NEWLINE] + text,
                        },
                    ),
                    continuing: true,
                    text: st.text,
                    numbers: st.numbers,
                },
            )
        }
    } else {
        let label = found[0];
        let name = raw.subrange(label.start, label.end);
        if label.rule != Rule::Label || !spans(label, raw) {
            Err(Error::at(ErrorKind::Malformed, label.start))
        } else if defined(st.scope, name, st.scope.len()).is_some() {
            Err(Error::at(ErrorKind::Redefinition, label.start))
        } else if mentions(text, 0, name) {
            Err(Error::at(ErrorKind::Recursion, given.start))
        } else {
            Ok(
                Expanded {
                    scope: st.scope.push(Named { name, text }),
                    continuing: true,
                    text: st.text,
                    numbers: st.numbers,
                },
            )
        }
    }
}

/// What the line of a `FOR` says, which parses to `found`: how often the
/// lines are repeated, and the name of the number of the repetition, if it
/// has one. In the count the names that are defined so far are replaced;
/// it must then have a value that depends on the constants of the
/// assembler alone. The name in front of `FOR` is taken as it stands.
pub open spec fn heading(
    raw: Seq<u8>,
    found: Seq<Tree>,
    scope: Seq<Named>,
    constants: Seq<Bound>,
) -> Result<(i32, Option<Seq<u8>>), Error> {
    let word = found[found.len() - 2];
    let text = replaced(code_of(raw).skip(word.start), 0, scope);
    if !(2 <= found.len() <= 3) || !spans(word, code_of(raw)) {
        Err(Error::at(ErrorKind::Malformed, 0))
    } else if found.len() == 3 && (found[0].rule != Rule::Label || !spans(found[0], raw)) {
        Err(Error::at(ErrorKind::Malformed, 0))
    } else {
        match line(text) {
            Err(column) => Err(
                Error::at(ErrorKind::Syntax, advanced(word.start as usize, column as nat) as int),
            ),
            Ok(counted) => if counted.len() != 2 || counted[0].rule != Rule::For {
                Err(Error::at(ErrorKind::Syntax, word.start))
            } else {
                match value_of(counted[1], text, constants, 0, EXPRESSION) {
                    Err(error) => Err(
                        Error::at(
                            ErrorKind::ForCount,
                            advanced(word.start as usize, error.column as nat) as int,
                        ),
                    ),
                    Ok(count) => Ok(
                        (
                            count,
                            if found.len() == 3 {
                                Some(raw.subrange(found[0].start, found[0].end))
                            } else {
                                None
                            },
                        ),
                    ),
                }
            },
        }
    }
}

/// The `ROF` that closes a loop whose lines begin at `i`, within `depth`
/// loops that were opened since: where its line begins, where the line
/// behind it begins, and how many lines lie from `i` up to it, the line of
/// the `ROF` counted.
pub open spec fn closing(s: Seq<u8>, i: int, depth: nat) -> Option<(int, int, nat)>
    decreases s.len() - i,
{
    let (e, next) = line_bounds(s, i);
    if !(0 <= i < s.len()) || !(i < next <= s.len()) {
        None
    } else {
        let kind = kind_of(line(s.subrange(i, e)));
        if kind == LineKind::Rof && depth == 0 {
            Some((i, next, 1))
        } else {
            let deeper = if kind == LineKind::For {
                depth + 1
            } else if kind == LineKind::Rof {
                (depth - 1) as nat
            } else {
                depth
            };
            match closing(s, next, deeper) {
                Some((rof, after, passed)) => Some((rof, after, passed + 1)),
                None => None,
            }
        }
    }
}

/// The number of the line that lies `passed` lines further on, or of the
/// column that lies as many characters further on; the largest number
/// where it cannot be counted.
pub open spec fn advanced(number: usize, passed: nat) -> usize {
    if number + passed <= usize::MAX {
        (number + passed) as usize
    } else {
        usize::MAX
    }
}

/// The first `count` definitions, or all of them if there are fewer.
pub open spec fn cut(scope: Seq<Named>, count: nat) -> Seq<Named> {
    if count <= scope.len() {
        scope.take(count as int)
    } else {
        scope
    }
}

/// The expansion of the lines of a text from `i` on, where the line at
/// `i` has the given number in the source.
pub open spec fn expanded(
    s: Seq<u8>,
    i: int,
    number: usize,
    st: Expanded,
    constants: Seq<Bound>,
) -> Result<Expanded, Error>
    decreases s.len() - i, 0nat,
{
    let (e, next) = line_bounds(s, i);
    let raw = s.subrange(i, e);
    if !(0 <= i < s.len()) || !(i < next <= s.len()) {
        Ok(st)
    } else {
        match kind_of(line(raw)) {
            LineKind::Equ => match defining(st, raw, found_in(line(raw))) {
                Err(error) => Err(error.in_line(number)),
                Ok(after) => expanded(s, next, following(number), after, constants),
            },
            LineKind::Rof => Err(Error { kind: ErrorKind::UnmatchedRof, line: number, column: 0 }),
            LineKind::For => match closing(s, next, 0) {
                None => Err(Error { kind: ErrorKind::UnmatchedFor, line: number, column: 0 }),
                Some((rof, after, passed)) => if !(next <= rof < after <= s.len()) {
                    Err(Error { kind: ErrorKind::Malformed, line: number, column: 0 })
                } else {
                    match heading(raw, found_in(line(raw)), st.scope, constants) {
                        Err(error) => Err(error.in_line(number)),
                        Ok((count, index)) => match repeated(
                            s.subrange(next, rof),
                            following(number),
                            st,
                            index,
                            1,
                            count,
                            constants,
                        ) {
                            Err(error) => Err(error),
                            Ok(done) => expanded(
                                s,
                                after,
                                advanced(number, passed + 1),
                                done,
                                constants,
                            ),
                        },
                    }
                },
            },
            LineKind::Other => expanded(
                s,
                next,
                following(number),
                emitted(st, raw, number),
                constants,
            ),
        }
    }
}

/// The expansion after the lines of a loop were repeated from the `k`th
/// time to the last. In each repetition the name of the loop, if it has
/// one, stands for the number of the repetition; what the lines define is
/// forgotten at the end of the repetition.
pub open spec fn repeated(
    body: Seq<u8>,
    number: usize,
    st: Expanded,
    index: Option<Seq<u8>>,
    k: int,
    count: i32,
    constants: Seq<Bound>,
) -> Result<Expanded, Error>
    decreases body.len(), (count - k + 1) as nat,
{
    if k > count || k < 1 {
        Ok(Expanded { continuing: false, ..st })
    } else {
        let inner = Expanded {
            scope: match index {
                Some(name) => st.scope.push(Named { name, text: digits_of(k as nat) }),
                None => st.scope,
            },
            continuing: false,
            text: st.text,
            numbers: st.numbers,
        };
        match expanded(body, 0, number, inner, constants) {
            Err(error) => Err(error),
            Ok(done) => repeated(
                body,
                number,
                Expanded {
                    scope: cut(done.scope, st.scope.len()),
                    continuing: false,
                    text: done.text,
                    numbers: done.numbers,
                },
                index,
                k + 1,
                count,
                constants,
            ),
        }
    }
}

/// What a line means to the expansion, given what it parses to.
pub fn classify(parsed: &Result<Vec<Pair>, SyntaxError>) -> (r: LineKind)
    ensures
        r == kind_of(
            match *parsed {
                Ok(pairs) => Ok::<Seq<Tree>, int>(trees(pairs@)),
                Err(error) => Err::<Seq<Tree>, int>(error.column as int),
            },
        ),
{
    match parsed {
        Ok(pairs) => {
            let n: usize = pairs.len();
            proof {
                if n >= 1 {
                    lemma_inner_trees(pairs@[n - 1]);
                    assert(trees(pairs@).last() == pairs@[n - 1].tree());
                }
                if n >= 2 {
                    lemma_inner_trees(pairs@[n - 2]);
                    assert(trees(pairs@)[n - 2] == pairs@[n - 2].tree());
                }
            }
            if n >= 1 && matches!(pairs[n - 1].rule, Rule::Substitution) {
                LineKind::Equ
            } else if n >= 2 && matches!(pairs[n - 2].rule, Rule::For) {
                LineKind::For
            } else if n >= 1 && matches!(pairs[n - 1].rule, Rule::Rof) {
                LineKind::Rof
            } else {
                LineKind::Other
            }
        },
        Err(_) => LineKind::Other,
    }
}

/// The number of the next line.
pub fn next_number(number: usize) -> (r: usize)
    ensures
        r == following(number),
{
    if number < usize::MAX {
        number + 1
    } else {
        number
    }
}

/// Where the line that begins at `i` ends, and where the next one begins.
pub fn next_line(s: &[u8], i: usize) -> (r: (usize, usize))
    requires
        i <= s@.len(),
    ensures
        r.0 == line_bounds(s@, i as int).0,
        r.1 == line_bounds(s@, i as int).1,
        i <= r.0 <= r.1 <= s@.len(),
        i < s@.len() ==> i < r.1,
{
    let e = find(s, i, ascii::NEWLINE);
    if e < s.len() {
        (e, e + 1)
    } else {
        (e, e)
    }
}

/// Whether a pair lies within a text.
pub fn lies_in(pair: &Pair, s: &[u8]) -> (r: bool)
    ensures
        r == spans(pair.tree(), s@),
{
    proof {
        lemma_inner_trees(*pair);
    }
    pair.start <= pair.end && pair.end <= s.len()
}

/// Leave a line in the expansion: its code, with each defined name
/// replaced.
pub fn emit(st: &mut Expansion, raw: &[u8], number: usize)
    ensures
        final(st).shown() == emitted(old(st).shown(), raw@, number),
{
    let end = find(raw, 0, ascii::SEMICOLON);
    let code = slice_subrange(raw, 0, end);
    let mut text: Vec<u8> = Vec::new();
    substitute(code, st.scope.as_slice(), &mut text);
    proof {
        assert(Seq::<u8>::empty() + replaced(code@, 0, all_named(st.scope@)) =~= replaced(
            code@,
            0,
            all_named(st.scope@),
        ));
    }
    let newlines = count_newlines(text.as_slice());
    append(&mut st.text, text.as_slice(), 0, text.len());
    st.text.push(ascii::NEWLINE);
    proof {
        assert(text@.subrange(0, text@.len() as int) =~= text@);
        assert(st.text@ =~= old(st).text@ + text@ + seq![ascii::NEWLINE]);
    }
    st.numbers.push(number);
    let mut k: usize = 0;
    while k < newlines
        invariant
            0 <= k <= newlines,
            st.numbers@ == old(st).numbers@ + Seq::new((k + 1) as nat, |j: int| number),
            st.scope == old(st).scope,
            st.text@ == old(st).text@ + text@ + seq![ascii::NEWLINE],
        decreases newlines - k,
    {
        st.numbers.push(number);
        k = k + 1;
        proof {
            assert(st.numbers@ =~= old(st).numbers@ + Seq::new((k + 1) as nat, |j: int| number));
        }
    }
    st.continuing = false;
}

/// What a parsing function returned, as the grammar states it.
pub open spec fn parsed_as(parsed: Result<Vec<Pair>, SyntaxError>) -> Result<Seq<Tree>, int> {
    match parsed {
        Ok(pairs) => Ok(trees(pairs@)),
        Err(error) => Err(error.column as int),
    }
}

/// A copy of the text from `start` to `end`.
pub fn copy_of(s: &[u8], start: usize, end: usize) -> (r: Vec<u8>)
    requires
        start <= end <= s@.len(),
    ensures
        r@ == s@.subrange(start as int, end as int),
{
    let mut r: Vec<u8> = Vec::new();
    append(&mut r, s, start, end);
    proof {
        assert(Seq::<u8>::empty() + s@.subrange(start as int, end as int) =~= s@.subrange(
            start as int,
            end as int,
        ));
    }
    r
}

/// A text with each defined name replaced by its text.
pub fn substituted(s: &[u8], scope: &[Definition]) -> (r: Vec<u8>)
    ensures
        r@ == replaced(s@, 0, all_named(scope@)),
{
    let mut r: Vec<u8> = Vec::new();
    substitute(s, scope, &mut r);
    proof {
        assert(Seq::<u8>::empty() + replaced(s@, 0, all_named(scope@)) =~= replaced(
            s@,
            0,
            all_named(scope@),
        ));
    }
    r
}

/// Take an `EQU` line, which parsed to `pairs`, into the expansion.
pub fn define(st: &mut Expansion, raw: &[u8], pairs: &Vec<Pair>) -> (r: Result<(), Error>)
    ensures
        match r {
            Ok(()) => defining(old(st).shown(), raw@, trees(pairs@)) == Ok::<Expanded, Error>(
                final(st).shown(),
            ),
            Err(error) => defining(old(st).shown(), raw@, trees(pairs@)) == Err::<
                Expanded,
                Error,
            >(error),
        },
{
    let n: usize = pairs.len();
    if n == 0 {
        return Err(Error::new(ErrorKind::Malformed, 0));
    }
    let given = &pairs[n - 1];
    proof {
        lemma_inner_trees(*given);
        assert(trees(pairs@).last() == given.tree());
    }
    if !lies_in(given, raw) {
        return Err(Error::new(ErrorKind::Malformed, 0));
    }
    let text = substituted(slice_subrange(raw, given.start, given.end), st.scope.as_slice());
    let count: usize = st.scope.len();
    if n == 1 {
        if !st.continuing || count == 0 {
            return Err(Error::new(ErrorKind::Continuation, given.start));
        }
        proof {
            assert(all_named(st.scope@).last() == st.scope@[count - 1].named());
        }
        let last = match st.scope.pop() {
            Some(last) => last,
            None => {
                return Err(Error::new(ErrorKind::Continuation, given.start));
            },
        };
        let ghost shorter = last.text@;
        let mut longer = last.text;
        longer.push(ascii::NEWLINE);
        append(&mut longer, text.as_slice(), 0, text.len());
        proof {
            assert(text@.subrange(0, text@.len() as int) =~= text@);
            assert(longer@ =~= shorter + seq![ascii::NEWLINE] + text@);
            assert(last == old(st).scope@[count - 1]);
            assert(st.scope@ =~= old(st).scope@.drop_last());
            assert(all_named(st.scope@) =~= all_named(old(st).scope@).drop_last());
        }
        let definition = Definition { name: last.name, text: longer };
        proof {
            lemma_all_named_push(st.scope@, definition);
        }
        st.scope.push(definition);
        st.continuing = true;
        Ok(())
    } else {
        let label = &pairs[0];
        proof {
            lemma_inner_trees(*label);
            assert(trees(pairs@)[0] == label.tree());
        }
        if !matches!(label.rule, Rule::Label) || !lies_in(label, raw) {
            return Err(Error::new(ErrorKind::Malformed, label.start));
        }
        if find_definition(st.scope.as_slice(), raw, label.start, label.end).is_some() {
            return Err(Error::new(ErrorKind::Redefinition, label.start));
        }
        let name = copy_of(raw, label.start, label.end);
        if has_name(text.as_slice(), name.as_slice()) {
            return Err(Error::new(ErrorKind::Recursion, given.start));
        }
        let definition = Definition { name, text };
        proof {
            lemma_all_named_push(st.scope@, definition);
        }
        st.scope.push(definition);
        st.continuing = true;
        Ok(())
    }
}

/// What the line of a `FOR` says, which parsed to `pairs`: how often the
/// lines are repeated, and the name of the number of the repetition, if it
/// has one.
pub fn read_heading(
    raw: &[u8],
    pairs: &Vec<Pair>,
    scope: &[Definition],
    constants: &[Binding],
) -> (r: Result<(i32, Option<Vec<u8>>), Error>)
    requires
        pairs@.len() >= 2,
    ensures
        match r {
            Ok((count, index)) => heading(
                raw@,
                trees(pairs@),
                all_named(scope@),
                bounds(constants@),
            ) == Ok::<(i32, Option<Seq<u8>>), Error>((count, name_of(index))),
            Err(error) => heading(raw@, trees(pairs@), all_named(scope@), bounds(constants@))
                == Err::<(i32, Option<Seq<u8>>), Error>(error),
        },
{
    let n: usize = pairs.len();
    let end = find(raw, 0, ascii::SEMICOLON);
    let code = slice_subrange(raw, 0, end);
    let word = &pairs[n - 2];
    proof {
        lemma_inner_trees(*word);
        assert(trees(pairs@)[n - 2] == word.tree());
        lemma_inner_trees(pairs@[0]);
        assert(trees(pairs@)[0] == pairs@[0].tree());
    }
    if !(n <= 3) || !lies_in(word, code) {
        return Err(Error::new(ErrorKind::Malformed, 0));
    }
    if n == 3 && (!matches!(pairs[0].rule, Rule::Label) || !lies_in(&pairs[0], raw)) {
        return Err(Error::new(ErrorKind::Malformed, 0));
    }
    let start: usize = word.start;
    let text = substituted(slice_subrange(code, start, end), scope);
    proof {
        assert(code@.subrange(start as int, end as int) =~= code_of(raw@).skip(start as int));
    }
    let counted = match Grammar::line(text.as_slice()) {
        Ok(counted) => counted,
        Err(error) => {
            return Err(Error::new(ErrorKind::Syntax, advance(start, error.column)));
        },
    };
    proof {
        if counted@.len() == 2 {
            lemma_inner_trees(counted@[0]);
            assert(trees(counted@)[0] == counted@[0].tree());
            assert(trees(counted@)[1] == counted@[1].tree());
        }
    }
    if counted.len() != 2 || !matches!(counted[0].rule, Rule::For) {
        return Err(Error::new(ErrorKind::Syntax, start));
    }
    let count = match evaluate(&counted[1], text.as_slice(), constants, 0) {
        Ok(count) => count,
        Err(error) => {
            return Err(Error::new(ErrorKind::ForCount, advance(start, error.column)));
        },
    };
    if n == 3 {
        Ok((count, Some(copy_of(raw, pairs[0].start, pairs[0].end))))
    } else {
        Ok((count, None))
    }
}

/// The `ROF` that closes a loop whose lines begin at `i`: where its line
/// begins, where the line behind it begins, and how many lines lie from
/// `i` up to it, the line of the `ROF` counted.
pub fn find_closing(s: &[u8], i: usize) -> (r: Option<(usize, usize, usize)>)
    requires
        i <= s@.len(),
    ensures
        match r {
            Some((rof, after, passed)) => closing(s@, i as int, 0) == Some(
                (rof as int, after as int, passed as nat),
            ) && i <= rof < after <= s@.len() && passed <= after - i,
            None => closing(s@, i as int, 0).is_none(),
        },
{
    let mut at: usize = i;
    let mut depth: usize = 0;
    let mut passed: usize = 0;
    while at < s.len()
        invariant
            i <= at <= s@.len(),
            passed <= at - i,
            depth <= passed,
            closing(s@, i as int, 0) == match closing(s@, at as int, depth as nat) {
                Some((rof, after, more)) => Some((rof, after, (more + passed) as nat)),
                None => None,
            },
        decreases s@.len() - at,
    {
        let (e, next) = next_line(s, at);
        let kind = classify(&Grammar::line(slice_subrange(s, at, e)));
        if matches!(kind, LineKind::Rof) && depth == 0 {
            return Some((at, next, passed + 1));
        }
        if matches!(kind, LineKind::For) {
            depth = depth + 1;
        } else if matches!(kind, LineKind::Rof) {
            depth = depth - 1;
        }
        passed = passed + 1;
        at = next;
    }
    None
}

/// The number of the line that lies `passed` lines further on.
pub fn advance(number: usize, passed: usize) -> (r: usize)
    ensures
        r == advanced(number, passed as nat),
{
    match number.checked_add(passed) {
        Some(sum) => sum,
        None => usize::MAX,
    }
}

/// The name of a loop as contracts speak of it.
pub open spec fn name_of(index: Option<Vec<u8>>) -> Option<Seq<u8>> {
    match index {
        Some(name) => Some(name@),
        None => None,
    }
}

/// Repeat the lines of a loop as often as its count says, and take what
/// is left of them into the expansion.
pub fn repeat(
    body: &[u8],
    number: usize,
    st: &mut Expansion,
    index: &Option<Vec<u8>>,
    count: i32,
    constants: &[Binding],
) -> (r: Result<(), Error>)
    ensures
        match r {
            Ok(()) => repeated(
                body@,
                number,
                old(st).shown(),
                name_of(*index),
                1,
                count,
                bounds(constants@),
            ) == Ok::<Expanded, Error>(final(st).shown()),
            Err(error) => repeated(
                body@,
                number,
                old(st).shown(),
                name_of(*index),
                1,
                count,
                bounds(constants@),
            ) == Err::<Expanded, Error>(error),
        },
    decreases body@.len(), 2nat,
{
    let mut k: i64 = 1;
    while k <= count as i64
        invariant
            1 <= k <= count + 1 || (count < 1 && k == 1),
            repeated(
                body@,
                number,
                st.shown(),
                name_of(*index),
                k as int,
                count,
                bounds(constants@),
            ) == repeated(
                body@,
                number,
                old(st).shown(),
                name_of(*index),
                1,
                count,
                bounds(constants@),
            ),
        decreases count - k + 1,
    {
        let base: usize = st.scope.len();
        let ghost before = st.shown();
        if let Some(name) = index {
            let mut text: Vec<u8> = Vec::new();
            write_number(&mut text, k as u64);
            proof {
                assert(text@ =~= digits_of(k as nat));
            }
            let definition = Definition { name: copy_of(name.as_slice(), 0, name.len()), text };
            proof {
                assert(name@.subrange(0, name@.len() as int) =~= name@);
                lemma_all_named_push(st.scope@, definition);
            }
            st.scope.push(definition);
        }
        st.continuing = false;
        match expand(body, number, st, constants) {
            Ok(()) => {},
            Err(error) => {
                return Err(error);
            },
        }
        let ghost done = st.shown();
        st.scope.truncate(base);
        st.continuing = false;
        proof {
            assert(all_named(st.scope@) =~= cut(done.scope, before.scope.len()));
        }
        k = k + 1;
    }
    st.continuing = false;
    Ok(())
}

/// Expand the line that begins at `at`, or the loop that begins there, and
/// take what is left of it into the expansion. Returned is where the text
/// goes on, and the number of the line there.
pub fn expand_line(
    s: &[u8],
    at: usize,
    number: usize,
    st: &mut Expansion,
    constants: &[Binding],
) -> (r: Result<(usize, usize), Error>)
    requires
        at < s@.len(),
    ensures
        match r {
            Ok((next, following)) => at < next <= s@.len() && expanded(
                s@,
                at as int,
                number,
                old(st).shown(),
                bounds(constants@),
            ) == expanded(s@, next as int, following, final(st).shown(), bounds(constants@)),
            Err(error) => expanded(
                s@,
                at as int,
                number,
                old(st).shown(),
                bounds(constants@),
            ) == Err::<Expanded, Error>(error),
        },
    decreases s@.len(), 0nat,
{
    let (e, next) = next_line(s, at);
    let raw = slice_subrange(s, at, e);
    let parsed = Grammar::line(raw);
    proof {
        assert(parsed_as(parsed) == line(raw@));
    }
    match classify(&parsed) {
        LineKind::Equ => {
            match parsed {
                Ok(pairs) => {
                    if let Err(error) = define(st, raw, &pairs) {
                        return Err(error.on_line(number));
                    }
                },
                Err(_) => {},
            }
            Ok((next, next_number(number)))
        },
        LineKind::Rof => Err(Error { kind: ErrorKind::UnmatchedRof, line: number, column: 0 }),
        LineKind::For => {
            let (rof, after, passed) = match find_closing(s, next) {
                Some(found) => found,
                None => {
                    return Err(Error { kind: ErrorKind::UnmatchedFor, line: number, column: 0 });
                },
            };
            let pairs = match parsed {
                Ok(pairs) => pairs,
                Err(_) => {
                    return Err(Error { kind: ErrorKind::Malformed, line: number, column: 0 });
                },
            };
            let (count, index) = match read_heading(raw, &pairs, st.scope.as_slice(), constants) {
                Ok(found) => found,
                Err(error) => {
                    return Err(error.on_line(number));
                },
            };
            let body = slice_subrange(s, next, rof);
            if let Err(error) = repeat(body, next_number(number), st, &index, count, constants) {
                return Err(error);
            }
            Ok((after, advance(number, passed + 1)))
        },
        LineKind::Other => {
            emit(st, raw, number);
            Ok((next, next_number(number)))
        },
    }
}

/// Expand the lines of a text, of which the first has the given number in
/// the source, and take what is left of them into the expansion.
pub fn expand(s: &[u8], number: usize, st: &mut Expansion, constants: &[Binding]) -> (r: Result<
    (),
    Error,
>)
    ensures
        match r {
            Ok(()) => expanded(s@, 0, number, old(st).shown(), bounds(constants@)) == Ok::<
                Expanded,
                Error,
            >(final(st).shown()),
            Err(error) => expanded(s@, 0, number, old(st).shown(), bounds(constants@)) == Err::<
                Expanded,
                Error,
            >(error),
        },
    decreases s@.len(), 1nat,
{
    let mut at: usize = 0;
    let mut current: usize = number;
    while at < s.len()
        invariant
            0 <= at <= s@.len(),
            expanded(s@, at as int, current, st.shown(), bounds(constants@)) == expanded(
                s@,
                0,
                number,
                old(st).shown(),
                bounds(constants@),
            ),
        decreases s@.len() - at,
    {
        match expand_line(s, at, current, st, constants) {
            Ok((next, following)) => {
                at = next;
                current = following;
            },
            Err(error) => {
                return Err(error);
            },
        }
    }
    Ok(())
}

} // verus!
