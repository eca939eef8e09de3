//! The grammar of a whole line.
//!
//! A line holds any number of label declarations and, behind them, at most
//! one statement: an instruction, or one of the directives `EQU`, `FOR`,
//! `ROF`, `ORG` and `END`. A semicolon begins a comment, which the grammar
//! leaves out. Blanks may stand between the parts.

use vstd::prelude::*;

use crate::parser::grammar::ascii;
use crate::parser::grammar::expression::{
    agrees, at, chain, holds, label, parse_chain, parse_label, EXPRESSION,
};
use crate::parser::grammar::lexical::{
    begins_word, is_space, is_word_start, keyword_at, keyword_of, lemma_run_end, lower, run_end,
    scan, skip, skip_spaces, to_lower, Class, Keyword,
};
use crate::parser::grammar::{leaf, lemma_trees_push, trees, Pair, Rule, Tree};

verus! {

/// Where a line could not be parsed.
#[derive(Copy, Clone, Debug, PartialEq, Eq, Structural)]
pub struct SyntaxError {
    /// The index of the character at which the grammar gave up.
    pub column: usize,
}

/// Whether a character is the sign of an address mode.
pub open spec fn is_mode(c: u8) -> bool {
    c == ascii::HASH || c == ascii::DOLLAR || c == ascii::STAR || c == ascii::AT || c
        == ascii::OPEN_BRACE || c == ascii::LESS || c == ascii::CLOSE_BRACE || c == ascii::GREATER
}

/// Whether the word from `start` to `end` is a modifier: one of `A`, `B`,
/// `AB`, `BA`, `F`, `X` and `I`, in upper or lower case.
pub open spec fn is_modifier(s: Seq<u8>, start: int, end: int) -> bool {
    if !(0 <= start && end <= s.len()) {
        false
    } else if end - start == 1 {
        let c = lower(s[start]);
        c == ascii::A || c == ascii::B || c == ascii::F || c == ascii::X || c == ascii::I
    } else if end - start == 2 {
        let c = lower(s[start]);
        let d = lower(s[start + 1]);
        (c == ascii::A && d == ascii::B) || (c == ascii::B && d == ascii::A)
    } else {
        false
    }
}

/// The position of the first `c` at or behind `i`, or the length of the
/// text if there is none.
pub open spec fn first_of(s: Seq<u8>, i: int, c: u8) -> int
    decreases s.len() - i,
{
    if 0 <= i < s.len() && s[i] != c {
        first_of(s, i + 1, c)
    } else {
        i
    }
}

/// The end of the text from `low` to `high` without the blanks at its end.
pub open spec fn trimmed(s: Seq<u8>, low: int, high: int) -> int
    decreases high - low,
{
    if low < high <= s.len() && is_space(s[high - 1]) {
        trimmed(s, low, high - 1)
    } else {
        high
    }
}

/// The field that begins at `i`, if one does: an expression, behind the
/// sign of an address mode or without one.
pub open spec fn field(s: Seq<u8>, i: int) -> Option<(Tree, int)> {
    if 0 <= i < s.len() && is_mode(s[i]) {
        match chain(s, skip(s, i + 1), EXPRESSION) {
            Some((expression, end)) => Some(
                (
                    Tree {
                        rule: Rule::Field,
                        start: i,
                        end,
                        inner: seq![leaf(Rule::AddressMode, i, i + 1), expression],
                    },
                    end,
                ),
            ),
            None => None,
        }
    } else {
        match chain(s, i, EXPRESSION) {
            Some((expression, end)) => Some(
                (Tree { rule: Rule::Field, start: i, end, inner: seq![expression] }, end),
            ),
            None => None,
        }
    }
}

/// The operation that begins at `i`, if one does: an opcode, and behind a
/// dot a modifier, or an opcode alone.
pub open spec fn operation(s: Seq<u8>, i: int) -> Option<(Tree, int)> {
    let e = run_end(s, i, Class::Word);
    let m = run_end(s, e + 1, Class::Word);
    if !(0 <= i < s.len() && is_word_start(s[i])) {
        None
    } else if !(keyword_at(s, i, e) matches Some(Keyword::Operation(_))) {
        None
    } else if at(s, e, ascii::DOT) {
        if is_modifier(s, e + 1, m) {
            Some(
                (
                    Tree {
                        rule: Rule::Operation,
                        start: i,
                        end: m,
                        inner: seq![leaf(Rule::Opcode, i, e), leaf(Rule::Modifier, e + 1, m)],
                    },
                    m,
                ),
            )
        } else {
            None
        }
    } else {
        Some(
            (
                Tree {
                    rule: Rule::Operation,
                    start: i,
                    end: e,
                    inner: seq![leaf(Rule::Opcode, i, e)],
                },
                e,
            ),
        )
    }
}

/// The instruction that begins at `i`, if one does: an operation and one
/// field, or two with a comma between them.
pub open spec fn instruction(s: Seq<u8>, i: int) -> Option<(Tree, int)> {
    match operation(s, i) {
        None => None,
        Some((op, e1)) => match field(s, skip(s, e1)) {
            None => None,
            Some((a, e2)) => if at(s, skip(s, e2), ascii::COMMA) {
                match field(s, skip(s, skip(s, e2) + 1)) {
                    None => None,
                    Some((b, e3)) => Some(
                        (
                            Tree {
                                rule: Rule::Instruction,
                                start: i,
                                end: e3,
                                inner: seq![op, a, b],
                            },
                            e3,
                        ),
                    ),
                }
            } else {
                Some((Tree { rule: Rule::Instruction, start: i, end: e2, inner: seq![op, a] }, e2))
            },
        },
    }
}

/// The labels that are declared from `i` on, each with a colon behind it
/// or without one, and the position behind them and the blanks that follow.
pub open spec fn declarations(s: Seq<u8>, i: int) -> (Seq<Tree>, int)
    decreases s.len() - i,
{
    match label(s, i) {
        Some((declared, e)) => {
            let j = skip(s, e);
            let k = if at(s, j, ascii::COLON) {
                skip(s, j + 1)
            } else {
                j
            };
            if i < k <= s.len() {
                let (rest, end) = declarations(s, k);
                (seq![declared] + rest, end)
            } else {
                (seq![declared], k)
            }
        },
        None => (Seq::empty(), i),
    }
}

/// What follows the keyword of a statement: the trees of the statement, or
/// the position at which the grammar gives up. The keyword lies between
/// `i` and `e`, the text ends at `n`, and `labels` tells how many labels
/// were declared in front.
pub open spec fn statement(s: Seq<u8>, i: int, e: int, keyword: Keyword, labels: nat) -> Result<
    Seq<Tree>,
    int,
> {
    let n = s.len() as int;
    let j = skip(s, e);
    match keyword {
        Keyword::Operation(_) => match instruction(s, i) {
            Some((tree, end)) => if skip(s, end) == n {
                Ok(seq![tree])
            } else {
                Err(skip(s, end))
            },
            None => Err(i),
        },
        Keyword::Equ => if labels <= 1 {
            Ok(seq![leaf(Rule::Substitution, j, trimmed(s, j, n))])
        } else {
            Err(i)
        },
        Keyword::For => if labels > 1 {
            Err(i)
        } else {
            match chain(s, j, EXPRESSION) {
                Some((count, end)) => if skip(s, end) == n {
                    Ok(seq![leaf(Rule::For, i, e), count])
                } else {
                    Err(skip(s, end))
                },
                None => Err(j),
            }
        },
        Keyword::Rof => if labels > 0 {
            Err(i)
        } else if j == n {
            Ok(seq![leaf(Rule::Rof, i, e)])
        } else {
            Err(j)
        },
        Keyword::Org => if labels > 0 {
            Err(i)
        } else {
            match chain(s, j, EXPRESSION) {
                Some((origin, end)) => if skip(s, end) == n {
                    Ok(seq![leaf(Rule::Org, i, e), origin])
                } else {
                    Err(skip(s, end))
                },
                None => Err(j),
            }
        },
        Keyword::End => if labels > 0 {
            Err(i)
        } else if j == n {
            Ok(seq![leaf(Rule::End, i, e)])
        } else {
            match chain(s, j, EXPRESSION) {
                Some((origin, end)) => if skip(s, end) == n {
                    Ok(seq![leaf(Rule::End, i, e), origin])
                } else {
                    Err(skip(s, end))
                },
                None => Err(j),
            }
        },
    }
}

/// The trees that a line without a comment parses to, or the position at
/// which the grammar gives up.
pub open spec fn code(s: Seq<u8>) -> Result<Seq<Tree>, int> {
    let (labels, i) = declarations(s, skip(s, 0));
    let e = run_end(s, i, Class::Word);
    if i == s.len() {
        Ok(labels)
    } else {
        match keyword_at(s, i, e) {
            Some(keyword) => match statement(s, i, e, keyword, labels.len()) {
                Ok(found) => Ok(labels + found),
                Err(column) => Err(column),
            },
            None => Err(i),
        }
    }
}

/// The trees that a line parses to, or the position at which the grammar
/// gives up. What stands behind a semicolon is a comment.
pub open spec fn line(s: Seq<u8>) -> Result<Seq<Tree>, int> {
    code(s.take(first_of(s, 0, ascii::SEMICOLON)))
}

/// Whether a character is the sign of an address mode.
pub fn begins_mode(c: u8) -> (r: bool)
    ensures
        r == is_mode(c),
{
    c == ascii::HASH || c == ascii::DOLLAR || c == ascii::STAR || c == ascii::AT || c
        == ascii::OPEN_BRACE || c == ascii::LESS || c == ascii::CLOSE_BRACE || c == ascii::GREATER
}

/// Whether the word from `start` to `end` is a modifier.
pub fn modifier_at(s: &[u8], start: usize, end: usize) -> (r: bool)
    requires
        start <= end <= s@.len(),
    ensures
        r == is_modifier(s@, start as int, end as int),
{
    if end - start == 1 {
        let c = to_lower(s[start]);
        c == ascii::A || c == ascii::B || c == ascii::F || c == ascii::X || c == ascii::I
    } else if end - start == 2 {
        let c = to_lower(s[start]);
        let d = to_lower(s[start + 1]);
        (c == ascii::A && d == ascii::B) || (c == ascii::B && d == ascii::A)
    } else {
        false
    }
}

/// The position of the first `c` at or behind `i`, or the length of the
/// text if there is none.
pub fn find(s: &[u8], i: usize, c: u8) -> (end: usize)
    requires
        i <= s@.len(),
    ensures
        end == first_of(s@, i as int, c),
        i <= end <= s@.len(),
{
    let mut end: usize = i;
    while end < s.len() && s[end] != c
        invariant
            i <= end <= s@.len(),
            first_of(s@, i as int, c) == first_of(s@, end as int, c),
        decreases s@.len() - end,
    {
        end = end + 1;
    }
    end
}

/// The end of the text from `low` to `high` without the blanks at its end.
pub fn trim(s: &[u8], low: usize, high: usize) -> (end: usize)
    requires
        low <= high <= s@.len(),
    ensures
        end == trimmed(s@, low as int, high as int),
        low <= end <= high,
{
    let mut end: usize = high;
    while low < end && (s[end - 1] == ascii::SPACE || s[end - 1] == ascii::TAB || s[end - 1]
        == ascii::RETURN)
        invariant
            low <= end <= high,
            high <= s@.len(),
            trimmed(s@, low as int, high as int) == trimmed(s@, low as int, end as int),
        decreases end - low,
    {
        end = end - 1;
    }
    end
}

/// The field that begins at `i`, if one does.
pub fn parse_field(s: &[u8], i: usize) -> (r: Option<(Pair, usize)>)
    requires
        i <= s@.len(),
    ensures
        agrees(r, field(s@, i as int)),
        r.is_some() ==> i < r.unwrap().1 <= s@.len(),
{
    let mut inner: Vec<Pair> = Vec::new();
    let start: usize = if i < s.len() && begins_mode(s[i]) {
        inner.push(Pair::terminal(Rule::AddressMode, i, i + 1));
        skip_spaces(s, i + 1)
    } else {
        i
    };
    match parse_chain(s, start, EXPRESSION) {
        Some((expression, end)) => {
            proof {
                lemma_trees_push(inner@, expression);
                if inner@.len() == 0 {
                    assert(trees(inner@.push(expression)) =~= seq![expression.tree()]);
                } else {
                    assert(trees(inner@.push(expression)) =~= seq![
                        leaf(Rule::AddressMode, i as int, i + 1),
                        expression.tree(),
                    ]);
                }
            }
            inner.push(expression);
            Some((Pair::node(Rule::Field, i, end, inner), end))
        },
        None => None,
    }
}

/// The operation that begins at `i`, if one does.
pub fn parse_operation(s: &[u8], i: usize) -> (r: Option<(Pair, usize)>)
    requires
        i <= s@.len(),
    ensures
        agrees(r, operation(s@, i as int)),
        r.is_some() ==> i < r.unwrap().1 <= s@.len(),
{
    if !(i < s.len() && begins_word(s[i])) {
        return None;
    }
    let e = scan(s, i, Class::Word);
    proof {
        lemma_run_end(s@, i + 1, Class::Word);
    }
    match keyword_of(s, i, e) {
        Some(Keyword::Operation(_)) => {},
        _ => {
            return None;
        },
    }
    let mut inner: Vec<Pair> = Vec::new();
    inner.push(Pair::terminal(Rule::Opcode, i, e));
    if holds(s, e, ascii::DOT) {
        let m = scan(s, e + 1, Class::Word);
        if modifier_at(s, e + 1, m) {
            inner.push(Pair::terminal(Rule::Modifier, e + 1, m));
            proof {
                assert(trees(inner@) =~= seq![
                    leaf(Rule::Opcode, i as int, e as int),
                    leaf(Rule::Modifier, e + 1, m as int),
                ]);
            }
            Some((Pair::node(Rule::Operation, i, m, inner), m))
        } else {
            None
        }
    } else {
        proof {
            assert(trees(inner@) =~= seq![leaf(Rule::Opcode, i as int, e as int)]);
        }
        Some((Pair::node(Rule::Operation, i, e, inner), e))
    }
}

/// The instruction that begins at `i`, if one does.
pub fn parse_instruction(s: &[u8], i: usize) -> (r: Option<(Pair, usize)>)
    requires
        i <= s@.len(),
    ensures
        agrees(r, instruction(s@, i as int)),
        r.is_some() ==> i < r.unwrap().1 <= s@.len(),
{
    let (op, e1) = match parse_operation(s, i) {
        Some(found) => found,
        None => {
            return None;
        },
    };
    let (a, e2) = match parse_field(s, skip_spaces(s, e1)) {
        Some(found) => found,
        None => {
            return None;
        },
    };
    let ghost first = op.tree();
    let ghost second = a.tree();
    let mut inner: Vec<Pair> = Vec::new();
    inner.push(op);
    inner.push(a);
    let comma = skip_spaces(s, e2);
    if holds(s, comma, ascii::COMMA) {
        match parse_field(s, skip_spaces(s, comma + 1)) {
            Some((b, e3)) => {
                proof {
                    assert(trees(inner@.push(b)) =~= seq![first, second, b.tree()]);
                }
                inner.push(b);
                Some((Pair::node(Rule::Instruction, i, e3, inner), e3))
            },
            None => None,
        }
    } else {
        proof {
            assert(trees(inner@) =~= seq![first, second]);
        }
        Some((Pair::node(Rule::Instruction, i, e2, inner), e2))
    }
}

/// The labels that are declared from `i` on: they join `labels`, and the
/// position behind them is returned.
pub fn parse_declarations(s: &[u8], i: usize, labels: &mut Vec<Pair>) -> (end: usize)
    requires
        i <= s@.len(),
    ensures
        trees(final(labels)@) == trees(old(labels)@) + declarations(s@, i as int).0,
        end == declarations(s@, i as int).1,
        i <= end <= s@.len(),
{
    let mut end: usize = i;
    loop
        invariant
            i <= end <= s@.len(),
            trees(labels@) + declarations(s@, end as int).0 == trees(old(labels)@) + declarations(
                s@,
                i as int,
            ).0,
            declarations(s@, end as int).1 == declarations(s@, i as int).1,
        ensures
            trees(labels@) == trees(old(labels)@) + declarations(s@, i as int).0,
            end == declarations(s@, i as int).1,
            i <= end <= s@.len(),
        decreases s@.len() - end,
    {
        match parse_label(s, end) {
            None => {
                proof {
                    assert(trees(labels@) + Seq::<Tree>::empty() =~= trees(labels@));
                }
                break ;
            },
            Some((declared, e)) => {
                let j = skip_spaces(s, e);
                let k: usize = if holds(s, j, ascii::COLON) {
                    skip_spaces(s, j + 1)
                } else {
                    j
                };
                proof {
                    lemma_trees_push(labels@, declared);
                    let rest = declarations(s@, k as int).0;
                    assert(trees(labels@).push(declared.tree()) + rest =~= trees(labels@) + (seq![
                        declared.tree(),
                    ] + rest));
                }
                labels.push(declared);
                end = k;
            },
        }
    }
    end
}

/// An expression that fills the rest of the text from `j` on: it joins
/// `found`. Where it does not parse or does not reach the end, the
/// position is returned at which the grammar gives up.
fn parse_rest(s: &[u8], j: usize, found: &mut Vec<Pair>) -> (r: Option<usize>)
    requires
        j <= s@.len(),
    ensures
        match r {
            None => match chain(s@, j as int, EXPRESSION) {
                Some((tree, end)) => skip(s@, end) == s@.len() && trees(final(found)@) == trees(
                    old(found)@,
                ).push(tree),
                None => false,
            },
            Some(column) => final(found)@ == old(found)@ && match chain(
                s@,
                j as int,
                EXPRESSION,
            ) {
                Some((tree, end)) => skip(s@, end) != s@.len() && column == skip(s@, end),
                None => column == j,
            },
        },
{
    match parse_chain(s, j, EXPRESSION) {
        Some((tree, end)) => {
            let after = skip_spaces(s, end);
            if after == s.len() {
                proof {
                    lemma_trees_push(found@, tree);
                }
                found.push(tree);
                None
            } else {
                Some(after)
            }
        },
        None => Some(j),
    }
}

/// What follows the keyword of a statement: the pairs of the statement
/// join `found`, which holds the labels that were declared in front.
pub fn parse_statement(
    s: &[u8],
    i: usize,
    e: usize,
    keyword: Keyword,
    found: &mut Vec<Pair>,
) -> (r: Result<(), SyntaxError>)
    requires
        i <= e <= s@.len(),
    ensures
        match r {
            Ok(()) => statement(s@, i as int, e as int, keyword, old(found)@.len()) matches Ok(
                more,
            ) && trees(final(found)@) == trees(old(found)@) + more,
            Err(error) => statement(s@, i as int, e as int, keyword, old(found)@.len()) == Err::<
                Seq<Tree>,
                int,
            >(error.column as int),
        },
{
    let n: usize = s.len();
    let j = skip_spaces(s, e);
    let labels: usize = found.len();
    let ghost before = trees(found@);
    match keyword {
        Keyword::Operation(_) => match parse_instruction(s, i) {
            Some((tree, end)) => {
                let after = skip_spaces(s, end);
                if after == n {
                    proof {
                        lemma_trees_push(found@, tree);
                        assert(before.push(tree.tree()) =~= before + seq![tree.tree()]);
                    }
                    found.push(tree);
                    Ok(())
                } else {
                    Err(SyntaxError { column: after })
                }
            },
            None => Err(SyntaxError { column: i }),
        },
        Keyword::Equ => {
            if labels <= 1 {
                let text = Pair::terminal(Rule::Substitution, j, trim(s, j, n));
                proof {
                    lemma_trees_push(found@, text);
                    assert(before.push(text.tree()) =~= before + seq![text.tree()]);
                }
                found.push(text);
                Ok(())
            } else {
                Err(SyntaxError { column: i })
            }
        },
        Keyword::For | Keyword::Org | Keyword::End => {
            let limit: usize = if matches!(keyword, Keyword::For) {
                1
            } else {
                0
            };
            let rule = match keyword {
                Keyword::For => Rule::For,
                Keyword::Org => Rule::Org,
                _ => Rule::End,
            };
            if labels > limit {
                return Err(SyntaxError { column: i });
            }
            let word = Pair::terminal(rule, i, e);
            proof {
                lemma_trees_push(found@, word);
            }
            if matches!(keyword, Keyword::End) && j == n {
                proof {
                    assert(before.push(word.tree()) =~= before + seq![word.tree()]);
                }
                found.push(word);
                return Ok(());
            }
            let ghost head = word.tree();
            found.push(word);
            match parse_rest(s, j, found) {
                None => {
                    proof {
                        let tree = chain(s@, j as int, EXPRESSION).unwrap().0;
                        assert(before.push(head).push(tree) =~= before + seq![head, tree]);
                    }
                    Ok(())
                },
                Some(column) => {
                    found.pop();
                    proof {
                        assert(found@ =~= old(found)@);
                    }
                    Err(SyntaxError { column })
                },
            }
        },
        Keyword::Rof => {
            if labels > 0 {
                Err(SyntaxError { column: i })
            } else if j == n {
                let word = Pair::terminal(Rule::Rof, i, e);
                proof {
                    lemma_trees_push(found@, word);
                    assert(before.push(word.tree()) =~= before + seq![word.tree()]);
                }
                found.push(word);
                Ok(())
            } else {
                Err(SyntaxError { column: j })
            }
        },
    }
}

/// The pairs that a line without a comment parses to.
pub fn parse_code(s: &[u8]) -> (r: Result<Vec<Pair>, SyntaxError>)
    ensures
        match r {
            Ok(pairs) => code(s@) == Ok::<Seq<Tree>, int>(trees(pairs@)),
            Err(error) => code(s@) == Err::<Seq<Tree>, int>(error.column as int),
        },
{
    let mut found: Vec<Pair> = Vec::new();
    let i = parse_declarations(s, skip_spaces(s, 0), &mut found);
    proof {
        assert(trees(Seq::<Pair>::empty()) =~= Seq::<Tree>::empty());
        assert(trees(found@) =~= declarations(s@, skip(s@, 0)).0);
    }
    if i == s.len() {
        return Ok(found);
    }
    let e = scan(s, i, Class::Word);
    match keyword_of(s, i, e) {
        Some(keyword) => match parse_statement(s, i, e, keyword, &mut found) {
            Ok(()) => Ok(found),
            Err(error) => Err(error),
        },
        None => Err(SyntaxError { column: i }),
    }
}

} // verus!
