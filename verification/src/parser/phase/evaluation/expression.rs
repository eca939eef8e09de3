//! The values of expressions.
//!
//! Values are 32-bit numbers in two's complement, and arithmetic wraps
//! around. Division truncates toward zero. Comparisons and the boolean
//! operators give 1 or 0, and the boolean operators leave their right
//! side alone where the left one decides.

use vstd::prelude::*;

use crate::parser::error::{Error, ErrorKind};
use crate::parser::grammar::ascii;
use crate::parser::grammar::lexical::is_digit;
use crate::parser::grammar::expression::{
    chain_rule, operator_rule, rule_of_chain, rule_of_operator, EXPRESSION,
};
use crate::parser::grammar::{lemma_inner_trees, trees, Pair, Rule, Tree};

verus! {

/// What a name stands for in an expression.
#[derive(Copy, Clone, Debug, PartialEq, Eq, Structural)]
pub enum Meaning {
    /// A number that is the same on every line.
    Constant(i32),
    /// The index of an instruction. Its value on a line is the distance
    /// from the instruction of that line.
    Address(i32),
    /// The index of the instruction of the line.
    CurrentLine,
}

/// A name and what it stands for.
#[derive(Debug)]
pub struct Binding {
    pub name: Vec<u8>,
    pub meaning: Meaning,
}

/// A name and what it stands for, in contracts.
pub struct Bound {
    pub name: Seq<u8>,
    pub meaning: Meaning,
}

impl Binding {
    /// The binding as contracts speak of it.
    pub open spec fn bound(self) -> Bound {
        Bound { name: self.name@, meaning: self.meaning }
    }
}

/// The bindings as contracts speak of them.
pub open spec fn bounds(bindings: Seq<Binding>) -> Seq<Bound> {
    Seq::new(bindings.len(), |i: int| bindings[i].bound())
}

/// What a name stands for among the first `count` bindings: the last of
/// them with that name decides.
pub open spec fn lookup(scope: Seq<Bound>, name: Seq<u8>, count: nat) -> Option<Meaning>
    decreases count,
{
    if count == 0 || count > scope.len() {
        None
    } else if scope[count - 1].name == name {
        Some(scope[count - 1].meaning)
    } else {
        lookup(scope, name, (count - 1) as nat)
    }
}

/// The value of what a name stands for on the line of the instruction
/// `line`.
pub open spec fn meaning_value(meaning: Meaning, line: i32) -> i32 {
    match meaning {
        Meaning::Constant(value) => value,
        Meaning::Address(index) => index.wrapping_sub(line),
        Meaning::CurrentLine => line,
    }
}

/// The number that the digits from `start` to `end` write.
pub open spec fn decimal(s: Seq<u8>, start: int, end: int) -> int
    decreases end - start,
{
    if end <= start || end > s.len() || start < 0 {
        0
    } else {
        decimal(s, start, end - 1) * 10 + (s[end - 1] - ascii::ZERO)
    }
}

/// Whether all characters from `start` to `end` are digits.
pub open spec fn all_digits(s: Seq<u8>, start: int, end: int) -> bool {
    forall|k: int| start <= k < end ==> is_digit(#[trigger] s[k])
}

/// A number is at least as large as the number that its first digits
/// write.
pub proof fn lemma_decimal_grows(s: Seq<u8>, start: int, mid: int, end: int)
    requires
        0 <= start <= mid <= end <= s.len(),
        all_digits(s, start, end),
    ensures
        0 <= decimal(s, start, mid) <= decimal(s, start, end),
    decreases end - mid,
{
    if mid < end {
        lemma_decimal_grows(s, start, mid, end - 1);
        lemma_decimal_grows(s, start, end - 1, end - 1);
        assert(is_digit(s[end - 1]));
    } else {
        lemma_decimal_positive(s, start, end);
    }
}

/// The number that digits write is not negative.
pub proof fn lemma_decimal_positive(s: Seq<u8>, start: int, end: int)
    requires
        0 <= start <= end <= s.len(),
        all_digits(s, start, end),
    ensures
        0 <= decimal(s, start, end),
    decreases end - start,
{
    if start < end {
        lemma_decimal_positive(s, start, end - 1);
        assert(is_digit(s[end - 1]));
    }
}

/// The quotient that truncates toward zero, wrapped around.
pub open spec fn quotient(a: i32, b: i32) -> i32 {
    if a == i32::MIN && b == -1 {
        i32::MIN
    } else if (a >= 0) == (b > 0) {
        (abs(a as int) / abs(b as int)) as i32
    } else {
        (-(abs(a as int) / abs(b as int))) as i32
    }
}

/// The remainder of the division that truncates toward zero.
pub open spec fn remainder(a: i32, b: i32) -> i32 {
    if a >= 0 {
        (a as int % abs(b as int)) as i32
    } else {
        (-(abs(a as int) % abs(b as int))) as i32
    }
}

/// The absolute value.
pub open spec fn abs(x: int) -> int {
    if x < 0 {
        -x
    } else {
        x
    }
}

/// 1 for true and 0 for false.
pub open spec fn truth(b: bool) -> i32 {
    if b {
        1
    } else {
        0
    }
}

/// What an operator makes of two values. The operator is given by its
/// first character and its length.
pub open spec fn apply(first: u8, len: int, a: i32, b: i32) -> Result<i32, ErrorKind> {
    if first == ascii::STAR {
        Ok(a.wrapping_mul(b))
    } else if first == ascii::SLASH {
        if b == 0 {
            Err(ErrorKind::DivisionByZero)
        } else {
            Ok(quotient(a, b))
        }
    } else if first == ascii::PERCENT {
        if b == 0 {
            Err(ErrorKind::DivisionByZero)
        } else {
            Ok(remainder(a, b))
        }
    } else if first == ascii::PLUS {
        Ok(a.wrapping_add(b))
    } else if first == ascii::MINUS {
        Ok(a.wrapping_sub(b))
    } else if first == ascii::LESS {
        Ok(truth(if len == 2 { a <= b } else { a < b }))
    } else if first == ascii::GREATER {
        Ok(truth(if len == 2 { a >= b } else { a > b }))
    } else if first == ascii::EQUALS {
        Ok(truth(a == b))
    } else if first == ascii::BANG {
        Ok(truth(a != b))
    } else if first == ascii::AMPERSAND {
        Ok(truth(a != 0 && b != 0))
    } else if first == ascii::BAR {
        Ok(truth(a != 0 || b != 0))
    } else {
        Err(ErrorKind::Malformed)
    }
}

/// Whether the left side decides what a boolean operator gives.
pub open spec fn decides(first: u8, a: i32) -> bool {
    (first == ascii::AMPERSAND && a == 0) || (first == ascii::BAR && a != 0)
}

/// What a sign makes of a value.
pub open spec fn signed(sign: u8, value: i32) -> i32 {
    if sign == ascii::MINUS {
        0i32.wrapping_sub(value)
    } else if sign == ascii::BANG {
        truth(value == 0)
    } else {
        value
    }
}

/// Whether a tree lies within a text and is not empty.
pub open spec fn within(tree: Tree, s: Seq<u8>) -> bool {
    0 <= tree.start < tree.end <= s.len()
}

/// The value of a chain of a level on the line of the instruction `line`:
/// its operands are joined from left to right.
pub open spec fn value_of(
    tree: Tree,
    s: Seq<u8>,
    scope: Seq<Bound>,
    line: i32,
    level: u8,
) -> Result<i32, Error>
    decreases tree, 1nat, 0nat,
{
    if tree.rule != chain_rule(level) || tree.inner.len() % 2 == 0 {
        Err(Error::at(ErrorKind::Malformed, tree.start))
    } else {
        joined(tree, s, scope, line, level, (tree.inner.len() / 2) as nat)
    }
}

/// The value of an operand of a chain of a level.
pub open spec fn operand_value(
    tree: Tree,
    s: Seq<u8>,
    scope: Seq<Bound>,
    line: i32,
    level: u8,
) -> Result<i32, Error>
    decreases tree, 2nat, 0nat,
{
    if level == 0 {
        unary_value(tree, s, scope, line)
    } else {
        value_of(tree, s, scope, line, (level - 1) as u8)
    }
}

/// The value of the first operand of a chain joined with the `count`
/// operands that follow it.
pub open spec fn joined(
    tree: Tree,
    s: Seq<u8>,
    scope: Seq<Bound>,
    line: i32,
    level: u8,
    count: nat,
) -> Result<i32, Error>
    decreases tree, 0nat, count,
{
    if 2 * count >= tree.inner.len() {
        Err(Error::at(ErrorKind::Malformed, tree.start))
    } else if count == 0 {
        operand_value(tree.inner[0], s, scope, line, level)
    } else {
        let operator = tree.inner[2 * count - 1];
        let operand = tree.inner[2 * count as int];
        match joined(tree, s, scope, line, level, (count - 1) as nat) {
            Err(error) => Err(error),
            Ok(a) => if operator.rule != operator_rule(level) || !within(operator, s) {
                Err(Error::at(ErrorKind::Malformed, operator.start))
            } else if decides(s[operator.start], a) {
                Ok(truth(a != 0))
            } else {
                match operand_value(operand, s, scope, line, level) {
                    Err(error) => Err(error),
                    Ok(b) => match apply(
                        s[operator.start],
                        operator.end - operator.start,
                        a,
                        b,
                    ) {
                        Ok(value) => Ok(value),
                        Err(kind) => Err(Error::at(kind, operator.start)),
                    },
                }
            },
        }
    }
}

/// The value of a number, a label or an expression in brackets.
pub open spec fn atom_value(tree: Tree, s: Seq<u8>, scope: Seq<Bound>, line: i32) -> Result<
    i32,
    Error,
>
    decreases tree, 2nat, 0nat,
{
    if tree.rule == Rule::Expression {
        value_of(tree, s, scope, line, EXPRESSION)
    } else if !within(tree, s) {
        Err(Error::at(ErrorKind::Malformed, tree.start))
    } else if tree.rule == Rule::Number {
        if !all_digits(s, tree.start, tree.end) {
            Err(Error::at(ErrorKind::Malformed, tree.start))
        } else if decimal(s, tree.start, tree.end) > i32::MAX {
            Err(Error::at(ErrorKind::NumberTooLarge, tree.start))
        } else {
            Ok(decimal(s, tree.start, tree.end) as i32)
        }
    } else if tree.rule == Rule::Label {
        match lookup(scope, s.subrange(tree.start, tree.end), scope.len()) {
            Some(meaning) => Ok(meaning_value(meaning, line)),
            None => Err(Error::at(ErrorKind::UnknownLabel, tree.start)),
        }
    } else {
        Err(Error::at(ErrorKind::Malformed, tree.start))
    }
}

/// The value of a unary expression: the value of its last part, to which
/// the signs in front are applied one after the other, the first one
/// first.
pub open spec fn unary_value(tree: Tree, s: Seq<u8>, scope: Seq<Bound>, line: i32) -> Result<
    i32,
    Error,
>
    decreases tree, 1nat, 0nat,
{
    if tree.rule != Rule::UnaryExpr || tree.inner.len() == 0 {
        Err(Error::at(ErrorKind::Malformed, tree.start))
    } else {
        match atom_value(tree.inner.last(), s, scope, line) {
            Err(error) => Err(error),
            Ok(value) => with_signs(tree, s, value, (tree.inner.len() - 1) as nat),
        }
    }
}

/// A value after the first `count` signs of a unary expression were
/// applied to it, the first one first.
pub open spec fn with_signs(tree: Tree, s: Seq<u8>, value: i32, count: nat) -> Result<i32, Error>
    decreases count,
{
    if count == 0 {
        Ok(value)
    } else if count >= tree.inner.len() {
        Err(Error::at(ErrorKind::Malformed, tree.start))
    } else {
        let sign = tree.inner[count - 1];
        match with_signs(tree, s, value, (count - 1) as nat) {
            Err(error) => Err(error),
            Ok(before) => if sign.rule != Rule::UnaryOp || !within(sign, s) {
                Err(Error::at(ErrorKind::Malformed, sign.start))
            } else {
                Ok(signed(s[sign.start], before))
            },
        }
    }
}

/// Whether a pair lies within a text and is not empty.
pub fn lies_within(pair: &Pair, s: &[u8]) -> (r: bool)
    ensures
        r == within(pair.tree(), s@),
{
    proof {
        lemma_inner_trees(*pair);
    }
    pair.start < pair.end && pair.end <= s.len()
}

/// Whether a name is the text from `start` to `end`.
pub fn is_name(name: &[u8], s: &[u8], start: usize, end: usize) -> (r: bool)
    requires
        start <= end <= s@.len(),
    ensures
        r == (name@ == s@.subrange(start as int, end as int)),
{
    if name.len() != end - start {
        return false;
    }
    let mut i: usize = 0;
    while i < name.len()
        invariant
            0 <= i <= name@.len(),
            name@.len() == end - start,
            end <= s@.len(),
            forall|k: int| 0 <= k < i ==> name@[k] == s@[start + k],
        decreases name@.len() - i,
    {
        if name[i] != s[start + i] {
            assert(s@.subrange(start as int, end as int)[i as int] == s@[start + i]);
            return false;
        }
        i = i + 1;
    }
    assert(name@ =~= s@.subrange(start as int, end as int));
    true
}

/// What the name from `start` to `end` stands for: the last binding with
/// that name decides.
pub fn find_meaning(bindings: &[Binding], s: &[u8], start: usize, end: usize) -> (r: Option<
    Meaning,
>)
    requires
        start <= end <= s@.len(),
    ensures
        r == lookup(bounds(bindings@), s@.subrange(start as int, end as int), bindings@.len()),
{
    let ghost name = s@.subrange(start as int, end as int);
    let ghost scope = bounds(bindings@);
    let mut i: usize = bindings.len();
    while i > 0
        invariant
            0 <= i <= bindings@.len(),
            start <= end <= s@.len(),
            name == s@.subrange(start as int, end as int),
            scope == bounds(bindings@),
            lookup(scope, name, bindings@.len()) == lookup(scope, name, i as nat),
        decreases i,
    {
        i = i - 1;
        if is_name(bindings[i].name.as_slice(), s, start, end) {
            return Some(bindings[i].meaning);
        }
    }
    None
}

/// The value of what a name stands for on the line of the instruction
/// `line`.
pub fn value_of_meaning(meaning: Meaning, line: i32) -> (r: i32)
    ensures
        r == meaning_value(meaning, line),
{
    match meaning {
        Meaning::Constant(value) => value,
        Meaning::Address(index) => index.wrapping_sub(line),
        Meaning::CurrentLine => line,
    }
}

/// Whether all characters from `start` to `end` are digits.
pub fn only_digits(s: &[u8], start: usize, end: usize) -> (r: bool)
    requires
        start <= end <= s@.len(),
    ensures
        r == all_digits(s@, start as int, end as int),
{
    let mut i: usize = start;
    while i < end
        invariant
            start <= i <= end <= s@.len(),
            all_digits(s@, start as int, i as int),
        decreases end - i,
    {
        if !(ascii::ZERO <= s[i] && s[i] <= ascii::NINE) {
            assert(!is_digit(s@[i as int]));
            return false;
        }
        i = i + 1;
    }
    true
}

/// The value of a number.
pub fn evaluate_number(pair: &Pair, s: &[u8]) -> (r: Result<i32, Error>)
    requires
        pair.rule == Rule::Number,
        within(pair.tree(), s@),
    ensures
        r == atom_value(pair.tree(), s@, Seq::<Bound>::empty(), 0),
{
    proof {
        lemma_inner_trees(*pair);
    }
    let start: usize = pair.start;
    let end: usize = pair.end;
    if !only_digits(s, start, end) {
        return Err(Error::new(ErrorKind::Malformed, start));
    }
    let mut i: usize = start;
    let mut value: i64 = 0;
    while i < end
        invariant
            start <= i <= end <= s@.len(),
            all_digits(s@, start as int, end as int),
            value == decimal(s@, start as int, i as int),
            0 <= value <= i32::MAX,
            pair.tree().rule == Rule::Number,
            pair.tree().start == start,
            pair.tree().end == end,
        decreases end - i,
    {
        let c: u8 = s[i];
        assert(is_digit(s@[i as int]));
        let next: i64 = value * 10 + (c - ascii::ZERO) as i64;
        assert(next == decimal(s@, start as int, i + 1));
        if next > i32::MAX as i64 {
            proof {
                lemma_decimal_grows(s@, start as int, i + 1, end as int);
            }
            return Err(Error::new(ErrorKind::NumberTooLarge, start));
        }
        value = next;
        i = i + 1;
    }
    Ok(value as i32)
}

/// What an operator makes of two values.
pub fn apply_operator(first: u8, len: usize, a: i32, b: i32) -> (r: Result<i32, ErrorKind>)
    ensures
        r == apply(first, len as int, a, b),
{
    if first == ascii::STAR {
        Ok(a.wrapping_mul(b))
    } else if first == ascii::SLASH || first == ascii::PERCENT {
        if b == 0 {
            return Err(ErrorKind::DivisionByZero);
        }
        let wide_a: i64 = if a < 0 {
            -(a as i64)
        } else {
            a as i64
        };
        let wide_b: i64 = if b < 0 {
            -(b as i64)
        } else {
            b as i64
        };
        if first == ascii::SLASH {
            if a == i32::MIN && b == -1 {
                Ok(i32::MIN)
            } else if (a >= 0) == (b > 0) {
                Ok((wide_a / wide_b) as i32)
            } else {
                Ok((-(wide_a / wide_b)) as i32)
            }
        } else {
            if a >= 0 {
                Ok((wide_a % wide_b) as i32)
            } else {
                Ok((-(wide_a % wide_b)) as i32)
            }
        }
    } else if first == ascii::PLUS {
        Ok(a.wrapping_add(b))
    } else if first == ascii::MINUS {
        Ok(a.wrapping_sub(b))
    } else if first == ascii::LESS {
        Ok(bit(if len == 2 { a <= b } else { a < b }))
    } else if first == ascii::GREATER {
        Ok(bit(if len == 2 { a >= b } else { a > b }))
    } else if first == ascii::EQUALS {
        Ok(bit(a == b))
    } else if first == ascii::BANG {
        Ok(bit(a != b))
    } else if first == ascii::AMPERSAND {
        Ok(bit(a != 0 && b != 0))
    } else if first == ascii::BAR {
        Ok(bit(a != 0 || b != 0))
    } else {
        Err(ErrorKind::Malformed)
    }
}

/// 1 for true and 0 for false.
pub fn bit(b: bool) -> (r: i32)
    ensures
        r == truth(b),
{
    if b {
        1
    } else {
        0
    }
}

/// What a sign makes of a value.
pub fn apply_sign(sign: u8, value: i32) -> (r: i32)
    ensures
        r == signed(sign, value),
{
    if sign == ascii::MINUS {
        0i32.wrapping_sub(value)
    } else if sign == ascii::BANG {
        bit(value == 0)
    } else {
        value
    }
}

/// The value of a number, a label or an expression in brackets.
pub fn evaluate_atom(pair: &Pair, s: &[u8], bindings: &[Binding], line: i32) -> (r: Result<
    i32,
    Error,
>)
    ensures
        r == atom_value(pair.tree(), s@, bounds(bindings@), line),
    decreases pair, 5nat,
{
    proof {
        lemma_inner_trees(*pair);
    }
    match pair.rule {
        Rule::Expression => evaluate(pair, s, bindings, line),
        Rule::Number => {
            if lies_within(pair, s) {
                evaluate_number(pair, s)
            } else {
                Err(Error::new(ErrorKind::Malformed, pair.start))
            }
        },
        Rule::Label => {
            if lies_within(pair, s) {
                match find_meaning(bindings, s, pair.start, pair.end) {
                    Some(meaning) => Ok(value_of_meaning(meaning, line)),
                    None => Err(Error::new(ErrorKind::UnknownLabel, pair.start)),
                }
            } else {
                Err(Error::new(ErrorKind::Malformed, pair.start))
            }
        },
        _ => Err(Error::new(ErrorKind::Malformed, pair.start)),
    }
}

/// The value of a unary expression.
pub fn evaluate_unary(pair: &Pair, s: &[u8], bindings: &[Binding], line: i32) -> (r: Result<
    i32,
    Error,
>)
    ensures
        r == unary_value(pair.tree(), s@, bounds(bindings@), line),
    decreases pair, 3nat,
{
    proof {
        lemma_inner_trees(*pair);
    }
    let count: usize = pair.inner.len();
    if !matches!(pair.rule, Rule::UnaryExpr) || count == 0 {
        return Err(Error::new(ErrorKind::Malformed, pair.start));
    }
    proof {
        assert(pair.tree().inner.last() == pair.inner@[count - 1].tree());
    }
    let value = match evaluate_atom(&pair.inner[count - 1], s, bindings, line) {
        Ok(value) => value,
        Err(error) => {
            return Err(error);
        },
    };
    let mut result: i32 = value;
    let mut i: usize = 0;
    while i < count - 1
        invariant
            0 <= i <= count - 1,
            count == pair.inner@.len(),
            pair.tree().inner == trees(pair.inner@),
            pair.tree().rule == Rule::UnaryExpr,
            atom_value(pair.tree().inner.last(), s@, bounds(bindings@), line) == Ok::<i32, Error>(
                value,
            ),
            with_signs(pair.tree(), s@, value, i as nat) == Ok::<i32, Error>(result),
        decreases count - i,
    {
        let sign = &pair.inner[i];
        proof {
            lemma_inner_trees(*sign);
            assert(pair.tree().inner[i as int] == sign.tree());
        }
        if !matches!(sign.rule, Rule::UnaryOp) || !lies_within(sign, s) {
            proof {
                lemma_signs_fail(pair.tree(), s@, value, (i + 1) as nat, (count - 1) as nat);
            }
            return Err(Error::new(ErrorKind::Malformed, sign.start));
        }
        result = apply_sign(s[sign.start], result);
        i = i + 1;
    }
    Ok(result)
}

/// The value of an operand of a chain of a level.
pub fn evaluate_operand(pair: &Pair, s: &[u8], bindings: &[Binding], line: i32, level: u8) -> (r:
    Result<i32, Error>)
    ensures
        r == operand_value(pair.tree(), s@, bounds(bindings@), line, level),
    decreases pair, 4nat,
{
    if level == 0 {
        evaluate_unary(pair, s, bindings, line)
    } else {
        evaluate_chain(pair, s, bindings, line, level - 1)
    }
}

/// The value of a chain of a level: its operands are joined from left to
/// right.
pub fn evaluate_chain(pair: &Pair, s: &[u8], bindings: &[Binding], line: i32, level: u8) -> (r:
    Result<i32, Error>)
    ensures
        r == value_of(pair.tree(), s@, bounds(bindings@), line, level),
    decreases pair, 3nat,
{
    proof {
        lemma_inner_trees(*pair);
    }
    let count: usize = pair.inner.len();
    if pair.rule != rule_of_chain(level) || count % 2 == 0 {
        return Err(Error::new(ErrorKind::Malformed, pair.start));
    }
    proof {
        assert(pair.tree().inner[0] == pair.inner@[0].tree());
    }
    let mut result: i32 = match evaluate_operand(&pair.inner[0], s, bindings, line, level) {
        Ok(value) => value,
        Err(error) => {
            proof {
                lemma_joined_fails(
                    pair.tree(),
                    s@,
                    bounds(bindings@),
                    line,
                    level,
                    0,
                    (count / 2) as nat,
                );
            }
            return Err(error);
        },
    };
    let mut joined_so_far: usize = 0;
    while joined_so_far < count / 2
        invariant
            0 <= joined_so_far <= count / 2,
            count == pair.inner@.len(),
            count % 2 == 1,
            pair.tree().inner == trees(pair.inner@),
            pair.tree().rule == chain_rule(level),
            joined(pair.tree(), s@, bounds(bindings@), line, level, joined_so_far as nat) == Ok::<
                i32,
                Error,
            >(result),
        decreases count / 2 - joined_so_far,
    {
        let operator = &pair.inner[2 * joined_so_far + 1];
        let operand = &pair.inner[2 * joined_so_far + 2];
        proof {
            lemma_inner_trees(*operator);
            assert(pair.tree().inner[2 * joined_so_far + 1] == operator.tree());
            assert(pair.tree().inner[2 * joined_so_far + 2] == operand.tree());
        }
        let next: Result<i32, Error> = if operator.rule != rule_of_operator(level) || !lies_within(
            operator,
            s,
        ) {
            Err(Error::new(ErrorKind::Malformed, operator.start))
        } else {
            let first: u8 = s[operator.start];
            let decided = (first == ascii::AMPERSAND && result == 0) || (first == ascii::BAR
                && result != 0);
            if decided {
                Ok(bit(result != 0))
            } else {
                match evaluate_operand(operand, s, bindings, line, level) {
                    Err(error) => Err(error),
                    Ok(b) => match apply_operator(
                        first,
                        operator.end - operator.start,
                        result,
                        b,
                    ) {
                        Ok(value) => Ok(value),
                        Err(kind) => Err(Error::new(kind, operator.start)),
                    },
                }
            }
        };
        match next {
            Ok(value) => {
                result = value;
                joined_so_far = joined_so_far + 1;
            },
            Err(error) => {
                proof {
                    lemma_joined_fails(
                        pair.tree(),
                        s@,
                        bounds(bindings@),
                        line,
                        level,
                        (joined_so_far + 1) as nat,
                        (count / 2) as nat,
                    );
                }
                return Err(error);
            },
        }
    }
    Ok(result)
}

/// The value of an expression on the line of the instruction `line`, with
/// the names that the bindings give a meaning.
pub fn evaluate(pair: &Pair, s: &[u8], bindings: &[Binding], line: i32) -> (r: Result<i32, Error>)
    ensures
        r == value_of(pair.tree(), s@, bounds(bindings@), line, EXPRESSION),
    decreases pair, 4nat,
{
    evaluate_chain(pair, s, bindings, line, EXPRESSION)
}

/// The value of a value: sums joined by comparisons.
pub fn evaluate_value(pair: &Pair, s: &[u8], bindings: &[Binding], line: i32) -> (r: Result<
    i32,
    Error,
>)
    ensures
        r == value_of(pair.tree(), s@, bounds(bindings@), line, 2),
{
    evaluate_chain(pair, s, bindings, line, 2)
}

/// The value of a sum: products joined by `+` and `-`.
pub fn evaluate_sum(pair: &Pair, s: &[u8], bindings: &[Binding], line: i32) -> (r: Result<
    i32,
    Error,
>)
    ensures
        r == value_of(pair.tree(), s@, bounds(bindings@), line, 1),
{
    evaluate_chain(pair, s, bindings, line, 1)
}

/// The value of a product: unary expressions joined by `*`, `/` and `%`.
pub fn evaluate_product(pair: &Pair, s: &[u8], bindings: &[Binding], line: i32) -> (r: Result<
    i32,
    Error,
>)
    ensures
        r == value_of(pair.tree(), s@, bounds(bindings@), line, 0),
{
    evaluate_chain(pair, s, bindings, line, 0)
}

/// Once joining the operands of a chain has failed, it fails in the same
/// way however many operands are joined.
pub proof fn lemma_joined_fails(
    tree: Tree,
    s: Seq<u8>,
    scope: Seq<Bound>,
    line: i32,
    level: u8,
    count: nat,
    more: nat,
)
    requires
        count <= more,
        2 * more < tree.inner.len(),
        joined(tree, s, scope, line, level, count).is_err(),
    ensures
        joined(tree, s, scope, line, level, more) == joined(tree, s, scope, line, level, count),
    decreases more - count,
{
    if count < more {
        lemma_joined_fails(tree, s, scope, line, level, count, (more - 1) as nat);
    }
}

/// Once applying the signs has failed, it fails in the same way however
/// many signs are applied.
pub proof fn lemma_signs_fail(tree: Tree, s: Seq<u8>, value: i32, count: nat, more: nat)
    requires
        count <= more < tree.inner.len(),
        with_signs(tree, s, value, count).is_err(),
    ensures
        with_signs(tree, s, value, more) == with_signs(tree, s, value, count),
    decreases more - count,
{
    if count < more {
        lemma_signs_fail(tree, s, value, count, (more - 1) as nat);
    }
}

} // verus!
