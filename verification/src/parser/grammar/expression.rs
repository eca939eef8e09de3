//! The grammar of expressions.
//!
//! An expression is a chain of values joined by `&&` and `||`; a value is
//! a chain of sums joined by comparisons; a sum is a chain of products
//! joined by `+` and `-`; a product is a chain of unary expressions joined
//! by `*`, `/` and `%`. A unary expression is a number, a label or an
//! expression in round brackets, behind any number of the signs `-`, `+`
//! and `!`. Blanks may stand between the parts.

use vstd::prelude::*;

use crate::parser::grammar::ascii;
use crate::parser::grammar::lexical::{
    begins_word, is_digit, is_word_start, keyword_at, keyword_of, lemma_run_end, run_end, scan,
    skip, skip_spaces, Class,
};
use crate::parser::grammar::{leaf, lemma_trees_push, trees, Pair, Rule, Tree};

verus! {

/// The level of an expression: the highest of the four kinds of chain.
pub const EXPRESSION: u8 = 3;

/// The rule of the chains of a level.
pub open spec fn chain_rule(level: u8) -> Rule {
    if level == 0 {
        Rule::Product
    } else if level == 1 {
        Rule::Sum
    } else if level == 2 {
        Rule::Value
    } else {
        Rule::Expression
    }
}

/// The rule of the operators that join the chains of a level.
pub open spec fn operator_rule(level: u8) -> Rule {
    if level == 0 {
        Rule::MultiplyOp
    } else if level == 1 {
        Rule::AddOp
    } else if level == 2 {
        Rule::CompareOp
    } else {
        Rule::BooleanOp
    }
}

/// Whether the character `c` stands at `i`.
pub open spec fn at(s: Seq<u8>, i: int, c: u8) -> bool {
    0 <= i < s.len() && s[i] == c
}

/// Where the operator of a level that begins at `i` ends, if one begins
/// there.
pub open spec fn operator_end(s: Seq<u8>, i: int, level: u8) -> Option<int> {
    if level == 0 {
        if at(s, i, ascii::STAR) || at(s, i, ascii::SLASH) || at(s, i, ascii::PERCENT) {
            Some(i + 1)
        } else {
            None
        }
    } else if level == 1 {
        if at(s, i, ascii::PLUS) || at(s, i, ascii::MINUS) {
            Some(i + 1)
        } else {
            None
        }
    } else if level == 2 {
        if (at(s, i, ascii::LESS) || at(s, i, ascii::GREATER) || at(s, i, ascii::EQUALS) || at(
            s,
            i,
            ascii::BANG,
        )) && at(s, i + 1, ascii::EQUALS) {
            Some(i + 2)
        } else if at(s, i, ascii::LESS) || at(s, i, ascii::GREATER) {
            Some(i + 1)
        } else {
            None
        }
    } else {
        if (at(s, i, ascii::AMPERSAND) && at(s, i + 1, ascii::AMPERSAND)) || (at(s, i, ascii::BAR)
            && at(s, i + 1, ascii::BAR)) {
            Some(i + 2)
        } else {
            None
        }
    }
}

/// Whether a sign stands at `i`.
pub open spec fn sign_at(s: Seq<u8>, i: int) -> bool {
    at(s, i, ascii::MINUS) || at(s, i, ascii::PLUS) || at(s, i, ascii::BANG)
}

/// The label that begins at `i`, if one does: a word that is no keyword.
pub open spec fn label(s: Seq<u8>, i: int) -> Option<(Tree, int)> {
    if 0 <= i < s.len() && is_word_start(s[i]) && keyword_at(
        s,
        i,
        run_end(s, i, Class::Word),
    ).is_none() {
        Some((leaf(Rule::Label, i, run_end(s, i, Class::Word)), run_end(s, i, Class::Word)))
    } else {
        None
    }
}

/// The number that begins at `i`, if one does: a run of digits.
pub open spec fn number(s: Seq<u8>, i: int) -> Option<(Tree, int)> {
    if 0 <= i < s.len() && is_digit(s[i]) {
        Some((leaf(Rule::Number, i, run_end(s, i, Class::Digit)), run_end(s, i, Class::Digit)))
    } else {
        None
    }
}

/// The signs that begin at `i`, each behind any blanks, and the position
/// behind the last of them.
pub open spec fn signs(s: Seq<u8>, i: int) -> (Seq<Tree>, int)
    decreases s.len() - i,
{
    let j = skip(s, i);
    if i <= j && sign_at(s, j) {
        let (rest, end) = signs(s, j + 1);
        (seq![leaf(Rule::UnaryOp, j, j + 1)] + rest, end)
    } else {
        (Seq::empty(), i)
    }
}

/// The chain of a level that begins at `i`, if one does, and where it
/// ends. A chain that is a single operand takes the blanks behind it.
pub open spec fn chain(s: Seq<u8>, i: int, level: u8) -> Option<(Tree, int)>
    decreases s.len() - i, level + 1, 0nat,
{
    match operand(s, i, level) {
        Some((first, e)) => {
            if i < e <= s.len() {
                let (rest, end) = chain_tail(s, i, e, level, true);
                Some(
                    (
                        Tree { rule: chain_rule(level), start: i, end, inner: seq![first] + rest },
                        end,
                    ),
                )
            } else {
                None
            }
        },
        None => None,
    }
}

/// What a chain of a level is made of: a unary expression in a product,
/// and a chain of the level below in the others.
pub open spec fn operand(s: Seq<u8>, i: int, level: u8) -> Option<(Tree, int)>
    decreases s.len() - i, level as nat, 1nat,
{
    if level == 0 {
        unary(s, i)
    } else {
        chain(s, i, (level - 1) as u8)
    }
}

/// The operators and operands that go on a chain from `i`, where the last
/// operand ended, and where the chain ends. `from` is where the chain
/// began.
pub open spec fn chain_tail(s: Seq<u8>, from: int, i: int, level: u8, first: bool) -> (
    Seq<Tree>,
    int,
)
    decreases s.len() - i, level + 1, 2nat,
{
    let j = skip(s, i);
    let stop = (
        Seq::<Tree>::empty(),
        if first {
            j
        } else {
            i
        },
    );
    match operator_end(s, j, level) {
        Some(k) => {
            let m = skip(s, k);
            if i < m <= s.len() {
                match operand(s, m, level) {
                    Some((next, e)) => {
                        if m < e <= s.len() {
                            let (rest, end) = chain_tail(s, from, e, level, false);
                            (seq![leaf(operator_rule(level), j, k), next] + rest, end)
                        } else {
                            stop
                        }
                    },
                    None => stop,
                }
            } else {
                stop
            }
        },
        None => stop,
    }
}

/// The unary expression that begins at `i`, if one does, and where it
/// ends.
pub open spec fn unary(s: Seq<u8>, i: int) -> Option<(Tree, int)>
    decreases s.len() - i, 0nat, 0nat,
{
    let (ops, after) = signs(s, i);
    let j = skip(s, after);
    if !(0 <= i <= j < s.len()) {
        None
    } else if is_digit(s[j]) {
        match number(s, j) {
            Some((n, e)) => Some(
                (Tree { rule: Rule::UnaryExpr, start: i, end: e, inner: ops.push(n) }, e),
            ),
            None => None,
        }
    } else if is_word_start(s[j]) {
        match label(s, j) {
            Some((n, e)) => Some(
                (Tree { rule: Rule::UnaryExpr, start: i, end: e, inner: ops.push(n) }, e),
            ),
            None => None,
        }
    } else if s[j] == ascii::OPEN {
        let k = skip(s, j + 1);
        if j < k <= s.len() {
            match chain(s, k, EXPRESSION) {
                Some((inside, e)) => {
                    let close = skip(s, e);
                    if at(s, close, ascii::CLOSE) {
                        Some(
                            (
                                Tree {
                                    rule: Rule::UnaryExpr,
                                    start: i,
                                    end: close + 1,
                                    inner: ops.push(inside),
                                },
                                close + 1,
                            ),
                        )
                    } else {
                        None
                    }
                },
                None => None,
            }
        } else {
            None
        }
    } else {
        None
    }
}

/// Whether what a parsing function returned is what the grammar says.
pub open spec fn agrees(found: Option<(Pair, usize)>, expected: Option<(Tree, int)>) -> bool {
    match found {
        Some((pair, end)) => expected == Some((pair.tree(), end as int)),
        None => expected.is_none(),
    }
}

/// Whether the character `c` stands at `i`.
pub fn holds(s: &[u8], i: usize, c: u8) -> (r: bool)
    ensures
        r == at(s@, i as int, c),
        r ==> i < usize::MAX,
{
    i < s.len() && s[i] == c
}

/// Where the operator of a level that begins at `i` ends, if one begins
/// there.
pub fn parse_operator(s: &[u8], i: usize, level: u8) -> (r: Option<usize>)
    requires
        i <= s@.len(),
    ensures
        match r {
            Some(end) => operator_end(s@, i as int, level) == Some(end as int) && i < end
                <= s@.len(),
            None => operator_end(s@, i as int, level).is_none(),
        },
{
    if i >= s.len() {
        return None;
    }
    let c: u8 = s[i];
    let doubled = i + 1 < s.len() && s[i + 1] == c;
    let equals = i + 1 < s.len() && s[i + 1] == ascii::EQUALS;
    if level == 0 {
        if c == ascii::STAR || c == ascii::SLASH || c == ascii::PERCENT {
            Some(i + 1)
        } else {
            None
        }
    } else if level == 1 {
        if c == ascii::PLUS || c == ascii::MINUS {
            Some(i + 1)
        } else {
            None
        }
    } else if level == 2 {
        if (c == ascii::LESS || c == ascii::GREATER || c == ascii::EQUALS || c == ascii::BANG)
            && equals {
            Some(i + 2)
        } else if c == ascii::LESS || c == ascii::GREATER {
            Some(i + 1)
        } else {
            None
        }
    } else {
        if (c == ascii::AMPERSAND || c == ascii::BAR) && doubled {
            Some(i + 2)
        } else {
            None
        }
    }
}

/// The label that begins at `i`, if one does.
pub fn parse_label(s: &[u8], i: usize) -> (r: Option<(Pair, usize)>)
    requires
        i <= s@.len(),
    ensures
        agrees(r, label(s@, i as int)),
        r.is_some() ==> i < r.unwrap().1 <= s@.len(),
{
    if i < s.len() && begins_word(s[i]) {
        let end = scan(s, i, Class::Word);
        proof {
            lemma_run_end(s@, i + 1, Class::Word);
        }
        if keyword_of(s, i, end).is_none() {
            return Some((Pair::terminal(Rule::Label, i, end), end));
        }
    }
    None
}

/// The number that begins at `i`, if one does.
pub fn parse_number(s: &[u8], i: usize) -> (r: Option<(Pair, usize)>)
    requires
        i <= s@.len(),
    ensures
        agrees(r, number(s@, i as int)),
        r.is_some() ==> i < r.unwrap().1 <= s@.len(),
{
    if i < s.len() && s[i] >= ascii::ZERO && s[i] <= ascii::NINE {
        let end = scan(s, i, Class::Digit);
        proof {
            lemma_run_end(s@, i + 1, Class::Digit);
        }
        Some((Pair::terminal(Rule::Number, i, end), end))
    } else {
        None
    }
}

/// The signs that begin at `i`: they join `ops`, and the position behind
/// the last of them is returned.
pub fn parse_signs(s: &[u8], i: usize, ops: &mut Vec<Pair>) -> (end: usize)
    requires
        i <= s@.len(),
    ensures
        trees(final(ops)@) == trees(old(ops)@) + signs(s@, i as int).0,
        end == signs(s@, i as int).1,
        i <= end <= s@.len(),
{
    let mut end: usize = i;
    loop
        invariant
            i <= end <= s@.len(),
            trees(ops@) + signs(s@, end as int).0 == trees(old(ops)@) + signs(s@, i as int).0,
            signs(s@, end as int).1 == signs(s@, i as int).1,
        ensures
            trees(ops@) == trees(old(ops)@) + signs(s@, i as int).0,
            end == signs(s@, i as int).1,
        decreases s@.len() - end,
    {
        let j = skip_spaces(s, end);
        let sign = j < s.len() && (s[j] == ascii::MINUS || s[j] == ascii::PLUS || s[j]
            == ascii::BANG);
        if !sign {
            proof {
                assert(trees(ops@) + Seq::<Tree>::empty() =~= trees(ops@));
            }
            break ;
        }
        let sign = Pair::terminal(Rule::UnaryOp, j, j + 1);
        proof {
            let (rest, _) = signs(s@, j + 1);
            lemma_trees_push(ops@, sign);
            assert(trees(ops@).push(leaf(Rule::UnaryOp, j as int, j + 1)) + rest =~= trees(ops@)
                + (seq![leaf(Rule::UnaryOp, j as int, j + 1)] + rest));
        }
        ops.push(sign);
        end = j + 1;
    }
    end
}

/// The unary expression that begins at `i`, if one does, and where it
/// ends.
pub fn parse_unary(s: &[u8], i: usize) -> (r: Option<(Pair, usize)>)
    requires
        i <= s@.len(),
    ensures
        agrees(r, unary(s@, i as int)),
        r.is_some() ==> i < r.unwrap().1 <= s@.len(),
    decreases s@.len() - i, 0nat, 0nat,
{
    let mut inner: Vec<Pair> = Vec::new();
    let after = parse_signs(s, i, &mut inner);
    let j = skip_spaces(s, after);
    proof {
        assert(trees(Seq::<Pair>::empty()) =~= Seq::<Tree>::empty());
        assert(trees(inner@) =~= signs(s@, i as int).0);
    }
    if j >= s.len() {
        return None;
    }
    let found = if s[j] >= ascii::ZERO && s[j] <= ascii::NINE {
        parse_number(s, j)
    } else if begins_word(s[j]) {
        parse_label(s, j)
    } else if s[j] == ascii::OPEN {
        let k = skip_spaces(s, j + 1);
        match parse_chain(s, k, EXPRESSION) {
            Some((inside, e)) => {
                let close = skip_spaces(s, e);
                if holds(s, close, ascii::CLOSE) {
                    Some((inside, close + 1))
                } else {
                    None
                }
            },
            None => None,
        }
    } else {
        None
    };
    match found {
        Some((operand, end)) => {
            proof {
                lemma_trees_push(inner@, operand);
            }
            inner.push(operand);
            Some((Pair::node(Rule::UnaryExpr, i, end, inner), end))
        },
        None => None,
    }
}

/// The rule of the chains of a level.
pub fn rule_of_chain(level: u8) -> (r: Rule)
    ensures
        r == chain_rule(level),
{
    if level == 0 {
        Rule::Product
    } else if level == 1 {
        Rule::Sum
    } else if level == 2 {
        Rule::Value
    } else {
        Rule::Expression
    }
}

/// The rule of the operators that join the chains of a level.
pub fn rule_of_operator(level: u8) -> (r: Rule)
    ensures
        r == operator_rule(level),
{
    if level == 0 {
        Rule::MultiplyOp
    } else if level == 1 {
        Rule::AddOp
    } else if level == 2 {
        Rule::CompareOp
    } else {
        Rule::BooleanOp
    }
}

/// What a chain of a level is made of, if it begins at `i`.
pub fn parse_operand(s: &[u8], i: usize, level: u8) -> (r: Option<(Pair, usize)>)
    requires
        i <= s@.len(),
    ensures
        agrees(r, operand(s@, i as int, level)),
        r.is_some() ==> i < r.unwrap().1 <= s@.len(),
    decreases s@.len() - i, level as nat, 1nat,
{
    if level == 0 {
        parse_unary(s, i)
    } else {
        parse_chain(s, i, level - 1)
    }
}

/// The chain of a level that begins at `i`, if one does, and where it
/// ends.
pub fn parse_chain(s: &[u8], i: usize, level: u8) -> (r: Option<(Pair, usize)>)
    requires
        i <= s@.len(),
    ensures
        agrees(r, chain(s@, i as int, level)),
        r.is_some() ==> i < r.unwrap().1 <= s@.len(),
    decreases s@.len() - i, level + 1, 0nat,
{
    let (first, start) = match parse_operand(s, i, level) {
        Some(found) => found,
        None => {
            return None;
        },
    };
    let ghost whole = chain_tail(s@, i as int, start as int, level, true);
    let ghost head = first.tree();
    let mut inner: Vec<Pair> = Vec::new();
    inner.push(first);
    proof {
        assert(trees(inner@) =~= seq![head]);
    }
    let mut at_first = true;
    let mut position: usize = start;
    let mut end: usize = start;
    loop
        invariant
            i < position <= s@.len(),
            i <= s@.len(),
            trees(inner@) + chain_tail(s@, i as int, position as int, level, at_first).0 == seq![
                head,
            ] + whole.0,
            chain_tail(s@, i as int, position as int, level, at_first).1 == whole.1,
        ensures
            trees(inner@) == seq![head] + whole.0,
            end == whole.1,
            i < end <= s@.len(),
        decreases s@.len() - position,
    {
        let j = skip_spaces(s, position);
        let stop: usize = if at_first {
            j
        } else {
            position
        };
        let mut next: Option<(usize, usize, Pair, usize)> = None;
        if let Some(k) = parse_operator(s, j, level) {
            let m = skip_spaces(s, k);
            if let Some((operand, e)) = parse_operand(s, m, level) {
                next = Some((j, k, operand, e));
            }
        }
        match next {
            None => {
                proof {
                    assert(trees(inner@) + Seq::<Tree>::empty() =~= trees(inner@));
                }
                end = stop;
                break ;
            },
            Some((j, k, operand, e)) => {
                let op = Pair::terminal(rule_of_operator(level), j, k);
                proof {
                    let rest = chain_tail(s@, i as int, e as int, level, false).0;
                    lemma_trees_push(inner@, op);
                    lemma_trees_push(inner@.push(op), operand);
                    assert(trees(inner@).push(op.tree()).push(operand.tree()) + rest =~= trees(
                        inner@,
                    ) + (seq![op.tree(), operand.tree()] + rest));
                }
                inner.push(op);
                inner.push(operand);
                position = e;
                at_first = false;
            },
        }
    }
    Some((Pair::node(rule_of_chain(level), i, end, inner), end))
}

} // verus!
