//! The grammar of a line of Redcode, and the tree that a line parses to.

use vstd::prelude::*;
use vstd::slice::slice_subrange;
use vstd::string::StringSliceAdditionalSpecFns;

use crate::parser::grammar::expression::{chain, parse_chain, EXPRESSION};
use crate::parser::grammar::line::{find, line, parse_code, SyntaxError};

pub mod ascii;
pub mod expression;
pub mod lexical;
pub mod line;

verus! {

/// The rules of the grammar that leave a node in the tree.
#[derive(Copy, Clone, Debug, PartialEq, Eq, Structural, Hash)]
pub enum Rule {
    /// An operation with its fields.
    Instruction,
    /// An opcode, with a modifier or without.
    Operation,
    Opcode,
    Modifier,
    /// An expression, with an address mode or without.
    Field,
    AddressMode,
    /// Values joined by `&&` and `||`.
    Expression,
    /// Sums joined by comparisons.
    Value,
    /// Products joined by `+` and `-`.
    Sum,
    /// Unary expressions joined by `*`, `/` and `%`.
    Product,
    /// A number, a label or an expression in brackets, behind any signs.
    UnaryExpr,
    UnaryOp,
    Number,
    Label,
    AddOp,
    MultiplyOp,
    CompareOp,
    BooleanOp,
    /// The text that `EQU` gives a name to.
    Substitution,
    For,
    Rof,
    Org,
    End,
}

/// A node of the tree that a line parses to: the rule that matched, the
/// stretch of the line that it matched, and the nodes of the rules that
/// matched within.
#[derive(Debug, PartialEq, Eq)]
pub struct Pair {
    pub rule: Rule,
    /// The index of the first character.
    pub start: usize,
    /// The index behind the last character.
    pub end: usize,
    pub inner: Vec<Pair>,
}

/// What a `Pair` stands for.
pub struct Tree {
    pub rule: Rule,
    pub start: int,
    pub end: int,
    pub inner: Seq<Tree>,
}

/// A tree without inner trees.
pub open spec fn leaf(rule: Rule, start: int, end: int) -> Tree {
    Tree { rule, start, end, inner: Seq::empty() }
}

impl Pair {
    /// The tree that the pair stands for.
    pub open spec fn tree(self) -> Tree
        decreases self,
    {
        Tree {
            rule: self.rule,
            start: self.start as int,
            end: self.end as int,
            inner: Seq::new(
                self.inner@.len(),
                |i: int|
                    if 0 <= i < self.inner@.len() {
                        self.inner[i].tree()
                    } else {
                        leaf(self.rule, 0, 0)
                    },
            ),
        }
    }

    /// A pair without inner pairs.
    pub fn terminal(rule: Rule, start: usize, end: usize) -> (r: Pair)
        ensures
            r.tree() == leaf(rule, start as int, end as int),
            r.rule == rule,
            r.start == start,
            r.end == end,
    {
        let r = Pair { rule, start, end, inner: Vec::new() };
        proof {
            assert(r.tree().inner =~= Seq::<Tree>::empty());
        }
        r
    }

    /// A pair with the given inner pairs.
    pub fn node(rule: Rule, start: usize, end: usize, inner: Vec<Pair>) -> (r: Pair)
        ensures
            r.tree() == (Tree {
                rule,
                start: start as int,
                end: end as int,
                inner: trees(inner@),
            }),
            r.rule == rule,
            r.start == start,
            r.end == end,
            r.inner == inner,
    {
        let r = Pair { rule, start, end, inner };
        proof {
            assert(r.tree().inner =~= trees(inner@));
        }
        r
    }
}

/// The trees that a list of pairs stands for.
pub open spec fn trees(pairs: Seq<Pair>) -> Seq<Tree> {
    Seq::new(pairs.len(), |i: int| pairs[i].tree())
}

/// The inner trees of a pair are the trees of its inner pairs.
pub proof fn lemma_inner_trees(pair: Pair)
    ensures
        pair.tree().inner == trees(pair.inner@),
        pair.tree().rule == pair.rule,
        pair.tree().start == pair.start,
        pair.tree().end == pair.end,
{
    assert(pair.tree().inner =~= trees(pair.inner@));
}

/// One more pair makes one more tree.
pub proof fn lemma_trees_push(pairs: Seq<Pair>, pair: Pair)
    ensures
        trees(pairs.push(pair)) == trees(pairs).push(pair.tree()),
{
    assert(trees(pairs.push(pair)) =~= trees(pairs).push(pair.tree()));
}

/// The terminal trees of a tree, from left to right: those without inner
/// trees.
pub open spec fn leaves(tree: Tree) -> Seq<Tree>
    decreases tree, 1nat,
{
    if tree.inner.len() == 0 {
        seq![tree]
    } else {
        leaves_of(tree.inner, tree.inner.len())
    }
}

/// The terminal trees of the first `count` of a list of trees.
pub open spec fn leaves_of(trees: Seq<Tree>, count: nat) -> Seq<Tree>
    decreases trees, 0nat, count,
{
    if count == 0 || count > trees.len() {
        Seq::empty()
    } else {
        leaves_of(trees, (count - 1) as nat) + leaves(trees[count - 1])
    }
}

/// The grammar of Redcode.
#[derive(Copy, Clone, Debug, PartialEq, Eq, Structural)]
pub struct Grammar;

impl Grammar {
    /// Parse a single line of input according to the grammar.
    pub fn line(input: &[u8]) -> (r: Result<Vec<Pair>, SyntaxError>)
        ensures
            match r {
                Ok(pairs) => line(input@) == Ok::<Seq<Tree>, int>(trees(pairs@)),
                Err(error) => line(input@) == Err::<Seq<Tree>, int>(error.column as int),
            },
    {
        let end = find(input, 0, ascii::SEMICOLON);
        let code = slice_subrange(input, 0, end);
        parse_code(code)
    }

    /// Parse an expression at the beginning of the input.
    pub fn expression(input: &[u8]) -> (r: Result<Pair, SyntaxError>)
        ensures
            match r {
                Ok(pair) => chain(input@, 0, EXPRESSION) matches Some((tree, _)) && pair.tree()
                    == tree,
                Err(error) => chain(input@, 0, EXPRESSION).is_none() && error.column == 0,
            },
    {
        match parse_chain(input, 0, EXPRESSION) {
            Some((pair, _)) => Ok(pair),
            None => Err(SyntaxError { column: 0 }),
        }
    }

    /// The terminal pairs of a pair join `found`, from left to right.
    pub fn terminals(pair: &Pair, found: &mut Vec<Pair>)
        ensures
            trees(final(found)@) == trees(old(found)@) + leaves(pair.tree()),
        decreases pair,
    {
        proof {
            lemma_inner_trees(*pair);
        }
        if pair.inner.len() == 0 {
            let copy = Pair::terminal(pair.rule, pair.start, pair.end);
            proof {
                lemma_trees_push(found@, copy);
                assert(trees(pair.inner@) =~= Seq::<Tree>::empty());
                assert(pair.tree() == copy.tree());
                assert(trees(found@).push(copy.tree()) =~= trees(found@) + seq![copy.tree()]);
            }
            found.push(copy);
        } else {
            let mut i: usize = 0;
            while i < pair.inner.len()
                invariant
                    0 <= i <= pair.inner@.len(),
                    pair.tree().inner == trees(pair.inner@),
                    trees(found@) == trees(old(found)@) + leaves_of(pair.tree().inner, i as nat),
                decreases pair.inner@.len() - i,
            {
                let ghost before = trees(found@);
                Self::terminals(&pair.inner[i], found);
                proof {
                    let inner = pair.tree().inner;
                    assert(inner[i as int] == pair.inner@[i as int].tree());
                    assert(before + leaves(inner[i as int]) =~= trees(old(found)@) + (leaves_of(
                        inner,
                        i as nat,
                    ) + leaves(inner[i as int])));
                }
                i = i + 1;
            }
        }
    }
}

/// Parse a single line of input according to the grammar.
pub fn parse_line(line: &str) -> (r: Result<Vec<Pair>, SyntaxError>)
    ensures
        match r {
            Ok(pairs) => self::line::line(line.spec_bytes()) == Ok::<Seq<Tree>, int>(
                trees(pairs@),
            ),
            Err(error) => self::line::line(line.spec_bytes()) == Err::<Seq<Tree>, int>(
                error.column as int,
            ),
        },
{
    Grammar::line(line.as_bytes())
}

/// Parse a single expression at the beginning of a string.
pub fn parse_expression(line: &str) -> (r: Result<Pair, SyntaxError>)
    ensures
        match r {
            Ok(pair) => chain(line.spec_bytes(), 0, EXPRESSION) matches Some((tree, _))
                && pair.tree() == tree,
            Err(error) => chain(line.spec_bytes(), 0, EXPRESSION).is_none() && error.column == 0,
        },
{
    Grammar::expression(line.as_bytes())
}

/// Parse an input line and flatten it to the terminal pairs, those without
/// inner pairs. A line that does not parse has none.
pub fn tokenize(line: &str) -> (r: Vec<Pair>)
    ensures
        trees(r@) == match self::line::line(line.spec_bytes()) {
            Ok(found) => leaves_of(found, found.len()),
            Err(_) => Seq::<Tree>::empty(),
        },
{
    let mut found: Vec<Pair> = Vec::new();
    proof {
        assert(trees(found@) =~= Seq::<Tree>::empty());
    }
    if let Ok(pairs) = parse_line(line) {
        let mut i: usize = 0;
        while i < pairs.len()
            invariant
                0 <= i <= pairs@.len(),
                trees(found@) == leaves_of(trees(pairs@), i as nat),
            decreases pairs@.len() - i,
        {
            Grammar::terminals(&pairs[i], &mut found);
            i = i + 1;
        }
    }
    found
}

} // verus!
