//! A program that is written down as a load file and assembled again is
//! the same program.

use vstd::prelude::*;
use vstd::string::StringSliceAdditionalSpecFns;

use crate::load_file::dump::{
    filled, listing, modifier_name, opcode_name, sign_of, written_field, written_instruction,
    written_lines, written_number,
};
use crate::load_file::{Field, Instruction, Modifier, Opcode};
use crate::parser::error::Error;
use crate::parser::grammar::ascii;
use crate::parser::grammar::expression::{
    chain, chain_rule, chain_tail, number, operand, operator_end, sign_at, signs, unary,
};
use crate::parser::grammar::lexical::{
    in_class, is_digit, is_space, is_word_start, keyword, keyword_at, lower, run_end, skip,
    Class, Keyword,
};
use crate::parser::grammar::line::{
    code, declarations, field, first_of, instruction, is_mode, is_modifier, line, operation,
    statement,
};
use crate::parser::phase::instruction::{
    field_of, instruction_of, mode_of, modifier_at, opcode_at, operation_of,
};
use crate::parser::grammar::{leaf, Rule, Tree};
use crate::parser::phase::evaluation::expression::{
    all_digits, atom_value, decimal, joined, operand_value, unary_value, value_of, with_signs,
    Bound,
};
use crate::parser::grammar::expression::{label, EXPRESSION};
use crate::parser::grammar::lexical::lemma_run_end;
use crate::load_file::offset::normalized;
use crate::mars::CoreConfig;
use crate::parser::error::Warning;
use crate::parser::phase::assembly::{
    assembled, assembled_line, collected, collected_line, declared, declared_in, number_of,
    origin_of, statement_of, with_origin, Assembled, Collected, Statement,
};
use crate::parser::phase::expansion::{
    code_of, emitted, expanded, following, kind_of, line_bounds, Expanded, LineKind,
};
use crate::parser::{assembly, constants, remarks};
use crate::parser::phase::text::{defined, digits_of, newlines_in, piece, replaced, Named};

verus! {

/// A run ends where the first character stands that is not of its class.
pub proof fn lemma_run_is(s: Seq<u8>, i: int, e: int, class: Class)
    requires
        0 <= i <= e <= s.len(),
        forall|k: int| i <= k < e ==> in_class(class, #[trigger] s[k]),
        e == s.len() || !in_class(class, s[e]),
    ensures
        run_end(s, i, class) == e,
    decreases e - i,
{
    if i < e {
        lemma_run_is(s, i + 1, e, class);
    }
}

/// The first of a character stands where none stands before.
pub proof fn lemma_first_is(s: Seq<u8>, i: int, e: int, c: u8)
    requires
        0 <= i <= e <= s.len(),
        forall|k: int| i <= k < e ==> #[trigger] s[k] != c,
        e == s.len() || s[e] == c,
    ensures
        first_of(s, i, c) == e,
    decreases e - i,
{
    if i < e {
        lemma_first_is(s, i + 1, e, c);
    }
}

/// The three upper-case letters that are the name of an opcode, as their
/// lower-case forms.
pub open spec fn letters_of(opcode: Opcode) -> (u8, u8, u8) {
    match opcode {
        Opcode::Dat => (ascii::D, ascii::A, ascii::T),
        Opcode::Mov => (ascii::M, ascii::O, ascii::V),
        Opcode::Add => (ascii::A, ascii::D, ascii::D),
        Opcode::Sub => (ascii::S, ascii::U, ascii::B),
        Opcode::Mul => (ascii::M, ascii::U, ascii::L),
        Opcode::Div => (ascii::D, ascii::I, ascii::V),
        Opcode::Mod => (ascii::M, ascii::O, ascii::D),
        Opcode::Jmp => (ascii::J, ascii::M, ascii::P),
        Opcode::Jmz => (ascii::J, ascii::M, ascii::Z),
        Opcode::Jmn => (ascii::J, ascii::M, ascii::N),
        Opcode::Djn => (ascii::D, ascii::J, ascii::N),
        Opcode::Cmp => (ascii::C, ascii::M, ascii::P),
        Opcode::Skeq => (ascii::S, ascii::E, ascii::Q),
        Opcode::Sne => (ascii::S, ascii::N, ascii::E),
        Opcode::Slt => (ascii::S, ascii::L, ascii::T),
        Opcode::Spl => (ascii::S, ascii::P, ascii::L),
        Opcode::Nop => (ascii::N, ascii::O, ascii::P),
        Opcode::Ldp => (ascii::L, ascii::D, ascii::P),
        Opcode::Stp => (ascii::S, ascii::T, ascii::P),
    }
}

/// The name of an opcode is made of its three letters in upper case.
pub proof fn lemma_opcode_name(opcode: Opcode)
    ensures
        opcode_name(opcode) =~= seq![
            (letters_of(opcode).0 - ascii::CASE) as u8,
            (letters_of(opcode).1 - ascii::CASE) as u8,
            (letters_of(opcode).2 - ascii::CASE) as u8,
        ],
{
    broadcast use vstd::string::is_ascii_spec_bytes;

    reveal_strlit("DAT");
    reveal_strlit("MOV");
    reveal_strlit("ADD");
    reveal_strlit("SUB");
    reveal_strlit("MUL");
    reveal_strlit("DIV");
    reveal_strlit("MOD");
    reveal_strlit("JMP");
    reveal_strlit("JMZ");
    reveal_strlit("JMN");
    reveal_strlit("DJN");
    reveal_strlit("CMP");
    reveal_strlit("SEQ");
    reveal_strlit("SNE");
    reveal_strlit("SLT");
    reveal_strlit("SPL");
    reveal_strlit("NOP");
    reveal_strlit("LDP");
    reveal_strlit("STP");
    assert(vstd::string::is_ascii("DAT"));
    assert(vstd::string::is_ascii("MOV"));
    assert(vstd::string::is_ascii("ADD"));
    assert(vstd::string::is_ascii("SUB"));
    assert(vstd::string::is_ascii("MUL"));
    assert(vstd::string::is_ascii("DIV"));
    assert(vstd::string::is_ascii("MOD"));
    assert(vstd::string::is_ascii("JMP"));
    assert(vstd::string::is_ascii("JMZ"));
    assert(vstd::string::is_ascii("JMN"));
    assert(vstd::string::is_ascii("DJN"));
    assert(vstd::string::is_ascii("CMP"));
    assert(vstd::string::is_ascii("SEQ"));
    assert(vstd::string::is_ascii("SNE"));
    assert(vstd::string::is_ascii("SLT"));
    assert(vstd::string::is_ascii("SPL"));
    assert(vstd::string::is_ascii("NOP"));
    assert(vstd::string::is_ascii("LDP"));
    assert(vstd::string::is_ascii("STP"));
}

/// The name of a modifier is made of one or two upper-case letters.
pub proof fn lemma_modifier_name(modifier: Modifier)
    ensures
        modifier_name(modifier) =~= match modifier {
            Modifier::A => seq![(ascii::A - ascii::CASE) as u8],
            Modifier::B => seq![(ascii::B - ascii::CASE) as u8],
            Modifier::AB => seq![(ascii::A - ascii::CASE) as u8, (ascii::B - ascii::CASE) as u8],
            Modifier::BA => seq![(ascii::B - ascii::CASE) as u8, (ascii::A - ascii::CASE) as u8],
            Modifier::F => seq![(ascii::F - ascii::CASE) as u8],
            Modifier::X => seq![(ascii::X - ascii::CASE) as u8],
            Modifier::I => seq![(ascii::I - ascii::CASE) as u8],
        },
{
    broadcast use vstd::string::is_ascii_spec_bytes;

    reveal_strlit("A");
    reveal_strlit("B");
    reveal_strlit("AB");
    reveal_strlit("BA");
    reveal_strlit("F");
    reveal_strlit("X");
    reveal_strlit("I");
    assert(vstd::string::is_ascii("A"));
    assert(vstd::string::is_ascii("B"));
    assert(vstd::string::is_ascii("AB"));
    assert(vstd::string::is_ascii("BA"));
    assert(vstd::string::is_ascii("F"));
    assert(vstd::string::is_ascii("X"));
    assert(vstd::string::is_ascii("I"));
}

/// The word `ORG` is made of its three letters in upper case.
pub proof fn lemma_org_name()
    ensures
        "ORG".spec_bytes() =~= seq![
            (ascii::O - ascii::CASE) as u8,
            (ascii::R - ascii::CASE) as u8,
            (ascii::G - ascii::CASE) as u8,
        ],
{
    broadcast use vstd::string::is_ascii_spec_bytes;

    reveal_strlit("ORG");
    assert(vstd::string::is_ascii("ORG"));
}

/// A number is written with one digit at least, and with digits only.
pub proof fn lemma_digits_of(n: nat)
    ensures
        digits_of(n).len() >= 1,
        forall|k: int| 0 <= k < digits_of(n).len() ==> is_digit(#[trigger] digits_of(n)[k]),
    decreases n,
{
    if n >= 10 {
        lemma_digits_of(n / 10);
    }
}

/// The digits that write a number write that number, wherever they stand
/// in a text.
pub proof fn lemma_decimal_of_digits(s: Seq<u8>, start: int, end: int, n: nat)
    requires
        0 <= start <= end <= s.len(),
        s.subrange(start, end) == digits_of(n),
    ensures
        decimal(s, start, end) == n,
        all_digits(s, start, end),
        start < end,
    decreases n,
{
    lemma_digits_of(n);
    assert forall|k: int| start <= k < end implies is_digit(#[trigger] s[k]) by {
        assert(s[k] == s.subrange(start, end)[k - start]);
    }
    assert(s[end - 1] == s.subrange(start, end)[end - 1 - start]);
    if n >= 10 {
        assert(s.subrange(start, end - 1) =~= digits_of(n / 10)) by {
            assert(digits_of(n).drop_last() =~= digits_of(n / 10));
            assert(s.subrange(start, end - 1) =~= s.subrange(start, end).drop_last());
        }
        lemma_decimal_of_digits(s, start, end - 1, n / 10);
    } else {
        assert(end == start + 1);
        assert(decimal(s, start, start) == 0);
    }
}

/// Whether a number that is written in a text ends at `e`: with the text,
/// or in front of a comma.
pub open spec fn ends_at(s: Seq<u8>, e: int) -> bool {
    e == s.len() || (0 <= e < s.len() && s[e] == ascii::COMMA)
}

/// The tree of a number as it is written: a unary expression that holds
/// the number, behind its sign if it is negative.
pub open spec fn number_tree(i: int, e: int, negative: bool) -> Tree {
    Tree {
        rule: Rule::UnaryExpr,
        start: i,
        end: e,
        inner: if negative {
            seq![leaf(Rule::UnaryOp, i, i + 1), leaf(Rule::Number, i + 1, e)]
        } else {
            seq![leaf(Rule::Number, i, e)]
        },
    }
}

/// The tree of a chain of a level that is nothing but the given tree.
pub open spec fn lone(level: u8, tree: Tree) -> Tree
    decreases level,
{
    Tree {
        rule: chain_rule(level),
        start: tree.start,
        end: tree.end,
        inner: seq![
            if level == 0 {
                tree
            } else {
                lone((level - 1) as u8, tree)
            },
        ],
    }
}

/// A number as it is written parses to a unary expression.
pub proof fn lemma_number_is_unary(s: Seq<u8>, i: int, e: int, value: i32)
    requires
        0 <= i <= e <= s.len(),
        s.subrange(i, e) == written_number(value),
        ends_at(s, e),
        value > i32::MIN,
    ensures
        i < e,
        unary(s, i) == Some((number_tree(i, e, value < 0), e)),
{
    let from = if value < 0 {
        i + 1
    } else {
        i
    };
    let n = if value < 0 {
        (-value) as nat
    } else {
        value as nat
    };
    lemma_written_number(s, i, e, value);
    lemma_decimal_of_digits(s, from, e, n);
    assert(!is_digit(ascii::COMMA));
    lemma_run_is(s, from, e, Class::Digit);
    assert(is_digit(s[from]));
    assert(skip(s, from) == from);
    assert(!sign_at(s, from));
    assert(signs(s, from) == (Seq::<Tree>::empty(), from));
    assert(number(s, from) == Some((leaf(Rule::Number, from, e), e)));
    if value < 0 {
        assert(skip(s, i) == i);
        assert(sign_at(s, i));
        assert(signs(s, i).0 =~= seq![leaf(Rule::UnaryOp, i, i + 1)]);
        assert(signs(s, i).1 == i + 1);
        assert(seq![leaf(Rule::UnaryOp, i, i + 1)].push(leaf(Rule::Number, from, e)) =~= seq![
            leaf(Rule::UnaryOp, i, i + 1),
            leaf(Rule::Number, i + 1, e),
        ]);
    } else {
        assert(Seq::<Tree>::empty().push(leaf(Rule::Number, from, e)) =~= seq![
            leaf(Rule::Number, i, e),
        ]);
    }
}

/// A number as it is written parses to a chain of each level that is
/// nothing but the number.
pub proof fn lemma_number_is_chain(s: Seq<u8>, i: int, e: int, value: i32, level: u8)
    requires
        0 <= i <= e <= s.len(),
        s.subrange(i, e) == written_number(value),
        ends_at(s, e),
        value > i32::MIN,
        level <= 3,
    ensures
        i < e,
        chain(s, i, level) == Some((lone(level, number_tree(i, e, value < 0)), e)),
    decreases level,
{
    lemma_number_is_unary(s, i, e, value);
    if level > 0 {
        lemma_number_is_chain(s, i, e, value, (level - 1) as u8);
    }
    let inner = if level == 0 {
        number_tree(i, e, value < 0)
    } else {
        lone((level - 1) as u8, number_tree(i, e, value < 0))
    };
    assert(operand(s, i, level) == Some((inner, e)));
    assert(!is_space(ascii::COMMA));
    assert(skip(s, e) == e);
    assert(operator_end(s, e, level).is_none());
    assert(chain_tail(s, i, e, level, true) == (Seq::<Tree>::empty(), e));
    assert(seq![inner] + Seq::<Tree>::empty() =~= seq![inner]);
}

/// Where a number is written in a text, its digits stand behind its sign.
pub proof fn lemma_written_number(s: Seq<u8>, i: int, e: int, value: i32)
    requires
        0 <= i <= e <= s.len(),
        s.subrange(i, e) == written_number(value),
        value > i32::MIN,
    ensures
        value < 0 ==> i + 1 < e && s[i] == ascii::MINUS && s.subrange(i + 1, e) == digits_of(
            (-value) as nat,
        ),
        value >= 0 ==> i < e && s.subrange(i, e) == digits_of(value as nat),
{
    if value < 0 {
        let n = (-value) as nat;
        lemma_digits_of(n);
        let written = written_number(value);
        assert(s.subrange(i, e).len() == written.len());
        assert(written.subrange(1, written.len() as int) =~= digits_of(n));
        assert(s.subrange(i + 1, e) =~= s.subrange(i, e).subrange(1, e - i));
        assert(s[i] == s.subrange(i, e)[0]);
    } else {
        lemma_digits_of(value as nat);
        assert(s.subrange(i, e).len() == digits_of(value as nat).len());
    }
}

/// The value of the unary expression of a number as it is written is the
/// number.
pub proof fn lemma_number_has_value(
    s: Seq<u8>,
    i: int,
    e: int,
    value: i32,
    scope: Seq<Bound>,
    line: i32,
)
    requires
        0 <= i <= e <= s.len(),
        s.subrange(i, e) == written_number(value),
        value > i32::MIN,
    ensures
        unary_value(number_tree(i, e, value < 0), s, scope, line) == Ok::<i32, Error>(value),
{
    let tree = number_tree(i, e, value < 0);
    lemma_written_number(s, i, e, value);
    if value < 0 {
        let n = (-value) as nat;
        lemma_decimal_of_digits(s, i + 1, e, n);
        let digits = leaf(Rule::Number, i + 1, e);
        assert(tree.inner.last() == digits);
        assert(atom_value(digits, s, scope, line) == Ok::<i32, Error>(n as i32));
        assert(with_signs(tree, s, n as i32, 0) == Ok::<i32, Error>(n as i32));
        assert(tree.inner[0] == leaf(Rule::UnaryOp, i, i + 1));
        assert(with_signs(tree, s, n as i32, 1) == Ok::<i32, Error>(value));
    } else {
        lemma_decimal_of_digits(s, i, e, value as nat);
        let digits = leaf(Rule::Number, i, e);
        assert(tree.inner.last() == digits);
        assert(atom_value(digits, s, scope, line) == Ok::<i32, Error>(value));
        assert(with_signs(tree, s, value, 0) == Ok::<i32, Error>(value));
    }
}

/// The value of a chain that is nothing but a unary expression is the
/// value of the unary expression.
pub proof fn lemma_lone_has_value(
    tree: Tree,
    s: Seq<u8>,
    scope: Seq<Bound>,
    line: i32,
    level: u8,
)
    requires
        level <= 3,
    ensures
        value_of(lone(level, tree), s, scope, line, level) == unary_value(tree, s, scope, line),
    decreases level,
{
    let whole = lone(level, tree);
    if level > 0 {
        lemma_lone_has_value(tree, s, scope, line, (level - 1) as u8);
        let below = lone((level - 1) as u8, tree);
        assert(whole.inner[0] == below);
        assert(operand_value(below, s, scope, line, level) == unary_value(tree, s, scope, line));
    } else {
        assert(whole.inner[0] == tree);
        assert(operand_value(tree, s, scope, line, 0) == unary_value(tree, s, scope, line));
    }
    assert(joined(whole, s, scope, line, level, 0) == unary_value(tree, s, scope, line));
}

/// The tree of a field as it is written: the sign of its address mode and
/// its number.
pub open spec fn field_tree(i: int, e: int, negative: bool) -> Tree {
    Tree {
        rule: Rule::Field,
        start: i,
        end: e,
        inner: seq![leaf(Rule::AddressMode, i, i + 1), lone(3, number_tree(i + 1, e, negative))],
    }
}

/// A field as it is written parses to its tree, and the tree stands for
/// the field.
#[verifier::rlimit(40)]
pub proof fn lemma_field_parses(
    s: Seq<u8>,
    i: int,
    e: int,
    written: Field,
    scope: Seq<Bound>,
    line: i32,
)
    requires
        0 <= i <= e <= s.len(),
        s.subrange(i, e) == written_field(written),
        ends_at(s, e),
        written.value > i32::MIN,
    ensures
        i + 1 < e,
        field(s, i) == Some((field_tree(i, e, written.value < 0), e)),
        field_of(field_tree(i, e, written.value < 0), s, scope, line) == Ok::<Field, Error>(
            written,
        ),
{
    let text = written_field(written);
    let number = written_number(written.value);
    assert(s.subrange(i, e).len() == text.len());
    assert(s[i] == s.subrange(i, e)[0]);
    assert(s.subrange(i + 1, e) =~= number) by {
        assert(text.subrange(1, text.len() as int) =~= number);
        assert(s.subrange(i + 1, e) =~= s.subrange(i, e).subrange(1, e - i));
    }
    lemma_written_number(s, i + 1, e, written.value);
    lemma_number_is_chain(s, i + 1, e, written.value, 3);
    assert(is_mode(s[i]));
    assert(!is_space(s[i + 1])) by {
        if written.value >= 0 {
            lemma_decimal_of_digits(s, i + 1, e, written.value as nat);
            assert(is_digit(s[i + 1]));
        }
    }
    assert(skip(s, i + 1) == i + 1);
    let tree = field_tree(i, e, written.value < 0);
    lemma_number_has_value(s, i + 1, e, written.value, scope, line);
    lemma_lone_has_value(number_tree(i + 1, e, written.value < 0), s, scope, line, 3);
    assert(tree.inner[0] == leaf(Rule::AddressMode, i, i + 1));
    assert(tree.inner[1] == lone(3, number_tree(i + 1, e, written.value < 0)));
    assert(mode_of(sign_of(written.address_mode)) == Some(written.address_mode));
}

/// The beginning of an instruction as it is written: its opcode, a dot
/// and its modifier, filled up with blanks.
pub open spec fn head_of(written: Instruction) -> Seq<u8> {
    filled(opcode_name(written.opcode) + seq![ascii::DOT] + modifier_name(written.modifier))
}

/// Where the modifier ends in an instruction as it is written.
pub open spec fn modifier_end(written: Instruction) -> int {
    4 + modifier_name(written.modifier).len() as int
}

/// The tree of an operation as it is written.
pub open spec fn operation_tree(written: Instruction) -> Tree {
    Tree {
        rule: Rule::Operation,
        start: 0,
        end: modifier_end(written),
        inner: seq![
            leaf(Rule::Opcode, 0, 3),
            leaf(Rule::Modifier, 4, modifier_end(written)),
        ],
    }
}

/// What the beginning of an instruction as it is written is made of.
pub proof fn lemma_head(written: Instruction)
    ensures
        head_of(written).len() == 8,
        5 <= modifier_end(written) <= 6,
        head_of(written).subrange(0, 3) == opcode_name(written.opcode),
        head_of(written)[3] == ascii::DOT,
        head_of(written).subrange(4, modifier_end(written)) == modifier_name(written.modifier),
        forall|k: int| modifier_end(written) <= k < 8 ==> head_of(written)[k] == ascii::SPACE,
{
    lemma_opcode_name(written.opcode);
    lemma_modifier_name(written.modifier);
    let name = opcode_name(written.opcode) + seq![ascii::DOT] + modifier_name(written.modifier);
    assert(name.len() == modifier_end(written));
    assert(head_of(written).subrange(0, 3) =~= opcode_name(written.opcode));
    assert(head_of(written).subrange(4, modifier_end(written)) =~= modifier_name(
        written.modifier,
    ));
}

/// Every opcode is the keyword that its letters spell.
pub proof fn lemma_letters_spell(opcode: Opcode)
    ensures
        keyword(letters_of(opcode).0, letters_of(opcode).1, letters_of(opcode).2) == Some(
            Keyword::Operation(opcode),
        ),
{
}

/// The operation of an instruction as it is written parses to its tree,
/// and the tree stands for the opcode and the modifier.
#[verifier::rlimit(40)]
pub proof fn lemma_operation_parses(s: Seq<u8>, written: Instruction)
    requires
        s.len() >= 8,
        s.subrange(0, 8) == head_of(written),
        !written.opcode.is_p_space(),
    ensures
        operation(s, 0) == Some((operation_tree(written), modifier_end(written))),
        operation_of(operation_tree(written), s) == Ok::<(Opcode, Option<Modifier>), Error>(
            (written.opcode, Some(written.modifier)),
        ),
        keyword_at(s, 0, run_end(s, 0, Class::Word)) == Some(Keyword::Operation(written.opcode)),
        skip(s, 0) == 0,
        run_end(s, 0, Class::Word) == 3,
        forall|k: int| modifier_end(written) <= k < 8 ==> s[k] == ascii::SPACE,
{
    lemma_head(written);
    lemma_opcode_name(written.opcode);
    lemma_modifier_name(written.modifier);
    lemma_letters_spell(written.opcode);
    let m = modifier_end(written);
    let head = head_of(written);
    assert forall|k: int| 0 <= k < 8 implies s[k] == head[k] by {
        assert(s[k] == s.subrange(0, 8)[k]);
    }
    assert(s[0] == head.subrange(0, 3)[0]);
    assert(s[1] == head.subrange(0, 3)[1]);
    assert(s[2] == head.subrange(0, 3)[2]);
    assert(s[4] == head.subrange(4, m)[0]);
    if m == 6 {
        assert(s[5] == head.subrange(4, m)[1]);
    }
    lemma_run_is(s, 0, 3, Class::Word);
    lemma_run_is(s, 4, m, Class::Word);
    assert(is_modifier(s, 4, m));
    assert(is_word_start(s[0]));
    let tree = operation_tree(written);
    assert(tree.inner[0] == leaf(Rule::Opcode, 0, 3));
    assert(tree.inner[1] == leaf(Rule::Modifier, 4, m));
    assert(opcode_at(leaf(Rule::Opcode, 0, 3), s) == Some(written.opcode));
    assert(modifier_at(leaf(Rule::Modifier, 4, m), s) == Some(written.modifier));
}

/// Whether a text is a single line of code: it holds neither a newline
/// nor a semicolon.
pub open spec fn plain(s: Seq<u8>) -> bool {
    forall|k: int|
        0 <= k < s.len() ==> (#[trigger] s[k]) != ascii::NEWLINE && s[k] != ascii::SEMICOLON
}

/// A field as it is written is a single line of code.
pub proof fn lemma_plain_field(written: Field)
    ensures
        plain(written_field(written)),
        written_field(written).len() >= 2,
        written_field(written)[0] == sign_of(written.address_mode),
{
    let n = if written.value < 0 {
        (-written.value) as nat
    } else {
        written.value as nat
    };
    lemma_digits_of(n);
    let text = written_field(written);
    assert forall|k: int| 0 <= k < text.len() implies (#[trigger] text[k]) != ascii::NEWLINE
        && text[k] != ascii::SEMICOLON by {
        if written.value < 0 {
            if k >= 2 {
                assert(text[k] == digits_of(n)[k - 2]);
            }
        } else {
            if k >= 1 {
                assert(text[k] == digits_of(n)[k - 1]);
            }
        }
    }
}

/// Where the first field ends in an instruction as it is written.
pub open spec fn first_end(written: Instruction) -> int {
    8 + written_field(written.a_field).len() as int
}

/// The tree of an instruction as it is written.
pub open spec fn instruction_tree(written: Instruction) -> Tree {
    Tree {
        rule: Rule::Instruction,
        start: 0,
        end: written_instruction(written).len() as int,
        inner: seq![
            operation_tree(written),
            field_tree(8, first_end(written), written.a_field.value < 0),
            field_tree(
                first_end(written) + 2,
                written_instruction(written).len() as int,
                written.b_field.value < 0,
            ),
        ],
    }
}

/// Whether an instruction can be written down and read again: its opcode
/// can be executed, and the numbers of its fields can be written.
pub open spec fn writable(written: Instruction) -> bool {
    &&& !written.opcode.is_p_space()
    &&& written.a_field.value > i32::MIN
    &&& written.b_field.value > i32::MIN
}

/// What an instruction as it is written is made of.
pub proof fn lemma_instruction_text(written: Instruction)
    ensures
        plain(written_instruction(written)),
        written_instruction(written).len() == first_end(written) + 2 + written_field(
            written.b_field,
        ).len(),
        written_instruction(written).subrange(0, 8) == head_of(written),
        written_instruction(written).subrange(8, first_end(written)) == written_field(
            written.a_field,
        ),
        written_instruction(written)[first_end(written)] == ascii::COMMA,
        written_instruction(written)[first_end(written) + 1] == ascii::SPACE,
        written_instruction(written).subrange(
            first_end(written) + 2,
            written_instruction(written).len() as int,
        ) == written_field(written.b_field),
{
    lemma_head(written);
    lemma_opcode_name(written.opcode);
    lemma_modifier_name(written.modifier);
    lemma_plain_field(written.a_field);
    lemma_plain_field(written.b_field);
    let s = written_instruction(written);
    let head = head_of(written);
    let a = written_field(written.a_field);
    let b = written_field(written.b_field);
    let ea = first_end(written);
    assert(s =~= head + a + seq![ascii::COMMA, ascii::SPACE] + b);
    assert(s.subrange(0, 8) =~= head);
    assert(s.subrange(8, ea) =~= a);
    assert(s.subrange(ea + 2, s.len() as int) =~= b);
    assert forall|k: int| 0 <= k < s.len() implies (#[trigger] s[k]) != ascii::NEWLINE && s[k]
        != ascii::SEMICOLON by {
        if k < 3 {
            assert(s[k] == head.subrange(0, 3)[k]);
        } else if 4 <= k < modifier_end(written) {
            assert(s[k] == head.subrange(4, modifier_end(written))[k - 4]);
        } else if 8 <= k < ea {
            assert(s[k] == a[k - 8]);
        } else if k >= ea + 2 {
            assert(s[k] == b[k - ea - 2]);
        }
    }
}

/// An instruction as it is written parses to its tree.
#[verifier::rlimit(40)]
pub proof fn lemma_instruction_is_found(written: Instruction)
    requires
        writable(written),
    ensures
        instruction(written_instruction(written), 0) == Some(
            (instruction_tree(written), written_instruction(written).len() as int),
        ),
{
    let s = written_instruction(written);
    let n = s.len() as int;
    let ea = first_end(written);
    let m = modifier_end(written);
    let none = Seq::<Bound>::empty();
    let first = field_tree(8, ea, written.a_field.value < 0);
    let second = field_tree(ea + 2, n, written.b_field.value < 0);
    assert(operation(s, 0) == Some((operation_tree(written), m)) && skip(s, m) == 8) by {
        lemma_instruction_text(written);
        lemma_plain_field(written.a_field);
        lemma_operation_parses(s, written);
        assert(s[8] == s.subrange(8, ea)[0]);
        lemma_run_is(s, m, 8, Class::Space);
    }
    assert(field(s, 8) == Some((first, ea)) && skip(s, ea) == ea && s[ea] == ascii::COMMA && 8
        < ea < n) by {
        lemma_instruction_text(written);
        lemma_field_parses(s, 8, ea, written.a_field, none, 0);
        lemma_run_is(s, ea, ea, Class::Space);
    }
    assert(field(s, ea + 2) == Some((second, n)) && skip(s, ea + 1) == ea + 2) by {
        lemma_instruction_text(written);
        lemma_plain_field(written.b_field);
        lemma_field_parses(s, ea + 2, n, written.b_field, none, 0);
        assert(s[ea + 2] == s.subrange(ea + 2, n)[0]);
        lemma_run_is(s, ea + 1, ea + 2, Class::Space);
    }
}

/// An instruction as it is written is a line that parses to its tree.
#[verifier::rlimit(40)]
pub proof fn lemma_instruction_parses(written: Instruction)
    requires
        writable(written),
    ensures
        line(written_instruction(written)) == Ok::<Seq<Tree>, int>(
            seq![instruction_tree(written)],
        ),
{
    let s = written_instruction(written);
    let n = s.len() as int;
    let tree = instruction_tree(written);
    lemma_instruction_text(written);
    lemma_instruction_is_found(written);
    assert(s.subrange(0, 8) == head_of(written));
    lemma_operation_parses(s, written);
    lemma_run_is(s, n, n, Class::Space);
    assert(label(s, 0).is_none());
    assert(declarations(s, 0) == (Seq::<Tree>::empty(), 0int));
    assert(statement(s, 0, 3, Keyword::Operation(written.opcode), 0) == Ok::<Seq<Tree>, int>(
        seq![tree],
    ));
    assert(Seq::<Tree>::empty() + seq![tree] =~= seq![tree]);
    assert(code(s) == Ok::<Seq<Tree>, int>(seq![tree]));
    lemma_first_is(s, 0, n, ascii::SEMICOLON);
    assert(s.take(n) =~= s);
}

/// The tree of an instruction as it is written stands for the
/// instruction.
#[verifier::rlimit(40)]
pub proof fn lemma_instruction_means(written: Instruction, scope: Seq<Bound>, index: i32)
    requires
        writable(written),
    ensures
        instruction_of(instruction_tree(written), written_instruction(written), scope, index)
            == Ok::<Instruction, Error>(written),
{
    let s = written_instruction(written);
    let n = s.len() as int;
    let ea = first_end(written);
    lemma_instruction_text(written);
    lemma_plain_field(written.a_field);
    lemma_plain_field(written.b_field);
    lemma_operation_parses(s, written);
    lemma_field_parses(s, 8, ea, written.a_field, scope, index);
    lemma_field_parses(s, ea + 2, n, written.b_field, scope, index);
    let tree = instruction_tree(written);
    assert(tree.inner[0] == operation_tree(written));
    assert(tree.inner[1] == field_tree(8, ea, written.a_field.value < 0));
    assert(tree.inner[2] == field_tree(ea + 2, n, written.b_field.value < 0));
}

/// The first line of a load file: `ORG`, filled up with blanks, and the
/// origin.
pub open spec fn header(origin: nat) -> Seq<u8> {
    filled("ORG".spec_bytes()) + digits_of(origin)
}

/// The trees of the first line of a load file.
pub open spec fn header_trees(origin: nat) -> Seq<Tree> {
    seq![
        leaf(Rule::Org, 0, 3),
        lone(3, number_tree(8, header(origin).len() as int, false)),
    ]
}

/// The first line of a load file parses to its trees, and the value of
/// its expression is the origin.
#[verifier::rlimit(40)]
pub proof fn lemma_header_parses(origin: nat, scope: Seq<Bound>)
    requires
        origin <= i32::MAX,
    ensures
        plain(header(origin)),
        line(header(origin)) == Ok::<Seq<Tree>, int>(header_trees(origin)),
        value_of(header_trees(origin)[1], header(origin), scope, 0, EXPRESSION) == Ok::<
            i32,
            Error,
        >(origin as i32),
{
    lemma_org_name();
    lemma_digits_of(origin);
    let s = header(origin);
    let n = s.len() as int;
    let word = filled("ORG".spec_bytes());
    let digits = digits_of(origin);
    assert(word.len() == 8);
    assert(s.subrange(8, n) =~= digits);
    assert(digits == written_number(origin as i32));
    assert forall|k: int| 0 <= k < n implies (#[trigger] s[k]) != ascii::NEWLINE && s[k]
        != ascii::SEMICOLON by {
        if k >= 8 {
            assert(s[k] == digits[k - 8]);
        }
    }
    lemma_run_is(s, 0, 3, Class::Word);
    assert(s[8] == digits[0]);
    lemma_run_is(s, 3, 8, Class::Space);
    lemma_run_is(s, n, n, Class::Space);
    lemma_number_is_chain(s, 8, n, origin as i32, 3);
    lemma_number_has_value(s, 8, n, origin as i32, scope, 0);
    lemma_lone_has_value(number_tree(8, n, false), s, scope, 0, 3);
    assert(keyword_at(s, 0, 3) == Some(Keyword::Org));
    assert(skip(s, 0) == 0);
    assert(label(s, 0).is_none());
    assert(declarations(s, 0) == (Seq::<Tree>::empty(), 0int));
    assert(statement(s, 0, 3, Keyword::Org, 0) == Ok::<Seq<Tree>, int>(header_trees(origin)));
    assert(Seq::<Tree>::empty() + header_trees(origin) =~= header_trees(origin));
    lemma_first_is(s, 0, n, ascii::SEMICOLON);
    assert(s.take(n) =~= s);
}

/// The first `count` of some lines, each with a newline behind it.
pub open spec fn text_of(rows: Seq<Seq<u8>>, count: nat) -> Seq<u8>
    decreases count,
{
    if count == 0 || count > rows.len() {
        Seq::empty()
    } else {
        text_of(rows, (count - 1) as nat) + rows[count - 1] + seq![ascii::NEWLINE]
    }
}

/// The text of the first lines is the beginning of the text of more lines.
pub proof fn lemma_text_begins(rows: Seq<Seq<u8>>, k: nat, count: nat)
    requires
        k <= count <= rows.len(),
    ensures
        text_of(rows, k).len() <= text_of(rows, count).len(),
        text_of(rows, count).subrange(0, text_of(rows, k).len() as int) == text_of(rows, k),
    decreases count - k,
{
    if k < count {
        lemma_text_begins(rows, k, (count - 1) as nat);
        assert(text_of(rows, count).subrange(0, text_of(rows, k).len() as int) =~= text_of(
            rows,
            (count - 1) as nat,
        ).subrange(0, text_of(rows, k).len() as int));
    } else {
        assert(text_of(rows, count).subrange(0, text_of(rows, k).len() as int) =~= text_of(
            rows,
            k,
        ));
    }
}

/// Where a line stands in the text of all lines, and where the line
/// behind it begins.
pub proof fn lemma_row_at(rows: Seq<Seq<u8>>, k: nat)
    requires
        k < rows.len(),
        plain(rows[k as int]),
    ensures
        ({
            let whole = text_of(rows, rows.len());
            let at = text_of(rows, k).len() as int;
            &&& at < whole.len()
            &&& at + rows[k as int].len() + 1 == text_of(rows, k + 1).len()
            &&& text_of(rows, k + 1).len() <= whole.len()
            &&& whole.subrange(at, at + rows[k as int].len()) == rows[k as int]
            &&& line_bounds(whole, at) == (
                at + rows[k as int].len(),
                text_of(rows, k + 1).len() as int,
            )
        }),
{
    let whole = text_of(rows, rows.len());
    let at = text_of(rows, k).len() as int;
    let row = rows[k as int];
    let next = text_of(rows, k + 1);
    lemma_text_begins(rows, k + 1, rows.len());
    assert(next =~= text_of(rows, k) + row + seq![ascii::NEWLINE]);
    assert forall|j: int| 0 <= j < next.len() implies whole[j] == next[j] by {
        assert(whole.subrange(0, next.len() as int)[j] == whole[j]);
    }
    assert(whole.subrange(at, at + row.len()) =~= row) by {
        assert forall|j: int| 0 <= j < row.len() implies whole[at + j] == row[j] by {
            assert(next[at + j] == row[j]);
        }
    }
    assert(whole[at + row.len()] == ascii::NEWLINE) by {
        assert(next[at + row.len()] == ascii::NEWLINE);
    }
    assert forall|j: int| at <= j < at + row.len() implies #[trigger] whole[j]
        != ascii::NEWLINE by {
        assert(whole[j] == row[j - at]);
    }
    lemma_first_is(whole, at, at + row.len(), ascii::NEWLINE);
}

/// Where no name is defined, replacing the names leaves a text as it is.
pub proof fn lemma_nothing_replaced(s: Seq<u8>, i: int)
    requires
        0 <= i <= s.len(),
    ensures
        replaced(s, i, Seq::<Named>::empty()) == s.subrange(i, s.len() as int),
    decreases s.len() - i,
{
    let none = Seq::<Named>::empty();
    if i < s.len() {
        lemma_run_end(s, i + 1, Class::Word);
        let (text, next) = piece(s, i, none);
        assert(defined(none, s.subrange(i, run_end(s, i, Class::Word)), 0).is_none());
        assert(i < next <= s.len());
        assert(text =~= s.subrange(i, next));
        lemma_nothing_replaced(s, next);
        assert(s.subrange(i, next) + s.subrange(next, s.len() as int) =~= s.subrange(
            i,
            s.len() as int,
        ));
    } else {
        assert(s.subrange(i, s.len() as int) =~= Seq::<u8>::empty());
    }
}

/// A single line has no newline.
pub proof fn lemma_no_newlines(s: Seq<u8>, i: int)
    requires
        0 <= i <= s.len(),
        plain(s),
    ensures
        newlines_in(s, i) == 0,
    decreases s.len() - i,
{
    if i < s.len() {
        lemma_no_newlines(s, i + 1);
    }
}

/// A single line of code is its own code, and stays as it is where no
/// name is defined.
pub proof fn lemma_plain_code(s: Seq<u8>)
    requires
        plain(s),
    ensures
        code_of(s) == s,
        replaced(code_of(s), 0, Seq::<Named>::empty()) == s,
        newlines_in(s, 0) == 0,
{
    lemma_first_is(s, 0, s.len() as int, ascii::SEMICOLON);
    assert(s.take(s.len() as int) =~= s);
    lemma_nothing_replaced(s, 0);
    assert(s.subrange(0, s.len() as int) =~= s);
    lemma_no_newlines(s, 0);
}

/// The lines of the load file of a program.
pub open spec fn rows_of(instructions: Seq<Instruction>, origin: nat) -> Seq<Seq<u8>> {
    seq![header(origin)] + Seq::new(
        instructions.len(),
        |k: int| written_instruction(instructions[k]),
    )
}

/// Whether a program can be written down and read again: each of its
/// instructions can be, there are not too many of them, and the origin is
/// not too large.
pub open spec fn writable_program(instructions: Seq<Instruction>, origin: nat) -> bool {
    &&& instructions.len() <= i32::MAX
    &&& origin <= i32::MAX
    &&& forall|k: int| 0 <= k < instructions.len() ==> writable(#[trigger] instructions[k])
}

/// The load file of a program is the text of its lines.
pub proof fn lemma_listing_is_text(instructions: Seq<Instruction>, origin: nat, count: nat)
    requires
        count <= instructions.len(),
    ensures
        text_of(rows_of(instructions, origin), count + 1) == header(origin) + seq![ascii::NEWLINE]
            + written_lines(instructions, count),
    decreases count,
{
    let rows = rows_of(instructions, origin);
    if count > 0 {
        lemma_listing_is_text(instructions, origin, (count - 1) as nat);
        assert(rows[count as int] == written_instruction(instructions[count - 1]));
        assert(text_of(rows, count + 1) =~= header(origin) + seq![ascii::NEWLINE] + written_lines(
            instructions,
            count,
        ));
    } else {
        assert(rows[0] == header(origin));
        assert(text_of(rows, 0) =~= Seq::<u8>::empty());
        assert(text_of(rows, 1) =~= header(origin) + seq![ascii::NEWLINE] + written_lines(
            instructions,
            0,
        ));
    }
}

/// What the lines of a load file parse to: the first to the trees of the
/// header, and each other to the tree of its instruction. Each is a single
/// line of code and leaves the expansion as it is.
pub proof fn lemma_rows_parse(instructions: Seq<Instruction>, origin: nat, k: int)
    requires
        writable_program(instructions, origin),
        0 <= k <= instructions.len(),
    ensures
        plain(rows_of(instructions, origin)[k]),
        kind_of(line(rows_of(instructions, origin)[k])) == LineKind::Other,
        k == 0 ==> line(rows_of(instructions, origin)[k]) == Ok::<Seq<Tree>, int>(
            header_trees(origin),
        ),
        k > 0 ==> line(rows_of(instructions, origin)[k]) == Ok::<Seq<Tree>, int>(
            seq![instruction_tree(instructions[k - 1])],
        ),
{
    let rows = rows_of(instructions, origin);
    if k == 0 {
        assert(rows[0] == header(origin));
        lemma_header_parses(origin, Seq::<Bound>::empty());
        assert(header_trees(origin).last() == header_trees(origin)[1]);
    } else {
        let written = instructions[k - 1];
        assert(rows[k] == written_instruction(written));
        lemma_instruction_text(written);
        lemma_instruction_parses(written);
        assert(seq![instruction_tree(written)].last() == instruction_tree(written));
    }
}

/// The numbers of the first `count` lines.
pub open spec fn numbered(count: nat) -> Seq<usize> {
    Seq::new(count, |j: int| (j + 1) as usize)
}

/// The expansion after the first `k` lines of a load file.
pub open spec fn expanded_rows(rows: Seq<Seq<u8>>, k: nat) -> Expanded {
    Expanded {
        scope: Seq::empty(),
        continuing: false,
        text: text_of(rows, k),
        numbers: numbered(k),
    }
}

/// The expansion takes a line of a load file as it is.
#[verifier::rlimit(40)]
pub proof fn lemma_expands_line(
    instructions: Seq<Instruction>,
    origin: nat,
    k: nat,
    fixed: Seq<Bound>,
)
    requires
        writable_program(instructions, origin),
        k <= instructions.len(),
    ensures
        ({
            let rows = rows_of(instructions, origin);
            expanded(
                text_of(rows, rows.len()),
                text_of(rows, k).len() as int,
                (k + 1) as usize,
                expanded_rows(rows, k),
                fixed,
            ) == expanded(
                text_of(rows, rows.len()),
                text_of(rows, k + 1).len() as int,
                (k + 2) as usize,
                expanded_rows(rows, k + 1),
                fixed,
            )
        }),
{
    let rows = rows_of(instructions, origin);
    let whole = text_of(rows, rows.len());
    let at = text_of(rows, k).len() as int;
    let st = expanded_rows(rows, k);
    let row = rows[k as int];
    let number = (k + 1) as usize;
    let after = emitted(st, row, number);
    assert(plain(row) && kind_of(line(row)) == LineKind::Other) by {
        lemma_rows_parse(instructions, origin, k as int);
    }
    assert(after == expanded_rows(rows, k + 1)) by {
        lemma_plain_code(row);
        assert(after.text =~= text_of(rows, k + 1));
        assert(after.numbers =~= numbered(k + 1));
    }
    assert(following(number) == (k + 2) as usize);
    let (e, next) = line_bounds(whole, at);
    assert(0 <= at < whole.len() && at < next <= whole.len() && whole.subrange(at, e) == row
        && next == text_of(rows, k + 1).len()) by {
        lemma_row_at(rows, k);
    }
    assert(expanded(whole, at, number, st, fixed) == expanded(
        whole,
        next,
        following(number),
        after,
        fixed,
    ));
}

/// The expansion leaves a load file as it is.
pub proof fn lemma_expands(
    instructions: Seq<Instruction>,
    origin: nat,
    k: nat,
    fixed: Seq<Bound>,
)
    requires
        writable_program(instructions, origin),
        k <= instructions.len() + 1,
    ensures
        ({
            let rows = rows_of(instructions, origin);
            expanded(
                text_of(rows, rows.len()),
                text_of(rows, k).len() as int,
                (k + 1) as usize,
                expanded_rows(rows, k),
                fixed,
            ) == Ok::<Expanded, Error>(expanded_rows(rows, rows.len()))
        }),
    decreases instructions.len() + 1 - k,
{
    let rows = rows_of(instructions, origin);
    if k < rows.len() {
        lemma_expands_line(instructions, origin, k, fixed);
        lemma_expands(instructions, origin, k + 1, fixed);
    }
}

/// The collection after the first `k` lines of a load file: no label, and
/// an instruction for each line but the first.
pub open spec fn collected_rows(k: nat) -> Collected {
    Collected {
        labels: Seq::empty(),
        count: if k == 0 {
            0
        } else {
            (k - 1) as i32
        },
        warnings: Seq::empty(),
    }
}

/// The lines of a load file declare no label and hold an instruction
/// each, but for the first.
#[verifier::rlimit(40)]
pub proof fn lemma_collects(
    instructions: Seq<Instruction>,
    origin: nat,
    k: nat,
    fixed: Seq<Bound>,
)
    requires
        writable_program(instructions, origin),
        k <= instructions.len() + 1,
    ensures
        ({
            let rows = rows_of(instructions, origin);
            collected(
                text_of(rows, rows.len()),
                text_of(rows, k).len() as int,
                k as int,
                collected_rows(k),
                numbered(rows.len()),
                fixed,
            ) == Ok::<Collected, (Error, Seq<Warning>)>(collected_rows(rows.len()))
        }),
    decreases instructions.len() + 1 - k,
{
    let rows = rows_of(instructions, origin);
    let st = collected_rows(k);
    if k < rows.len() {
        let row = rows[k as int];
        let number = number_of(numbered(rows.len()), k as int);
        lemma_rows_parse(instructions, origin, k as int);
        lemma_row_at(rows, k);
        if k == 0 {
            let found = header_trees(origin);
            assert(found[0].rule == Rule::Org);
            assert(declared_in(found) == 0);
            assert(statement_of(found) == Statement::Origin(1));
        } else {
            let found = seq![instruction_tree(instructions[k - 1])];
            assert(found[0].rule == Rule::Instruction);
            assert(found.last() == found[0]);
            assert(declared_in(found) == 0);
            assert(statement_of(found) == Statement::Instruction(0));
        }
        assert(collected_line(st, row, fixed, number) == Ok::<
            (Collected, bool),
            (Error, Seq<Warning>),
        >((collected_rows(k + 1), false)));
        lemma_collects(instructions, origin, k + 1, fixed);
    }
}

/// The program after the first `k` lines of a load file.
pub open spec fn assembled_rows(
    instructions: Seq<Instruction>,
    origin: nat,
    core_size: i32,
    k: nat,
) -> Assembled {
    if k == 0 {
        Assembled { instructions: Seq::empty(), origin: None }
    } else {
        Assembled {
            instructions: instructions.take(k - 1),
            origin: Some(normalized(origin as int, core_size as int) as usize),
        }
    }
}

/// The first line of a load file sets the origin.
#[verifier::rlimit(40)]
pub proof fn lemma_assembles_header(
    instructions: Seq<Instruction>,
    origin: nat,
    scope: Seq<Bound>,
    number: usize,
    core_size: i32,
)
    requires
        origin <= i32::MAX,
        core_size > 0,
    ensures
        assembled_line(
            assembled_rows(instructions, origin, core_size, 0),
            header(origin),
            scope,
            number,
            core_size,
        ) == Ok::<(Assembled, bool), Error>(
            (assembled_rows(instructions, origin, core_size, 1), false),
        ),
{
    let st = assembled_rows(instructions, origin, core_size, 0);
    let row = header(origin);
    let found = header_trees(origin);
    lemma_header_parses(origin, scope);
    assert(found[0].rule == Rule::Org);
    assert(statement_of(found) == Statement::Origin(1));
    assert(origin_of(found[1], row, scope, core_size) == Ok::<usize, Error>(
        normalized(origin as int, core_size as int) as usize,
    ));
    assert(instructions.take(0) =~= Seq::<Instruction>::empty());
    assert(with_origin(st, row, found, 1, scope, core_size) == Ok::<Assembled, Error>(
        assembled_rows(instructions, origin, core_size, 1),
    ));
}

/// A line of a load file behind the first adds its instruction to the
/// program.
#[verifier::rlimit(40)]
pub proof fn lemma_assembles_instruction(
    instructions: Seq<Instruction>,
    origin: nat,
    k: nat,
    scope: Seq<Bound>,
    number: usize,
    core_size: i32,
)
    requires
        writable_program(instructions, origin),
        1 <= k <= instructions.len(),
    ensures
        assembled_line(
            assembled_rows(instructions, origin, core_size, k),
            written_instruction(instructions[k - 1]),
            scope,
            number,
            core_size,
        ) == Ok::<(Assembled, bool), Error>(
            (assembled_rows(instructions, origin, core_size, k + 1), false),
        ),
{
    let written = instructions[k - 1];
    let found = seq![instruction_tree(written)];
    lemma_instruction_parses(written);
    assert(found[0].rule == Rule::Instruction);
    assert(found.last() == found[0]);
    assert(statement_of(found) == Statement::Instruction(0));
    lemma_instruction_means(written, scope, (k - 1) as i32);
    assert(instructions.take(k - 1).push(written) =~= instructions.take(k as int));
}

/// The lines of a load file are assembled to the program that was written
/// down.
pub proof fn lemma_assembles(
    instructions: Seq<Instruction>,
    origin: nat,
    k: nat,
    scope: Seq<Bound>,
    core_size: i32,
)
    requires
        writable_program(instructions, origin),
        k <= instructions.len() + 1,
        core_size > 0,
    ensures
        ({
            let rows = rows_of(instructions, origin);
            assembled(
                text_of(rows, rows.len()),
                text_of(rows, k).len() as int,
                k as int,
                assembled_rows(instructions, origin, core_size, k),
                numbered(rows.len()),
                scope,
                core_size,
            ) == Ok::<Assembled, Error>(
                assembled_rows(instructions, origin, core_size, rows.len()),
            )
        }),
    decreases instructions.len() + 1 - k,
{
    let rows = rows_of(instructions, origin);
    if k < rows.len() {
        let number = number_of(numbered(rows.len()), k as int);
        lemma_rows_parse(instructions, origin, k as int);
        lemma_row_at(rows, k);
        if k == 0 {
            assert(rows[0] == header(origin));
            lemma_assembles_header(instructions, origin, scope, number, core_size);
        } else {
            assert(rows[k as int] == written_instruction(instructions[k - 1]));
            lemma_assembles_instruction(instructions, origin, k, scope, number, core_size);
        }
        lemma_assembles(instructions, origin, k + 1, scope, core_size);
    }
}

/// A program that is written down as a load file and assembled again is
/// the same program: the same instructions, and the origin that was
/// written, reduced to the size of the core.
pub proof fn lemma_load_file_parses_to_its_program(
    instructions: Seq<Instruction>,
    origin: nat,
    config: CoreConfig,
)
    requires
        writable_program(instructions, origin),
        config.core_size > 0,
    ensures
        assembly(listing(instructions, origin), config) matches Ok((program, _))
            && program.instructions == instructions && program.origin == Some(
            normalized(origin as int, config.core_size as int) as usize,
        ),
{
    let rows = rows_of(instructions, origin);
    let whole = text_of(rows, rows.len());
    let fixed = constants(config);
    lemma_listing_is_text(instructions, origin, instructions.len());
    assert(listing(instructions, origin) =~= whole);
    assert(text_of(rows, 0) =~= Seq::<u8>::empty());
    assert(numbered(0) =~= Seq::<usize>::empty());
    lemma_expands(instructions, origin, 0, fixed);
    lemma_collects(instructions, origin, 0, fixed);
    assert(fixed + Seq::<Bound>::empty() =~= fixed);
    lemma_assembles(instructions, origin, 0, fixed, config.core_size);
    assert(instructions.take(instructions.len() as int) =~= instructions);
}

/// Whether a program is one that the assembler may have made: none of its
/// opcodes works on the private storage of a warrior, it has no more
/// instructions than can be counted, and its origin lies within the core.
pub open spec fn well_made(program: Assembled, core_size: i32) -> bool {
    &&& program.instructions.len() <= i32::MAX
    &&& forall|k: int|
        0 <= k < program.instructions.len() ==> !(
        #[trigger] program.instructions[k]).opcode.is_p_space()
    &&& program.origin matches Some(origin) ==> origin < core_size
}

/// Setting the origin leaves a program that the assembler may have made.
pub proof fn lemma_origin_is_well_made(
    st: Assembled,
    raw: Seq<u8>,
    found: Seq<Tree>,
    place: int,
    scope: Seq<Bound>,
    core_size: i32,
)
    requires
        core_size > 0,
        well_made(st, core_size),
    ensures
        with_origin(st, raw, found, place, scope, core_size) matches Ok(after) ==> well_made(
            after,
            core_size,
        ),
{
    if 0 <= place < found.len() {
        match value_of(found[place], raw, scope, 0, EXPRESSION) {
            Ok(value) => {
                vstd::arithmetic::div_mod::lemma_mod_bound(value as int, core_size as int);
            },
            Err(_) => {},
        }
    }
}

/// Reading a line leaves a program that the assembler may have made.
#[verifier::rlimit(40)]
pub proof fn lemma_line_is_well_made(
    st: Assembled,
    raw: Seq<u8>,
    scope: Seq<Bound>,
    number: usize,
    core_size: i32,
)
    requires
        core_size > 0,
        well_made(st, core_size),
    ensures
        assembled_line(st, raw, scope, number, core_size) matches Ok((after, _)) ==> well_made(
            after,
            core_size,
        ),
{
    match line(raw) {
        Ok(found) => {
            match statement_of(found) {
                Statement::Origin(place) => {
                    lemma_origin_is_well_made(st, raw, found, place as int, scope, core_size);
                },
                Statement::End(Some(place)) => {
                    lemma_origin_is_well_made(st, raw, found, place as int, scope, core_size);
                },
                _ => {},
            }
            match assembled_line(st, raw, scope, number, core_size) {
                Ok((after, _)) => {
                    assert forall|k: int| 0 <= k < after.instructions.len() implies !(
                    #[trigger] after.instructions[k]).opcode.is_p_space() by {
                        if k < st.instructions.len() {
                            assert(after.instructions[k] == st.instructions[k]);
                        }
                    }
                },
                Err(_) => {},
            }
        },
        Err(_) => {},
    }
}

/// Reading lines leaves a program that the assembler may have made.
pub proof fn lemma_lines_are_well_made(
    s: Seq<u8>,
    i: int,
    k: int,
    st: Assembled,
    numbers: Seq<usize>,
    scope: Seq<Bound>,
    core_size: i32,
)
    requires
        core_size > 0,
        well_made(st, core_size),
    ensures
        assembled(s, i, k, st, numbers, scope, core_size) matches Ok(program) ==> well_made(
            program,
            core_size,
        ),
    decreases s.len() - i,
{
    let (e, next) = line_bounds(s, i);
    if 0 <= i < s.len() && i < next <= s.len() {
        lemma_line_is_well_made(st, s.subrange(i, e), scope, number_of(numbers, k), core_size);
        match assembled_line(st, s.subrange(i, e), scope, number_of(numbers, k), core_size) {
            Ok((after, ended)) => {
                if !ended {
                    lemma_lines_are_well_made(s, next, k + 1, after, numbers, scope, core_size);
                }
            },
            Err(_) => {},
        }
    }
}

/// The origin of a program; that of a program without one is 0.
pub open spec fn origin_or_start(program: Assembled) -> nat {
    match program.origin {
        Some(origin) => origin as nat,
        None => 0,
    }
}

/// What the assembler has made of a source can be written down as a load
/// file, and assembling the load file gives the same instructions and the
/// same origin. This holds where every number of the program can be
/// written: the least of all numbers has no written form that can be read
/// again.
#[verifier::rlimit(40)]
pub proof fn lemma_round_trip(
    source: Seq<u8>,
    config: CoreConfig,
    program: Assembled,
    warnings: Seq<Warning>,
)
    requires
        config.core_size > 0,
        assembly(source, config) == Ok::<(Assembled, Seq<Warning>), (Error, Seq<Warning>)>(
            (program, warnings),
        ),
        forall|k: int|
            0 <= k < program.instructions.len() ==> (
            #[trigger] program.instructions[k]).a_field.value > i32::MIN
                && program.instructions[k].b_field.value > i32::MIN,
    ensures
        assembly(
            listing(program.instructions, origin_or_start(program)),
            config,
        ) matches Ok((again, _)) && again.instructions == program.instructions && origin_or_start(
            again,
        ) == origin_or_start(program),
{
    let fixed = constants(config);
    match expanded(
        source,
        0,
        1,
        Expanded {
            scope: Seq::empty(),
            continuing: false,
            text: Seq::empty(),
            numbers: Seq::empty(),
        },
        fixed,
    ) {
        Ok(lines) => {
            match collected(
                lines.text,
                0,
                0,
                Collected { labels: Seq::empty(), count: 0, warnings: Seq::empty() },
                lines.numbers,
                fixed,
            ) {
                Ok(found) => {
                    lemma_lines_are_well_made(
                        lines.text,
                        0,
                        0,
                        Assembled { instructions: Seq::empty(), origin: None },
                        lines.numbers,
                        fixed + found.labels,
                        config.core_size,
                    );
                },
                Err(_) => {},
            }
        },
        Err(_) => {},
    }
    assert(well_made(program, config.core_size));
    assert(writable_program(program.instructions, origin_or_start(program)));
    lemma_load_file_parses_to_its_program(
        program.instructions,
        origin_or_start(program),
        config,
    );
    vstd::arithmetic::div_mod::lemma_small_mod(
        origin_or_start(program),
        config.core_size as nat,
    );
}

} // verus!
