use corewars::parser::grammar::Rule::{
    AddOp, AddressMode, BooleanOp, CompareOp, Expression, Field, For, Instruction, Label,
    Modifier, MultiplyOp, Number, Opcode, Operation, Product, Substitution, Sum, UnaryExpr,
    UnaryOp, Value,
};
use corewars::parser::grammar::{parse_line, tokenize, Grammar, Pair, Rule};

fn node(rule: Rule, start: usize, end: usize, inner: Vec<Pair>) -> Pair {
    Pair {
        rule,
        start,
        end,
        inner,
    }
}

fn leaf(rule: Rule, start: usize, end: usize) -> Pair {
    node(rule, start, end, vec![])
}

/// The tree of an expression that is a single number or label
fn single(kind: Rule, start: usize, end: usize) -> Pair {
    node(
        Expression,
        start,
        end,
        vec![node(
            Value,
            start,
            end,
            vec![node(
                Sum,
                start,
                end,
                vec![node(
                    Product,
                    start,
                    end,
                    vec![node(UnaryExpr, start, end, vec![leaf(kind, start, end)])],
                )],
            )],
        )],
    )
}

#[test]
fn parse_expression() {
    assert_eq!(Grammar::expression(b"123").unwrap(), single(Number, 0, 3));

    assert_eq!(
        Grammar::expression(b"-10").unwrap(),
        node(
            Expression,
            0,
            3,
            vec![node(
                Value,
                0,
                3,
                vec![node(
                    Sum,
                    0,
                    3,
                    vec![node(
                        Product,
                        0,
                        3,
                        vec![node(
                            UnaryExpr,
                            0,
                            3,
                            vec![leaf(UnaryOp, 0, 1), leaf(Number, 1, 3)]
                        )]
                    )]
                )]
            )]
        )
    );

    assert_eq!(
        Grammar::expression(b"2 + 2").unwrap(),
        node(
            Expression,
            0,
            5,
            vec![node(
                Value,
                0,
                5,
                vec![node(
                    Sum,
                    0,
                    5,
                    vec![
                        node(
                            Product,
                            0,
                            2,
                            vec![node(UnaryExpr, 0, 1, vec![leaf(Number, 0, 1)])]
                        ),
                        leaf(AddOp, 2, 3),
                        node(
                            Product,
                            4,
                            5,
                            vec![node(UnaryExpr, 4, 5, vec![leaf(Number, 4, 5)])]
                        ),
                    ]
                )]
            )]
        )
    );

    assert_eq!(
        Grammar::expression(b"2 + -2").unwrap(),
        node(
            Expression,
            0,
            6,
            vec![node(
                Value,
                0,
                6,
                vec![node(
                    Sum,
                    0,
                    6,
                    vec![
                        node(
                            Product,
                            0,
                            2,
                            vec![node(UnaryExpr, 0, 1, vec![leaf(Number, 0, 1)])]
                        ),
                        leaf(AddOp, 2, 3),
                        node(
                            Product,
                            4,
                            6,
                            vec![node(
                                UnaryExpr,
                                4,
                                6,
                                vec![leaf(UnaryOp, 4, 5), leaf(Number, 5, 6)]
                            )]
                        ),
                    ]
                )]
            )]
        )
    );

    assert_eq!(
        Grammar::expression(b"2*(x + 1)").unwrap(),
        node(
            Expression,
            0,
            9,
            vec![node(
                Value,
                0,
                9,
                vec![node(
                    Sum,
                    0,
                    9,
                    vec![node(
                        Product,
                        0,
                        9,
                        vec![
                            node(UnaryExpr, 0, 1, vec![leaf(Number, 0, 1)]),
                            leaf(MultiplyOp, 1, 2),
                            node(
                                UnaryExpr,
                                2,
                                9,
                                vec![node(
                                    Expression,
                                    3,
                                    8,
                                    vec![node(
                                        Value,
                                        3,
                                        8,
                                        vec![node(
                                            Sum,
                                            3,
                                            8,
                                            vec![
                                                node(
                                                    Product,
                                                    3,
                                                    5,
                                                    vec![node(
                                                        UnaryExpr,
                                                        3,
                                                        4,
                                                        vec![leaf(Label, 3, 4)]
                                                    )]
                                                ),
                                                leaf(AddOp, 5, 6),
                                                node(
                                                    Product,
                                                    7,
                                                    8,
                                                    vec![node(
                                                        UnaryExpr,
                                                        7,
                                                        8,
                                                        vec![leaf(Number, 7, 8)]
                                                    )]
                                                ),
                                            ]
                                        )]
                                    )]
                                )]
                            ),
                        ]
                    )]
                )]
            )]
        )
    );

    assert_eq!(
        Grammar::expression(b"x >= 2 || x < 0").unwrap(),
        node(
            Expression,
            0,
            15,
            vec![
                node(
                    Value,
                    0,
                    7,
                    vec![
                        node(
                            Sum,
                            0,
                            2,
                            vec![node(
                                Product,
                                0,
                                2,
                                vec![node(UnaryExpr, 0, 1, vec![leaf(Label, 0, 1)])]
                            )]
                        ),
                        leaf(CompareOp, 2, 4),
                        node(
                            Sum,
                            5,
                            7,
                            vec![node(
                                Product,
                                5,
                                7,
                                vec![node(UnaryExpr, 5, 6, vec![leaf(Number, 5, 6)])]
                            )]
                        ),
                    ]
                ),
                leaf(BooleanOp, 7, 9),
                node(
                    Value,
                    10,
                    15,
                    vec![
                        node(
                            Sum,
                            10,
                            12,
                            vec![node(
                                Product,
                                10,
                                12,
                                vec![node(UnaryExpr, 10, 11, vec![leaf(Label, 10, 11)])]
                            )]
                        ),
                        leaf(CompareOp, 12, 13),
                        node(
                            Sum,
                            14,
                            15,
                            vec![node(
                                Product,
                                14,
                                15,
                                vec![node(UnaryExpr, 14, 15, vec![leaf(Number, 14, 15)])]
                            )]
                        ),
                    ]
                ),
            ]
        )
    );
}

#[test]
fn parse_field_with_mode() {
    for input in [
        "#123", "$123", "*123", "@123", "{123", "<123", "}123", ">123",
    ] {
        let (field, end) = corewars::parser::grammar::line::parse_field(input.as_bytes(), 0)
            .expect("a field");
        assert_eq!(end, 4);
        assert_eq!(
            field,
            node(
                Field,
                0,
                4,
                vec![leaf(AddressMode, 0, 1), single(Number, 1, 4)]
            )
        );
    }
}

#[test]
fn parse_label_expr() {
    for input in ["foo", "fo2", "f_2"] {
        assert_eq!(
            corewars::parser::grammar::parse_expression(input).unwrap(),
            single(Label, 0, 3)
        );
    }
}

#[test]
fn parse_label() {
    for input in ["some_label", "some_label2", "DJNOFF"] {
        assert_eq!(parse_line(input).unwrap(), vec![leaf(Label, 0, input.len())]);
    }
    assert_eq!(parse_line("a: ").unwrap(), vec![leaf(Label, 0, 1)]);
    assert_eq!(parse_line(" a ").unwrap(), vec![leaf(Label, 1, 2)]);
    assert_eq!(parse_line("a :").unwrap(), vec![leaf(Label, 0, 1)]);
}

#[test]
fn parse_opcode_modifier() {
    for input in [
        "mov.a", "mov.b", "mov.ab", "mov.ba", "mov.f", "mov.x", "mov.i",
    ] {
        let (operation, end) =
            corewars::parser::grammar::line::parse_operation(input.as_bytes(), 0)
                .expect("an operation");
        assert_eq!(end, input.len());
        assert_eq!(
            operation,
            node(
                Operation,
                0,
                input.len(),
                vec![leaf(Opcode, 0, 3), leaf(Modifier, 4, input.len())]
            )
        );
    }
}

#[test]
fn parse_full_line() {
    assert_eq!(
        parse_line("mov #1, 3").unwrap(),
        vec![node(
            Instruction,
            0,
            9,
            vec![
                node(Operation, 0, 3, vec![leaf(Opcode, 0, 3)]),
                node(
                    Field,
                    4,
                    6,
                    vec![leaf(AddressMode, 4, 5), single(Number, 5, 6)]
                ),
                node(Field, 8, 9, vec![single(Number, 8, 9)]),
            ]
        )]
    );
}

fn tokens_of(input: &str) -> Vec<(Rule, String)> {
    tokenize(input)
        .iter()
        .map(|pair| (pair.rule, input[pair.start..pair.end].to_string()))
        .collect()
}

fn expect_tokens(input: &str, expected: &[(Rule, &str)]) {
    let expected: Vec<(Rule, String)> = expected
        .iter()
        .map(|(rule, text)| (*rule, text.to_string()))
        .collect();
    assert_eq!(tokens_of(input), expected);
}

#[test]
fn tokenize_line_label() {
    expect_tokens("lbl", &[(Label, "lbl")]);
}

#[test]
fn tokenize_line_label_with_colon() {
    expect_tokens("lbl: ", &[(Label, "lbl")]);
}

#[test]
fn tokenize_line_label_instruction() {
    expect_tokens(
        "lbl: mov 0, 1",
        &[
            (Label, "lbl"),
            (Opcode, "mov"),
            (Number, "0"),
            (Number, "1"),
        ],
    );
}

#[test]
fn tokenize_line_label_equ_expr() {
    expect_tokens("lbl equ 4", &[(Label, "lbl"), (Substitution, "4")]);
}

#[test]
fn tokenize_line_label_equ_instruction() {
    expect_tokens(
        "lbl equ mov 1, 2",
        &[(Label, "lbl"), (Substitution, "mov 1, 2")],
    );
}

#[test]
fn tokenize_line_equ_continuation() {
    expect_tokens("equ mov 1, 2", &[(Substitution, "mov 1, 2")]);
}

#[test]
fn tokenize_line_equ_continuation_expr() {
    expect_tokens(
        "equ mov 1, (1 + 2)",
        &[(Substitution, "mov 1, (1 + 2)")],
    );
}

#[test]
fn tokenize_line_for_statement() {
    expect_tokens(
        "for CORESIZE + 10",
        &[
            (For, "for"),
            (Label, "CORESIZE"),
            (AddOp, "+"),
            (Number, "10"),
        ],
    );
}

#[test]
fn tokenize_line_for_statement_index() {
    expect_tokens(
        "N for CORESIZE + 10",
        &[
            (Label, "N"),
            (For, "for"),
            (Label, "CORESIZE"),
            (AddOp, "+"),
            (Number, "10"),
        ],
    );
}

#[test]
fn syntax_errors_give_the_column() {
    assert_eq!(parse_line("mov 1 +").unwrap_err().column, 6);
    assert_eq!(parse_line("mov").unwrap_err().column, 0);
    assert_eq!(parse_line("  mov.q 1").unwrap_err().column, 2);
    assert_eq!(parse_line("mov 1, 2 3").unwrap_err().column, 9);
    assert_eq!(parse_line("# 3").unwrap_err().column, 0);
    assert_eq!(parse_line("lbl rof").unwrap_err().column, 4);
    assert_eq!(parse_line("a b equ 3").unwrap_err().column, 4);
    assert_eq!(parse_line("mov (1, 2").unwrap_err().column, 0);
    assert!(tokenize("mov 1 +").is_empty());
}

#[test]
fn comments_and_blank_lines_parse_to_nothing() {
    assert_eq!(parse_line("").unwrap(), vec![]);
    assert_eq!(parse_line("   \t ").unwrap(), vec![]);
    assert_eq!(parse_line("; a comment, mov 1").unwrap(), vec![]);
    assert_eq!(
        parse_line("rof ; the end of the loop").unwrap(),
        vec![leaf(Rule::Rof, 0, 3)]
    );
    assert_eq!(
        parse_line("end").unwrap(),
        vec![leaf(Rule::End, 0, 3)]
    );
    assert_eq!(
        parse_line("ORG 2").unwrap(),
        vec![leaf(Rule::Org, 0, 3), single(Number, 4, 5)]
    );
}
