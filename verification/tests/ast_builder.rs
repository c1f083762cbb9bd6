use sum_expr::ast_builder::Expr::{Add, Id, Num, Program};
use sum_expr::ast_builder::{AstBuilder, Expr, SyntaxError};
use sum_expr::number::IntErrorKind;
use sum_expr::tokenizer::Token::{AddOperator, CloseParen, Identifier, NumLiteral, OpenParen, Space};
use sum_expr::tokenizer::{LexError, Tokenizer};

fn parse(input: &str) -> Result<Expr<'_>, SyntaxError<'_>> {
    AstBuilder::from(Tokenizer::new(input)).build()
}

#[test]
fn ast_builder_simple_add() -> Result<(), SyntaxError<'static>> {
    let input = "1 + 2";
    let tokenizer = Tokenizer::new(input);
    let tb = AstBuilder::from(tokenizer);
    let ast = tb.build()?;
    assert_eq!(
        ast,
        Expr::Add {
            left: Box::new(Num { value: 1 }),
            right: Some(Box::new(Num { value: 2 })),
        }
    );

    Ok(())
}

#[test]
fn simple_add_2() -> Result<(), SyntaxError<'static>> {
    let input = "1 + 2 + 3";
    let tokenizer = Tokenizer::new(input);
    let tb = AstBuilder::from(tokenizer);
    let ast = tb.build()?;
    assert_eq!(
        ast,
        Add {
            left: Box::new(Add {
                left: Box::new(Num { value: 1 }),
                right: Some(Box::new(Num { value: 2 })),
            }),
            right: Some(Box::new(Num { value: 3 }))
        }
    );

    Ok(())
}

#[test]
fn unexpected_operator() {
    let input = "+ 3";
    let tokenizer = Tokenizer::new(input);
    let astb = AstBuilder::from(tokenizer);
    let ast = astb.build();

    assert_eq!(ast, Err(SyntaxError::Unexpected(AddOperator)));
}

#[test]
fn single_number_is_a_leaf() {
    assert_eq!(parse("42"), Ok(Num { value: 42 }));
}

#[test]
fn single_identifier_is_a_leaf() {
    assert_eq!(parse("x"), Ok(Id { name: "x" }));
    assert_eq!(parse("add"), Ok(Id { name: "add" }));
}

#[test]
fn spaces_around_an_operand_are_skipped() {
    assert_eq!(parse("  42   "), Ok(Num { value: 42 }));
}

#[test]
fn empty_input_is_the_empty_program() {
    assert_eq!(parse(""), Ok(Program));
    assert_eq!(parse("    "), Ok(Program));
}

#[test]
fn consecutive_operands_are_rejected() {
    assert_eq!(parse("1 2"), Err(SyntaxError::Unexpected(NumLiteral("2"))));
    assert_eq!(parse("1 x"), Err(SyntaxError::Unexpected(Identifier("x"))));
    assert_eq!(parse("x 1"), Err(SyntaxError::Unexpected(NumLiteral("1"))));
    assert_eq!(parse("1 + 2 3"), Err(SyntaxError::Unexpected(NumLiteral("3"))));
    assert_eq!(parse("a + b c"), Err(SyntaxError::Unexpected(Identifier("c"))));
}

#[test]
fn consecutive_operators_are_rejected() {
    assert_eq!(parse("1 + + 2"), Err(SyntaxError::Unexpected(AddOperator)));
    assert_eq!(parse("1++"), Err(SyntaxError::Unexpected(AddOperator)));
}

#[test]
fn parentheses_are_rejected() {
    assert_eq!(parse("(1 + 2)"), Err(SyntaxError::Unexpected(OpenParen)));
    assert_eq!(parse("1 + 2)"), Err(SyntaxError::Unexpected(CloseParen)));
    assert_eq!(parse("1 ("), Err(SyntaxError::Unexpected(OpenParen)));
}

#[test]
fn number_out_of_range_overflows() {
    assert_eq!(
        parse("99999999999999"),
        Err(SyntaxError::WrongFormat(IntErrorKind::PosOverflow))
    );
    assert_eq!(parse("2147483648"), Err(SyntaxError::WrongFormat(IntErrorKind::PosOverflow)));
    assert_eq!(parse("2147483647"), Ok(Num { value: 2147483647 }));
}

#[test]
fn malformed_number_wins_over_misplaced_operand() {
    assert_eq!(
        parse("1 99999999999999"),
        Err(SyntaxError::WrongFormat(IntErrorKind::PosOverflow))
    );
}

#[test]
fn trailing_operator_leaves_the_right_operand_open() {
    assert_eq!(parse("1 +"), Ok(Add { left: Box::new(Num { value: 1 }), right: None }));
    assert_eq!(
        parse("1 + 2 + "),
        Ok(Add {
            left: Box::new(Add {
                left: Box::new(Num { value: 1 }),
                right: Some(Box::new(Num { value: 2 })),
            }),
            right: None,
        })
    );
}

#[test]
fn mixed_operands_lean_left() {
    assert_eq!(
        parse("a+1+b"),
        Ok(Add {
            left: Box::new(Add {
                left: Box::new(Id { name: "a" }),
                right: Some(Box::new(Num { value: 1 })),
            }),
            right: Some(Box::new(Id { name: "b" })),
        })
    );
}

#[test]
fn unrecognized_character_is_reported_with_its_position() {
    assert_eq!(
        parse("1 + 2 * 3"),
        Err(SyntaxError::Unrecognized(LexError { ch: '*', position: 6 }))
    );
    assert_eq!(parse("-1"), Err(SyntaxError::Unrecognized(LexError { ch: '-', position: 0 })));
}

#[test]
fn syntax_error_before_an_unrecognized_character_wins() {
    assert_eq!(parse("1 2 * 3"), Err(SyntaxError::Unexpected(NumLiteral("2"))));
}

#[test]
fn builder_resumes_where_the_tokenizer_stands() {
    let mut tokenizer = Tokenizer::new("1 2 + 3 $");
    assert_eq!(tokenizer.next(), Some(NumLiteral("1")));
    assert_eq!(
        AstBuilder::from(tokenizer).build(),
        Err(SyntaxError::Unrecognized(LexError { ch: '$', position: 8 }))
    );
    let mut tokenizer = Tokenizer::new("1 2 + 3");
    assert_eq!(tokenizer.next(), Some(NumLiteral("1")));
    assert_eq!(
        AstBuilder::from(tokenizer).build(),
        Ok(Add { left: Box::new(Num { value: 2 }), right: Some(Box::new(Num { value: 3 })) })
    );
}

#[test]
fn apply_follows_the_transition_table() {
    let one = || Num { value: 1 };
    let waiting = || Add { left: Box::new(one()), right: None };
    let sum = || Add { left: Box::new(one()), right: Some(Box::new(Id { name: "x" })) };

    assert_eq!(Program.apply(NumLiteral("1")), Ok(one()));
    assert_eq!(Program.apply(Identifier("x")), Ok(Id { name: "x" }));
    assert_eq!(Program.apply(AddOperator), Err(SyntaxError::Unexpected(AddOperator)));
    assert_eq!(Program.apply(Space), Ok(Program));

    assert_eq!(one().apply(NumLiteral("2")), Err(SyntaxError::Unexpected(NumLiteral("2"))));
    assert_eq!(one().apply(Identifier("y")), Err(SyntaxError::Unexpected(Identifier("y"))));
    assert_eq!(one().apply(AddOperator), Ok(waiting()));
    assert_eq!(one().apply(Space), Ok(one()));

    assert_eq!(sum().apply(NumLiteral("2")), Err(SyntaxError::Unexpected(NumLiteral("2"))));
    assert_eq!(sum().apply(AddOperator), Ok(Add { left: Box::new(sum()), right: None }));
    assert_eq!(sum().apply(Space), Ok(sum()));

    assert_eq!(waiting().apply(Identifier("x")), Ok(sum()));
    assert_eq!(waiting().apply(AddOperator), Err(SyntaxError::Unexpected(AddOperator)));
    assert_eq!(waiting().apply(Space), Ok(waiting()));

    assert_eq!(one().apply(OpenParen), Err(SyntaxError::Unexpected(OpenParen)));
    assert_eq!(Program.apply(CloseParen), Err(SyntaxError::Unexpected(CloseParen)));
}

#[test]
fn apply_reads_signed_literals() {
    assert_eq!(Program.apply(NumLiteral("-5")), Ok(Num { value: -5 }));
    assert_eq!(
        Program.apply(NumLiteral("")),
        Err(SyntaxError::WrongFormat(IntErrorKind::Empty))
    );
    assert_eq!(
        Program.apply(NumLiteral("1x")),
        Err(SyntaxError::WrongFormat(IntErrorKind::InvalidDigit))
    );
    assert_eq!(
        Program.apply(NumLiteral("-2147483649")),
        Err(SyntaxError::WrongFormat(IntErrorKind::NegOverflow))
    );
}

#[test]
fn clone_copies_the_tree() {
    let tree = parse("a + 1 + b").unwrap();
    assert_eq!(tree.clone(), tree);
    assert!(tree.is_complete());
    assert!(!Program.is_complete());
}

fn eval(tree: &Expr<'_>) -> i64 {
    match tree {
        Num { value } => *value as i64,
        Add { left, right } => eval(left) + right.as_ref().map_or(0, |r| eval(r)),
        Id { .. } | Program => 0,
    }
}

#[test]
fn sum_of_literals_evaluates_to_their_sum() {
    let tree = parse("10 + 20 + 30 + 2147483647").unwrap();
    assert_eq!(eval(&tree), 10 + 20 + 30 + 2147483647i64);
    match tree {
        Add { right: Some(last), .. } => assert_eq!(*last, Num { value: 2147483647 }),
        other => panic!("not a sum: {:?}", other),
    }
}
