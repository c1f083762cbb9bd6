use sum_expr::ast_builder::Expr::{Add, Id, Num, Program};
use sum_expr::ast_builder::{AstBuilder, Expr, SyntaxError};
use sum_expr::tokenizer::Token::{AddOperator, Identifier, NumLiteral, Space};
use sum_expr::tokenizer::{Token, Tokenizer};

fn parse(input: &str) -> Result<Expr<'_>, SyntaxError<'_>> {
    AstBuilder::from(Tokenizer::new(input)).build()
}

fn tokens(input: &str) -> Vec<Token<'_>> {
    let mut tokenizer = Tokenizer::new(input);
    let mut all = Vec::new();
    while let Some(token) = tokenizer.try_next().unwrap() {
        all.push(token);
    }
    all
}

fn fold<'a>(input: &[Token<'a>]) -> Result<Expr<'a>, SyntaxError<'a>> {
    let mut tree = Program;
    for token in input {
        tree = tree.apply(*token)?;
    }
    Ok(tree)
}

fn is_operand(tree: &Expr<'_>) -> bool {
    matches!(tree, Num { .. } | Id { .. })
}

fn is_sum(tree: &Expr<'_>) -> bool {
    match tree {
        Num { .. } | Id { .. } => true,
        Add { left, right: Some(operand) } => is_sum(left) && is_operand(operand),
        _ => false,
    }
}

fn is_state(tree: &Expr<'_>) -> bool {
    match tree {
        Program => true,
        Add { left, right: None } => is_sum(left),
        other => is_sum(other),
    }
}

fn evaluate(tree: &Expr<'_>) -> i64 {
    match tree {
        Num { value } => *value as i64,
        Add { left, right } => {
            evaluate(left) + right.as_ref().map_or(0, |operand| evaluate(operand))
        }
        Id { .. } | Program => 0,
    }
}

fn sum_tree(values: &[i32]) -> Expr<'static> {
    match values {
        [] => Program,
        [only] => Num { value: *only },
        [front @ .., last] => {
            Add { left: Box::new(sum_tree(front)), right: Some(Box::new(Num { value: *last })) }
        }
    }
}

#[test]
fn sum_of_literals_is_the_left_leaning_tree() {
    let values = [7, 0, 2147483647, 12, 5];
    let text = "7 + 0 + 2147483647 + 12 + 5";
    let tree = parse(text).unwrap();
    assert_eq!(tree, sum_tree(&values));
    assert!(is_sum(&tree));
    assert_eq!(evaluate(&tree), 7 + 0 + 2147483647i64 + 12 + 5);
}

#[test]
fn spaces_around_operators_do_not_change_the_tree() {
    let expected = sum_tree(&[1, 2, 3]);
    for text in ["1+2+3", "1 + 2 + 3", "1 +2+ 3", "1   +   2+3", "1+2   +   3"] {
        assert_eq!(parse(text), Ok(sum_tree(&[1, 2, 3])), "on {:?}", text);
    }
    assert_eq!(evaluate(&expected), 6);
}

#[test]
fn sum_of_one_literal_has_no_addition() {
    assert_eq!(parse("0042"), Ok(sum_tree(&[42])));
    assert_eq!(sum_tree(&[42]), Num { value: 42 });
}

#[test]
fn long_sum_parses_in_one_pass() {
    let count = 3000;
    let mut text = String::new();
    let mut values = Vec::new();
    for i in 0..count {
        if i > 0 {
            text.push_str(" + ");
        }
        text.push_str(&format!("{}", i * 37));
        values.push(i * 37);
    }
    let tree = parse(&text).unwrap();
    let mut depth = 0;
    let mut node = &tree;
    while let Add { left, right } = node {
        assert_eq!(right.as_deref(), Some(&Num { value: values[(count - 1 - depth) as usize] }));
        depth += 1;
        node = &**left;
    }
    assert_eq!(depth, count - 1);
    assert_eq!(node, &Num { value: 0 });
}

#[test]
fn build_is_the_fold_of_the_tokens() {
    for text in ["", "  ", "1", "a + 2", "1 +", "+ 1", "1 2", "a+b+c+4", "(1)", "1 + 99999999999"] {
        assert_eq!(parse(text), fold(&tokens(text)), "on {:?}", text);
    }
}

#[test]
fn fold_skips_space_tokens() {
    let spaced = [Space, NumLiteral("1"), Space, Space, AddOperator, Space, Identifier("x"), Space];
    let bare = [NumLiteral("1"), AddOperator, Identifier("x")];
    assert_eq!(fold(&spaced), fold(&bare));
    assert_eq!(
        fold(&bare),
        Ok(Add { left: Box::new(Num { value: 1 }), right: Some(Box::new(Id { name: "x" })) })
    );
}

#[test]
fn returned_trees_are_states_of_the_parser() {
    let texts = ["", "   ", "1", "x", "1 + 2", "1 + x + 3", "a +", "a + b + ", " 1+2 +3+ 4 "];
    for text in texts {
        let tree = parse(text).unwrap();
        assert!(is_state(&tree), "on {:?}", text);
        let seen: Vec<Token<'_>> =
            tokens(text).into_iter().filter(|token| *token != Space).collect();
        assert_eq!(tree == Program, seen.is_empty(), "on {:?}", text);
        assert_eq!(
            matches!(tree, Add { right: None, .. }),
            seen.last() == Some(&AddOperator),
            "on {:?}",
            text
        );
        assert_eq!(
            is_sum(&tree),
            matches!(seen.last(), Some(NumLiteral(_)) | Some(Identifier(_))),
            "on {:?}",
            text
        );
    }
}

#[test]
fn leading_operator_is_unexpected_whatever_follows() {
    for text in ["+", "+ 3", "   + 3", "+x", "+ + +", "+ $", " +)"] {
        assert_eq!(parse(text), Err(SyntaxError::Unexpected(AddOperator)), "on {:?}", text);
    }
}

#[test]
fn second_of_two_operands_is_unexpected_whatever_follows() {
    assert_eq!(parse("1 2"), Err(SyntaxError::Unexpected(NumLiteral("2"))));
    assert_eq!(parse("12 34 $"), Err(SyntaxError::Unexpected(NumLiteral("34"))));
    assert_eq!(parse("ab cd+"), Err(SyntaxError::Unexpected(Identifier("cd"))));
    assert_eq!(parse("1a"), Err(SyntaxError::Unexpected(Identifier("a"))));
    assert_eq!(parse("a1 + 2"), Err(SyntaxError::Unexpected(NumLiteral("1"))));
    assert_eq!(parse("1 + 2 x y"), Err(SyntaxError::Unexpected(Identifier("x"))));
}

#[test]
fn single_operand_with_spaces_around_it_is_a_leaf() {
    for text in ["42", " 42", "42 ", "   42   "] {
        assert_eq!(parse(text), Ok(Num { value: 42 }), "on {:?}", text);
    }
    for text in ["x", " x", "x ", "   x   "] {
        assert_eq!(parse(text), Ok(Id { name: "x" }), "on {:?}", text);
    }
}

#[test]
fn no_two_space_tokens_follow_each_other() {
    for text in ["", " ", "    ", "1    +    2", "  a  b  ", " ( ) + "] {
        let all = tokens(text);
        for pair in all.windows(2) {
            assert!(!(pair[0] == Space && pair[1] == Space), "on {:?}", text);
        }
    }
}

#[test]
fn tokens_hold_every_character_but_the_spaces() {
    for text in ["", "   ", "12 + (ab)  +7 ", "a1b2", "((++))", "x  y  z"] {
        let mut spelled = String::new();
        for token in tokens(text) {
            match token {
                Identifier(part) | NumLiteral(part) => spelled.push_str(part),
                Space => {}
                Token::OpenParen => spelled.push('('),
                Token::CloseParen => spelled.push(')'),
                AddOperator => spelled.push('+'),
            }
        }
        let expected: String = text.chars().filter(|c| *c != ' ').collect();
        assert_eq!(spelled, expected, "on {:?}", text);
    }
}

#[test]
fn tokens_before_an_unrecognized_character_spell_the_text_before_it() {
    let mut tokenizer = Tokenizer::new("ab 12#cd");
    let mut spelled = String::new();
    let error = loop {
        match tokenizer.try_next() {
            Ok(Some(Identifier(part))) | Ok(Some(NumLiteral(part))) => spelled.push_str(part),
            Ok(Some(_)) => {}
            Ok(None) => panic!("the text holds an unrecognized character"),
            Err(error) => break error,
        }
    };
    assert_eq!(spelled, "ab12");
    assert_eq!(error.ch, '#');
    assert_eq!(error.position, 5);
}

#[test]
fn identifier_and_number_slices_borrow_from_the_source() {
    let source = String::from("abc + 123");
    let all = tokens(&source);
    match (all[0], all[4]) {
        (Identifier(name), NumLiteral(digits)) => {
            assert_eq!(name.as_ptr(), source.as_ptr());
            assert_eq!(digits.as_ptr(), source[6..].as_ptr());
        }
        other => panic!("unexpected tokens {:?}", other),
    }
}
