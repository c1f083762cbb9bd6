use sum_expr::tokenizer::Tokenizer;
use sum_expr::tree_builder::{Expr, TreeBuilder};

#[test]
fn tree_builder_simple_add() {
    let input = "1 + 2";
    let tokenizer = Tokenizer::new(input);
    let tb = TreeBuilder::from(tokenizer);
    let ast = tb.build();
    assert_eq!(
        ast,
        Expr::Add {
            left: Box::new(Expr::Num(1)),
            right: Some(Box::new(Expr::Num(2))),
        }
    );
}

#[test]
fn tree_builder_leans_left() {
    let ast = TreeBuilder::from(Tokenizer::new("a + 2+c")).build();
    assert_eq!(
        ast,
        Expr::Add {
            left: Box::new(Expr::Add {
                left: Box::new(Expr::Id("a")),
                right: Some(Box::new(Expr::Num(2))),
            }),
            right: Some(Box::new(Expr::Id("c"))),
        }
    );
    assert_eq!(ast.clone(), ast);
}

#[test]
fn tree_builder_single_operands() {
    assert_eq!(TreeBuilder::from(Tokenizer::new("42")).build(), Expr::Num(42));
    assert_eq!(TreeBuilder::from(Tokenizer::new(" x ")).build(), Expr::Id("x"));
    assert_eq!(TreeBuilder::from(Tokenizer::new("")).build(), Expr::Program);
}

#[test]
fn tree_builder_tolerates_a_trailing_operator() {
    assert_eq!(
        TreeBuilder::from(Tokenizer::new("7 +")).build(),
        Expr::Add { left: Box::new(Expr::Num(7)), right: None }
    );
}
