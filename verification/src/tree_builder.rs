//! The builder for input that is known to be an expression: it asks its
//! caller to show that the parse succeeds, and returns the tree itself.

use crate::grammar::{lemma_resume_token, place_operand, resume, step, ExprView, SyntaxErrorView};
use crate::number::parse_decimal;
use crate::tokenizer::{lemma_first_unrecognized, Token, Tokenizer};
use vstd::pervasive::unreached;
use vstd::prelude::*;

verus! {

/// An expression tree. Names borrow their text from the source.
#[derive(Debug, PartialEq, Eq)]
pub enum Expr<'e> {
    /// An integer literal.
    Num(i32),
    /// An addition. The right operand is missing only while the builder has
    /// seen the operator and waits for what follows it.
    Add { left: Box<Expr<'e>>, right: Option<Box<Expr<'e>>> },
    /// A name.
    Id(&'e str),
    /// No expression at all: the state before any operand.
    Program,
}

impl<'e> Clone for Expr<'e> {
    fn clone(&self) -> (copy: Self)
        ensures
            copy == *self,
        decreases self,
    {
        match self {
            Expr::Num(value) => Expr::Num(*value),
            Expr::Add { left, right } => Expr::Add {
                left: Box::new((&**left).clone()),
                right: match right {
                    Some(operand) => Some(Box::new((&**operand).clone())),
                    None => None,
                },
            },
            Expr::Id(name) => Expr::Id(*name),
            Expr::Program => Expr::Program,
        }
    }
}

impl<'e> Expr<'e> {
    /// The mathematical value of the tree: the same shape, with each name as a
    /// sequence of characters.
    pub open spec fn model(&self) -> ExprView
        decreases self,
    {
        match self {
            Expr::Num(value) => ExprView::Num { value: *value },
            Expr::Add { left, right } => ExprView::Add {
                left: Box::new(left.model()),
                right: match right {
                    Some(operand) => Some(Box::new(operand.model())),
                    None => None,
                },
            },
            Expr::Id(name) => ExprView::Id { name: name@ },
            Expr::Program => ExprView::Program,
        }
    }

    /// Puts `operand`, which was read from `token`, where the tree waits for one.
    fn place(self, operand: Expr<'e>, Ghost(token): Ghost<Token<'e>>) -> (tree: Expr<'e>)
        requires
            place_operand(self@, operand@, token@) is Ok,
        ensures
            Ok::<ExprView, SyntaxErrorView>(tree@) == place_operand(
                self@,
                operand@,
                token@,
            ),
    {
        match self {
            Expr::Program => operand,
            Expr::Add { left, right: None } => Expr::Add { left, right: Some(Box::new(operand)) },
            _ => unreached(),
        }
    }

    /// One transition of the parser: the tree after `token` arrives. The token
    /// must be one that the grammar allows in this state.
    pub fn apply(self, token: Token<'e>) -> (tree: Expr<'e>)
        requires
            step(self@, token@) is Ok,
        ensures
            Ok::<ExprView, SyntaxErrorView>(tree@) == step(self@, token@),
    {
        match token {
            Token::Space => self,
            Token::Identifier(name) => self.place(Expr::Id(name), Ghost(token)),
            Token::NumLiteral(text) => match parse_decimal(text) {
                Ok(value) => self.place(Expr::Num(value), Ghost(token)),
                Err(_) => unreached(),
            },
            Token::AddOperator => Expr::Add { left: Box::new(self), right: None },
            Token::OpenParen | Token::CloseParen => unreached(),
        }
    }
}

impl<'e> View for Expr<'e> {
    type V = ExprView;

    open spec fn view(&self) -> ExprView {
        self.model()
    }
}

/// Folds the tokens that a tokenizer yields into an expression tree, for
/// input that is known to be free of errors.
#[derive(Debug)]
pub struct TreeBuilder<'a> {
    tokens: Tokenizer<'a>,
}

impl<'a> TreeBuilder<'a> {
    /// The tokenizer that the builder reads from.
    pub closed spec fn tokenizer(self) -> Tokenizer<'a> {
        self.tokens
    }

    /// What the builder makes of its input: the tree that the text left in
    /// its tokenizer denotes, or the first error in that text.
    pub open spec fn outcome(self) -> Result<ExprView, SyntaxErrorView> {
        resume(ExprView::Program, self.tokenizer().remaining(), self.tokenizer().cursor())
    }

    /// A builder that reads the tokens that `tokenizer` has not handed out yet.
    pub fn from(tokenizer: Tokenizer<'a>) -> (builder: TreeBuilder<'a>)
        ensures
            builder.tokenizer() == tokenizer,
    {
        TreeBuilder { tokens: tokenizer }
    }

    /// Reads all remaining tokens and returns the tree that they denote. The
    /// remaining input must hold no error.
    pub fn build(self) -> (tree: Expr<'a>)
        requires
            self.outcome() is Ok,
        ensures
            Ok::<ExprView, SyntaxErrorView>(tree@) == self.outcome(),
            tree@.is_state(),
    {
        let mut tokens = self.tokens;
        let mut tree = Expr::Program;
        loop
            invariant
                self.outcome() is Ok,
                tree@.is_state(),
                resume(tree@, tokens.remaining(), tokens.cursor()) == self.outcome(),
            decreases tokens.remaining().len(),
        {
            let ghost before = tokens;
            proof {
                lemma_first_unrecognized(tokens.remaining());
            }
            match tokens.next() {
                Some(token) => {
                    proof {
                        lemma_resume_token(tree@, before.source(), before.cursor());
                    }
                    tree = tree.apply(token);
                },
                None => {
                    return tree;
                },
            }
        }
    }
}

} // verus!
