//! The builder that reports what is wrong with its input: it folds a token
//! stream into a tree, or returns the first error in it.

use crate::grammar::{
    lemma_resume_token, place_operand, resume, step, ExprView, SyntaxErrorView,
};
use crate::number::{parse_decimal, IntErrorKind};
use crate::tokenizer::{LexError, Token, Tokenizer};
use vstd::prelude::*;

verus! {

/// An expression tree. Names borrow their text from the source.
#[derive(Debug, PartialEq, Eq)]
pub enum Expr<'e> {
    /// An integer literal.
    Num { value: i32 },
    /// An addition. The right operand is missing only while the builder has
    /// seen the operator and waits for what follows it.
    Add { left: Box<Expr<'e>>, right: Option<Box<Expr<'e>>> },
    /// A name.
    Id { name: &'e str },
    /// No expression at all: the state before any operand.
    Program,
}

impl<'e> Expr<'e> {
    /// The mathematical value of the tree: the same shape, with each name as a
    /// sequence of characters.
    pub open spec fn model(&self) -> ExprView
        decreases self,
    {
        match self {
            Expr::Num { value } => ExprView::Num { value: *value },
            Expr::Add { left, right } => ExprView::Add {
                left: Box::new(left.model()),
                right: match right {
                    Some(operand) => Some(Box::new(operand.model())),
                    None => None,
                },
            },
            Expr::Id { name } => ExprView::Id { name: name@ },
            Expr::Program => ExprView::Program,
        }
    }
}

impl<'e> Clone for Expr<'e> {
    fn clone(&self) -> (copy: Self)
        ensures
            copy == *self,
        decreases self,
    {
        match self {
            Expr::Num { value } => Expr::Num { value: *value },
            Expr::Add { left, right } => Expr::Add {
                left: Box::new((&**left).clone()),
                right: match right {
                    Some(operand) => Some(Box::new((&**operand).clone())),
                    None => None,
                },
            },
            Expr::Id { name } => Expr::Id { name: *name },
            Expr::Program => Expr::Program,
        }
    }
}

impl<'e> View for Expr<'e> {
    type V = ExprView;

    open spec fn view(&self) -> ExprView {
        self.model()
    }
}

/// Why a token stream is no expression.
#[derive(Debug, PartialEq, Eq)]
pub enum SyntaxError<'err> {
    /// A token that the grammar does not allow where it stands: an operand
    /// after an operand, an operator without a left operand, or a parenthesis.
    Unexpected(Token<'err>),
    /// A number literal that is no signed 32-bit integer.
    WrongFormat(IntErrorKind),
    /// A character that begins no token.
    Unrecognized(LexError),
}

impl<'err> View for SyntaxError<'err> {
    type V = SyntaxErrorView;

    open spec fn view(&self) -> SyntaxErrorView {
        match *self {
            SyntaxError::Unexpected(token) => SyntaxErrorView::Unexpected(token@),
            SyntaxError::WrongFormat(kind) => SyntaxErrorView::WrongFormat(kind),
            SyntaxError::Unrecognized(error) => SyntaxErrorView::Unrecognized {
                ch: error.ch,
                position: error.position as nat,
            },
        }
    }
}

/// The mathematical value of a builder's result.
pub open spec fn result_view<'a>(result: Result<Expr<'a>, SyntaxError<'a>>) -> Result<
    ExprView,
    SyntaxErrorView,
> {
    match result {
        Ok(tree) => Ok(tree@),
        Err(error) => Err(error@),
    }
}

impl<'e> Expr<'e> {
    /// Whether the tree is a complete value, to which an operator may be applied.
    pub fn is_complete(&self) -> (complete: bool)
        ensures
            complete == self@.is_complete(),
    {
        match self {
            Expr::Num { .. } | Expr::Id { .. } => true,
            Expr::Add { right, .. } => right.is_some(),
            Expr::Program => false,
        }
    }

    /// Puts `operand`, which was read from `token`, where the tree waits for one.
    fn place(self, operand: Expr<'e>, token: Token<'e>) -> (result: Result<
        Expr<'e>,
        SyntaxError<'e>,
    >)
        ensures
            result_view(result) == place_operand(self@, operand@, token@),
    {
        match self {
            Expr::Program => Ok(operand),
            Expr::Add { left, right: None } => Ok(
                Expr::Add { left, right: Some(Box::new(operand)) },
            ),
            _ => Err(SyntaxError::Unexpected(token)),
        }
    }

    /// One transition of the parser: the tree after `token` arrives, or the
    /// error that the token causes.
    pub fn apply(self, token: Token<'e>) -> (result: Result<Expr<'e>, SyntaxError<'e>>)
        ensures
            result_view(result) == step(self@, token@),
    {
        match token {
            Token::Space => Ok(self),
            Token::Identifier(name) => self.place(Expr::Id { name }, token),
            Token::NumLiteral(text) => match parse_decimal(text) {
                Ok(value) => self.place(Expr::Num { value }, token),
                Err(kind) => Err(SyntaxError::WrongFormat(kind)),
            },
            Token::AddOperator => if self.is_complete() {
                Ok(Expr::Add { left: Box::new(self), right: None })
            } else {
                Err(SyntaxError::Unexpected(token))
            },
            Token::OpenParen | Token::CloseParen => Err(SyntaxError::Unexpected(token)),
        }
    }
}

/// Folds the tokens that a tokenizer yields into an expression tree.
#[derive(Debug)]
pub struct AstBuilder<'a> {
    tokens: Tokenizer<'a>,
}

impl<'a> AstBuilder<'a> {
    /// The tokenizer that the builder reads from.
    pub closed spec fn tokenizer(self) -> Tokenizer<'a> {
        self.tokens
    }

    /// What the builder makes of its input: the tree that the text left in
    /// its tokenizer denotes, or the first error in that text.
    pub open spec fn outcome(self) -> Result<ExprView, SyntaxErrorView> {
        resume(ExprView::Program, self.tokenizer().remaining(), self.tokenizer().cursor())
    }

    /// A builder that reads the tokens that `tokenizer` has not handed out yet.
    pub fn from(tokenizer: Tokenizer<'a>) -> (builder: AstBuilder<'a>)
        ensures
            builder.tokenizer() == tokenizer,
    {
        AstBuilder { tokens: tokenizer }
    }

    /// Reads all remaining tokens and returns the tree that they denote, or the
    /// first error among them.
    ///
    /// Input without any operand gives `Program`. An operator at the end of
    /// the input is accepted on purpose, and leaves the addition at the root
    /// of the tree without a right operand; nowhere else in a returned tree is
    /// an operand missing. A caller that wants a whole expression tests the
    /// tree with [`Expr::is_complete`].
    pub fn build(self) -> (result: Result<Expr<'a>, SyntaxError<'a>>)
        ensures
            result_view(result) == self.outcome(),
            result matches Ok(tree) ==> tree@.is_state(),
    {
        let mut tokens = self.tokens;
        let mut tree = Expr::Program;
        loop
            invariant
                tree@.is_state(),
                resume(tree@, tokens.remaining(), tokens.cursor()) == self.outcome(),
            decreases tokens.remaining().len(),
        {
            let ghost before = tokens;
            match tokens.try_next() {
                Ok(Some(token)) => {
                    proof {
                        lemma_resume_token(tree@, before.source(), before.cursor());
                    }
                    match tree.apply(token) {
                        Ok(next) => {
                            tree = next;
                        },
                        Err(error) => {
                            return Err(error);
                        },
                    }
                },
                Ok(None) => {
                    return Ok(tree);
                },
                Err(error) => {
                    return Err(SyntaxError::Unrecognized(error));
                },
            }
        }
    }
}

} // verus!
