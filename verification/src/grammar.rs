//! The grammar of the language as a state machine over tokens:
//! `expression := operand (Space* '+' Space* operand)*`, where an operand is a
//! number literal or an identifier.
//!
//! The state of a parse is the tree built so far. Everything here is
//! mathematics; the builders implement it.

use crate::number::{parse_i32, IntErrorKind};
use crate::tokenizer::{
    first_token, first_unrecognized, lemma_first_token_recognized, lemma_first_token_span,
    lemma_first_unrecognized, lemma_first_unrecognized_skip, tokens, TokenView,
};
use vstd::prelude::*;

verus! {

/// The mathematical value of an expression tree.
pub enum ExprView {
    /// An integer literal.
    Num { value: i32 },
    /// An addition. The right operand is missing while the parser has seen
    /// the operator and waits for what follows it.
    Add { left: Box<ExprView>, right: Option<Box<ExprView>> },
    /// A name.
    Id { name: Seq<char> },
    /// The state before any operand: no expression at all.
    Program,
}

/// The mathematical value of a syntax error.
pub enum SyntaxErrorView {
    /// A token that the grammar does not allow where it stands.
    Unexpected(TokenView),
    /// A number literal that is no signed 32-bit integer.
    WrongFormat(IntErrorKind),
    /// A character that begins no token, and its position in the source,
    /// counted in characters from the start.
    Unrecognized { ch: char, position: nat },
}

impl ExprView {
    /// A single operand: a number or a name.
    pub open spec fn is_operand(self) -> bool {
        self is Num || self is Id
    }

    /// A complete value: an operand, or an addition that has both operands.
    pub open spec fn is_complete(self) -> bool {
        self.is_operand() || (self matches ExprView::Add { right, .. } && right is Some)
    }

    /// An addition that still waits for its right operand.
    pub open spec fn is_waiting(self) -> bool {
        self matches ExprView::Add { right, .. } && right is None
    }

    /// A left-leaning sum: an operand, or an addition of a left-leaning sum
    /// and an operand. No `Program` and no missing operand occurs in it.
    pub open spec fn is_sum(self) -> bool
        decreases self,
    {
        match self {
            ExprView::Num { .. } | ExprView::Id { .. } => true,
            ExprView::Add { left, right: Some(operand) } => left.is_sum() && operand.is_operand(),
            _ => false,
        }
    }

    /// A state that the parser can be in: the empty program, a left-leaning
    /// sum, or a left-leaning sum with an operator behind it.
    pub open spec fn is_state(self) -> bool {
        ||| self is Program
        ||| self.is_sum()
        ||| (self matches ExprView::Add { left, right: None } && left.is_sum())
    }
}

/// The state after `operand` arrives in state `current`; `token` is the token
/// that the operand was read from.
pub open spec fn place_operand(current: ExprView, operand: ExprView, token: TokenView) -> Result<
    ExprView,
    SyntaxErrorView,
> {
    match current {
        ExprView::Program => Ok(operand),
        ExprView::Add { left, right: None } => Ok(
            ExprView::Add { left, right: Some(Box::new(operand)) },
        ),
        _ => Err(SyntaxErrorView::Unexpected(token)),
    }
}

/// One transition of the parser: the state after `token` arrives in state
/// `current`, or the error that the token causes.
///
/// A number literal is read as an integer before the state is looked at, so a
/// malformed number is reported even where no operand is allowed.
pub open spec fn step(current: ExprView, token: TokenView) -> Result<ExprView, SyntaxErrorView> {
    match token {
        TokenView::Space => Ok(current),
        TokenView::Identifier(name) => place_operand(current, ExprView::Id { name }, token),
        TokenView::NumLiteral(text) => match parse_i32(text) {
            Ok(value) => place_operand(current, ExprView::Num { value }, token),
            Err(kind) => Err(SyntaxErrorView::WrongFormat(kind)),
        },
        TokenView::AddOperator => if current.is_complete() {
            Ok(ExprView::Add { left: Box::new(current), right: None })
        } else {
            Err(SyntaxErrorView::Unexpected(token))
        },
        TokenView::OpenParen | TokenView::CloseParen => Err(SyntaxErrorView::Unexpected(token)),
    }
}

/// The state after all of `input` arrived in state `current`, one token after
/// the other, or the first error on the way.
pub open spec fn fold(current: ExprView, input: Seq<TokenView>) -> Result<ExprView, SyntaxErrorView>
    decreases input.len(),
{
    if input.len() == 0 {
        Ok(current)
    } else {
        match step(current, input[0]) {
            Ok(next) => fold(next, input.drop_first()),
            Err(error) => Err(error),
        }
    }
}

/// The outcome of a parse that is in state `current` and has `text` left to
/// read, when `text` begins `offset` characters into the source.
///
/// Errors come in the order of the text: a syntax error among the tokens
/// before the first unrecognized character wins over that character.
pub open spec fn resume(current: ExprView, text: Seq<char>, offset: nat) -> Result<
    ExprView,
    SyntaxErrorView,
> {
    match fold(current, tokens(text)) {
        Err(error) => Err(error),
        Ok(tree) => match first_unrecognized(text) {
            Some(i) => Err(
                SyntaxErrorView::Unrecognized { ch: text[i as int], position: offset + i },
            ),
            None => Ok(tree),
        },
    }
}

/// The tree that `text` denotes, or the first error in it.
///
/// Empty text, or spaces alone, denote `Program`. A trailing operator is
/// tolerated: the text `1 +` denotes an addition without a right operand.
pub open spec fn parse(text: Seq<char>) -> Result<ExprView, SyntaxErrorView> {
    resume(ExprView::Program, text, 0)
}

/// Where the text left in `source` after `cursor` begins with a token, the
/// parse goes on from the state after that token and from the text behind it.
pub proof fn lemma_resume_token(current: ExprView, source: Seq<char>, cursor: nat)
    requires
        cursor <= source.len(),
        first_token(source.skip(cursor as int)) is Some,
    ensures
        ({
            let (token, n) = first_token(source.skip(cursor as int))->0;
            &&& cursor + n <= source.len()
            &&& resume(current, source.skip(cursor as int), cursor) == match step(current, token) {
                Ok(next) => resume(next, source.skip((cursor + n) as int), cursor + n),
                Err(error) => Err(error),
            }
        }),
{
    let text = source.skip(cursor as int);
    let (token, n) = first_token(text)->0;
    lemma_first_token_span(text);
    lemma_first_token_recognized(text);
    lemma_first_unrecognized_skip(text, n);
    let rest = text.skip(n as int);
    assert(rest =~= source.skip((cursor + n) as int));
    assert(tokens(text).drop_first() =~= tokens(rest));
    lemma_first_unrecognized(rest);
}

} // verus!
