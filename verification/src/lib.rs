//! A front end for a small language of additions: a tokenizer that splits
//! source text into lexical tokens, and builders that fold the tokens into a
//! left-leaning expression tree.
//!
//! Every executable function carries a contract over the mathematical value
//! of its arguments: text is a `Seq<char>`, a token a
//! [`tokenizer::TokenView`], a tree a [`grammar::ExprView`]. The modules
//! `token_laws` and `parse_laws` hold what is proved of tokenizer and parser
//! as a whole.

pub mod ast_builder;
pub mod charset;
pub mod grammar;
pub mod number;
pub mod parse_laws;
mod text;
pub mod token_laws;
pub mod tokenizer;
pub mod tree_builder;

