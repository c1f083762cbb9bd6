//! What holds of tokenization as a whole: that it is a function of the text,
//! that it neither drops nor repeats a character, that a run of spaces is one
//! token, and when the tokens of a text are those of its parts.

use crate::charset::{
    is_digit, is_letter, is_recognized, is_space, lemma_run_length_bounds, lemma_run_length_is,
    run_length, CharClass,
};
use crate::grammar::parse;
use crate::tokenizer::{
    first_token, first_unrecognized, lemma_first_token_recognized, lemma_first_token_span,
    lemma_first_unrecognized, lemma_first_unrecognized_skip, tokens, TokenView, Tokenizer,
};
use vstd::prelude::*;

verus! {

/// Whether a token can extend over the place where `next` follows `last`:
/// both are spaces, both digits or both letters.
pub open spec fn joins(last: char, next: char) -> bool {
    ||| is_space(last) && is_space(next)
    ||| is_digit(last) && is_digit(next)
    ||| is_letter(last) && is_letter(next)
}

/// A text without unrecognized characters has no first one.
pub proof fn lemma_all_recognized(text: Seq<char>)
    requires
        forall|i: int| 0 <= i < text.len() ==> is_recognized(#[trigger] text[i]),
    ensures
        first_unrecognized(text) is None,
{
    lemma_first_unrecognized(text);
}

/// A run at the start of `head` ends at the same place in `head + tail`,
/// where no token can extend from `head` into `tail`.
proof fn lemma_run_extends(head: Seq<char>, tail: Seq<char>, class: CharClass)
    requires
        head.len() > 0,
        class.contains(head[0]),
        tail.len() > 0 ==> !joins(head.last(), tail[0]),
    ensures
        run_length(head + tail, class) == run_length(head, class),
{
    let n = run_length(head, class);
    let whole = head + tail;
    lemma_run_length_bounds(head, class);
    assert forall|i: int| 0 <= i < n implies class.contains(#[trigger] whole[i]) by {
        assert(whole[i] == head[i]);
    }
    if n == head.len() && tail.len() > 0 {
        assert(class.contains(head.last()));
        assert(whole[n as int] == tail[0]);
    }
    lemma_run_length_is(whole, class, n);
}

/// Where no token can extend from `head` into `tail`, the tokens of the two
/// texts one after the other are the tokens of their concatenation.
pub proof fn lemma_tokens_append(head: Seq<char>, tail: Seq<char>)
    requires
        first_unrecognized(head) is None,
        head.len() > 0 && tail.len() > 0 ==> !joins(head.last(), tail[0]),
    ensures
        tokens(head + tail) == tokens(head) + tokens(tail),
    decreases head.len(),
{
    let whole = head + tail;
    if head.len() > 0 {
        lemma_first_unrecognized(head);
        lemma_first_token_span(head);
        lemma_first_token_recognized(head);
        let (token, n) = first_token(head)->0;
        assert(first_token(whole) == Some((token, n))) by {
            if is_space(head[0]) {
                lemma_run_extends(head, tail, CharClass::Space);
            } else if is_digit(head[0]) {
                lemma_run_extends(head, tail, CharClass::Digit);
                assert(whole.take(n as int) =~= head.take(n as int));
            } else if is_letter(head[0]) {
                lemma_run_extends(head, tail, CharClass::Letter);
                assert(whole.take(n as int) =~= head.take(n as int));
            }
        }
        let rest = head.skip(n as int);
        assert(whole.skip(n as int) =~= rest + tail);
        lemma_first_unrecognized_skip(head, n);
        lemma_tokens_append(rest, tail);
    }
}

/// A text of one kind of character is one token.
pub proof fn lemma_tokens_of_run(text: Seq<char>, class: CharClass)
    requires
        text.len() > 0,
        forall|i: int| 0 <= i < text.len() ==> class.contains(#[trigger] text[i]),
    ensures
        first_unrecognized(text) is None,
        tokens(text) == seq![
            match class {
                CharClass::Space => TokenView::Space,
                CharClass::Digit => TokenView::NumLiteral(text),
                CharClass::Letter => TokenView::Identifier(text),
            },
        ],
{
    assert forall|i: int| 0 <= i < text.len() implies is_recognized(#[trigger] text[i]) by {
        assert(class.contains(text[i]));
    }
    lemma_all_recognized(text);
    lemma_run_length_is(text, class, text.len());
    assert(text.take(text.len() as int) =~= text);
    assert(text.skip(text.len() as int) =~= Seq::<char>::empty());
    assert(tokens(Seq::<char>::empty()) =~= Seq::<TokenView>::empty());
}

/// The characters that a token stands for. A `Space` stands for none: how
/// many spaces it spans is not kept.
pub open spec fn token_text(token: TokenView) -> Seq<char> {
    match token {
        TokenView::Identifier(text) => text,
        TokenView::NumLiteral(text) => text,
        TokenView::Space => seq![],
        TokenView::OpenParen => seq!['('],
        TokenView::CloseParen => seq![')'],
        TokenView::AddOperator => seq!['+'],
    }
}

/// The texts of the tokens of `input`, one after the other.
pub open spec fn spelling(input: Seq<TokenView>) -> Seq<char>
    decreases input.len(),
{
    if input.len() == 0 {
        seq![]
    } else {
        token_text(input[0]) + spelling(input.drop_first())
    }
}

/// The characters of `text` that are no spaces, in order.
pub open spec fn without_spaces(text: Seq<char>) -> Seq<char>
    decreases text.len(),
{
    if text.len() == 0 {
        seq![]
    } else if is_space(text[0]) {
        without_spaces(text.drop_first())
    } else {
        seq![text[0]] + without_spaces(text.drop_first())
    }
}

/// The part of `text` before its first unrecognized character: what the
/// tokenizer can read of it.
pub open spec fn readable_prefix(text: Seq<char>) -> Seq<char> {
    match first_unrecognized(text) {
        Some(i) => text.take(i as int),
        None => text,
    }
}

/// Taking the spaces out of two texts and out of their concatenation comes
/// to the same.
pub proof fn lemma_without_spaces_append(head: Seq<char>, tail: Seq<char>)
    ensures
        without_spaces(head + tail) == without_spaces(head) + without_spaces(tail),
    decreases head.len(),
{
    if head.len() == 0 {
        assert(head + tail =~= tail);
    } else {
        assert((head + tail).drop_first() =~= head.drop_first() + tail);
        lemma_without_spaces_append(head.drop_first(), tail);
    }
}

/// A text of spaces alone has nothing left without them; a text that holds
/// no space is left as it is.
proof fn lemma_without_spaces_of_run(text: Seq<char>)
    ensures
        (forall|i: int| 0 <= i < text.len() ==> is_space(#[trigger] text[i])) ==> without_spaces(
            text,
        ) == Seq::<char>::empty(),
        (forall|i: int| 0 <= i < text.len() ==> !is_space(#[trigger] text[i])) ==> without_spaces(
            text,
        ) == text,
    decreases text.len(),
{
    if text.len() > 0 {
        let rest = text.drop_first();
        lemma_without_spaces_of_run(rest);
        if forall|i: int| 0 <= i < text.len() ==> is_space(#[trigger] text[i]) {
            assert forall|i: int| 0 <= i < rest.len() implies is_space(#[trigger] rest[i]) by {
                assert(rest[i] == text[i + 1]);
            }
        }
        if forall|i: int| 0 <= i < text.len() ==> !is_space(#[trigger] text[i]) {
            assert forall|i: int| 0 <= i < rest.len() implies !is_space(#[trigger] rest[i]) by {
                assert(rest[i] == text[i + 1]);
            }
            assert(seq![text[0]] + rest =~= text);
        }
    }
}

/// A token stands for the characters that it spans, spaces apart.
proof fn lemma_first_token_text(text: Seq<char>)
    ensures
        first_token(text) matches Some((token, n)) ==> token_text(token) == without_spaces(
            text.take(n as int),
        ),
{
    if let Some((token, n)) = first_token(text) {
        let span = text.take(n as int);
        lemma_first_token_span(text);
        lemma_without_spaces_of_run(span);
        if is_space(text[0]) {
            lemma_run_length_bounds(text, CharClass::Space);
        } else if is_digit(text[0]) {
            lemma_run_length_bounds(text, CharClass::Digit);
        } else if is_letter(text[0]) {
            lemma_run_length_bounds(text, CharClass::Letter);
        } else {
            assert(span =~= seq![text[0]]);
        }
    }
}

/// The tokenizer neither drops nor repeats a character: the texts of the
/// tokens of a text, one after the other, are what the tokenizer can read of
/// the text, without its spaces.
pub proof fn lemma_tokens_spell_text(text: Seq<char>)
    ensures
        spelling(tokens(text)) == without_spaces(readable_prefix(text)),
    decreases text.len(),
{
    lemma_first_token_span(text);
    if let Some((token, n)) = first_token(text) {
        let span = text.take(n as int);
        let rest = text.skip(n as int);
        lemma_first_token_recognized(text);
        lemma_first_unrecognized_skip(text, n);
        lemma_first_unrecognized(rest);
        lemma_first_token_text(text);
        lemma_tokens_spell_text(rest);
        assert(tokens(text).drop_first() =~= tokens(rest));
        match first_unrecognized(rest) {
            Some(i) => {
                assert(text.take((i + n) as int) =~= span + rest.take(i as int));
            },
            None => {
                assert(text =~= span + rest);
            },
        }
        lemma_without_spaces_append(span, readable_prefix(rest));
    } else {
        assert(readable_prefix(text) =~= Seq::<char>::empty());
    }
}

/// A run of spaces is one token: no two `Space` tokens follow each other.
pub proof fn lemma_space_runs_collapse(text: Seq<char>, i: int)
    requires
        0 <= i,
        i + 1 < tokens(text).len(),
        tokens(text)[i] is Space,
    ensures
        !(tokens(text)[i + 1] is Space),
    decreases text.len(),
{
    lemma_first_token_span(text);
    let (token, n) = first_token(text)->0;
    let rest = text.skip(n as int);
    assert(tokens(text) =~= seq![token] + tokens(rest));
    if i == 0 {
        lemma_run_length_bounds(text, CharClass::Space);
        assert(rest[0] == text[n as int]);
    } else {
        lemma_space_runs_collapse(rest, i - 1);
    }
}

/// Tokenization is a function of the text alone: texts that agree character
/// by character have the same tokens and the same first unrecognized
/// character.
pub proof fn lemma_tokens_deterministic(first: Seq<char>, second: Seq<char>)
    requires
        first.len() == second.len(),
        forall|i: int| 0 <= i < first.len() ==> first[i] == second[i],
    ensures
        tokens(first) == tokens(second),
        first_unrecognized(first) == first_unrecognized(second),
        parse(first) == parse(second),
{
    assert(first =~= second);
}

/// Two tokenizers that stand at the same place in the same source have the
/// same tokens before them, and are stuck or not alike: what a tokenizer
/// hands out depends on its source and its cursor and on nothing else.
pub proof fn lemma_tokenizers_agree(first: Tokenizer, second: Tokenizer)
    requires
        first.source() == second.source(),
        first.cursor() == second.cursor(),
    ensures
        first_token(first.remaining()) == first_token(second.remaining()),
        tokens(first.remaining()) == tokens(second.remaining()),
        first.is_stuck() == second.is_stuck(),
{
}

/// `n` spaces.
pub open spec fn spaces(n: nat) -> Seq<char> {
    Seq::new(n, |i: int| ' ')
}

/// A text of spaces alone is one `Space` token, and no token where it is empty.
pub proof fn lemma_tokens_of_spaces(n: nat)
    ensures
        first_unrecognized(spaces(n)) is None,
        tokens(spaces(n)) == if n == 0 {
            Seq::<TokenView>::empty()
        } else {
            seq![TokenView::Space]
        },
{
    if n > 0 {
        lemma_tokens_of_run(spaces(n), CharClass::Space);
    }
}

} // verus!
