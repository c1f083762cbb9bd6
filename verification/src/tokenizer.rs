//! The tokenizer: a forward-only cursor over a piece of source text that hands
//! out one lexical token per call.

use crate::charset::{
    is_digit, is_letter, is_recognized, is_space, lemma_run_length_bounds, lemma_run_length_is,
    run_length, CharClass,
};
use crate::text::{ascii_prefix, char_at, slice};
use vstd::pervasive::unreached;
use vstd::prelude::*;

verus! {

/// A lexical token. Identifiers and number literals borrow their text from the
/// source; a `Space` stands for a whole run of spaces.
#[derive(Debug, Clone, Copy, PartialEq, Eq)]
pub enum Token<'t> {
    /// A run of ASCII letters.
    Identifier(&'t str),
    /// A run of ASCII decimal digits, not yet read as a number.
    NumLiteral(&'t str),
    /// A run of one or more spaces.
    Space,
    /// `(`
    OpenParen,
    /// `)`
    CloseParen,
    /// `+`
    AddOperator,
}

/// The mathematical value of a [`Token`]: the same variants, over sequences of
/// characters.
pub enum TokenView {
    Identifier(Seq<char>),
    NumLiteral(Seq<char>),
    Space,
    OpenParen,
    CloseParen,
    AddOperator,
}

impl<'t> View for Token<'t> {
    type V = TokenView;

    open spec fn view(&self) -> TokenView {
        match *self {
            Token::Identifier(text) => TokenView::Identifier(text@),
            Token::NumLiteral(text) => TokenView::NumLiteral(text@),
            Token::Space => TokenView::Space,
            Token::OpenParen => TokenView::OpenParen,
            Token::CloseParen => TokenView::CloseParen,
            Token::AddOperator => TokenView::AddOperator,
        }
    }
}

/// A character that begins no token, and where it stands in the source,
/// counted in characters from the start.
#[derive(Debug, Clone, Copy, PartialEq, Eq, Structural)]
pub struct LexError {
    pub ch: char,
    pub position: usize,
}

/// The token with which `text` begins, and the number of characters it spans.
///
/// A token is as long as it can be: a run of spaces, digits or letters extends
/// up to the first character of another kind. There is no token where the text
/// is empty or begins with an unrecognized character.
pub open spec fn first_token(text: Seq<char>) -> Option<(TokenView, nat)> {
    if text.len() == 0 {
        None
    } else if text[0] == '(' {
        Some((TokenView::OpenParen, 1))
    } else if text[0] == ')' {
        Some((TokenView::CloseParen, 1))
    } else if text[0] == '+' {
        Some((TokenView::AddOperator, 1))
    } else if is_space(text[0]) {
        Some((TokenView::Space, run_length(text, CharClass::Space)))
    } else if is_digit(text[0]) {
        let n = run_length(text, CharClass::Digit);
        Some((TokenView::NumLiteral(text.take(n as int)), n))
    } else if is_letter(text[0]) {
        let n = run_length(text, CharClass::Letter);
        Some((TokenView::Identifier(text.take(n as int)), n))
    } else {
        None
    }
}

/// A token spans at least one character and no more than the text holds.
pub proof fn lemma_first_token_span(text: Seq<char>)
    ensures
        first_token(text) matches Some((_, n)) ==> 0 < n <= text.len(),
        first_token(text) is None <==> text.len() == 0 || !is_recognized(text[0]),
{
    lemma_run_length_bounds(text, CharClass::Space);
    lemma_run_length_bounds(text, CharClass::Digit);
    lemma_run_length_bounds(text, CharClass::Letter);
}

/// The tokens of `text`, in order, up to its end or to the first character
/// that begins no token.
pub open spec fn tokens(text: Seq<char>) -> Seq<TokenView>
    decreases text.len(),
{
    match first_token(text) {
        Some((token, n)) => {
            proof {
                lemma_first_token_span(text);
            }
            seq![token] + tokens(text.skip(n as int))
        },
        None => seq![],
    }
}

/// The position of the first character of `text` that begins no token, if
/// there is one.
pub open spec fn first_unrecognized(text: Seq<char>) -> Option<nat>
    decreases text.len(),
{
    if text.len() == 0 {
        None
    } else if !is_recognized(text[0]) {
        Some(0)
    } else {
        match first_unrecognized(text.drop_first()) {
            Some(i) => Some(i + 1),
            None => None,
        }
    }
}

/// What `first_unrecognized` finds is an unrecognized character with only
/// recognized ones before it; it finds nothing only where there is none.
pub proof fn lemma_first_unrecognized(text: Seq<char>)
    ensures
        match first_unrecognized(text) {
            Some(i) => i < text.len() && !is_recognized(text[i as int]) && forall|j: int|
                0 <= j < i ==> is_recognized(#[trigger] text[j]),
            None => forall|j: int| 0 <= j < text.len() ==> is_recognized(#[trigger] text[j]),
        },
    decreases text.len(),
{
    if text.len() > 0 && is_recognized(text[0]) {
        let rest = text.drop_first();
        lemma_first_unrecognized(rest);
        match first_unrecognized(rest) {
            Some(i) => {
                assert forall|j: int| 0 <= j < i + 1 implies is_recognized(#[trigger] text[j]) by {
                    if j > 0 {
                        assert(text[j] == rest[j - 1]);
                    }
                }
            },
            None => {
                assert forall|j: int| 0 <= j < text.len() implies is_recognized(
                    #[trigger] text[j],
                ) by {
                    if j > 0 {
                        assert(text[j] == rest[j - 1]);
                    }
                }
            },
        }
    }
}

/// Skipping recognized characters moves the first unrecognized one by as much.
pub proof fn lemma_first_unrecognized_skip(text: Seq<char>, n: nat)
    requires
        n <= text.len(),
        forall|j: int| 0 <= j < n ==> is_recognized(#[trigger] text[j]),
    ensures
        first_unrecognized(text) == match first_unrecognized(text.skip(n as int)) {
            Some(i) => Some(i + n),
            None => None,
        },
    decreases n,
{
    if n == 0 {
        assert(text.skip(0) =~= text);
    } else {
        let rest = text.drop_first();
        assert(rest.skip(n - 1) =~= text.skip(n as int));
        lemma_first_unrecognized_skip(rest, (n - 1) as nat);
    }
}

/// Every character of a token is a recognized one.
pub proof fn lemma_first_token_recognized(text: Seq<char>)
    ensures
        first_token(text) matches Some((_, n)) ==> forall|j: int|
            0 <= j < n ==> is_recognized(#[trigger] text[j]),
{
    lemma_run_length_bounds(text, CharClass::Space);
    lemma_run_length_bounds(text, CharClass::Digit);
    lemma_run_length_bounds(text, CharClass::Letter);
}

/// A cursor over source text that yields its tokens one by one. It only moves
/// forward: tokens that were handed out cannot be asked for again.
#[derive(Debug)]
pub struct Tokenizer<'t> {
    input: &'t str,
    position: usize,
}

impl<'t> Tokenizer<'t> {
    /// The cursor has passed over ASCII characters only, so that it counts
    /// bytes and characters alike.
    #[verifier::type_invariant]
    closed spec fn inv(&self) -> bool {
        ascii_prefix(self.input@, self.position as int)
    }

    /// The whole text that the tokenizer was made for.
    pub closed spec fn source(&self) -> Seq<char> {
        self.input@
    }

    /// The number of characters that have been consumed.
    pub closed spec fn cursor(&self) -> nat {
        self.position as nat
    }

    /// The text that has not been consumed yet.
    pub open spec fn remaining(&self) -> Seq<char> {
        self.source().skip(self.cursor() as int)
    }

    /// Whether the cursor stands before a character that begins no token.
    pub open spec fn is_stuck(&self) -> bool {
        self.remaining().len() > 0 && !is_recognized(self.remaining()[0])
    }

    /// A tokenizer at the start of `input`.
    pub fn new(input: &'t str) -> (tokenizer: Self)
        ensures
            tokenizer.source() == input@,
            tokenizer.cursor() == 0,
            tokenizer.remaining() == input@,
    {
        assert(input@.skip(0) =~= input@);
        Tokenizer { input, position: 0 }
    }

    /// Consumes the run of characters of `class` at the cursor.
    fn skip_run(&mut self, class: CharClass)
        ensures
            final(self).source() == old(self).source(),
            final(self).cursor() == old(self).cursor() + run_length(old(self).remaining(), class),
            final(self).cursor() <= final(self).source().len(),
    {
        proof {
            use_type_invariant(&*self);
        }
        let ghost start = self.position;
        let ghost text = self.remaining();
        let mut end = self.position;
        loop
            invariant
                start <= end,
                ascii_prefix(self.input@, end as int),
                text == self.input@.skip(start as int),
                forall|i: int| 0 <= i < end - start ==> class.contains(#[trigger] text[i]),
            ensures
                end < self.input@.len() ==> !class.contains(self.input@[end as int]),
            decreases self.input@.len() - end,
        {
            match char_at(self.input, end) {
                Some(ch) => {
                    if !class.holds(ch) {
                        break ;
                    }
                    end = end + 1;
                },
                None => {
                    break ;
                },
            }
        }
        proof {
            lemma_run_length_is(text, class, (end - start) as nat);
        }
        self.position = end;
    }

    /// The next token, or the character at which the tokenizer cannot go on.
    ///
    /// Returns `Ok(None)` once the whole source is consumed. On an error the
    /// cursor stays where it is.
    pub fn try_next(&mut self) -> (result: Result<Option<Token<'t>>, LexError>)
        ensures
            final(self).source() == old(self).source(),
            final(self).cursor() <= final(self).source().len(),
            old(self).cursor() <= old(self).source().len(),
            match result {
                Ok(Some(token)) => {
                    &&& final(self).cursor() > old(self).cursor()
                    &&& first_token(old(self).remaining()) == Some(
                        (token@, (final(self).cursor() - old(self).cursor()) as nat),
                    )
                    &&& tokens(old(self).remaining()) == seq![token@] + tokens(
                        final(self).remaining(),
                    )
                },
                Ok(None) => {
                    &&& final(self).cursor() == old(self).cursor()
                    &&& old(self).remaining().len() == 0
                },
                Err(error) => {
                    &&& final(self).cursor() == old(self).cursor()
                    &&& old(self).is_stuck()
                    &&& error.ch == old(self).remaining()[0]
                    &&& error.position == old(self).cursor()
                },
            },
    {
        proof {
            use_type_invariant(&*self);
            lemma_first_token_span(self.remaining());
            if let Some((_, n)) = first_token(self.remaining()) {
                assert(self.remaining().skip(n as int) =~= self.source().skip(
                    (self.cursor() + n) as int,
                ));
            }
        }
        let start = self.position;
        let ch = match char_at(self.input, start) {
            Some(ch) => ch,
            None => {
                return Ok(None);
            },
        };
        if ch == '(' {
            self.position = start + 1;
            Ok(Some(Token::OpenParen))
        } else if ch == ')' {
            self.position = start + 1;
            Ok(Some(Token::CloseParen))
        } else if ch == '+' {
            self.position = start + 1;
            Ok(Some(Token::AddOperator))
        } else if ch == ' ' {
            self.skip_run(CharClass::Space);
            Ok(Some(Token::Space))
        } else if CharClass::Digit.holds(ch) {
            self.skip_run(CharClass::Digit);
            proof {
                use_type_invariant(&*self);
            }
            let text = slice(self.input, start, self.position);
            assert(text@ =~= old(self).remaining().take(self.position - start));
            Ok(Some(Token::NumLiteral(text)))
        } else if CharClass::Letter.holds(ch) {
            self.skip_run(CharClass::Letter);
            proof {
                use_type_invariant(&*self);
            }
            let text = slice(self.input, start, self.position);
            assert(text@ =~= old(self).remaining().take(self.position - start));
            Ok(Some(Token::Identifier(text)))
        } else {
            Err(LexError { ch, position: start })
        }
    }

    /// The next token, or `None` once the whole source is consumed.
    ///
    /// The cursor must not stand before a character that begins no token. A
    /// caller that cannot know this calls [`Tokenizer::try_next`].
    pub fn next(&mut self) -> (token: Option<Token<'t>>)
        requires
            !old(self).is_stuck(),
        ensures
            final(self).source() == old(self).source(),
            final(self).cursor() <= final(self).source().len(),
            match token {
                Some(token) => {
                    &&& final(self).cursor() > old(self).cursor()
                    &&& first_token(old(self).remaining()) == Some(
                        (token@, (final(self).cursor() - old(self).cursor()) as nat),
                    )
                    &&& tokens(old(self).remaining()) == seq![token@] + tokens(
                        final(self).remaining(),
                    )
                },
                None => {
                    &&& final(self).cursor() == old(self).cursor()
                    &&& old(self).remaining().len() == 0
                },
            },
    {
        match self.try_next() {
            Ok(token) => token,
            Err(_) => unreached(),
        }
    }
}

} // verus!
