//! The alphabet of the language: which characters the tokenizer recognizes,
//! and how it groups them into runs.

use vstd::prelude::*;

verus! {

/// An ASCII decimal digit, `'0'` to `'9'`.
pub open spec fn is_digit(c: char) -> bool {
    '0' <= c <= '9'
}

/// An ASCII letter, `'a'` to `'z'` or `'A'` to `'Z'`.
pub open spec fn is_letter(c: char) -> bool {
    ('a' <= c <= 'z') || ('A' <= c <= 'Z')
}

/// The space character. Tabs and line breaks are no whitespace in this language.
pub open spec fn is_space(c: char) -> bool {
    c == ' '
}

/// One of the three punctuation characters that are a token by themselves.
pub open spec fn is_punctuation(c: char) -> bool {
    c == '(' || c == ')' || c == '+'
}

/// A character that can stand in some token.
pub open spec fn is_recognized(c: char) -> bool {
    is_punctuation(c) || is_space(c) || is_digit(c) || is_letter(c)
}

/// The number that a decimal digit stands for.
pub open spec fn digit_value(c: char) -> nat
    recommends
        is_digit(c),
{
    (c as u32 - '0' as u32) as nat
}

/// The number that the decimal digit `c` stands for.
pub fn digit_of(c: char) -> (d: u32)
    requires
        is_digit(c),
    ensures
        d == digit_value(c),
        d <= 9,
{
    c as u32 - '0' as u32
}

/// The classes of characters of which a token can hold a whole run.
#[derive(Debug, Clone, Copy, PartialEq, Eq, Structural)]
pub enum CharClass {
    /// The space character.
    Space,
    /// The ASCII decimal digits.
    Digit,
    /// The ASCII letters.
    Letter,
}

impl CharClass {
    /// Whether `c` belongs to the class.
    pub open spec fn contains(self, c: char) -> bool {
        match self {
            CharClass::Space => is_space(c),
            CharClass::Digit => is_digit(c),
            CharClass::Letter => is_letter(c),
        }
    }

    /// Tests whether `c` belongs to the class.
    pub fn holds(self, c: char) -> (b: bool)
        ensures
            b == self.contains(c),
    {
        match self {
            CharClass::Space => c == ' ',
            CharClass::Digit => '0' <= c && c <= '9',
            CharClass::Letter => ('a' <= c && c <= 'z') || ('A' <= c && c <= 'Z'),
        }
    }
}

/// The length of the longest prefix of `text` whose characters all belong to `class`.
pub open spec fn run_length(text: Seq<char>, class: CharClass) -> nat
    decreases text.len(),
{
    if text.len() > 0 && class.contains(text[0]) {
        1 + run_length(text.drop_first(), class)
    } else {
        0
    }
}

/// A run ends at the first character outside the class, or at the end of the text.
pub proof fn lemma_run_length_is(text: Seq<char>, class: CharClass, n: nat)
    requires
        n <= text.len(),
        forall|i: int| 0 <= i < n ==> class.contains(#[trigger] text[i]),
        n < text.len() ==> !class.contains(text[n as int]),
    ensures
        run_length(text, class) == n,
    decreases n,
{
    if n > 0 {
        let rest = text.drop_first();
        lemma_run_length_is(rest, class, (n - 1) as nat);
    }
}

/// Every character of a run belongs to the class, and the character after it does not.
pub proof fn lemma_run_length_bounds(text: Seq<char>, class: CharClass)
    ensures
        run_length(text, class) <= text.len(),
        forall|i: int| 0 <= i < run_length(text, class) ==> class.contains(#[trigger] text[i]),
        run_length(text, class) < text.len() ==> !class.contains(
            text[run_length(text, class) as int],
        ),
    decreases text.len(),
{
    if text.len() > 0 && class.contains(text[0]) {
        let rest = text.drop_first();
        lemma_run_length_bounds(rest, class);
        assert forall|i: int| 0 <= i < run_length(text, class) implies class.contains(
            #[trigger] text[i],
        ) by {
            if i > 0 {
                assert(text[i] == rest[i - 1]);
            }
        }
    }
}

} // verus!
