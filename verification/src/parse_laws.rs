//! What holds of the parser as a whole: how it treats spaces, which trees it
//! can return, what it makes of misplaced tokens, and what it makes of a sum
//! of literals.

use crate::charset::{is_digit, is_letter, is_recognized, CharClass};
use crate::grammar::{fold, parse, step, ExprView, SyntaxErrorView};
use crate::number::{decimal_value, is_literal, lemma_parse_literal, parse_i32};
use crate::token_laws::{
    joins, lemma_all_recognized, lemma_tokens_append, lemma_tokens_of_run, lemma_tokens_of_spaces,
    spaces,
};
use crate::tokenizer::{first_unrecognized, lemma_first_unrecognized, tokens, TokenView};
use vstd::prelude::*;

verus! {

/// The tokens of `input` that are no spaces, in order.
pub open spec fn without_space_tokens(input: Seq<TokenView>) -> Seq<TokenView>
    decreases input.len(),
{
    if input.len() == 0 {
        seq![]
    } else if input[0] is Space {
        without_space_tokens(input.drop_first())
    } else {
        seq![input[0]] + without_space_tokens(input.drop_first())
    }
}

/// Taking the spaces out of two sequences and out of their concatenation
/// comes to the same.
pub proof fn lemma_without_space_tokens_append(head: Seq<TokenView>, tail: Seq<TokenView>)
    ensures
        without_space_tokens(head + tail) == without_space_tokens(head) + without_space_tokens(
            tail,
        ),
    decreases head.len(),
{
    if head.len() == 0 {
        assert(head + tail =~= tail);
    } else {
        assert((head + tail).drop_first() =~= head.drop_first() + tail);
        lemma_without_space_tokens_append(head.drop_first(), tail);
    }
}

/// Of a single token, all is left where it is no space, and nothing where it
/// is one.
proof fn lemma_without_space_tokens_of_one(token: TokenView)
    ensures
        without_space_tokens(Seq::<TokenView>::empty()) == Seq::<TokenView>::empty(),
        without_space_tokens(seq![token]) == if token is Space {
            Seq::<TokenView>::empty()
        } else {
            seq![token]
        },
{
    let empty = Seq::<TokenView>::empty();
    assert(without_space_tokens(empty) =~= empty);
    assert(seq![token].drop_first() =~= empty);
}

/// The text `+` is one operator token.
proof fn lemma_tokens_of_operator()
    ensures
        first_unrecognized(seq!['+']) is None,
        tokens(seq!['+']) == seq![TokenView::AddOperator],
{
    let plus = seq!['+'];
    assert forall|i: int| 0 <= i < plus.len() implies is_recognized(#[trigger] plus[i]) by {}
    lemma_all_recognized(plus);
    assert(plus.skip(1) =~= Seq::<char>::empty());
    assert(tokens(Seq::<char>::empty()) =~= Seq::<TokenView>::empty());
}

/// Folding a sequence of tokens in two parts: the second part goes on from
/// the state that the first part ends in.
pub proof fn lemma_fold_append(current: ExprView, head: Seq<TokenView>, tail: Seq<TokenView>)
    ensures
        fold(current, head + tail) == match fold(current, head) {
            Ok(state) => fold(state, tail),
            Err(error) => Err(error),
        },
    decreases head.len(),
{
    if head.len() == 0 {
        assert(head + tail =~= tail);
    } else {
        assert((head + tail).drop_first() =~= head.drop_first() + tail);
        if let Ok(next) = step(current, head[0]) {
            lemma_fold_append(next, head.drop_first(), tail);
        }
    }
}

/// Spaces are transparent: the parser makes of a token sequence what it makes
/// of the same sequence without its spaces.
pub proof fn lemma_fold_ignores_spaces(current: ExprView, input: Seq<TokenView>)
    ensures
        fold(current, input) == fold(current, without_space_tokens(input)),
    decreases input.len(),
{
    if input.len() > 0 {
        let rest = input.drop_first();
        if input[0] is Space {
            lemma_fold_ignores_spaces(current, rest);
        } else {
            let stripped = without_space_tokens(input);
            assert(stripped.drop_first() =~= without_space_tokens(rest));
            if let Ok(next) = step(current, input[0]) {
                lemma_fold_ignores_spaces(next, rest);
            }
        }
    }
}

/// A token that stands for an operand: a number literal or an identifier.
pub open spec fn is_operand_token(token: TokenView) -> bool {
    token is NumLiteral || token is Identifier
}

/// Whether the parser can read `token` as an operand: any identifier, and a
/// number literal that is a signed 32-bit integer.
pub open spec fn is_readable_operand(token: TokenView) -> bool {
    match token {
        TokenView::Identifier(_) => true,
        TokenView::NumLiteral(text) => parse_i32(text) is Ok,
        _ => false,
    }
}

/// A transition leads from a state of the parser to a state of the parser.
pub proof fn lemma_step_keeps_state(current: ExprView, token: TokenView)
    requires
        current.is_state(),
    ensures
        step(current, token) matches Ok(next) ==> next.is_state(),
{
}

/// What the parser returns for a token sequence tells how the sequence ends:
/// the result is the empty program where no token but spaces came, an
/// addition without a right operand where the last token that is no space is
/// an operator, and a left-leaning sum otherwise.
pub proof fn lemma_fold_result_shape(input: Seq<TokenView>)
    requires
        fold(ExprView::Program, input) is Ok,
    ensures
        ({
            let tree = fold(ExprView::Program, input)->Ok_0;
            let seen = without_space_tokens(input);
            &&& tree.is_state()
            &&& tree is Program <==> seen.len() == 0
            &&& tree.is_waiting() <==> seen.len() > 0 && seen.last() is AddOperator
            &&& tree.is_sum() <==> seen.len() > 0 && is_operand_token(seen.last())
        }),
    decreases input.len(),
{
    let empty = Seq::<TokenView>::empty();
    lemma_without_space_tokens_of_one(input.last());
    if input.len() > 0 {
        let front = input.drop_last();
        let last = input.last();
        assert(input =~= front + seq![last]);
        lemma_fold_append(ExprView::Program, front, seq![last]);
        lemma_without_space_tokens_append(front, seq![last]);
        lemma_fold_result_shape(front);
        let middle = fold(ExprView::Program, front)->Ok_0;
        assert(seq![last].drop_first() =~= empty);
        assert(fold(middle, seq![last]) == match step(middle, last) {
            Ok(next) => fold(next, empty),
            Err(error) => Err(error),
        });
        lemma_step_keeps_state(middle, last);
    }
}

/// A parse that succeeds returns a state of the parser: the empty program, a
/// left-leaning sum, or a left-leaning sum with a trailing operator.
pub proof fn lemma_parse_result_shape(text: Seq<char>)
    requires
        parse(text) is Ok,
    ensures
        ({
            let tree = parse(text)->Ok_0;
            let seen = without_space_tokens(tokens(text));
            &&& first_unrecognized(text) is None
            &&& tree.is_state()
            &&& tree is Program <==> seen.len() == 0
            &&& tree.is_waiting() <==> seen.len() > 0 && seen.last() is AddOperator
            &&& tree.is_sum() <==> seen.len() > 0 && is_operand_token(seen.last())
        }),
{
    lemma_fold_result_shape(tokens(text));
}

/// A single operand, with or without spaces around it, parses to that
/// operand: no addition is made.
pub proof fn lemma_single_operand(input: Seq<TokenView>, operand: TokenView)
    requires
        without_space_tokens(input) == seq![operand],
        is_operand_token(operand),
    ensures
        fold(ExprView::Program, input) == step(ExprView::Program, operand),
        operand matches TokenView::Identifier(name) ==> fold(ExprView::Program, input) == Ok::<
            ExprView,
            SyntaxErrorView,
        >(ExprView::Id { name }),
        operand matches TokenView::NumLiteral(text) ==> is_literal(text) ==> fold(
            ExprView::Program,
            input,
        ) == Ok::<ExprView, SyntaxErrorView>(ExprView::Num { value: decimal_value(text) as i32 }),
{
    lemma_fold_ignores_spaces(ExprView::Program, input);
    assert(seq![operand].drop_first() =~= Seq::<TokenView>::empty());
    if let Ok(next) = step(ExprView::Program, operand) {
        assert(fold(next, Seq::<TokenView>::empty()) == Ok::<ExprView, SyntaxErrorView>(next));
    }
    if let TokenView::NumLiteral(text) = operand {
        if is_literal(text) {
            lemma_parse_literal(text);
        }
    }
}

/// An operator before any operand is an unexpected token.
pub proof fn lemma_leading_operator(input: Seq<TokenView>)
    requires
        without_space_tokens(input).len() > 0,
        without_space_tokens(input)[0] is AddOperator,
    ensures
        fold(ExprView::Program, input) == Err::<ExprView, SyntaxErrorView>(
            SyntaxErrorView::Unexpected(TokenView::AddOperator),
        ),
{
    lemma_fold_ignores_spaces(ExprView::Program, input);
}

/// Two operands with no operator between them: where the parser has accepted
/// everything up to the first of them, the second is an unexpected token,
/// whatever follows it.
pub proof fn lemma_consecutive_operands(
    input: Seq<TokenView>,
    before: Seq<TokenView>,
    first: TokenView,
    second: TokenView,
    after: Seq<TokenView>,
)
    requires
        without_space_tokens(input) == before + seq![first, second] + after,
        fold(ExprView::Program, before + seq![first]) is Ok,
        is_operand_token(first),
        is_readable_operand(second),
    ensures
        fold(ExprView::Program, input) == Err::<ExprView, SyntaxErrorView>(
            SyntaxErrorView::Unexpected(second),
        ),
{
    let empty = Seq::<TokenView>::empty();
    let accepted = before + seq![first];
    lemma_fold_ignores_spaces(ExprView::Program, input);
    assert(before + seq![first, second] + after =~= accepted + (seq![second] + after));
    lemma_fold_append(ExprView::Program, accepted, seq![second] + after);
    lemma_fold_append(ExprView::Program, before, seq![first]);
    let earlier = fold(ExprView::Program, before)->Ok_0;
    assert(seq![first].drop_first() =~= empty);
    assert(fold(earlier, seq![first]) == match step(earlier, first) {
        Ok(next) => fold(next, empty),
        Err(error) => Err(error),
    });
    assert(fold(ExprView::Program, accepted)->Ok_0.is_complete());
}

/// The tokens of a sum of number literals without spaces: the literals in
/// order, with an operator between each two.
pub open spec fn sum_tokens(literals: Seq<Seq<char>>) -> Seq<TokenView>
    decreases literals.len(),
{
    if literals.len() == 0 {
        seq![]
    } else if literals.len() == 1 {
        seq![TokenView::NumLiteral(literals[0])]
    } else {
        sum_tokens(literals.drop_last()) + seq![
            TokenView::AddOperator,
            TokenView::NumLiteral(literals.last()),
        ]
    }
}

/// The numbers that a sequence of literals denotes.
pub open spec fn literal_values(literals: Seq<Seq<char>>) -> Seq<i32> {
    Seq::new(literals.len(), |i: int| decimal_value(literals[i]) as i32)
}

/// The left-leaning tree of a sum: the last number is the right operand of
/// the root, and the sum of all numbers before it is the left one.
pub open spec fn sum_tree(values: Seq<i32>) -> ExprView
    decreases values.len(),
{
    if values.len() == 0 {
        ExprView::Program
    } else if values.len() == 1 {
        ExprView::Num { value: values[0] }
    } else {
        ExprView::Add {
            left: Box::new(sum_tree(values.drop_last())),
            right: Some(Box::new(ExprView::Num { value: values.last() })),
        }
    }
}

/// The value of a tree of numbers, each addition taken left operand first.
/// A name, a missing operand and the empty program count as zero.
pub open spec fn evaluate(tree: ExprView) -> int
    decreases tree,
{
    match tree {
        ExprView::Num { value } => value as int,
        ExprView::Add { left, right } => evaluate(*left) + match right {
            Some(operand) => evaluate(*operand),
            None => 0,
        },
        ExprView::Id { .. } => 0,
        ExprView::Program => 0,
    }
}

/// The sum of `values`, added up in order.
pub open spec fn total(values: Seq<i32>) -> int
    decreases values.len(),
{
    if values.len() == 0 {
        0
    } else {
        total(values.drop_last()) + values.last()
    }
}

/// The tree of a sum evaluates to the sum of its numbers.
pub proof fn lemma_sum_tree_evaluates(values: Seq<i32>)
    ensures
        evaluate(sum_tree(values)) == total(values),
    decreases values.len(),
{
    if values.len() == 1 {
        assert(total(values.drop_last()) == 0);
    } else if values.len() > 1 {
        lemma_sum_tree_evaluates(values.drop_last());
        assert(evaluate(ExprView::Num { value: values.last() }) == values.last());
    }
}

/// The tree of a sum is a left-leaning sum.
pub proof fn lemma_sum_tree_leans_left(values: Seq<i32>)
    requires
        values.len() >= 1,
    ensures
        sum_tree(values).is_sum(),
    decreases values.len(),
{
    if values.len() > 1 {
        lemma_sum_tree_leans_left(values.drop_last());
    }
}

/// A sum without spaces has no space tokens to take out.
pub proof fn lemma_without_space_tokens_of_sum(literals: Seq<Seq<char>>)
    ensures
        without_space_tokens(sum_tokens(literals)) == sum_tokens(literals),
    decreases literals.len(),
{
    let last = seq![TokenView::NumLiteral(literals.last())];
    lemma_without_space_tokens_of_one(TokenView::NumLiteral(literals.last()));
    if literals.len() > 1 {
        let shorter = literals.drop_last();
        let tail = seq![TokenView::AddOperator, TokenView::NumLiteral(literals.last())];
        lemma_without_space_tokens_of_sum(shorter);
        lemma_without_space_tokens_append(sum_tokens(shorter), tail);
        assert(tail.drop_first() =~= last);
    }
}

/// A sum of literals that fit 32 bits parses, whatever spaces stand between
/// its tokens, to the left-leaning tree of their values, and that tree
/// evaluates to their sum.
pub proof fn lemma_sum_of_literals(input: Seq<TokenView>, literals: Seq<Seq<char>>)
    requires
        literals.len() >= 1,
        forall|i: int| 0 <= i < literals.len() ==> is_literal(#[trigger] literals[i]),
        without_space_tokens(input) == sum_tokens(literals),
    ensures
        fold(ExprView::Program, input) == Ok::<ExprView, SyntaxErrorView>(
            sum_tree(literal_values(literals)),
        ),
        sum_tree(literal_values(literals)).is_sum(),
        evaluate(sum_tree(literal_values(literals))) == total(literal_values(literals)),
    decreases literals.len(),
{
    let values = literal_values(literals);
    lemma_sum_tree_leans_left(values);
    lemma_fold_ignores_spaces(ExprView::Program, input);
    lemma_sum_tree_evaluates(values);
    lemma_parse_literal(literals.last());
    if literals.len() > 1 {
        let shorter = literals.drop_last();
        let last = TokenView::NumLiteral(literals.last());
        assert(literal_values(shorter) =~= values.drop_last());
        lemma_without_space_tokens_of_sum(shorter);
        lemma_sum_of_literals(sum_tokens(shorter), shorter);
        lemma_fold_append(
            ExprView::Program,
            sum_tokens(shorter),
            seq![TokenView::AddOperator, last],
        );
        let left = sum_tree(values.drop_last());
        let waiting = ExprView::Add { left: Box::new(left), right: None };
        let tail = seq![TokenView::AddOperator, last];
        assert(tail.drop_first() =~= seq![last]);
        assert(seq![last].drop_first() =~= Seq::<TokenView>::empty());
        assert(fold(sum_tree(values), Seq::<TokenView>::empty()) == Ok::<
            ExprView,
            SyntaxErrorView,
        >(sum_tree(values)));
        assert(fold(waiting, seq![last]) == Ok::<ExprView, SyntaxErrorView>(sum_tree(values)));
    } else {
        let only = sum_tokens(literals);
        assert(fold(sum_tree(values), only.drop_first()) == Ok::<ExprView, SyntaxErrorView>(
            sum_tree(values),
        ));
    }
}

/// An operator with `before` spaces in front of it and `after` spaces behind it.
pub open spec fn operator_gap(before: nat, after: nat) -> Seq<char> {
    spaces(before) + seq!['+'] + spaces(after)
}

/// The text of a sum: the literals in order, with an operator between each
/// two; `gaps[i]` gives the numbers of spaces before and after the operator
/// that follows `literals[i]`.
pub open spec fn sum_text(literals: Seq<Seq<char>>, gaps: Seq<(nat, nat)>) -> Seq<char>
    decreases literals.len(),
{
    if literals.len() == 0 {
        seq![]
    } else if literals.len() == 1 {
        literals[0]
    } else {
        sum_text(literals.drop_last(), gaps.drop_last()) + operator_gap(
            gaps.last().0,
            gaps.last().1,
        ) + literals.last()
    }
}

/// However many spaces stand around an operator, its only token that is no
/// space is the operator.
proof fn lemma_tokens_of_gap(before: nat, after: nat)
    ensures
        first_unrecognized(operator_gap(before, after)) is None,
        without_space_tokens(tokens(operator_gap(before, after))) == seq![TokenView::AddOperator],
{
    let plus = seq!['+'];
    let gap = operator_gap(before, after);
    assert forall|i: int| 0 <= i < gap.len() implies is_recognized(#[trigger] gap[i]) by {}
    lemma_all_recognized(gap);
    lemma_tokens_of_spaces(before);
    lemma_tokens_of_spaces(after);
    lemma_tokens_of_operator();
    lemma_all_recognized(spaces(before) + plus);
    lemma_tokens_append(spaces(before), plus);
    lemma_tokens_append(spaces(before) + plus, spaces(after));
    lemma_without_space_tokens_append(tokens(spaces(before)), tokens(plus));
    lemma_without_space_tokens_append(tokens(spaces(before) + plus), tokens(spaces(after)));
    lemma_without_space_tokens_of_one(TokenView::AddOperator);
    lemma_without_space_tokens_of_one(TokenView::Space);
}

/// The tokens of the text of a sum, spaces apart, are the literals with an
/// operator between each two, and every character of the text is recognized.
pub proof fn lemma_tokens_of_sum_text(literals: Seq<Seq<char>>, gaps: Seq<(nat, nat)>)
    requires
        literals.len() >= 1,
        gaps.len() == literals.len() - 1,
        forall|i: int| 0 <= i < literals.len() ==> is_literal(#[trigger] literals[i]),
    ensures
        first_unrecognized(sum_text(literals, gaps)) is None,
        without_space_tokens(tokens(sum_text(literals, gaps))) == sum_tokens(literals),
        is_digit(sum_text(literals, gaps).last()),
        sum_text(literals, gaps).len() > 0,
    decreases literals.len(),
{
    let last = literals.last();
    lemma_tokens_of_run(last, CharClass::Digit);
    lemma_without_space_tokens_of_one(TokenView::NumLiteral(last));
    if literals.len() > 1 {
        let front = sum_text(literals.drop_last(), gaps.drop_last());
        let gap = operator_gap(gaps.last().0, gaps.last().1);
        lemma_tokens_of_sum_text(literals.drop_last(), gaps.drop_last());
        lemma_tokens_of_gap(gaps.last().0, gaps.last().1);
        lemma_first_unrecognized(front);
        lemma_first_unrecognized(gap);
        lemma_all_recognized(front + gap);
        lemma_tokens_append(front, gap);
        lemma_tokens_append(front + gap, last);
        lemma_first_unrecognized(last);
        lemma_all_recognized(front + gap + last);
        lemma_without_space_tokens_append(tokens(front), tokens(gap));
        lemma_without_space_tokens_append(tokens(front + gap), tokens(last));
    }
}

/// A sum of literals that fit 32 bits, written with an operator between each
/// two and any number of spaces around the operators, parses to the
/// left-leaning tree of their values, which evaluates to their sum.
pub proof fn lemma_sum_text_parses(literals: Seq<Seq<char>>, gaps: Seq<(nat, nat)>)
    requires
        literals.len() >= 1,
        gaps.len() == literals.len() - 1,
        forall|i: int| 0 <= i < literals.len() ==> is_literal(#[trigger] literals[i]),
    ensures
        parse(sum_text(literals, gaps)) == Ok::<ExprView, SyntaxErrorView>(
            sum_tree(literal_values(literals)),
        ),
        sum_tree(literal_values(literals)).is_sum(),
        evaluate(sum_tree(literal_values(literals))) == total(literal_values(literals)),
{
    lemma_tokens_of_sum_text(literals, gaps);
    lemma_sum_of_literals(tokens(sum_text(literals, gaps)), literals);
}

/// A name: a non-empty string of ASCII letters.
pub open spec fn is_name(text: Seq<char>) -> bool {
    &&& text.len() > 0
    &&& forall|i: int| 0 <= i < text.len() ==> is_letter(#[trigger] text[i])
}

/// The text of an operand that the parser can read: a literal that fits 32
/// bits, or a name.
pub open spec fn is_operand_text(text: Seq<char>) -> bool {
    is_literal(text) || is_name(text)
}

/// The token that the text of an operand makes.
pub open spec fn operand_token(text: Seq<char>) -> TokenView {
    if is_literal(text) {
        TokenView::NumLiteral(text)
    } else {
        TokenView::Identifier(text)
    }
}

/// The tree that the text of an operand denotes.
pub open spec fn operand_tree(text: Seq<char>) -> ExprView {
    if is_literal(text) {
        ExprView::Num { value: decimal_value(text) as i32 }
    } else {
        ExprView::Id { name: text }
    }
}

/// The text of an operand is one token, which the parser can read.
proof fn lemma_tokens_of_operand(text: Seq<char>)
    requires
        is_operand_text(text),
    ensures
        first_unrecognized(text) is None,
        tokens(text) == seq![operand_token(text)],
        is_operand_token(operand_token(text)),
        is_readable_operand(operand_token(text)),
        is_digit(text[0]) || is_letter(text[0]),
        is_digit(text.last()) || is_letter(text.last()),
        step(ExprView::Program, operand_token(text)) == Ok::<ExprView, SyntaxErrorView>(
            operand_tree(text),
        ),
{
    if is_literal(text) {
        lemma_tokens_of_run(text, CharClass::Digit);
        lemma_parse_literal(text);
    } else {
        lemma_tokens_of_run(text, CharClass::Letter);
    }
}

/// A text that holds a single operand, with any number of spaces before and
/// after it, parses to that operand: no addition is made.
pub proof fn lemma_operand_text_parses(operand: Seq<char>, before: nat, after: nat)
    requires
        is_operand_text(operand),
    ensures
        parse(spaces(before) + operand + spaces(after)) == Ok::<ExprView, SyntaxErrorView>(
            operand_tree(operand),
        ),
        operand_tree(operand).is_operand(),
{
    let front = spaces(before) + operand;
    let text = front + spaces(after);
    lemma_tokens_of_operand(operand);
    lemma_tokens_of_spaces(before);
    lemma_tokens_of_spaces(after);
    lemma_first_unrecognized(operand);
    assert forall|i: int| 0 <= i < text.len() implies is_recognized(#[trigger] text[i]) by {
        if before <= i < before + operand.len() {
            assert(text[i] == operand[i - before]);
        }
    }
    lemma_all_recognized(text);
    lemma_all_recognized(front);
    lemma_tokens_append(spaces(before), operand);
    lemma_tokens_append(front, spaces(after));
    lemma_without_space_tokens_append(tokens(spaces(before)), tokens(operand));
    lemma_without_space_tokens_append(tokens(front), tokens(spaces(after)));
    lemma_without_space_tokens_of_one(TokenView::Space);
    lemma_without_space_tokens_of_one(operand_token(operand));
    lemma_single_operand(tokens(text), operand_token(operand));
}

/// A text that begins with an operator, with or without spaces before it, has
/// the operator as an unexpected token, whatever follows.
pub proof fn lemma_leading_operator_text(before: nat, rest: Seq<char>)
    ensures
        parse(spaces(before) + seq!['+'] + rest) == Err::<ExprView, SyntaxErrorView>(
            SyntaxErrorView::Unexpected(TokenView::AddOperator),
        ),
{
    let front = spaces(before) + seq!['+'];
    lemma_tokens_of_spaces(before);
    lemma_tokens_of_operator();
    lemma_tokens_append(spaces(before), seq!['+']);
    lemma_all_recognized(front);
    lemma_tokens_append(front, rest);
    lemma_without_space_tokens_append(tokens(spaces(before)), tokens(seq!['+']));
    lemma_without_space_tokens_append(tokens(front), tokens(rest));
    lemma_without_space_tokens_of_one(TokenView::Space);
    lemma_without_space_tokens_of_one(TokenView::AddOperator);
    lemma_leading_operator(tokens(front + rest));
}

/// A text that begins with two operands with spaces and no operator between
/// them has the second operand as an unexpected token, whatever follows it.
pub proof fn lemma_consecutive_operand_texts(
    first: Seq<char>,
    gap: nat,
    second: Seq<char>,
    rest: Seq<char>,
)
    requires
        is_operand_text(first),
        is_operand_text(second),
        gap >= 1,
        rest.len() > 0 ==> !joins(second.last(), rest[0]),
    ensures
        parse(first + spaces(gap) + second + rest) == Err::<ExprView, SyntaxErrorView>(
            SyntaxErrorView::Unexpected(operand_token(second)),
        ),
{
    let one = first + spaces(gap);
    let two = one + second;
    let text = two + rest;
    let a = operand_token(first);
    let b = operand_token(second);
    lemma_tokens_of_operand(first);
    lemma_tokens_of_operand(second);
    lemma_tokens_of_spaces(gap);
    lemma_first_unrecognized(first);
    lemma_first_unrecognized(second);
    assert forall|i: int| 0 <= i < two.len() implies is_recognized(#[trigger] two[i]) by {
        if i < first.len() {
            assert(two[i] == first[i]);
        } else if i >= first.len() + gap {
            assert(two[i] == second[i - first.len() - gap]);
        }
    }
    lemma_all_recognized(one);
    lemma_all_recognized(two);
    lemma_tokens_append(first, spaces(gap));
    lemma_tokens_append(one, second);
    lemma_tokens_append(two, rest);
    lemma_without_space_tokens_append(tokens(first), tokens(spaces(gap)));
    lemma_without_space_tokens_append(tokens(one), tokens(second));
    lemma_without_space_tokens_append(tokens(two), tokens(rest));
    lemma_without_space_tokens_of_one(TokenView::Space);
    lemma_without_space_tokens_of_one(a);
    lemma_without_space_tokens_of_one(b);
    let empty = Seq::<TokenView>::empty();
    let after = without_space_tokens(tokens(rest));
    assert(without_space_tokens(tokens(text)) =~= empty + seq![a, b] + after);
    assert(seq![a].drop_first() =~= empty);
    assert(fold(operand_tree(first), empty) is Ok);
    lemma_consecutive_operands(tokens(text), empty, a, b, after);
}

} // verus!
