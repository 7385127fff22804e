//! What holds of the tokens that an expansion is made of.
use proc_macro2::Span;
use vstd::prelude::*;

use crate::diagnostic::error_at;
use crate::diagnostic::error_over;
use crate::diagnostic::Extent;
use crate::diagnostic::MessageView;
use crate::expand::as_pieces;
use crate::item::PieceView;
use crate::token::comma_separated;
use crate::token::group;
use crate::token::joint;
use crate::token::punct;
use crate::token::word;
use crate::token::Delimiter;
use crate::token::IdentView;
use crate::token::TokenView;

verus! {

/// The word `text`.
pub open spec fn a_word(text: Seq<char>, span: Span) -> TokenView {
    TokenView::Ident(IdentView { text, span })
}

/// The character `ch`, alone.
pub open spec fn a_punct(ch: char, span: Span) -> TokenView {
    TokenView::Punct { ch, joint: false, span }
}

/// The character `ch`, with another behind it that belongs to it.
pub open spec fn a_joint(ch: char, span: Span) -> TokenView {
    TokenView::Punct { ch, joint: true, span }
}

/// `(tokens)`.
pub open spec fn in_parens(tokens: Seq<TokenView>, span: Span) -> TokenView {
    TokenView::Group {
        delimiter: Delimiter::Parenthesis,
        tokens,
        span,
        open: span,
        close: span,
    }
}

/// `[tokens]`.
pub open spec fn in_brackets(tokens: Seq<TokenView>, span: Span) -> TokenView {
    TokenView::Group { delimiter: Delimiter::Bracket, tokens, span, open: span, close: span }
}

/// `{tokens}`.
pub open spec fn in_braces(tokens: Seq<TokenView>, span: Span) -> TokenView {
    TokenView::Group { delimiter: Delimiter::Brace, tokens, span, open: span, close: span }
}

/// The one message `text`, which points from `first` to `last`.
pub open spec fn one_message(text: Seq<char>, first: Span, last: Span) -> Seq<MessageView> {
    seq![MessageView::Text { text, extent: Extent { first, last } }]
}

/// Words, punctuation and groups are what they are called, all at one place.
pub proof fn law_tokens_are_what_they_are_called(
    text: Seq<char>,
    ch: char,
    tokens: Seq<TokenView>,
    span: Span,
)
    ensures
        word(text, span) == a_word(text, span),
        punct(ch, span) == a_punct(ch, span),
        joint(ch, span) == a_joint(ch, span),
        group(Delimiter::Parenthesis, tokens, span) == in_parens(tokens, span),
        group(Delimiter::Bracket, tokens, span) == in_brackets(tokens, span),
        group(Delimiter::Brace, tokens, span) == in_braces(tokens, span),
{
}

/// Separated tokens are the tokens in order, with a comma behind each but the
/// last.
pub proof fn law_commas_stand_between_tokens(tokens: Seq<TokenView>, span: Span, i: int)
    requires
        0 <= i < tokens.len(),
    ensures
        comma_separated(tokens, span).len() == 2 * tokens.len() - 1,
        comma_separated(tokens, span)[2 * i] == tokens[i],
        i + 1 < tokens.len() ==> comma_separated(tokens, span)[2 * i + 1] == a_punct(',', span),
    decreases tokens.len(),
{
    if tokens.len() > 1 {
        let rest = tokens.drop_last();
        law_commas_stand_between_tokens(rest, span, 0);
        if i < rest.len() {
            law_commas_stand_between_tokens(rest, span, i);
            assert(rest[i] == tokens[i]);
        }
    }
}

/// Nothing to separate leaves nothing.
pub proof fn law_no_commas_without_tokens(span: Span)
    ensures
        comma_separated(Seq::empty(), span) == Seq::<TokenView>::empty(),
{
}

/// Tokens are pieces one by one.
pub proof fn law_tokens_are_pieces(tokens: Seq<TokenView>, i: int)
    requires
        0 <= i < tokens.len(),
    ensures
        as_pieces(tokens).len() == tokens.len(),
        as_pieces(tokens)[i] == PieceView::Token(tokens[i]),
{
}

/// An error has one message, which says what it was given and points where it
/// was told to.
pub proof fn law_errors_say_what_they_are_given(text: Seq<char>, extent: Extent, span: Span)
    ensures
        error_over(extent, text) == one_message(text, extent.first, extent.last),
        error_at(span, text) == one_message(text, span, span),
{
}

} // verus!
