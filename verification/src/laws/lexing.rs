//! What holds of the lexemes of tokens.
use proc_macro2::Span;
use vstd::prelude::*;

use crate::lexeme::lex_from;
use crate::lexeme::lexemes_of;
use crate::lexeme::string_value;
use crate::lexeme::token_kind;
use crate::lexeme::token_start;
use crate::lexeme::KindView;
use crate::lexeme::LexemeView;
use crate::token::Delimiter;
use crate::token::TokenView;

verus! {

/// Whether a token is a group in invisible delimiters.
pub open spec fn is_invisible(token: TokenView) -> bool {
    token is Group && token->delimiter == Delimiter::Invisible
}

/// Whether `kind` is what the grammar sees in a token that is no invisible
/// group.
pub open spec fn is_seen_as(token: TokenView, kind: KindView) -> bool {
    match token {
        TokenView::Ident(ident) => kind == KindView::Ident(ident),
        TokenView::Keyword(ident) => kind == KindView::Keyword(ident.text),
        TokenView::Punct { ch, span, .. } => kind == KindView::Punct { ch, span },
        TokenView::Str(value, _) => kind == KindView::Str(value),
        TokenView::Literal(text, _) => match string_value(text) {
            Some(value) => kind == KindView::Str(value),
            None => kind is Other,
        },
        TokenView::Group { delimiter, tokens, close, .. } => {
            &&& kind is Group
            &&& kind->delimiter == delimiter
            &&& kind->lexemes == lexemes_of(tokens)
            &&& kind->close == close
        },
    }
}

/// Whether a token begins at `span`.
pub open spec fn begins_at(token: TokenView, span: Span) -> bool {
    match token {
        TokenView::Ident(ident) => span == ident.span,
        TokenView::Keyword(ident) => span == ident.span,
        TokenView::Punct { span: place, .. } => span == place,
        TokenView::Str(_, place) => span == place,
        TokenView::Literal(_, place) => span == place,
        TokenView::Group { open, .. } => span == open,
    }
}

/// Tokens none of which is an invisible group have a lexeme each, in order: a
/// word that is an identifier, another word, a character, a string by the text
/// that it stands for, or a group with its own lexemes, each where the token
/// begins.
pub proof fn law_visible_tokens_are_seen_one_by_one(tokens: Seq<TokenView>, i: int)
    requires
        forall|k: int| 0 <= k < tokens.len() ==> !is_invisible(#[trigger] tokens[k]),
        0 <= i < tokens.len(),
    ensures
        lexemes_of(tokens).len() == tokens.len(),
        is_seen_as(tokens[i], lexemes_of(tokens)[i].kind),
        begins_at(tokens[i], lexemes_of(tokens)[i].at),
{
    lemma_visible(tokens, i);
}

proof fn lemma_visible(tokens: Seq<TokenView>, i: int)
    requires
        forall|k: int| 0 <= k < tokens.len() ==> !is_invisible(#[trigger] tokens[k]),
    ensures
        lex_from(tokens, None).0.len() == tokens.len(),
        lex_from(tokens, None).1 is None,
        0 <= i < tokens.len() ==> is_seen_as(tokens[i], lex_from(tokens, None).0[i].kind)
            && begins_at(tokens[i], lex_from(tokens, None).0[i].at),
    decreases tokens.len(),
{
    if tokens.len() > 0 {
        let rest = tokens.drop_first();
        assert(!is_invisible(tokens[0]));
        assert forall|k: int| 0 <= k < rest.len() implies !is_invisible(#[trigger] rest[k]) by {
            assert(rest[k] == tokens[k + 1]);
        }
        lemma_visible(rest, i - 1);
        assert(is_seen_as(tokens[0], token_kind(tokens[0])));
        assert(begins_at(tokens[0], token_start(tokens[0])));
        if 0 < i < tokens.len() {
            assert(rest[i - 1] == tokens[i]);
        }
    }
}

/// Lexemes are read from front to back: those of the front of a stretch of
/// tokens, then those of its back, which begins where the front left an
/// invisible group open.
pub proof fn law_lexemes_are_read_in_order(
    front: Seq<TokenView>,
    back: Seq<TokenView>,
    pending: Option<Span>,
)
    ensures
        ({
            let (a, left) = lex_from(front, pending);
            let (b, end) = lex_from(back, left);
            lex_from(front + back, pending) == (a + b, end)
        }),
    decreases front,
{
    let (a, left) = lex_from(front, pending);
    let (b, end) = lex_from(back, left);
    let whole = lex_from(front + back, pending);
    if front.len() == 0 {
        assert(front + back =~= back);
        assert(a + b =~= b);
    } else {
        let at = match pending {
            Some(span) => span,
            None => token_start(front[0]),
        };
        let rest = front.drop_first();
        assert((front + back).drop_first() =~= rest + back);
        assert((front + back)[0] == front[0]);
        if is_invisible(front[0]) {
            let (here, opened) = lex_from(front[0]->Group_tokens, Some(at));
            law_lexemes_are_read_in_order(rest, back, opened);
        } else {
            law_lexemes_are_read_in_order(rest, back, None);
        }
        assert(whole.0 =~= a + b);
    }
}

/// A group in invisible delimiters is read as the tokens in it, but the first
/// of them is said to stand where the outermost of such groups is opened.
pub proof fn law_invisible_groups_are_opened(
    inner: Seq<TokenView>,
    span: Span,
    open: Span,
    close: Span,
    pending: Option<Span>,
)
    ensures
        ({
            let group = TokenView::Group {
                delimiter: Delimiter::Invisible,
                tokens: inner,
                span,
                open,
                close,
            };
            lex_from(seq![group], pending) == lex_from(
                inner,
                Some(
                    if pending is Some {
                        pending->0
                    } else {
                        open
                    },
                ),
            )
        }),
{
    let group = TokenView::Group {
        delimiter: Delimiter::Invisible,
        tokens: inner,
        span,
        open,
        close,
    };
    let at = if pending is Some {
        pending->0
    } else {
        open
    };
    let (here, left) = lex_from(inner, Some(at));
    assert(seq![group].drop_first() =~= Seq::empty());
    assert(lex_from(seq![group].drop_first(), left) == (Seq::<LexemeView>::empty(), left));
    assert(here + Seq::<LexemeView>::empty() =~= here);
}

/// A token that is no invisible group is one lexeme, at the place where such a
/// group was opened in front of it, or else where the token begins. No tokens
/// are no lexemes.
pub proof fn law_a_visible_token_is_one_lexeme(token: TokenView, pending: Option<Span>)
    requires
        !is_invisible(token),
    ensures
        ({
            let (lexemes, left) = lex_from(seq![token], pending);
            &&& lexemes.len() == 1
            &&& is_seen_as(token, lexemes[0].kind)
            &&& pending is Some ==> lexemes[0].at == pending->0
            &&& pending is None ==> begins_at(token, lexemes[0].at)
            &&& left is None
        }),
        lex_from(Seq::empty(), pending) == (Seq::<LexemeView>::empty(), pending),
{
    assert(seq![token].drop_first() =~= Seq::empty());
    assert(is_seen_as(token, token_kind(token)));
    assert(begins_at(token, token_start(token)));
    assert(lex_from(seq![token].drop_first(), None) == (Seq::<LexemeView>::empty(), None::<Span>));
}

/// Where invisible groups are opened behind the last visible token, there is
/// one lexeme more, which stands for nothing, where the first of them is
/// opened. Else there are those of the tokens alone.
pub proof fn law_an_open_end_is_a_lexeme(tokens: Seq<TokenView>)
    ensures
        ({
            let (lexemes, left) = lex_from(tokens, None);
            let n = lexemes.len() as int;
            &&& left is None ==> lexemes_of(tokens) == lexemes
            &&& left is Some ==> {
                &&& lexemes_of(tokens).len() == n + 1
                &&& lexemes_of(tokens).take(n) == lexemes
                &&& lexemes_of(tokens)[n].kind is Other
                &&& lexemes_of(tokens)[n].at == left->0
            }
        }),
{
    let (lexemes, left) = lex_from(tokens, None);
    if left is Some {
        assert(lexemes_of(tokens).take(lexemes.len() as int) =~= lexemes);
    }
}

} // verus!
