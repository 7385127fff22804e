//! Lexemes: tokens as an attribute's grammar sees them.
//!
//! Invisible groups, which macro expansion leaves around what it substitutes,
//! are opened, and string literals are told from other literals.
use proc_macro2::Span;
use proc_macro2::TokenStream;
use vstd::prelude::*;

use crate::token::read_trees;
use crate::token::token_view;
use crate::token::tokens_view;
use crate::token::trees_of;
use crate::token::Delimiter;
use crate::token::Ident;
use crate::token::IdentView;
use crate::token::Token;
use crate::token::TokenView;

verus! {

/// The text that a string literal stands for, if `syn` takes it for one.
pub uninterp spec fn string_value(literal: Seq<char>) -> Option<Seq<char>>;

/// `syn::parse_str` at `syn::LitStr`, then `syn::LitStr::value`: the text
/// that a string literal stands for, its escapes undone, or nothing for
/// another literal. The text depends on the literal alone.
#[verifier::external_body]
fn read_string(literal: &str) -> (r: Option<String>)
    ensures
        string_value(literal@) == (match r {
            Some(value) => Some(value@),
            None => None,
        }),
{
    syn::parse_str::<syn::LitStr>(literal).ok().map(|l| l.value())
}

/// What the grammar sees in a token.
pub enum Kind {
    Ident(Ident),
    /// A word that is no identifier.
    Keyword(String),
    Punct { ch: char, span: Span },
    /// A string literal, by the text that it stands for.
    Str(String),
    Group { delimiter: Delimiter, lexemes: Vec<Lexeme>, close: Span },
    /// A literal that is no string, or the end of an invisible group behind
    /// the last token.
    Other,
}

/// A lexeme, with the place that an error about it points at.
pub struct Lexeme {
    pub kind: Kind,
    pub at: Span,
}

pub enum KindView {
    Ident(IdentView),
    Keyword(Seq<char>),
    Punct { ch: char, span: Span },
    Str(Seq<char>),
    Group { delimiter: Delimiter, lexemes: Seq<LexemeView>, close: Span },
    Other,
}

pub struct LexemeView {
    pub kind: KindView,
    pub at: Span,
}

pub open spec fn kind_view(kind: Kind) -> KindView
    decreases kind,
{
    match kind {
        Kind::Ident(ident) => KindView::Ident(ident@),
        Kind::Keyword(word) => KindView::Keyword(word@),
        Kind::Punct { ch, span } => KindView::Punct { ch, span },
        Kind::Str(value) => KindView::Str(value@),
        Kind::Group { delimiter, lexemes, close } => KindView::Group {
            delimiter,
            lexemes: lexemes_view(lexemes@),
            close,
        },
        Kind::Other => KindView::Other,
    }
}

pub open spec fn lexeme_view(lexeme: Lexeme) -> LexemeView
    decreases lexeme,
{
    LexemeView { kind: kind_view(lexeme.kind), at: lexeme.at }
}

pub open spec fn lexemes_view(lexemes: Seq<Lexeme>) -> Seq<LexemeView>
    decreases lexemes,
{
    Seq::new(
        lexemes.len(),
        |i: int|
            if 0 <= i < lexemes.len() {
                lexeme_view(lexemes[i])
            } else {
                arbitrary()
            },
    )
}

/// Where a token begins.
pub open spec fn token_start(token: TokenView) -> Span {
    match token {
        TokenView::Ident(ident) => ident.span,
        TokenView::Keyword(ident) => ident.span,
        TokenView::Punct { span, .. } => span,
        TokenView::Str(_, span) => span,
        TokenView::Literal(_, span) => span,
        TokenView::Group { open, .. } => open,
    }
}

/// What the grammar sees in a token that is no invisible group.
pub open spec fn token_kind(token: TokenView) -> KindView
    decreases token, 1nat,
{
    match token {
        TokenView::Ident(ident) => KindView::Ident(ident),
        TokenView::Keyword(ident) => KindView::Keyword(ident.text),
        TokenView::Punct { ch, span, .. } => KindView::Punct { ch, span },
        TokenView::Str(value, _) => KindView::Str(value),
        TokenView::Literal(text, _) => match string_value(text) {
            Some(value) => KindView::Str(value),
            None => KindView::Other,
        },
        TokenView::Group { delimiter, tokens, close, .. } => KindView::Group {
            delimiter,
            lexemes: lexemes_of(tokens),
            close,
        },
    }
}

/// The lexemes of `tokens` behind `pending`, where the first of the invisible
/// groups opened since the last visible token begins, and the same place at
/// the end of `tokens`.
pub open spec fn lex_from(tokens: Seq<TokenView>, pending: Option<Span>) -> (
    Seq<LexemeView>,
    Option<Span>,
)
    decreases tokens, 0nat,
{
    if tokens.len() == 0 {
        (Seq::empty(), pending)
    } else {
        let at = match pending {
            Some(span) => span,
            None => token_start(tokens[0]),
        };
        match tokens[0] {
            TokenView::Group { delimiter: Delimiter::Invisible, tokens: inner, .. } => {
                let (here, left) = lex_from(inner, Some(at));
                let (behind, end) = lex_from(tokens.drop_first(), left);
                (here + behind, end)
            },
            _ => {
                let (behind, end) = lex_from(tokens.drop_first(), None);
                (seq![LexemeView { kind: token_kind(tokens[0]), at }] + behind, end)
            },
        }
    }
}

/// The lexemes of a whole stretch of tokens.
pub open spec fn lexemes_of(tokens: Seq<TokenView>) -> Seq<LexemeView>
    decreases tokens, 1nat,
{
    let (lexemes, pending) = lex_from(tokens, None);
    match pending {
        Some(at) => lexemes.push(LexemeView { kind: KindView::Other, at }),
        None => lexemes,
    }
}

/// Where a token begins.
fn start_of(token: &Token) -> (span: Span)
    ensures
        span == token_start(token_view(*token)),
{
    match token {
        Token::Ident(ident) => ident.span,
        Token::Keyword(ident) => ident.span,
        Token::Punct { span, .. } => *span,
        Token::Str(_, span) => *span,
        Token::Literal(_, span) => *span,
        Token::Group { open, .. } => *open,
    }
}

/// What the grammar sees in a token that is no invisible group.
fn kind_of(token: &Token) -> (kind: Kind)
    ensures
        kind_view(kind) == token_kind(token_view(*token)),
    decreases *token, 1nat,
{
    match token {
        Token::Ident(ident) => Kind::Ident(
            Ident { text: ident.text.clone(), span: ident.span },
        ),
        Token::Keyword(ident) => Kind::Keyword(ident.text.clone()),
        Token::Punct { ch, span, .. } => Kind::Punct { ch: *ch, span: *span },
        Token::Str(value, _) => Kind::Str(value.clone()),
        Token::Literal(text, _) => match read_string(text.as_str()) {
            Some(value) => Kind::Str(value),
            None => Kind::Other,
        },
        Token::Group { delimiter, tokens, close, .. } => Kind::Group {
            delimiter: *delimiter,
            lexemes: lex(tokens),
            close: *close,
        },
    }
}

/// Reads `tokens` behind the lexemes in `out`.
fn lex_into(tokens: &Vec<Token>, pending: Option<Span>, out: &mut Vec<Lexeme>) -> (left: Option<
    Span,
>)
    ensures
        lexemes_view(final(out)@) == lexemes_view(old(out)@) + lex_from(
            tokens_view(tokens@),
            pending,
        ).0,
        left == lex_from(tokens_view(tokens@), pending).1,
    decreases tokens@, 0nat,
{
    let ghost all = tokens_view(tokens@);
    let ghost before = lexemes_view(out@);
    let mut left = pending;
    let mut i: usize = 0;
    proof {
        assert(all.skip(0) == all);
    }
    while i < tokens.len()
        invariant
            i <= tokens@.len(),
            all == tokens_view(tokens@),
            lexemes_view(out@) + lex_from(all.skip(i as int), left).0 == before + lex_from(
                all,
                pending,
            ).0,
            lex_from(all.skip(i as int), left).1 == lex_from(all, pending).1,
        decreases tokens@.len() - i,
    {
        let ghost rest = all.skip(i as int);
        let ghost held = lexemes_view(out@);
        let ghost left_before = left;
        proof {
            assert(rest[0] == token_view(tokens@[i as int]));
            assert(rest.drop_first() == all.skip(i + 1));
        }
        let at = match left {
            Some(span) => span,
            None => start_of(&tokens[i]),
        };
        match &tokens[i] {
            Token::Group { delimiter: Delimiter::Invisible, tokens: inner, .. } => {
                left = lex_into(inner, Some(at), out);
                proof {
                    let here = lex_from(tokens_view(inner@), Some(at)).0;
                    let behind = lex_from(rest.drop_first(), left).0;
                    assert(held + (here + behind) =~= (held + here) + behind);
                }
            },
            token => {
                let kind = kind_of(token);
                let lexeme = Lexeme { kind, at };
                out.push(lexeme);
                left = None;
                proof {
                    let here = seq![lexeme_view(lexeme)];
                    let behind = lex_from(rest.drop_first(), None).0;
                    assert(lexemes_view(out@) =~= held + here);
                    assert(held + (here + behind) =~= (held + here) + behind);
                }
            },
        }
        i += 1;
    }
    proof {
        assert(all.skip(i as int) =~= Seq::<TokenView>::empty());
        assert(lexemes_view(out@) + Seq::<LexemeView>::empty() =~= lexemes_view(out@));
    }
    left
}

/// The lexemes of a whole stretch of tokens.
pub fn lex(tokens: &Vec<Token>) -> (lexemes: Vec<Lexeme>)
    ensures
        lexemes_view(lexemes@) == lexemes_of(tokens_view(tokens@)),
    decreases tokens@, 1nat,
{
    let mut lexemes: Vec<Lexeme> = Vec::new();
    let left = lex_into(tokens, None, &mut lexemes);
    let ghost visible = lex_from(tokens_view(tokens@), None).0;
    proof {
        assert(lexemes_view(lexemes@) =~= visible);
    }
    if let Some(at) = left {
        lexemes.push(Lexeme { kind: Kind::Other, at });
        proof {
            assert(lexemes_view(lexemes@) =~= visible.push(
                LexemeView { kind: KindView::Other, at },
            ));
        }
    }
    lexemes
}

/// The lexemes of a token stream.
pub fn lex_stream(stream: TokenStream) -> (lexemes: Vec<Lexeme>)
    ensures
        lexemes_view(lexemes@) == lexemes_of(trees_of(stream)),
{
    lex(&read_trees(stream))
}

} // verus!
