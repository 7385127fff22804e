//! Tokens: what an attribute's arguments are read into, and what an expansion
//! is made of.
use proc_macro2::Delimiter as Outside;
use proc_macro2::Spacing;
use proc_macro2::Span;
use proc_macro2::TokenStream;
use proc_macro2::TokenTree;
use vstd::prelude::*;

verus! {

/// `proc_macro2::Span`, a place in the source. It is carried through as it is.
#[verifier::external_type_specification]
#[verifier::external_body]
pub struct ExSpan(proc_macro2::Span);

/// `proc_macro2::TokenStream`, the tokens that the compiler hands over. What it
/// holds is named by `trees_of`.
#[verifier::external_type_specification]
#[verifier::external_body]
pub struct ExTokenStream(proc_macro2::TokenStream);

/// `proc_macro2::TokenTree`, one of the trees that a token stream holds.
#[verifier::external_type_specification]
#[verifier::external_body]
pub struct ExTokenTree(proc_macro2::TokenTree);

/// `proc_macro2::Group`, a tree that holds a token stream in delimiters.
#[verifier::external_type_specification]
#[verifier::external_body]
pub struct ExGroup(proc_macro2::Group);

/// What stands round a group of tokens.
#[derive(Clone, Copy, PartialEq, Eq, Structural, Debug)]
pub enum Delimiter {
    Parenthesis,
    Brace,
    Bracket,
    /// Nothing: macro expansion leaves such groups round what it substitutes.
    Invisible,
}

/// An identifier or a keyword.
pub struct Ident {
    /// As it is written, with the `r#` of a raw identifier.
    pub text: String,
    pub span: Span,
}

pub struct IdentView {
    pub text: Seq<char>,
    pub span: Span,
}

impl View for Ident {
    type V = IdentView;

    open spec fn view(&self) -> IdentView {
        IdentView { text: self.text@, span: self.span }
    }
}

pub open spec fn idents_view(idents: Seq<Ident>) -> Seq<IdentView> {
    idents.map_values(|ident: Ident| ident@)
}

/// A token, or a group of tokens in delimiters.
pub enum Token {
    Ident(Ident),
    /// A word that was read and that `syn` does not take for an identifier.
    Keyword(Ident),
    /// A punctuation character; `joint` if the next token is another one that
    /// belongs to it, as in `::`.
    Punct { ch: char, joint: bool, span: Span },
    /// A string literal, by the text that it stands for.
    Str(String, Span),
    /// A literal, as it is written.
    Literal(String, Span),
    Group {
        delimiter: Delimiter,
        tokens: Vec<Token>,
        /// From the opening to the closing delimiter.
        span: Span,
        open: Span,
        close: Span,
    },
}

pub enum TokenView {
    Ident(IdentView),
    Keyword(IdentView),
    Punct { ch: char, joint: bool, span: Span },
    Str(Seq<char>, Span),
    Literal(Seq<char>, Span),
    Group {
        delimiter: Delimiter,
        tokens: Seq<TokenView>,
        span: Span,
        open: Span,
        close: Span,
    },
}

pub open spec fn token_view(token: Token) -> TokenView
    decreases token,
{
    match token {
        Token::Ident(ident) => TokenView::Ident(ident@),
        Token::Keyword(ident) => TokenView::Keyword(ident@),
        Token::Punct { ch, joint, span } => TokenView::Punct { ch, joint, span },
        Token::Str(value, span) => TokenView::Str(value@, span),
        Token::Literal(text, span) => TokenView::Literal(text@, span),
        Token::Group { delimiter, tokens, span, open, close } => TokenView::Group {
            delimiter,
            tokens: tokens_view(tokens@),
            span,
            open,
            close,
        },
    }
}

pub open spec fn tokens_view(tokens: Seq<Token>) -> Seq<TokenView>
    decreases tokens,
{
    Seq::new(tokens.len(), |i: int|
        if 0 <= i < tokens.len() { token_view(tokens[i]) } else { arbitrary() })
}

/// The trees that a token stream holds, in order, its words told apart into
/// identifiers and others.
pub uninterp spec fn trees_of(stream: TokenStream) -> Seq<TokenView>;

/// The iteration over a `proc_macro2::TokenStream`: the trees that the stream
/// holds, in order, each as a token.
#[verifier::external_body]
pub(crate) fn read_trees(stream: TokenStream) -> (tokens: Vec<Token>)
    ensures
        tokens_view(tokens@) == trees_of(stream),
{
    stream.into_iter().map(read_tree).collect()
}

/// The accessors of a `proc_macro2::TokenTree`: a token of the same text,
/// spacing and place. Whether a word is an identifier, and neither `_` nor a
/// keyword, is what `syn::parse2` at `syn::Ident` says of it. What is claimed
/// of the token is claimed where the stream is read.
#[verifier::external_body]
fn read_tree(tree: TokenTree) -> (token: Token) {
    match (syn::parse2::<syn::Ident>(tree.clone().into()), tree) {
        (Ok(_), TokenTree::Ident(i)) => Token::Ident(Ident { text: i.to_string(), span: i.span() }),
        (Err(_), TokenTree::Ident(i)) => {
            Token::Keyword(Ident { text: i.to_string(), span: i.span() })
        },
        (_, TokenTree::Punct(p)) => {
            Token::Punct { ch: p.as_char(), joint: p.spacing() == Spacing::Joint, span: p.span() }
        },
        (_, TokenTree::Literal(l)) => Token::Literal(l.to_string(), l.span()),
        (_, TokenTree::Group(g)) => read_group(g),
    }
}

/// The accessors of a `proc_macro2::Group`: a token of the same delimiter and
/// place, the stream in it read in the same way. What is claimed of the token
/// is claimed where the stream is read.
#[verifier::external_body]
fn read_group(group: proc_macro2::Group) -> (token: Token) {
    Token::Group {
        delimiter: match group.delimiter() {
            Outside::Parenthesis => Delimiter::Parenthesis,
            Outside::Brace => Delimiter::Brace,
            Outside::Bracket => Delimiter::Bracket,
            Outside::None => Delimiter::Invisible,
        },
        tokens: read_trees(group.stream()),
        span: group.span(),
        open: group.span_open(),
        close: group.span_close(),
    }
}

/// A word of an expansion.
pub open spec fn word(text: Seq<char>, span: Span) -> TokenView {
    TokenView::Ident(IdentView { text, span })
}

/// A single punctuation character.
pub open spec fn punct(ch: char, span: Span) -> TokenView {
    TokenView::Punct { ch, joint: false, span }
}

/// A punctuation character that the next one belongs to.
pub open spec fn joint(ch: char, span: Span) -> TokenView {
    TokenView::Punct { ch, joint: true, span }
}

/// Tokens in delimiters.
pub open spec fn group(delimiter: Delimiter, tokens: Seq<TokenView>, span: Span) -> TokenView {
    TokenView::Group { delimiter, tokens, span, open: span, close: span }
}

/// The tokens with a comma between each two of them.
pub open spec fn comma_separated(tokens: Seq<TokenView>, span: Span) -> Seq<TokenView>
    decreases tokens.len(),
{
    if tokens.len() <= 1 {
        tokens
    } else {
        comma_separated(tokens.drop_last(), span).push(punct(',', span)).push(tokens.last())
    }
}

/// Adds a token.
fn push(out: &mut Vec<Token>, token: Token)
    ensures
        tokens_view(final(out)@) == tokens_view(old(out)@).push(token_view(token)),
{
    out.push(token);
    proof {
        assert(tokens_view(out@) =~= tokens_view(old(out)@).push(token_view(token)));
    }
}

/// Adds a word.
pub(crate) fn push_word(out: &mut Vec<Token>, text: &str, span: Span)
    ensures
        tokens_view(final(out)@) == tokens_view(old(out)@).push(word(text@, span)),
{
    push(out, Token::Ident(Ident { text: text.to_owned(), span }));
}

/// Adds an identifier.
pub(crate) fn push_ident(out: &mut Vec<Token>, ident: &Ident)
    ensures
        tokens_view(final(out)@) == tokens_view(old(out)@).push(TokenView::Ident(ident@)),
{
    push(out, Token::Ident(Ident { text: ident.text.clone(), span: ident.span }));
}

/// Adds a single punctuation character.
pub(crate) fn push_punct(out: &mut Vec<Token>, ch: char, span: Span)
    ensures
        tokens_view(final(out)@) == tokens_view(old(out)@).push(punct(ch, span)),
{
    push(out, Token::Punct { ch, joint: false, span });
}

/// Adds a punctuation character that the next one belongs to.
pub(crate) fn push_joint(out: &mut Vec<Token>, ch: char, span: Span)
    ensures
        tokens_view(final(out)@) == tokens_view(old(out)@).push(joint(ch, span)),
{
    push(out, Token::Punct { ch, joint: true, span });
}

/// Adds a string literal.
pub(crate) fn push_str(out: &mut Vec<Token>, value: &str, span: Span)
    ensures
        tokens_view(final(out)@) == tokens_view(old(out)@).push(TokenView::Str(value@, span)),
{
    push(out, Token::Str(value.to_owned(), span));
}

/// Adds tokens in delimiters.
pub(crate) fn push_group(out: &mut Vec<Token>, delimiter: Delimiter, tokens: Vec<Token>, span: Span)
    ensures
        tokens_view(final(out)@) == tokens_view(old(out)@).push(
            group(delimiter, tokens_view(tokens@), span),
        ),
{
    push(out, Token::Group { delimiter, tokens, span, open: span, close: span });
}

/// Adds the tokens.
pub(crate) fn append(out: &mut Vec<Token>, tokens: Vec<Token>)
    ensures
        tokens_view(final(out)@) == tokens_view(old(out)@) + tokens_view(tokens@),
{
    let ghost tail = tokens@;
    let mut tokens = tokens;
    out.append(&mut tokens);
    proof {
        assert(tokens_view(out@) =~= tokens_view(old(out)@) + tokens_view(tail));
    }
}

/// Puts a comma between each two of the tokens.
pub(crate) fn separate(tokens: Vec<Token>, span: Span) -> (out: Vec<Token>)
    ensures
        tokens_view(out@) == comma_separated(tokens_view(tokens@), span),
    decreases tokens@.len(),
{
    let mut tokens = tokens;
    if tokens.len() <= 1 {
        return tokens;
    }
    let ghost all = tokens_view(tokens@);
    match tokens.pop() {
        Some(last) => {
            proof {
                assert(tokens_view(tokens@) =~= all.drop_last());
                assert(token_view(last) == all.last());
            }
            let mut out = separate(tokens, span);
            push_punct(&mut out, ',', span);
            push(&mut out, last);
            out
        },
        None => tokens,
    }
}

} // verus!
