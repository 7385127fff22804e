//! Functions, and `#[safety::checks]`.
use proc_macro2::Span;
use proc_macro2::TokenStream;
use vstd::prelude::*;

use crate::code::codes_view;
use crate::code::Code;
use crate::code::CodeView;
use crate::diagnostic::error_at;
use crate::diagnostic::Diagnostic;
use crate::diagnostic::Extent;
use crate::diagnostic::MessageView;
use crate::laws::walking::codes_are_free;
use crate::laws::walking::law_every_attribute_is_consumed;
use crate::syntax::item_of;
use crate::syntax::parse_item;
use crate::syntax::source_of;
use crate::syntax::Source;
use crate::token::token_view;
use crate::token::trees_of;
use crate::token::Ident;
use crate::token::IdentView;
use crate::token::Token;
use crate::token::TokenView;
use crate::walk::visited_codes;
use crate::walk::CheckedExpander;

verus! {

/// `proc_macro2::TokenStream::is_empty`: whether a stream holds no token.
pub assume_specification[ proc_macro2::TokenStream::is_empty ](
    stream: &proc_macro2::TokenStream,
) -> (r: bool)
    ensures
        r == (trees_of(*stream).len() == 0),
;

/// A generic parameter of a function.
pub enum GenericParam {
    Lifetime,
    Type(Ident),
    Const(Ident),
}

pub enum GenericParamView {
    Lifetime,
    Type(IdentView),
    Const(IdentView),
}

impl View for GenericParam {
    type V = GenericParamView;

    open spec fn view(&self) -> GenericParamView {
        match self {
            GenericParam::Lifetime => GenericParamView::Lifetime,
            GenericParam::Type(ident) => GenericParamView::Type(ident@),
            GenericParam::Const(ident) => GenericParamView::Const(ident@),
        }
    }
}

pub open spec fn generics_view(generics: Seq<GenericParam>) -> Seq<GenericParamView> {
    generics.map_values(|param: GenericParam| param@)
}

/// A parameter of a function.
pub enum FnArg {
    /// Some form of `self`.
    Receiver(Extent),
    /// A parameter that binds an identifier.
    Plain(Ident),
    /// A parameter whose pattern is anything else.
    Pattern(Extent),
}

pub enum FnArgView {
    Receiver(Extent),
    Plain(IdentView),
    Pattern(Extent),
}

impl View for FnArg {
    type V = FnArgView;

    open spec fn view(&self) -> FnArgView {
        match self {
            FnArg::Receiver(extent) => FnArgView::Receiver(*extent),
            FnArg::Plain(ident) => FnArgView::Plain(ident@),
            FnArg::Pattern(extent) => FnArgView::Pattern(*extent),
        }
    }
}

pub open spec fn inputs_view(inputs: Seq<FnArg>) -> Seq<FnArgView> {
    inputs.map_values(|arg: FnArg| arg@)
}

/// A function, as far as an expansion looks into it.
pub struct Function {
    /// Whether it is an `unsafe fn`.
    pub unsafety: bool,
    /// The word `fn`.
    pub fn_token: Span,
    pub ident: Ident,
    pub generics: Vec<GenericParam>,
    pub inputs: Vec<FnArg>,
    /// The code in its statements.
    pub block: Vec<Code>,
}

pub struct FunctionView {
    pub unsafety: bool,
    pub fn_token: Span,
    pub ident: IdentView,
    pub generics: Seq<GenericParamView>,
    pub inputs: Seq<FnArgView>,
    pub block: Seq<CodeView>,
}

impl View for Function {
    type V = FunctionView;

    open spec fn view(&self) -> FunctionView {
        FunctionView {
            unsafety: self.unsafety,
            fn_token: self.fn_token,
            ident: self.ident@,
            generics: generics_view(self.generics@),
            inputs: inputs_view(self.inputs@),
            block: codes_view(self.block@),
        }
    }
}

/// A piece of an expansion: a token, or something of the function that the
/// attribute stands on.
pub enum Piece {
    Token(Token),
    /// The function's attributes in front of it.
    OuterAttributes,
    /// The function's attributes at the start of its body.
    InnerAttributes,
    Visibility,
    /// The function's signature, with this name in place of its own.
    Signature(Ident),
    /// The function's statements, with this code in place of the code in them.
    Statements(Vec<Code>),
    /// Pieces in the braces of the function's own body.
    Body(Vec<Piece>),
    /// Pieces in braces at that place.
    Braces(Vec<Piece>, Span),
}

pub enum PieceView {
    Token(TokenView),
    OuterAttributes,
    InnerAttributes,
    Visibility,
    Signature(IdentView),
    Statements(Seq<CodeView>),
    Body(Seq<PieceView>),
    Braces(Seq<PieceView>, Span),
}

pub open spec fn piece_view(piece: Piece) -> PieceView
    decreases piece,
{
    match piece {
        Piece::Token(token) => PieceView::Token(token_view(token)),
        Piece::OuterAttributes => PieceView::OuterAttributes,
        Piece::InnerAttributes => PieceView::InnerAttributes,
        Piece::Visibility => PieceView::Visibility,
        Piece::Signature(ident) => PieceView::Signature(ident@),
        Piece::Statements(codes) => PieceView::Statements(codes_view(codes@)),
        Piece::Body(pieces) => PieceView::Body(pieces_view(pieces@)),
        Piece::Braces(pieces, span) => PieceView::Braces(pieces_view(pieces@), span),
    }
}

pub open spec fn pieces_view(pieces: Seq<Piece>) -> Seq<PieceView>
    decreases pieces,
{
    Seq::new(
        pieces.len(),
        |i: int|
            if 0 <= i < pieces.len() {
                piece_view(pieces[i])
            } else {
                arbitrary()
            },
    )
}

/// Adds a piece.
pub(crate) fn push_piece(out: &mut Vec<Piece>, piece: Piece)
    ensures
        pieces_view(final(out)@) == pieces_view(old(out)@).push(piece_view(piece)),
{
    out.push(piece);
    proof {
        assert(pieces_view(out@) =~= pieces_view(old(out)@).push(piece_view(piece)));
    }
}

/// Expands every `#[safety::checked(..)]` in a function's body. Each is
/// consumed, or reported in the error.
pub fn expand_body_checks(func: &mut Function, call_site: Span) -> (r: Result<(), Diagnostic>)
    ensures
        ({
            let walked = visited_codes(old(func)@.block, call_site);
            &&& final(func)@ == (FunctionView { block: walked.code, ..old(func)@ })
            &&& match r {
                Ok(()) => walked.errors.len() == 0 && codes_are_free(final(func)@.block),
                Err(error) => walked.errors.len() > 0 && error@ == walked.errors,
            }
        }),
{
    let mut expander = CheckedExpander { error: None, call_site };
    expander.visit_codes_mut(&mut func.block);
    proof {
        let walked = visited_codes(old(func)@.block, call_site);
        assert(expander.messages() =~= walked.errors);
        if walked.errors.len() == 0 {
            law_every_attribute_is_consumed(old(func)@.block, call_site);
        }
    }
    match expander.error {
        Some(e) => Err(e),
        None => Ok(()),
    }
}

/// A function with the same attributes and signature round other code.
pub open spec fn function_pieces(func: FunctionView) -> Seq<PieceView> {
    seq![
        PieceView::OuterAttributes,
        PieceView::Visibility,
        PieceView::Signature(func.ident),
        PieceView::Body(
            seq![PieceView::InnerAttributes, PieceView::Statements(func.block)],
        ),
    ]
}

/// What `#[safety::checks]` makes of the function under it.
pub open spec fn checks_expansion(
    attr: Seq<TokenView>,
    item: Result<FunctionView, syn::Error>,
    call_site: Span,
) -> Result<Seq<PieceView>, Seq<MessageView>> {
    if attr.len() > 0 {
        Err(error_at(call_site, "#[safety::checks] takes no arguments"@))
    } else {
        match item {
            Err(error) => Err(seq![MessageView::Syntax(error)]),
            Ok(func) => {
                let walked = visited_codes(func.block, call_site);
                if walked.errors.len() > 0 {
                    Err(walked.errors)
                } else {
                    Ok(function_pieces(FunctionView { block: walked.code, ..func }))
                }
            },
        }
    }
}

/// Expands every `#[safety::checked]` in the body of a function under
/// `#[safety::checks]`, where `item` is what the Rust grammar made of the
/// tokens under the attribute.
pub fn checks_parsed(
    attr: TokenStream,
    item: Result<Function, syn::Error>,
    call_site: Span,
) -> (r: Result<Vec<Piece>, Diagnostic>)
    ensures
        ({
            let view = match item {
                Ok(func) => Ok(func@),
                Err(error) => Err(error),
            };
            match (r, checks_expansion(trees_of(attr), view, call_site)) {
                (Ok(pieces), Ok(view)) => pieces_view(pieces@) == view,
                (Err(error), Err(view)) => error@ == view,
                _ => false,
            }
        }),
{
    if !attr.is_empty() {
        return Err(
            Diagnostic::new(call_site, "#[safety::checks] takes no arguments".to_owned()),
        );
    }
    let mut func = match item {
        Ok(func) => func,
        Err(error) => return Err(Diagnostic::syntax(error)),
    };
    if let Err(error) = expand_body_checks(&mut func, call_site) {
        return Err(error);
    }
    let ghost view = func@;
    let mut body: Vec<Piece> = Vec::new();
    push_piece(&mut body, Piece::InnerAttributes);
    push_piece(&mut body, Piece::Statements(func.block));
    let mut pieces: Vec<Piece> = Vec::new();
    push_piece(&mut pieces, Piece::OuterAttributes);
    push_piece(&mut pieces, Piece::Visibility);
    push_piece(&mut pieces, Piece::Signature(func.ident));
    push_piece(&mut pieces, Piece::Body(body));
    proof {
        assert(pieces_view(body@) =~= seq![
            PieceView::InnerAttributes,
            PieceView::Statements(view.block),
        ]);
        assert(pieces_view(pieces@) =~= function_pieces(view));
    }
    Ok(pieces)
}

/// `#[safety::checks]` — enables `#[safety::checked]` inside any fn body.
///
/// With the expansion comes the function's own syntax, which the pieces refer
/// to. Of tokens that are no function, the error is the one that the Rust
/// grammar gives.
pub fn checks(attr: TokenStream, item: TokenStream, call_site: Span) -> (r: Result<
    (Vec<Piece>, Source),
    Diagnostic,
>)
    ensures
        match item_of(trees_of(item), call_site) {
            Some(func) => match (r, checks_expansion(trees_of(attr), Ok(func), call_site)) {
                (Ok((pieces, source)), Ok(view)) => pieces_view(pieces@) == view && source
                    == source_of(trees_of(item), call_site),
                (Err(error), Err(view)) => error@ == view,
                _ => false,
            },
            None => r matches Err(error) && exists|said: syn::Error|
                #[trigger] checks_expansion(trees_of(attr), Err(said), call_site) == Err::<
                    Seq<PieceView>,
                    _,
                >(error@),
        },
{
    match parse_item(item, call_site) {
        Ok((func, source)) => match checks_parsed(attr, Ok(func), call_site) {
            Ok(pieces) => Ok((pieces, source)),
            Err(error) => Err(error),
        },
        Err(said) => match checks_parsed(attr, Err(said), call_site) {
            Ok(_) => vstd::pervasive::unreached(),
            Err(error) => Err(error),
        },
    }
}

} // verus!
