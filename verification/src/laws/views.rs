//! What the models of the types say of their values.
use vstd::prelude::*;

use crate::code::attr_view;
use crate::code::attrs_view;
use crate::code::code_view;
use crate::code::codes_view;
use crate::code::expr_view;
use crate::code::local_view;
use crate::code::segments_view;
use crate::code::Attr;
use crate::code::Code;
use crate::code::CodeView;
use crate::code::Expression;
use crate::code::ExpressionView;
use crate::code::Let;
use crate::code::PathSegment;
use crate::diagnostic::Diagnostic;
use crate::diagnostic::Message;
use crate::diagnostic::MessageView;
use crate::item::generics_view;
use crate::item::inputs_view;
use crate::item::piece_view;
use crate::item::pieces_view;
use crate::item::FnArg;
use crate::item::FnArgView;
use crate::item::Function;
use crate::item::GenericParam;
use crate::item::GenericParamView;
use crate::item::Piece;
use crate::item::PieceView;
use crate::lexeme::lexemes_view;
use crate::lexeme::Kind;
use crate::lexeme::KindView;
use crate::lexeme::Lexeme;
use crate::tags::specs_view;
use crate::tags::CheckedArgs;
use crate::tags::TagSpec;
use crate::token::idents_view;
use crate::token::token_view;
use crate::token::tokens_view;
use crate::token::Ident;
use crate::token::Token;
use crate::token::TokenView;
use crate::walk::CheckedExpander;

verus! {

/// The model of tokens has one for each, in order, of its own sort and with all
/// that it holds.
pub proof fn law_tokens_are_modelled_whole(tokens: Seq<Token>, i: int)
    requires
        0 <= i < tokens.len(),
    ensures
        tokens_view(tokens).len() == tokens.len(),
        match (tokens[i], tokens_view(tokens)[i]) {
            (Token::Ident(a), TokenView::Ident(b)) => b.text == a.text@ && b.span == a.span,
            (Token::Keyword(a), TokenView::Keyword(b)) => b.text == a.text@ && b.span == a.span,
            (
                Token::Punct { ch: a, joint: j, span: s },
                TokenView::Punct { ch: b, joint: k, span: t },
            ) => a == b && j == k && s == t,
            (Token::Str(a, s), TokenView::Str(b, t)) => b == a@ && s == t,
            (Token::Literal(a, s), TokenView::Literal(b, t)) => b == a@ && s == t,
            (
                Token::Group { delimiter: d, tokens: a, span: s, open: o, close: c },
                TokenView::Group { delimiter: e, tokens: b, span: t, open: p, close: q },
            ) => d == e && b == tokens_view(a@) && s == t && o == p && c == q,
            _ => false,
        },
{
    assert(tokens_view(tokens)[i] == token_view(tokens[i]));
}

/// The model of identifiers has one for each, in order.
pub proof fn law_identifiers_are_modelled_whole(idents: Seq<Ident>, i: int)
    requires
        0 <= i < idents.len(),
    ensures
        idents_view(idents).len() == idents.len(),
        idents_view(idents)[i].text == idents[i].text@,
        idents_view(idents)[i].span == idents[i].span,
{
}

/// The model of attributes has one for each, in order, with all that it holds.
pub proof fn law_attributes_are_modelled_whole(attrs: Seq<Attr>, i: int)
    requires
        0 <= i < attrs.len(),
    ensures
        attrs_view(attrs).len() == attrs.len(),
        ({
            let a = attrs[i];
            let b = attrs_view(attrs)[i];
            &&& b.inner == a.inner
            &&& b.leading_colon == a.leading_colon
            &&& b.path == idents_view(a.path@)
            &&& b.meta == a.meta
            &&& b.children == codes_view(a.children@)
            &&& b.extent == a.extent
            &&& b.source == a.source
        }),
{
    assert(attrs_view(attrs)[i] == attr_view(attrs[i]));
}

/// The model of segments of a path has one for each, in order.
pub proof fn law_segments_are_modelled_whole(segments: Seq<PathSegment>, i: int)
    requires
        0 <= i < segments.len(),
    ensures
        segments_view(segments).len() == segments.len(),
        segments_view(segments)[i].ident.text == segments[i].ident.text@,
        segments_view(segments)[i].ident.span == segments[i].ident.span,
        segments_view(segments)[i].arguments == segments[i].arguments,
{
}

/// The model of an expression is of its own sort, with all that it holds.
pub proof fn law_expressions_are_modelled_whole(expr: Expression)
    ensures
        match (expr, expr_view(expr)) {
            (Expression::Unsafe(a), ExpressionView::Unsafe(b)) => {
                &&& b.attrs == attrs_view(a.attrs@)
                &&& b.stmts == codes_view(a.stmts@)
                &&& b.bare == a.bare
                &&& b.source == a.source
            },
            (Expression::Call(a), ExpressionView::Call(b)) => {
                &&& b.attrs == attrs_view(a.attrs@)
                &&& *b.func == expr_view(*a.func)
                &&& b.args == codes_view(a.args@)
                &&& b.bare == a.bare
                &&& b.source == a.source
            },
            (Expression::MethodCall(a), ExpressionView::MethodCall(b)) => {
                &&& b.attrs == attrs_view(a.attrs@)
                &&& b.children == codes_view(a.children@)
                &&& b.bare == a.bare
                &&& b.source == a.source
            },
            (Expression::Path(a), ExpressionView::Path(b)) => {
                &&& b.segments == segments_view(a.segments@)
                &&& b.children == codes_view(a.children@)
                &&& b.extent == a.extent
                &&& b.source == a.source
            },
            (Expression::Checked(a), ExpressionView::Checked(b)) => {
                &&& b.prelude == tokens_view(a.prelude@)
                &&& *b.inner == expr_view(*a.inner)
                &&& b.at == a.at
            },
            (Expression::Other(a), ExpressionView::Other(b)) => {
                &&& b.children == codes_view(a.children@)
                &&& b.extent == a.extent
                &&& b.source == a.source
            },
            _ => false,
        },
{
}

/// The model of code has a piece for each, in order, of its own sort and with
/// all that it holds.
pub proof fn law_code_is_modelled_whole(codes: Seq<Code>, i: int)
    requires
        0 <= i < codes.len(),
    ensures
        codes_view(codes).len() == codes.len(),
        match (codes[i], codes_view(codes)[i]) {
            (Code::Expression(a), CodeView::Expression(b)) => b == expr_view(a),
            (Code::Let(a), CodeView::Let(b)) => b == local_view(a),
            (Code::Attr(a), CodeView::Attr(b)) => b == attr_view(a),
            (
                Code::Other { children: a, extent: e },
                CodeView::Other { children: b, extent: f },
            ) => b == codes_view(a@) && e == f,
            _ => false,
        },
{
    assert(codes_view(codes)[i] == code_view(codes[i]));
}

/// The model of a `let` holds all that it holds.
pub proof fn law_lets_are_modelled_whole(local: Let)
    ensures
        local_view(local).attrs == attrs_view(local.attrs@),
        local_view(local).pattern == codes_view(local.pattern@),
        local.init is None ==> local_view(local).init is None,
        local.init matches Some(init) ==> local_view(local).init == Some(
            Box::new(expr_view(*init)),
        ),
        local_view(local).diverge == codes_view(local.diverge@),
        local_view(local).bare == local.bare,
        local_view(local).source == local.source,
{
}

/// The model of a function holds all that it holds, its parameters in order.
pub proof fn law_functions_are_modelled_whole(func: Function, i: int, j: int)
    ensures
        func@.unsafety == func.unsafety,
        func@.fn_token == func.fn_token,
        func@.ident.text == func.ident.text@,
        func@.ident.span == func.ident.span,
        func@.block == codes_view(func.block@),
        func@.generics == generics_view(func.generics@),
        func@.generics.len() == func.generics@.len(),
        0 <= i < func.generics@.len() ==> match (func.generics@[i], func@.generics[i]) {
            (GenericParam::Lifetime, GenericParamView::Lifetime) => true,
            (GenericParam::Type(a), GenericParamView::Type(b)) => b.text == a.text@ && b.span
                == a.span,
            (GenericParam::Const(a), GenericParamView::Const(b)) => b.text == a.text@ && b.span
                == a.span,
            _ => false,
        },
        func@.inputs == inputs_view(func.inputs@),
        func@.inputs.len() == func.inputs@.len(),
        0 <= j < func.inputs@.len() ==> match (func.inputs@[j], func@.inputs[j]) {
            (FnArg::Receiver(a), FnArgView::Receiver(b)) => a == b,
            (FnArg::Plain(a), FnArgView::Plain(b)) => b.text == a.text@ && b.span == a.span,
            (FnArg::Pattern(a), FnArgView::Pattern(b)) => a == b,
            _ => false,
        },
{
}

/// The model of an expansion has a piece for each, in order, of its own sort
/// and with all that it holds.
pub proof fn law_pieces_are_modelled_whole(pieces: Seq<Piece>, i: int)
    requires
        0 <= i < pieces.len(),
    ensures
        pieces_view(pieces).len() == pieces.len(),
        match (pieces[i], pieces_view(pieces)[i]) {
            (Piece::Token(a), PieceView::Token(b)) => b == token_view(a),
            (Piece::OuterAttributes, PieceView::OuterAttributes) => true,
            (Piece::InnerAttributes, PieceView::InnerAttributes) => true,
            (Piece::Visibility, PieceView::Visibility) => true,
            (Piece::Signature(a), PieceView::Signature(b)) => b.text == a.text@ && b.span == a.span,
            (Piece::Statements(a), PieceView::Statements(b)) => b == codes_view(a@),
            (Piece::Body(a), PieceView::Body(b)) => b == pieces_view(a@),
            (Piece::Braces(a, s), PieceView::Braces(b, t)) => b == pieces_view(a@) && s == t,
            _ => false,
        },
{
    assert(pieces_view(pieces)[i] == piece_view(pieces[i]));
}

/// The model of lexemes has one for each, in order, of its own sort and with
/// all that it holds.
pub proof fn law_lexemes_are_modelled_whole(lexemes: Seq<Lexeme>, i: int)
    requires
        0 <= i < lexemes.len(),
    ensures
        lexemes_view(lexemes).len() == lexemes.len(),
        lexemes_view(lexemes)[i].at == lexemes[i].at,
        match (lexemes[i].kind, lexemes_view(lexemes)[i].kind) {
            (Kind::Ident(a), KindView::Ident(b)) => b.text == a.text@ && b.span == a.span,
            (Kind::Keyword(a), KindView::Keyword(b)) => b == a@,
            (Kind::Punct { ch: a, span: s }, KindView::Punct { ch: b, span: t }) => a == b && s
                == t,
            (Kind::Str(a), KindView::Str(b)) => b == a@,
            (
                Kind::Group { delimiter: d, lexemes: a, close: s },
                KindView::Group { delimiter: e, lexemes: b, close: t },
            ) => d == e && b == lexemes_view(a@) && s == t,
            (Kind::Other, KindView::Other) => true,
            _ => false,
        },
{
}

/// The model of tags has one for each, in order, with its name and its reason;
/// that of a checked call's tags has the discharged and the delegated ones.
pub proof fn law_tags_are_modelled_whole(specs: Seq<TagSpec>, args: CheckedArgs, i: int)
    requires
        0 <= i < specs.len(),
    ensures
        specs_view(specs).len() == specs.len(),
        specs_view(specs)[i].name.text == specs[i].name.text@,
        specs_view(specs)[i].name.span == specs[i].name.span,
        specs[i].reason is None ==> specs_view(specs)[i].reason is None,
        specs[i].reason matches Some(reason) ==> specs_view(specs)[i].reason == Some(reason@),
        args@.discharged == specs_view(args.discharged@),
        args@.delegated == specs_view(args.delegated@),
        args@.union() == specs_view(args.discharged@) + specs_view(args.delegated@),
{
}

/// The model of an error has a message for each, in order, with its text and
/// its place.
pub proof fn law_errors_are_modelled_whole(error: Diagnostic, i: int)
    requires
        0 <= i < error.messages@.len(),
    ensures
        error@.len() == error.messages@.len(),
        match (error.messages@[i], error@[i]) {
            (
                Message::Text { text: a, extent: e },
                MessageView::Text { text: b, extent: f },
            ) => b == a@ && e == f,
            (Message::Syntax(a), MessageView::Syntax(b)) => a == b,
            _ => false,
        },
{
}

/// The messages of the errors found in a walk are those of the error that it
/// holds, and none without one.
pub proof fn law_found_errors_are_modelled_whole(expander: CheckedExpander)
    ensures
        expander.error is None ==> expander.messages().len() == 0,
        expander.error matches Some(error) ==> expander.messages() == error@,
{
}

} // verus!
