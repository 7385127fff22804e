//! Code, as far as an expansion looks into it.
//!
//! A function's body is a tree of the expressions, `let` statements and
//! attributes in it, each listed where a walk through the source meets it. Of a piece of syntax
//! the tree holds what is read or changed; everything else about it stands
//! behind `source`, the number by which the caller finds it again.
use proc_macro2::Span;
use proc_macro2::TokenStream;
use vstd::prelude::*;

use crate::diagnostic::Extent;
use crate::token::idents_view;
use crate::token::tokens_view;
use crate::token::Ident;
use crate::token::IdentView;
use crate::token::Token;
use crate::token::TokenView;

verus! {

/// What stands behind the path of an attribute.
pub enum Meta {
    /// Nothing: `#[path]`.
    Path,
    /// Arguments in delimiters: `#[path(tokens)]`.
    List { tokens: TokenStream, close: Span },
    /// A value: `#[path = value]`.
    NameValue { eq: Span },
}

/// `#[path ..]`, or `#![path ..]` if it is an inner attribute.
pub struct Attr {
    pub inner: bool,
    /// Whether the path begins with `::`.
    pub leading_colon: bool,
    pub path: Vec<Ident>,
    pub meta: Meta,
    /// The code in its value.
    pub children: Vec<Code>,
    /// From the `#` to the closing bracket.
    pub extent: Extent,
    pub source: usize,
}

pub struct AttrView {
    pub inner: bool,
    pub leading_colon: bool,
    pub path: Seq<IdentView>,
    pub meta: Meta,
    pub children: Seq<CodeView>,
    pub extent: Extent,
    pub source: usize,
}

pub open spec fn attr_view(attr: Attr) -> AttrView
    decreases attr,
{
    AttrView {
        inner: attr.inner,
        leading_colon: attr.leading_colon,
        path: idents_view(attr.path@),
        meta: attr.meta,
        children: codes_view(attr.children@),
        extent: attr.extent,
        source: attr.source,
    }
}

impl View for Attr {
    type V = AttrView;

    open spec fn view(&self) -> AttrView {
        attr_view(*self)
    }
}

pub open spec fn attrs_view(attrs: Seq<Attr>) -> Seq<AttrView>
    decreases attrs,
{
    Seq::new(
        attrs.len(),
        |i: int|
            if 0 <= i < attrs.len() {
                attr_view(attrs[i])
            } else {
                arbitrary()
            },
    )
}

/// One segment of a path. Its generic arguments, if it has any, are those of
/// the segment of the source with that number.
pub struct PathSegment {
    pub ident: Ident,
    pub arguments: Option<usize>,
}

pub struct PathSegmentView {
    pub ident: IdentView,
    pub arguments: Option<usize>,
}

impl View for PathSegment {
    type V = PathSegmentView;

    open spec fn view(&self) -> PathSegmentView {
        PathSegmentView { ident: self.ident@, arguments: self.arguments }
    }
}

pub open spec fn segments_view(segments: Seq<PathSegment>) -> Seq<PathSegmentView> {
    segments.map_values(|segment: PathSegment| segment@)
}

/// `unsafe { stmts }`.
pub struct UnsafeExpr {
    pub attrs: Vec<Attr>,
    pub stmts: Vec<Code>,
    /// From `unsafe` to the closing brace.
    pub bare: Extent,
    pub source: usize,
}

/// `func(args)`.
pub struct CallExpr {
    pub attrs: Vec<Attr>,
    pub func: Box<Expression>,
    pub args: Vec<Code>,
    /// The call without its attributes.
    pub bare: Extent,
    pub source: usize,
}

/// `receiver.method(args)`.
pub struct MethodCallExpr {
    pub attrs: Vec<Attr>,
    pub children: Vec<Code>,
    /// The call without its attributes.
    pub bare: Extent,
    pub source: usize,
}

/// A path, with its attributes and the code in its generic arguments.
pub struct PathExpr {
    pub segments: Vec<PathSegment>,
    pub children: Vec<Code>,
    pub extent: Extent,
    pub source: usize,
}

/// A checked call: a block that holds `prelude`, then `inner`.
pub struct CheckedExpr {
    pub prelude: Vec<Token>,
    pub inner: Box<Expression>,
    pub at: Span,
}

/// Any other expression, with its attributes and the code in it.
pub struct OtherExpr {
    pub children: Vec<Code>,
    pub extent: Extent,
    pub source: usize,
}

/// An expression.
pub enum Expression {
    Unsafe(UnsafeExpr),
    Call(CallExpr),
    MethodCall(MethodCallExpr),
    Path(PathExpr),
    Checked(CheckedExpr),
    Other(OtherExpr),
}

/// `let pattern = init else { diverge };`.
pub struct Let {
    pub attrs: Vec<Attr>,
    pub pattern: Vec<Code>,
    pub init: Option<Box<Expression>>,
    pub diverge: Vec<Code>,
    /// From `let` to the semicolon.
    pub bare: Extent,
    pub source: usize,
}

/// What a walk meets in a block or in another piece of syntax.
pub enum Code {
    Expression(Expression),
    Let(Let),
    /// An attribute of anything but a call, an unsafe block or a `let`.
    Attr(Attr),
    /// A statement that is none of these, with the code in it.
    Other { children: Vec<Code>, extent: Extent },
}

pub struct UnsafeExprView {
    pub attrs: Seq<AttrView>,
    pub stmts: Seq<CodeView>,
    pub bare: Extent,
    pub source: usize,
}

pub struct CallExprView {
    pub attrs: Seq<AttrView>,
    pub func: Box<ExpressionView>,
    pub args: Seq<CodeView>,
    pub bare: Extent,
    pub source: usize,
}

pub struct MethodCallExprView {
    pub attrs: Seq<AttrView>,
    pub children: Seq<CodeView>,
    pub bare: Extent,
    pub source: usize,
}

pub struct PathExprView {
    pub segments: Seq<PathSegmentView>,
    pub children: Seq<CodeView>,
    pub extent: Extent,
    pub source: usize,
}

pub struct CheckedExprView {
    pub prelude: Seq<TokenView>,
    pub inner: Box<ExpressionView>,
    pub at: Span,
}

pub struct OtherExprView {
    pub children: Seq<CodeView>,
    pub extent: Extent,
    pub source: usize,
}

pub enum ExpressionView {
    Unsafe(UnsafeExprView),
    Call(CallExprView),
    MethodCall(MethodCallExprView),
    Path(PathExprView),
    Checked(CheckedExprView),
    Other(OtherExprView),
}

pub struct LetView {
    pub attrs: Seq<AttrView>,
    pub pattern: Seq<CodeView>,
    pub init: Option<Box<ExpressionView>>,
    pub diverge: Seq<CodeView>,
    pub bare: Extent,
    pub source: usize,
}

pub enum CodeView {
    Expression(ExpressionView),
    Let(LetView),
    Attr(AttrView),
    Other { children: Seq<CodeView>, extent: Extent },
}

pub open spec fn expr_view(expr: Expression) -> ExpressionView
    decreases expr,
{
    match expr {
        Expression::Unsafe(u) => ExpressionView::Unsafe(
            UnsafeExprView {
                attrs: attrs_view(u.attrs@),
                stmts: codes_view(u.stmts@),
                bare: u.bare,
                source: u.source,
            },
        ),
        Expression::Call(c) => ExpressionView::Call(
            CallExprView {
                attrs: attrs_view(c.attrs@),
                func: Box::new(expr_view(*c.func)),
                args: codes_view(c.args@),
                bare: c.bare,
                source: c.source,
            },
        ),
        Expression::MethodCall(m) => ExpressionView::MethodCall(
            MethodCallExprView {
                attrs: attrs_view(m.attrs@),
                children: codes_view(m.children@),
                bare: m.bare,
                source: m.source,
            },
        ),
        Expression::Path(p) => ExpressionView::Path(
            PathExprView {
                segments: segments_view(p.segments@),
                children: codes_view(p.children@),
                extent: p.extent,
                source: p.source,
            },
        ),
        Expression::Checked(k) => ExpressionView::Checked(
            CheckedExprView {
                prelude: tokens_view(k.prelude@),
                inner: Box::new(expr_view(*k.inner)),
                at: k.at,
            },
        ),
        Expression::Other(o) => ExpressionView::Other(
            OtherExprView {
                children: codes_view(o.children@),
                extent: o.extent,
                source: o.source,
            },
        ),
    }
}

pub open spec fn local_view(local: Let) -> LetView
    decreases local,
{
    LetView {
        attrs: attrs_view(local.attrs@),
        pattern: codes_view(local.pattern@),
        init: match local.init {
            Some(init) => Some(Box::new(expr_view(*init))),
            None => None,
        },
        diverge: codes_view(local.diverge@),
        bare: local.bare,
        source: local.source,
    }
}

pub open spec fn code_view(code: Code) -> CodeView
    decreases code,
{
    match code {
        Code::Expression(expr) => CodeView::Expression(expr_view(expr)),
        Code::Let(local) => CodeView::Let(local_view(local)),
        Code::Attr(attr) => CodeView::Attr(attr_view(attr)),
        Code::Other { children, extent } => CodeView::Other {
            children: codes_view(children@),
            extent,
        },
    }
}

pub open spec fn codes_view(codes: Seq<Code>) -> Seq<CodeView>
    decreases codes,
{
    Seq::new(
        codes.len(),
        |i: int|
            if 0 <= i < codes.len() {
                code_view(codes[i])
            } else {
                arbitrary()
            },
    )
}

/// The extent of syntax that is `bare` behind its attributes.
pub open spec fn extent_with(attrs: Seq<AttrView>, bare: Extent) -> Extent {
    if attrs.len() > 0 && !attrs[0].inner {
        Extent { first: attrs[0].extent.first, ..bare }
    } else {
        bare
    }
}

/// The extent of an expression.
pub open spec fn expr_extent(expr: ExpressionView) -> Extent {
    match expr {
        ExpressionView::Unsafe(u) => extent_with(u.attrs, u.bare),
        ExpressionView::Call(c) => extent_with(c.attrs, c.bare),
        ExpressionView::MethodCall(m) => extent_with(m.attrs, m.bare),
        ExpressionView::Path(p) => p.extent,
        ExpressionView::Checked(k) => Extent { first: k.at, last: k.at },
        ExpressionView::Other(o) => o.extent,
    }
}

/// The extent of a piece of code.
pub open spec fn code_extent(code: CodeView) -> Extent {
    match code {
        CodeView::Expression(expr) => expr_extent(expr),
        CodeView::Let(local) => extent_with(local.attrs, local.bare),
        CodeView::Attr(attr) => attr.extent,
        CodeView::Other { extent, .. } => extent,
    }
}

/// The extent of syntax that is `bare` behind its attributes.
pub(crate) fn extent_behind(attrs: &Vec<Attr>, bare: Extent) -> (extent: Extent)
    ensures
        extent == extent_with(attrs_view(attrs@), bare),
{
    if attrs.len() > 0 && !attrs[0].inner {
        Extent { first: attrs[0].extent.first, last: bare.last }
    } else {
        bare
    }
}

/// The extent of an expression.
pub(crate) fn extent_of_expr(expr: &Expression) -> (extent: Extent)
    ensures
        extent == expr_extent(expr_view(*expr)),
{
    match expr {
        Expression::Unsafe(u) => extent_behind(&u.attrs, u.bare),
        Expression::Call(c) => extent_behind(&c.attrs, c.bare),
        Expression::MethodCall(m) => extent_behind(&m.attrs, m.bare),
        Expression::Path(p) => p.extent,
        Expression::Checked(k) => Extent { first: k.at, last: k.at },
        Expression::Other(o) => o.extent,
    }
}

/// The extent of a piece of code.
pub(crate) fn extent_of_code(code: &Code) -> (extent: Extent)
    ensures
        extent == code_extent(code_view(*code)),
{
    match code {
        Code::Expression(expr) => extent_of_expr(expr),
        Code::Let(local) => extent_behind(&local.attrs, local.bare),
        Code::Attr(attr) => attr.extent,
        Code::Other { extent, .. } => *extent,
    }
}

} // verus!
