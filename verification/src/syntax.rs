//! The syntax of a function: parsed by `syn`, and taken apart into what an
//! expansion reads and changes and what it does not look at.
use proc_macro2::Span;
use proc_macro2::TokenStream;
use quote::ToTokens;
use syn::visit_mut;
use syn::visit_mut::VisitMut;
use vstd::prelude::*;

use crate::code::Attr;
use crate::code::CallExpr;
use crate::code::Code;
use crate::code::Expression;
use crate::code::Let;
use crate::code::Meta;
use crate::code::MethodCallExpr;
use crate::code::OtherExpr;
use crate::code::PathExpr;
use crate::code::PathSegment;
use crate::code::UnsafeExpr;
use crate::diagnostic::Extent;
use crate::item::FnArg;
use crate::item::Function;
use crate::item::FunctionView;
use crate::item::GenericParam;
use crate::token::trees_of;
use crate::token::Ident;
use crate::token::TokenView;

verus! {

/// `syn::ItemFn`, a function.
#[verifier::external_type_specification]
#[verifier::external_body]
pub struct ExItemFn(syn::ItemFn);

/// `syn::Signature`, the signature of a function.
#[verifier::external_type_specification]
#[verifier::external_body]
pub struct ExSignature(syn::Signature);

/// `syn::Attribute`, an attribute.
#[verifier::external_type_specification]
#[verifier::external_body]
pub struct ExAttribute(syn::Attribute);

/// `syn::PathArguments`, the generic arguments of a segment of a path.
#[verifier::external_type_specification]
#[verifier::external_body]
pub struct ExPathArguments(syn::PathArguments);

/// `syn::Stmt`, a statement.
#[verifier::external_type_specification]
#[verifier::external_body]
pub struct ExStmt(syn::Stmt);

/// `syn::Local`, a `let` statement.
#[verifier::external_type_specification]
#[verifier::external_body]
pub struct ExLocal(syn::Local);

/// `syn::Expr`, an expression.
#[verifier::external_type_specification]
#[verifier::external_body]
pub struct ExExpr(syn::Expr);

/// `syn::ExprUnsafe`, an unsafe block.
#[verifier::external_type_specification]
#[verifier::external_body]
pub struct ExExprUnsafe(syn::ExprUnsafe);

/// `syn::ExprCall`, a call.
#[verifier::external_type_specification]
#[verifier::external_body]
pub struct ExExprCall(syn::ExprCall);

/// `syn::ExprMethodCall`, a method call.
#[verifier::external_type_specification]
#[verifier::external_body]
pub struct ExExprMethodCall(syn::ExprMethodCall);

/// `syn::ExprPath`, a path.
#[verifier::external_type_specification]
#[verifier::external_body]
pub struct ExExprPath(syn::ExprPath);

/// A function as `syn` parsed it, the code in its body taken out.
pub struct Source {
    pub item: syn::ItemFn,
    pub parts: Parts,
}

/// The syntax behind the code that was taken out of a function, by the numbers
/// that the code has as its `source`. Where code was taken out of a part, a
/// placeholder stands.
pub struct Parts {
    pub attrs: Vec<syn::Attribute>,
    pub arguments: Vec<syn::PathArguments>,
    pub exprs: Vec<syn::Expr>,
    pub locals: Vec<syn::Local>,
    /// The code met so far.
    pub codes: Vec<Code>,
    /// Where syntax without a token is placed.
    pub call_site: Span,
}

/// The function that `syn` makes of tokens, or nothing if they are none. Syntax
/// without a token is placed at `call_site`.
pub uninterp spec fn item_of(item: Seq<TokenView>, call_site: Span) -> Option<FunctionView>;

/// The syntax behind the function that `syn` makes of tokens.
pub uninterp spec fn source_of(item: Seq<TokenView>, call_site: Span) -> Source;

/// `syn::parse2` at `syn::ItemFn`, with the walk of `syn::visit_mut` through
/// the block: the function, with the code in its body where the walk meets it,
/// and the syntax that was taken apart. Both depend on the tokens and on the
/// place that is given for syntax without a token, such as an empty statement.
/// Of the error nothing is said but when there is one: where the tokens end too
/// early, it points at the place that the compiler gives as the call site.
#[verifier::external_body]
pub(crate) fn parse_item(item: TokenStream, call_site: Span) -> (r: Result<
    (Function, Source),
    syn::Error,
>)
    ensures
        item_of(trees_of(item), call_site) == (match r {
            Ok((func, _)) => Some(func@),
            Err(_) => None,
        }),
        r matches Ok((_, source)) ==> source == source_of(trees_of(item), call_site),
{
    let mut item = syn::parse2::<syn::ItemFn>(item)?;
    let (attrs, arguments, exprs, locals) = (vec![], vec![], vec![], vec![]);
    let mut parts = Parts { attrs, arguments, exprs, locals, codes: vec![], call_site };
    parts.visit_block_mut(&mut item.block);
    let block = std::mem::take(&mut parts.codes);
    Ok((lower_function(&item.sig, block, call_site), Source { item, parts }))
}

/// The fields of a `syn::Signature`, round the code of a body.
#[verifier::external_body]
fn lower_function(sig: &syn::Signature, block: Vec<Code>, call_site: Span) -> (func: Function) {
    Function {
        unsafety: sig.unsafety.is_some(),
        fn_token: sig.fn_token.span,
        ident: Ident { text: sig.ident.to_string(), span: sig.ident.span() },
        generics: lower_generics(sig),
        inputs: lower_inputs(sig, call_site),
        block,
    }
}

/// The generic parameters in a `syn::Signature`.
#[verifier::external_body]
fn lower_generics(sig: &syn::Signature) -> (generics: Vec<GenericParam>) {
    sig.generics.params.iter().map(|param| match param {
        syn::GenericParam::Lifetime(_) => GenericParam::Lifetime,
        syn::GenericParam::Type(t) => {
            GenericParam::Type(Ident { text: t.ident.to_string(), span: t.ident.span() })
        },
        syn::GenericParam::Const(c) => {
            GenericParam::Const(Ident { text: c.ident.to_string(), span: c.ident.span() })
        },
    }).collect()
}

/// The parameters in a `syn::Signature`.
#[verifier::external_body]
fn lower_inputs(sig: &syn::Signature, call_site: Span) -> (inputs: Vec<FnArg>) {
    sig.inputs.iter().map(|arg| match arg {
        syn::FnArg::Receiver(r) => FnArg::Receiver(extent_of(places_of(r.to_token_stream()), call_site)),
        syn::FnArg::Typed(t) => match &*t.pat {
            syn::Pat::Ident(p) => {
                FnArg::Plain(Ident { text: p.ident.to_string(), span: p.ident.span() })
            },
            other => FnArg::Pattern(extent_of(places_of(other.to_token_stream()), call_site)),
        },
    }).collect()
}

/// The iteration over a `proc_macro2::TokenStream`, with `TokenTree::span`: the
/// places of the trees that the stream holds.
#[verifier::external_body]
fn places_of(tokens: TokenStream) -> (places: Vec<Span>) {
    tokens.into_iter().map(|tree| tree.span()).collect()
}

/// The extent of syntax whose trees have these places. Without a tree it is at
/// `call_site`.
pub open spec fn extent_over(places: Seq<Span>, call_site: Span) -> Extent {
    if places.len() == 0 {
        Extent { first: call_site, last: call_site }
    } else {
        Extent { first: places.first(), last: places.last() }
    }
}

/// The extent of syntax whose trees have these places.
fn extent_of(places: Vec<Span>, call_site: Span) -> (extent: Extent)
    ensures
        extent == extent_over(places@, call_site),
{
    if places.len() == 0 {
        Extent { first: call_site, last: call_site }
    } else {
        Extent { first: places[0], last: places[places.len() - 1] }
    }
}

/// The walk of `syn::visit_mut` through any syntax, which takes out what it
/// meets first of the code in it.
impl VisitMut for Parts {
    #[verifier::external_body]
    fn visit_attribute_mut(&mut self, attr: &mut syn::Attribute) {
        let code = lower_attr(attr, self);
        self.codes.push(Code::Attr(code));
    }

    #[verifier::external_body]
    fn visit_expr_mut(&mut self, expr: &mut syn::Expr) {
        let code = lower_expr(std::mem::replace(expr, syn::Expr::PLACEHOLDER), self);
        self.codes.push(Code::Expression(code));
    }

    #[verifier::external_body]
    fn visit_local_mut(&mut self, local: &mut syn::Local) {
        let code = lower_local(local, self);
        self.codes.push(Code::Let(code));
    }
}

/// The fields of a `syn::Attribute`, the code in its value taken out.
#[verifier::external_body]
fn lower_attr(attr: &mut syn::Attribute, parts: &mut Parts) -> (code: Attr) {
    let start = parts.codes.len();
    visit_mut::visit_attribute_mut(parts, attr);
    parts.attrs.push(attr.clone());
    Attr {
        inner: matches!(attr.style, syn::AttrStyle::Inner(_)),
        leading_colon: attr.path().leading_colon.is_some(),
        path: lower_path_idents(attr),
        meta: lower_meta(attr),
        children: parts.codes.split_off(start),
        extent: Extent { first: attr.pound_token.span, last: attr.bracket_token.span.join() },
        source: parts.attrs.len() - 1,
    }
}

/// The identifiers in the path of a `syn::Attribute`.
#[verifier::external_body]
fn lower_path_idents(attr: &syn::Attribute) -> (path: Vec<Ident>) {
    let segments = attr.path().segments.iter();
    segments.map(|s| Ident { text: s.ident.to_string(), span: s.ident.span() }).collect()
}

/// What stands behind the path of a `syn::Attribute`.
#[verifier::external_body]
fn lower_meta(attr: &syn::Attribute) -> (meta: Meta) {
    match &attr.meta {
        syn::Meta::Path(_) => Meta::Path,
        syn::Meta::List(l) => {
            Meta::List { tokens: l.tokens.clone(), close: l.delimiter.span().close() }
        },
        syn::Meta::NameValue(v) => Meta::NameValue { eq: v.eq_token.span },
    }
}

/// A `syn::Expr` by its kind.
#[verifier::external_body]
fn lower_expr(expr: syn::Expr, parts: &mut Parts) -> (code: Expression) {
    match expr {
        syn::Expr::Unsafe(u) => Expression::Unsafe(lower_unsafe(u, parts)),
        syn::Expr::Call(c) => Expression::Call(lower_call(c, parts)),
        syn::Expr::MethodCall(m) => Expression::MethodCall(lower_method_call(m, parts)),
        syn::Expr::Path(p) => Expression::Path(lower_path(p, parts)),
        other => Expression::Other(lower_other(other, parts)),
    }
}

/// The fields of a `syn::ExprUnsafe`.
#[verifier::external_body]
fn lower_unsafe(u: syn::ExprUnsafe, parts: &mut Parts) -> (code: UnsafeExpr) {
    let mut u = u;
    let mut attrs = std::mem::take(&mut u.attrs);
    let bare = extent_of(places_of(u.to_token_stream()), parts.call_site);
    let attrs = attrs.iter_mut().map(|attr| lower_attr(attr, parts)).collect();
    let stmts = u.block.stmts.iter_mut().map(|stmt| lower_stmt(stmt, parts)).collect();
    parts.exprs.push(syn::Expr::Unsafe(u));
    UnsafeExpr { attrs, stmts, bare, source: parts.exprs.len() - 1 }
}

/// A `syn::Stmt` by its kind.
#[verifier::external_body]
fn lower_stmt(stmt: &mut syn::Stmt, parts: &mut Parts) -> (code: Code) {
    let extent = extent_of(places_of(stmt.to_token_stream()), parts.call_site);
    let start = parts.codes.len();
    visit_mut::visit_stmt_mut(parts, stmt);
    let mut children = parts.codes.split_off(start);
    match stmt {
        syn::Stmt::Expr(..) | syn::Stmt::Local(_) => children.remove(0),
        syn::Stmt::Item(_) | syn::Stmt::Macro(_) => Code::Other { children, extent },
    }
}

/// The fields of a `syn::ExprCall`.
#[verifier::external_body]
fn lower_call(c: syn::ExprCall, parts: &mut Parts) -> (code: CallExpr) {
    let mut c = c;
    let mut attrs = std::mem::take(&mut c.attrs);
    let bare = extent_of(places_of(c.to_token_stream()), parts.call_site);
    let attrs = attrs.iter_mut().map(|attr| lower_attr(attr, parts)).collect();
    let func = lower_expr(std::mem::replace(&mut c.func, syn::Expr::PLACEHOLDER), parts);
    let start = parts.codes.len();
    c.args.iter_mut().for_each(|arg| parts.visit_expr_mut(arg));
    let args = parts.codes.split_off(start);
    parts.exprs.push(syn::Expr::Call(c));
    CallExpr { attrs, func: Box::new(func), args, bare, source: parts.exprs.len() - 1 }
}

/// The fields of a `syn::ExprMethodCall`.
#[verifier::external_body]
fn lower_method_call(m: syn::ExprMethodCall, parts: &mut Parts) -> (code: MethodCallExpr) {
    let mut m = m;
    let mut attrs = std::mem::take(&mut m.attrs);
    let bare = extent_of(places_of(m.to_token_stream()), parts.call_site);
    let attrs = attrs.iter_mut().map(|attr| lower_attr(attr, parts)).collect();
    let start = parts.codes.len();
    visit_mut::visit_expr_method_call_mut(parts, &mut m);
    let children = parts.codes.split_off(start);
    parts.exprs.push(syn::Expr::MethodCall(m));
    MethodCallExpr { attrs, children, bare, source: parts.exprs.len() - 1 }
}

/// The fields of a `syn::ExprPath`.
#[verifier::external_body]
fn lower_path(p: syn::ExprPath, parts: &mut Parts) -> (code: PathExpr) {
    let mut p = p;
    let extent = extent_of(places_of(p.to_token_stream()), parts.call_site);
    let start = parts.codes.len();
    visit_mut::visit_expr_path_mut(parts, &mut p);
    let children = parts.codes.split_off(start);
    let segments = p.path.segments.iter_mut();
    let segments = segments.map(|s| PathSegment {
        ident: Ident { text: s.ident.to_string(), span: s.ident.span() },
        arguments: lower_arguments(std::mem::take(&mut s.arguments), parts),
    }).collect();
    parts.exprs.push(syn::Expr::Path(p));
    PathExpr { segments, children, extent, source: parts.exprs.len() - 1 }
}

/// The generic arguments in a `syn::PathArguments`, if there are any.
#[verifier::external_body]
fn lower_arguments(arguments: syn::PathArguments, parts: &mut Parts) -> (number: Option<usize>) {
    match arguments {
        syn::PathArguments::None => None,
        some => {
            parts.arguments.push(some);
            Some(parts.arguments.len() - 1)
        },
    }
}

/// Any other `syn::Expr`.
#[verifier::external_body]
fn lower_other(expr: syn::Expr, parts: &mut Parts) -> (code: OtherExpr) {
    let mut expr = expr;
    let extent = extent_of(places_of(expr.to_token_stream()), parts.call_site);
    let start = parts.codes.len();
    visit_mut::visit_expr_mut(parts, &mut expr);
    let children = parts.codes.split_off(start);
    parts.exprs.push(expr);
    OtherExpr { children, extent, source: parts.exprs.len() - 1 }
}

/// The fields of a `syn::Local`.
#[verifier::external_body]
fn lower_local(local: &mut syn::Local, parts: &mut Parts) -> (code: Let) {
    let mut attrs = std::mem::take(&mut local.attrs);
    let bare = extent_of(places_of(local.to_token_stream()), parts.call_site);
    let attrs = attrs.iter_mut().map(|attr| lower_attr(attr, parts)).collect();
    let start = parts.codes.len();
    parts.visit_pat_mut(&mut local.pat);
    let pattern = parts.codes.split_off(start);
    let init = lower_init(local, parts);
    let diverge = lower_diverge(local, parts);
    parts.locals.push(local.clone());
    Let { attrs, pattern, init, diverge, bare, source: parts.locals.len() - 1 }
}

/// The initializer of a `syn::Local`, if it has one.
#[verifier::external_body]
fn lower_init(local: &mut syn::Local, parts: &mut Parts) -> (init: Option<Box<Expression>>) {
    let init = local.init.as_mut()?;
    let expr = std::mem::replace(&mut *init.expr, syn::Expr::PLACEHOLDER);
    Some(Box::new(lower_expr(expr, parts)))
}

/// The code behind `else` in a `syn::Local`.
#[verifier::external_body]
fn lower_diverge(local: &mut syn::Local, parts: &mut Parts) -> (codes: Vec<Code>) {
    let start = parts.codes.len();
    let blocks = local.init.iter_mut().flat_map(|init| &mut init.diverge);
    blocks.for_each(|diverge| parts.visit_expr_mut(&mut diverge.1));
    parts.codes.split_off(start)
}

} // verus!
