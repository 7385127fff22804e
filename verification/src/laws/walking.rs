//! What holds of the walk through a function body.
use proc_macro2::Span;
use vstd::prelude::*;

use crate::checked::checked_position;
use crate::checked::expanded;
use crate::checked::is_checked;
use crate::code::AttrView;
use crate::code::CodeView;
use crate::code::ExpressionView;
use crate::code::LetView;
use crate::walk::attr_size;
use crate::walk::attrs_of;
use crate::walk::attrs_size;
use crate::walk::code_size;
use crate::walk::codes_size;
use crate::walk::expr_size;
use crate::walk::lemma_expanded_says_why;
use crate::walk::lemma_expanded_size;
use crate::walk::lemma_position_bounds;
use crate::walk::lemma_with_attrs_size;
use crate::walk::lemma_without_size;
use crate::walk::local_size;
use crate::walk::visited_attr;
use crate::walk::visited_attrs;
use crate::walk::visited_code;
use crate::walk::visited_codes;
use crate::walk::visited_expr;
use crate::walk::visited_local;
use crate::walk::walked_expr;
use crate::walk::walked_local;
use crate::walk::with_attrs;

verus! {

/// Whether no `checked` attribute is left in an expression: neither on it, nor
/// anywhere in it.
pub open spec fn expr_is_free(expr: ExpressionView) -> bool
    decreases expr,
{
    match expr {
        ExpressionView::Unsafe(u) => attrs_are_free(u.attrs) && codes_are_free(u.stmts),
        ExpressionView::Call(c) => attrs_are_free(c.attrs) && expr_is_free(*c.func)
            && codes_are_free(c.args),
        ExpressionView::MethodCall(m) => attrs_are_free(m.attrs) && codes_are_free(m.children),
        ExpressionView::Path(p) => codes_are_free(p.children),
        ExpressionView::Checked(k) => expr_is_free(*k.inner),
        ExpressionView::Other(o) => codes_are_free(o.children),
    }
}

pub open spec fn local_is_free(local: LetView) -> bool
    decreases local,
{
    &&& attrs_are_free(local.attrs)
    &&& codes_are_free(local.pattern)
    &&& match local.init {
        Some(init) => expr_is_free(*init),
        None => true,
    }
    &&& codes_are_free(local.diverge)
}

/// Whether an attribute is no `checked` attribute, and none is in its value.
pub open spec fn attr_is_free(attr: AttrView) -> bool
    decreases attr,
{
    !is_checked(attr) && codes_are_free(attr.children)
}

pub open spec fn attrs_are_free(attrs: Seq<AttrView>) -> bool
    decreases attrs,
{
    attrs.len() == 0 || attr_is_free(attrs[0]) && attrs_are_free(attrs.drop_first())
}

pub open spec fn code_is_free(code: CodeView) -> bool
    decreases code,
{
    match code {
        CodeView::Expression(expr) => expr_is_free(expr),
        CodeView::Let(local) => local_is_free(local),
        CodeView::Attr(attr) => attr_is_free(attr),
        CodeView::Other { children, .. } => codes_are_free(children),
    }
}

/// Whether no `checked` attribute is left in pieces of code.
pub open spec fn codes_are_free(codes: Seq<CodeView>) -> bool
    decreases codes,
{
    codes.len() == 0 || code_is_free(codes[0]) && codes_are_free(codes.drop_first())
}

pub(crate) proof fn lemma_position_in_free_attrs(attrs: Seq<AttrView>)
    requires
        attrs_are_free(attrs),
    ensures
        checked_position(attrs) == attrs.len(),
    decreases attrs.len(),
{
    if attrs.len() > 0 {
        assert(attr_is_free(attrs[0]));
        lemma_position_in_free_attrs(attrs.drop_first());
    }
}

pub(crate) proof fn lemma_walk_of_free_expr(expr: ExpressionView, call_site: Span)
    requires
        expr_is_free(expr),
    ensures
        visited_expr(expr, call_site).code == expr,
        visited_expr(expr, call_site).errors.len() == 0,
    decreases expr,
{
    match expr {
        ExpressionView::Unsafe(u) => {
            lemma_position_in_free_attrs(u.attrs);
            lemma_walk_of_free_attrs(u.attrs, call_site);
            lemma_walk_of_free_codes(u.stmts, call_site);
        },
        ExpressionView::Call(c) => {
            lemma_position_in_free_attrs(c.attrs);
            lemma_walk_of_free_attrs(c.attrs, call_site);
            lemma_walk_of_free_expr(*c.func, call_site);
            lemma_walk_of_free_codes(c.args, call_site);
        },
        ExpressionView::MethodCall(m) => {
            lemma_position_in_free_attrs(m.attrs);
            lemma_walk_of_free_attrs(m.attrs, call_site);
            lemma_walk_of_free_codes(m.children, call_site);
        },
        ExpressionView::Path(p) => lemma_walk_of_free_codes(p.children, call_site),
        ExpressionView::Checked(k) => lemma_walk_of_free_expr(*k.inner, call_site),
        ExpressionView::Other(o) => lemma_walk_of_free_codes(o.children, call_site),
    }
}

proof fn lemma_walk_of_free_local(local: LetView, call_site: Span)
    requires
        local_is_free(local),
    ensures
        visited_local(local, call_site).code == local,
        visited_local(local, call_site).errors.len() == 0,
    decreases local,
{
    lemma_position_in_free_attrs(local.attrs);
    assert(visited_local(local, call_site) == walked_local(local, call_site));
    lemma_walk_of_free_attrs(local.attrs, call_site);
    lemma_walk_of_free_codes(local.pattern, call_site);
    if let Some(init) = local.init {
        lemma_walk_of_free_expr(*init, call_site);
    }
    lemma_walk_of_free_codes(local.diverge, call_site);
}

proof fn lemma_walk_of_free_attrs(attrs: Seq<AttrView>, call_site: Span)
    requires
        attrs_are_free(attrs),
    ensures
        visited_attrs(attrs, call_site).code == attrs,
        visited_attrs(attrs, call_site).errors.len() == 0,
    decreases attrs,
{
    if attrs.len() > 0 {
        lemma_walk_of_free_attr(attrs[0], call_site);
        lemma_walk_of_free_attrs(attrs.drop_first(), call_site);
    }
    assert(visited_attrs(attrs, call_site).code =~= attrs);
}

proof fn lemma_walk_of_free_attr(attr: AttrView, call_site: Span)
    requires
        attr_is_free(attr),
    ensures
        visited_attr(attr, call_site).code == attr,
        visited_attr(attr, call_site).errors.len() == 0,
    decreases attr,
{
    lemma_walk_of_free_codes(attr.children, call_site);
}

proof fn lemma_walk_of_free_code(code: CodeView, call_site: Span)
    requires
        code_is_free(code),
    ensures
        visited_code(code, call_site).code == code,
        visited_code(code, call_site).errors.len() == 0,
    decreases code,
{
    match code {
        CodeView::Expression(expr) => lemma_walk_of_free_expr(expr, call_site),
        CodeView::Let(local) => lemma_walk_of_free_local(local, call_site),
        CodeView::Attr(attr) => lemma_walk_of_free_attr(attr, call_site),
        CodeView::Other { children, .. } => lemma_walk_of_free_codes(children, call_site),
    }
}

proof fn lemma_walk_of_free_codes(codes: Seq<CodeView>, call_site: Span)
    requires
        codes_are_free(codes),
    ensures
        visited_codes(codes, call_site).code == codes,
        visited_codes(codes, call_site).errors.len() == 0,
    decreases codes,
{
    if codes.len() > 0 {
        lemma_walk_of_free_code(codes[0], call_site);
        lemma_walk_of_free_codes(codes.drop_first(), call_site);
    }
    assert(visited_codes(codes, call_site).code =~= codes);
}

/// Code without a `checked` attribute is left as it is, and no error is found
/// in it.
pub proof fn law_unmarked_code_is_left_alone(codes: Seq<CodeView>, call_site: Span)
    requires
        codes_are_free(codes),
    ensures
        visited_codes(codes, call_site).code == codes,
        visited_codes(codes, call_site).errors.len() == 0,
{
    lemma_walk_of_free_codes(codes, call_site);
}

/// The walk goes through code piece by piece: what comes of one stretch of
/// code does not depend on what stands behind or before it, and the errors
/// come in the order of the code.
pub proof fn law_walk_goes_piece_by_piece(
    front: Seq<CodeView>,
    back: Seq<CodeView>,
    call_site: Span,
)
    ensures
        visited_codes(front + back, call_site).code == visited_codes(front, call_site).code
            + visited_codes(back, call_site).code,
        visited_codes(front + back, call_site).errors == visited_codes(front, call_site).errors
            + visited_codes(back, call_site).errors,
    decreases front.len(),
{
    let whole = visited_codes(front + back, call_site);
    let a = visited_codes(front, call_site);
    let b = visited_codes(back, call_site);
    if front.len() == 0 {
        assert(front + back =~= back);
    } else {
        law_walk_goes_piece_by_piece(front.drop_first(), back, call_site);
        assert((front + back).drop_first() =~= front.drop_first() + back);
    }
    assert(whole.code =~= a.code + b.code);
    assert(whole.errors =~= a.errors + b.errors);
}

proof fn lemma_visit_frees_expr(expr: ExpressionView, call_site: Span)
    requires
        visited_expr(expr, call_site).errors.len() == 0,
    ensures
        expr_is_free(visited_expr(expr, call_site).code),
    decreases expr_size(expr), 1nat,
{
    let attrs = attrs_of(expr);
    let pos = checked_position(attrs);
    lemma_position_bounds(attrs);
    if pos >= attrs.len() {
        lemma_walk_frees_expr(expr, call_site);
    } else {
        let bare = with_attrs(expr, attrs.remove(pos));
        lemma_with_attrs_size(expr, pos);
        lemma_expanded_size(attrs[pos], bare, call_site);
        lemma_expanded_says_why(attrs[pos], bare, call_site);
        if let Ok(block) = expanded(attrs[pos], bare, call_site) {
            assert(attrs_of(block).len() == 0);
            lemma_walk_frees_expr(block, call_site);
        }
    }
}

proof fn lemma_walk_frees_expr(expr: ExpressionView, call_site: Span)
    requires
        checked_position(attrs_of(expr)) == attrs_of(expr).len(),
        walked_expr(expr, call_site).errors.len() == 0,
    ensures
        expr_is_free(walked_expr(expr, call_site).code),
    decreases expr_size(expr), 0nat,
{
    match expr {
        ExpressionView::Unsafe(u) => {
            lemma_visit_frees_attrs(u.attrs, call_site);
            lemma_visit_frees_codes(u.stmts, call_site);
        },
        ExpressionView::Call(c) => {
            lemma_visit_frees_attrs(c.attrs, call_site);
            lemma_visit_frees_expr(*c.func, call_site);
            lemma_visit_frees_codes(c.args, call_site);
        },
        ExpressionView::MethodCall(m) => {
            lemma_visit_frees_attrs(m.attrs, call_site);
            lemma_visit_frees_codes(m.children, call_site);
        },
        ExpressionView::Path(p) => lemma_visit_frees_codes(p.children, call_site),
        ExpressionView::Checked(k) => lemma_visit_frees_expr(*k.inner, call_site),
        ExpressionView::Other(o) => lemma_visit_frees_codes(o.children, call_site),
    }
}

proof fn lemma_visit_frees_local(local: LetView, call_site: Span)
    requires
        visited_local(local, call_site).errors.len() == 0,
    ensures
        local_is_free(visited_local(local, call_site).code),
    decreases local_size(local), 1nat,
{
    let pos = checked_position(local.attrs);
    lemma_position_bounds(local.attrs);
    if pos >= local.attrs.len() {
        lemma_walk_frees_local(local, call_site);
    } else {
        let bare = LetView { attrs: local.attrs.remove(pos), ..local };
        lemma_without_size(local.attrs, pos);
        if let Some(init) = local.init {
            lemma_expanded_size(local.attrs[pos], *init, call_site);
            lemma_expanded_says_why(local.attrs[pos], *init, call_site);
            if let Ok(block) = expanded(local.attrs[pos], *init, call_site) {
                lemma_visit_frees_local(
                    LetView { init: Some(Box::new(block)), ..bare },
                    call_site,
                );
            }
        }
    }
}

proof fn lemma_walk_frees_local(local: LetView, call_site: Span)
    requires
        checked_position(local.attrs) == local.attrs.len(),
        walked_local(local, call_site).errors.len() == 0,
    ensures
        local_is_free(walked_local(local, call_site).code),
    decreases local_size(local), 0nat,
{
    lemma_visit_frees_attrs(local.attrs, call_site);
    lemma_visit_frees_codes(local.pattern, call_site);
    if let Some(init) = local.init {
        lemma_visit_frees_expr(*init, call_site);
    }
    lemma_visit_frees_codes(local.diverge, call_site);
}

proof fn lemma_visit_frees_attrs(attrs: Seq<AttrView>, call_site: Span)
    requires
        checked_position(attrs) == attrs.len(),
        visited_attrs(attrs, call_site).errors.len() == 0,
    ensures
        attrs_are_free(visited_attrs(attrs, call_site).code),
    decreases attrs_size(attrs), attrs.len() + 1,
{
    if attrs.len() > 0 {
        lemma_visit_frees_attr(attrs[0], call_site);
        lemma_visit_frees_attrs(attrs.drop_first(), call_site);
        let walked = visited_attrs(attrs, call_site).code;
        assert(walked.drop_first() =~= visited_attrs(attrs.drop_first(), call_site).code);
    }
}

proof fn lemma_visit_frees_attr(attr: AttrView, call_site: Span)
    requires
        !is_checked(attr),
        visited_attr(attr, call_site).errors.len() == 0,
    ensures
        attr_is_free(visited_attr(attr, call_site).code),
    decreases attr_size(attr), 0nat,
{
    lemma_visit_frees_codes(attr.children, call_site);
}

proof fn lemma_visit_frees_code(code: CodeView, call_site: Span)
    requires
        visited_code(code, call_site).errors.len() == 0,
    ensures
        code_is_free(visited_code(code, call_site).code),
    decreases code_size(code), 0nat,
{
    match code {
        CodeView::Expression(expr) => lemma_visit_frees_expr(expr, call_site),
        CodeView::Let(local) => lemma_visit_frees_local(local, call_site),
        CodeView::Attr(attr) => lemma_visit_frees_attr(attr, call_site),
        CodeView::Other { children, .. } => lemma_visit_frees_codes(children, call_site),
    }
}

proof fn lemma_visit_frees_codes(codes: Seq<CodeView>, call_site: Span)
    requires
        visited_codes(codes, call_site).errors.len() == 0,
    ensures
        codes_are_free(visited_codes(codes, call_site).code),
    decreases codes_size(codes), codes.len() + 1,
{
    if codes.len() > 0 {
        lemma_visit_frees_code(codes[0], call_site);
        lemma_visit_frees_codes(codes.drop_first(), call_site);
        let walked = visited_codes(codes, call_site).code;
        assert(walked.drop_first() =~= visited_codes(codes.drop_first(), call_site).code);
    }
}

/// Every `checked` attribute is consumed or reported: where the walk finds no
/// error, it leaves none behind, wherever it stood.
pub proof fn law_every_attribute_is_consumed(codes: Seq<CodeView>, call_site: Span)
    requires
        visited_codes(codes, call_site).errors.len() == 0,
    ensures
        codes_are_free(visited_codes(codes, call_site).code),
{
    lemma_visit_frees_codes(codes, call_site);
}

} // verus!
