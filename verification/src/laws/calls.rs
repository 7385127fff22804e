//! What holds of a checked call and the function that it calls.
use proc_macro2::Span;
use vstd::prelude::*;
use vstd::utf8::encode_utf8;

use crate::checked::accounted;
use crate::checked::applied;
use crate::checked::args_of;
use crate::checked::checked_position;
use crate::checked::expanded;
use crate::checked::hidden_path;
use crate::checked::prelude;
use crate::checked::rewritten;
use crate::code::AttrView;
use crate::code::CodeView;
use crate::code::ExpressionView;
use crate::code::LetView;
use crate::code::PathSegmentView;
use crate::diagnostic::MessageView;
use crate::expand::requires_expansion;
use crate::hash::fnv1a_bytes;
use crate::hash::joined;
use crate::hash::sorted;
use crate::hash::tag_names;
use crate::hash::tagset_digest;
use crate::item::FunctionView;
use crate::laws::expansion::holds_associated_fn;
use crate::laws::expansion::law_entry_point_is_defined;
use crate::laws::naming::comma_free;
use crate::laws::naming::law_different_sets_are_hashed_from_different_texts;
use crate::laws::naming::law_entry_points_match_by_hash;
use crate::names::entry_point;
use crate::names::hidden_text;
use crate::tags::spec_names;
use crate::tags::CheckedArgsView;
use crate::tags::TagSpecView;
use crate::walk::attrs_of;
use crate::walk::lemma_position_bounds;
use crate::walk::visited_code;
use crate::walk::visited_codes;
use crate::walk::visited_expr;
use crate::walk::visited_local;
use crate::walk::walked_expr;
use crate::walk::walked_local;
use crate::walk::with_attrs;

verus! {

/// The path that an expression calls, if it is a single call of a path,
/// perhaps in `unsafe { .. }`.
pub open spec fn called_path(expr: ExpressionView) -> Option<Seq<PathSegmentView>>
    decreases expr,
{
    match expr {
        ExpressionView::Unsafe(u) => if u.stmts.len() == 1 {
            match u.stmts[0] {
                CodeView::Expression(inner) => called_path(inner),
                _ => None,
            }
        } else {
            None
        },
        ExpressionView::Call(c) => match *c.func {
            ExpressionView::Path(p) => if p.segments.len() > 0 {
                Some(p.segments)
            } else {
                None
            },
            _ => None,
        },
        _ => None,
    }
}

proof fn lemma_rewritten_path(expr: ExpressionView, digest: Seq<char>, call_site: Span)
    ensures
        rewritten(expr, digest, call_site) is Ok <==> called_path(expr) is Some,
        rewritten(expr, digest, call_site) matches Ok(call) ==> called_path(call) == Some(
            hidden_path(called_path(expr)->0, digest),
        ),
    decreases expr,
{
    if let ExpressionView::Unsafe(u) = expr {
        if u.stmts.len() == 1 {
            if let CodeView::Expression(inner) = u.stmts[0] {
                lemma_rewritten_path(inner, digest, call_site);
            }
        }
    }
}

/// A single call of a path can be checked, and nothing else can. What comes of
/// it is a block round the same call, its path led on to an entry point.
pub proof fn law_path_calls_can_be_checked(
    args: CheckedArgsView,
    expr: ExpressionView,
    call_site: Span,
)
    ensures
        applied(args, expr, call_site) is Ok <==> called_path(expr) is Some,
        applied(args, expr, call_site) matches Ok(block) ==> block is Checked && called_path(
            *block->Checked_0.inner,
        ) == Some(hidden_path(called_path(expr)->0, tagset_digest(accounted(args)))),
{
    lemma_rewritten_path(expr, tagset_digest(accounted(args)), call_site);
}

/// A path led on to an entry point keeps its segments and gains one, the entry
/// point's. Generic arguments of the last segment move onto it; those of the
/// others stay.
pub proof fn law_turbofish_moves(segments: Seq<PathSegmentView>, digest: Seq<char>)
    requires
        segments.len() > 0,
    ensures
        ({
            let path = hidden_path(segments, digest);
            let last = segments.len() - 1;
            &&& path.len() == segments.len() + 1
            &&& path.take(last) == segments.take(last)
            &&& path[last].ident == segments[last].ident
            &&& path[last].arguments is None
            &&& path[last + 1].ident.text == hidden_text(digest)
            &&& path[last + 1].arguments == segments[last].arguments
        }),
{
    let last = segments.len() - 1;
    assert(hidden_path(segments, digest).take(last) =~= segments.take(last));
}

proof fn lemma_called_path_has_a_segment(expr: ExpressionView)
    ensures
        called_path(expr) matches Some(path) ==> path.len() > 0,
    decreases expr,
{
    if let ExpressionView::Unsafe(u) = expr {
        if u.stmts.len() == 1 {
            if let CodeView::Expression(inner) = u.stmts[0] {
                lemma_called_path_has_a_segment(inner);
            }
        }
    }
}

/// The name of what an expression calls.
pub open spec fn called_name(expr: ExpressionView) -> Option<Seq<char>> {
    match called_path(expr) {
        Some(path) => Some(path.last().ident.text),
        None => None,
    }
}

/// A checked call calls the entry point for the tags that it accounts for.
pub proof fn law_checked_calls_go_to_the_entry_point(
    args: CheckedArgsView,
    expr: ExpressionView,
    call_site: Span,
)
    ensures
        applied(args, expr, call_site) matches Ok(block) ==> block is Checked && called_name(
            *block->Checked_0.inner,
        ) == Some(entry_point(spec_names(args.union()))),
{
    law_path_calls_can_be_checked(args, expr, call_site);
    if called_path(expr) is Some {
        lemma_called_path_has_a_segment(expr);
        law_turbofish_moves(called_path(expr)->0, tagset_digest(accounted(args)));
    }
}

/// A call that accounts for exactly the tags that a function requires calls
/// the entry point that the function's expansion defines.
pub proof fn law_full_accounting_resolves(
    args: CheckedArgsView,
    expr: ExpressionView,
    specs: Seq<TagSpecView>,
    func: FunctionView,
    package: Seq<char>,
    call_site: Span,
    definition_site: Span,
)
    requires
        called_path(expr) is Some,
        requires_expansion(specs, func, package, definition_site) is Ok,
        accounted(args) == tag_names(spec_names(specs)),
    ensures
        applied(args, expr, call_site) matches Ok(block) && called_name(
            *block->Checked_0.inner,
        ) matches Some(name) && holds_associated_fn(
            requires_expansion(specs, func, package, definition_site)->Ok_0,
            name,
        ),
{
    law_path_calls_can_be_checked(args, expr, call_site);
    law_checked_calls_go_to_the_entry_point(args, expr, call_site);
    let name = entry_point(spec_names(args.union()));
    law_entry_point_is_defined(specs, func, package, definition_site, name);
}

/// A call that accounts for other tags than a function requires, too few or
/// too many, calls nothing that the function's expansion defines, unless the
/// two different texts that the sets of tags are hashed from have the same
/// hash.
pub proof fn law_wrong_accounting_does_not_resolve(
    args: CheckedArgsView,
    expr: ExpressionView,
    specs: Seq<TagSpecView>,
    func: FunctionView,
    package: Seq<char>,
    call_site: Span,
    definition_site: Span,
)
    requires
        called_path(expr) is Some,
        requires_expansion(specs, func, package, definition_site) is Ok,
        accounted(args) != tag_names(spec_names(specs)),
        forall|i: int|
            0 <= i < args.union().len() ==> comma_free((#[trigger] args.union()[i]).name.text),
        forall|i: int| 0 <= i < specs.len() ==> comma_free((#[trigger] specs[i]).name.text),
    ensures
        ({
            let given = joined(sorted(accounted(args)));
            let wanted = joined(sorted(tag_names(spec_names(specs))));
            &&& given != wanted
            &&& fnv1a_bytes(encode_utf8(given)) != fnv1a_bytes(encode_utf8(wanted)) ==> (
            applied(args, expr, call_site) matches Ok(block) && called_name(
                *block->Checked_0.inner,
            ) matches Some(name) && !holds_associated_fn(
                requires_expansion(specs, func, package, definition_site)->Ok_0,
                name,
            ))
        }),
{
    let a = spec_names(args.union());
    let b = spec_names(specs);
    assert forall|i: int| 0 <= i < a.len() implies comma_free((#[trigger] a[i]).text) by {
        assert(a[i] == args.union()[i].name);
    }
    assert forall|i: int| 0 <= i < b.len() implies comma_free((#[trigger] b[i]).text) by {
        assert(b[i] == specs[i].name);
    }
    law_different_sets_are_hashed_from_different_texts(a, b);
    law_entry_points_match_by_hash(a, b);
    law_path_calls_can_be_checked(args, expr, call_site);
    law_checked_calls_go_to_the_entry_point(args, expr, call_site);
    law_entry_point_is_defined(specs, func, package, definition_site, entry_point(a));
}

/// Whether an expression is a single call of a path, perhaps in
/// `unsafe { .. }`, without a `checked` attribute on the way to the path.
pub open spec fn is_unchecked_call(expr: ExpressionView) -> bool
    decreases expr,
{
    &&& checked_position(attrs_of(expr)) == attrs_of(expr).len()
    &&& match expr {
        ExpressionView::Unsafe(u) => u.stmts.len() == 1 && match u.stmts[0] {
            CodeView::Expression(inner) => is_unchecked_call(inner),
            _ => false,
        },
        ExpressionView::Call(c) => called_path(expr) is Some,
        _ => false,
    }
}

proof fn lemma_walk_keeps_path(expr: ExpressionView, call_site: Span)
    requires
        is_unchecked_call(expr),
    ensures
        called_path(expr) is Some,
        called_path(visited_expr(expr, call_site).code) == called_path(expr),
    decreases expr,
{
    let walked = visited_expr(expr, call_site).code;
    assert(walked == walked_expr(expr, call_site).code);
    match expr {
        ExpressionView::Unsafe(u) => {
            if let CodeView::Expression(inner) = u.stmts[0] {
                lemma_walk_keeps_path(inner, call_site);
                let stmts = visited_codes(u.stmts, call_site).code;
                let rest = visited_codes(u.stmts.drop_first(), call_site);
                assert(u.stmts.drop_first().len() == 0);
                assert(rest.code.len() == 0);
                assert(visited_code(u.stmts[0], call_site).code == CodeView::Expression(
                    visited_expr(inner, call_site).code,
                ));
                assert(stmts[0] == visited_code(u.stmts[0], call_site).code);
                assert(stmts.len() == 1);
            }
        },
        ExpressionView::Call(c) => {
            if let ExpressionView::Path(p) = *c.func {
                assert(visited_expr(*c.func, call_site) == walked_expr(*c.func, call_site));
            }
        },
        _ => {},
    }
}

proof fn lemma_rewriting_keeps_attributes(expr: ExpressionView, digest: Seq<char>, call_site: Span)
    requires
        is_unchecked_call(expr),
    ensures
        rewritten(expr, digest, call_site) matches Ok(call) ==> is_unchecked_call(call),
    decreases expr,
{
    lemma_rewritten_path(expr, digest, call_site);
    if let ExpressionView::Unsafe(u) = expr {
        if let CodeView::Expression(inner) = u.stmts[0] {
            lemma_rewriting_keeps_attributes(inner, digest, call_site);
        }
    }
    if let ExpressionView::Call(c) = expr {
        lemma_called_path_has_a_segment(expr);
    }
}

proof fn lemma_block_reaches_entry_point(
    attr: AttrView,
    args: CheckedArgsView,
    expr: ExpressionView,
    call_site: Span,
)
    requires
        args_of(attr) == Ok::<_, Seq<MessageView>>(args),
        is_unchecked_call(expr),
    ensures
        expanded(attr, expr, call_site) matches Ok(block) && is_checked_block(
            args,
            walked_expr(block, call_site).code,
            call_site,
        ) && visited_expr(block, call_site) == walked_expr(block, call_site),
{
    let digest = tagset_digest(accounted(args));
    lemma_walk_keeps_path(expr, call_site);
    lemma_rewritten_path(expr, digest, call_site);
    lemma_rewriting_keeps_attributes(expr, digest, call_site);
    law_checked_calls_go_to_the_entry_point(args, expr, call_site);
    if let Ok(call) = rewritten(expr, digest, call_site) {
        lemma_walk_keeps_path(call, call_site);
    }
}

/// Whether an expression is the block for a call that accounts for the tags in
/// `args`: their reasons and markers, then a call of the entry point for them.
pub open spec fn is_checked_block(args: CheckedArgsView, expr: ExpressionView, call_site: Span) -> bool {
    match expr {
        ExpressionView::Checked(k) => k.prelude == prelude(args, call_site) && called_name(*k.inner)
            == Some(entry_point(spec_names(args.union()))),
        _ => false,
    }
}

/// The walk through a body makes of a call under a `checked` attribute the
/// block for the tags in the attribute.
pub proof fn law_attribute_on_a_call_is_expanded(
    expr: ExpressionView,
    args: CheckedArgsView,
    call_site: Span,
)
    requires
        ({
            let attrs = attrs_of(expr);
            let pos = checked_position(attrs);
            &&& pos < attrs.len()
            &&& args_of(attrs[pos]) == Ok::<_, Seq<MessageView>>(args)
            &&& is_unchecked_call(with_attrs(expr, attrs.remove(pos)))
        }),
    ensures
        is_checked_block(args, visited_expr(expr, call_site).code, call_site),
{
    let attrs = attrs_of(expr);
    let pos = checked_position(attrs);
    lemma_block_reaches_entry_point(
        attrs[pos],
        args,
        with_attrs(expr, attrs.remove(pos)),
        call_site,
    );
}

proof fn lemma_let_goes_on(local: LetView, call_site: Span)
    requires
        ({
            let pos = checked_position(local.attrs);
            &&& 0 <= pos < local.attrs.len()
            &&& checked_position(local.attrs.remove(pos)) == local.attrs.len() - 1
            &&& local.init is Some
            &&& expanded(local.attrs[pos], *local.init->0, call_site) is Ok
        }),
    ensures
        ({
            let attr = local.attrs[checked_position(local.attrs)];
            let block = expanded(attr, *local.init->0, call_site)->Ok_0;
            visited_local(local, call_site).code.init == Some(
                Box::new(visited_expr(block, call_site).code),
            )
        }),
{
    let pos = checked_position(local.attrs);
    let block = expanded(local.attrs[pos], *local.init->0, call_site)->Ok_0;
    let next = LetView {
        attrs: local.attrs.remove(pos),
        init: Some(Box::new(block)),
        ..local
    };
    assert(visited_local(local, call_site) == visited_local(next, call_site));
    assert(visited_local(next, call_site) == walked_local(next, call_site));
}

/// The walk through a body makes of the call that initializes a `let` under one
/// `checked` attribute the block for the tags in the attribute.
pub proof fn law_attribute_on_a_let_is_expanded(
    local: LetView,
    args: CheckedArgsView,
    call_site: Span,
)
    requires
        ({
            let pos = checked_position(local.attrs);
            &&& pos < local.attrs.len()
            &&& args_of(local.attrs[pos]) == Ok::<_, Seq<MessageView>>(args)
            &&& checked_position(local.attrs.remove(pos)) == local.attrs.len() - 1
            &&& local.init matches Some(init) && is_unchecked_call(*init)
        }),
    ensures
        visited_local(local, call_site).code.init matches Some(init) && is_checked_block(
            args,
            *init,
            call_site,
        ),
{
    let pos = checked_position(local.attrs);
    lemma_position_bounds(local.attrs);
    if let Some(init) = local.init {
        lemma_block_reaches_entry_point(local.attrs[pos], args, *init, call_site);
        lemma_let_goes_on(local, call_site);
    }
}

} // verus!
