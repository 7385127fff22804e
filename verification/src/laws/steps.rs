//! What the walk does at each step.
use proc_macro2::Span;
use vstd::prelude::*;

use crate::checked::applied;
use crate::checked::args_of;
use crate::checked::checked_position;
use crate::checked::expanded;
use crate::checked::is_checked;
use crate::code::extent_with;
use crate::code::AttrView;
use crate::code::CallExprView;
use crate::code::CodeView;
use crate::code::ExpressionView;
use crate::code::LetView;
use crate::code::MethodCallExprView;
use crate::code::UnsafeExprView;
use crate::diagnostic::Extent;
use crate::diagnostic::MessageView;
use crate::laws::blocks::differs_in_path;
use crate::laws::blocks::law_block_holds_the_call;
use crate::laws::tokens::one_message;
use crate::laws::walking::code_is_free;
use crate::laws::walking::codes_are_free;
use crate::laws::walking::expr_is_free;
use crate::laws::walking::lemma_position_in_free_attrs;
use crate::laws::walking::lemma_walk_of_free_expr;
use crate::names::entry_point;
use crate::tags::spec_names;
use crate::tags::CheckedArgsView;
use crate::walk::visited_attr;
use crate::walk::visited_attrs;
use crate::walk::visited_code;
use crate::walk::visited_codes;
use crate::walk::visited_expr;
use crate::walk::visited_local;
use crate::walk::walked_expr;
use crate::walk::walked_local;

verus! {

/// Whether none of the attributes is a `checked` attribute.
pub open spec fn none_is_checked(attrs: Seq<AttrView>) -> bool {
    forall|i: int| 0 <= i < attrs.len() ==> !is_checked(#[trigger] attrs[i])
}

/// Whether the first `checked` attribute is the one at `pos`.
pub open spec fn first_checked_at(attrs: Seq<AttrView>, pos: int) -> bool {
    &&& 0 <= pos < attrs.len()
    &&& is_checked(attrs[pos])
    &&& forall|i: int| 0 <= i < pos ==> !is_checked(#[trigger] attrs[i])
}

proof fn lemma_no_position(attrs: Seq<AttrView>)
    requires
        none_is_checked(attrs),
    ensures
        checked_position(attrs) == attrs.len(),
    decreases attrs.len(),
{
    if attrs.len() > 0 {
        let rest = attrs.drop_first();
        assert forall|i: int| 0 <= i < rest.len() implies !is_checked(#[trigger] rest[i]) by {
            assert(rest[i] == attrs[i + 1]);
        }
        lemma_no_position(rest);
        assert(!is_checked(attrs[0]));
    }
}

proof fn lemma_position(attrs: Seq<AttrView>, pos: int)
    requires
        first_checked_at(attrs, pos),
    ensures
        checked_position(attrs) == pos,
    decreases attrs.len(),
{
    if pos > 0 {
        let rest = attrs.drop_first();
        assert(rest[pos - 1] == attrs[pos]);
        assert forall|i: int| 0 <= i < pos - 1 implies !is_checked(#[trigger] rest[i]) by {
            assert(rest[i] == attrs[i + 1]);
        }
        lemma_position(rest, pos - 1);
        assert(!is_checked(attrs[0]));
    }
}

/// Of the attributes, the first that is a `checked` attribute is found, if
/// there is one.
pub proof fn law_first_checked_attribute_is_found(attrs: Seq<AttrView>, pos: int)
    ensures
        first_checked_at(attrs, pos) ==> checked_position(attrs) == pos,
        none_is_checked(attrs) ==> checked_position(attrs) == attrs.len(),
{
    if first_checked_at(attrs, pos) {
        lemma_position(attrs, pos);
    }
    if none_is_checked(attrs) {
        lemma_no_position(attrs);
    }
}

/// Of pieces of code each is walked by itself, and the result stands where the
/// piece stood. One piece by itself gives the errors in it.
pub proof fn law_each_piece_is_walked(codes: Seq<CodeView>, code: CodeView, call_site: Span, i: int)
    ensures
        visited_codes(codes, call_site).code.len() == codes.len(),
        0 <= i < codes.len() ==> visited_codes(codes, call_site).code[i] == visited_code(
            codes[i],
            call_site,
        ).code,
        visited_codes(Seq::empty(), call_site).errors.len() == 0,
        visited_codes(seq![code], call_site).errors == visited_code(code, call_site).errors,
    decreases codes.len(),
{
    reveal_with_fuel(visited_codes, 2);
    assert(seq![code].drop_first() =~= Seq::empty());
    assert(visited_codes(seq![code], call_site).errors =~= visited_code(code, call_site).errors);
    if codes.len() > 0 {
        law_each_piece_is_walked(codes.drop_first(), code, call_site, i - 1);
        if 0 < i < codes.len() {
            assert(codes.drop_first()[i - 1] == codes[i]);
        }
    }
}

/// Of attributes each is walked by itself, and nothing in it is changed but the
/// code in its value. The errors come in the order of the attributes.
pub proof fn law_each_attribute_is_walked(
    front: Seq<AttrView>,
    back: Seq<AttrView>,
    attr: AttrView,
    call_site: Span,
)
    ensures
        ({
            let walked = visited_attrs(seq![attr], call_site);
            let inside = visited_codes(attr.children, call_site);
            &&& walked.code.len() == 1
            &&& walked.code[0].inner == attr.inner
            &&& walked.code[0].leading_colon == attr.leading_colon
            &&& walked.code[0].path == attr.path
            &&& walked.code[0].meta == attr.meta
            &&& walked.code[0].children == inside.code
            &&& walked.code[0].extent == attr.extent
            &&& walked.code[0].source == attr.source
            &&& walked.errors == inside.errors
        }),
        visited_attrs(front + back, call_site).code == visited_attrs(front, call_site).code
            + visited_attrs(back, call_site).code,
        visited_attrs(front + back, call_site).errors == visited_attrs(front, call_site).errors
            + visited_attrs(back, call_site).errors,
        visited_attrs(Seq::empty(), call_site).code.len() == 0,
        visited_attrs(Seq::empty(), call_site).errors.len() == 0,
    decreases front.len(),
{
    reveal_with_fuel(visited_attrs, 2);
    assert(seq![attr].drop_first() =~= Seq::empty());
    assert(visited_attrs(seq![attr], call_site).errors =~= visited_attr(attr, call_site).errors);
    let whole = visited_attrs(front + back, call_site);
    let a = visited_attrs(front, call_site);
    let b = visited_attrs(back, call_site);
    if front.len() == 0 {
        assert(front + back =~= back);
    } else {
        law_each_attribute_is_walked(front.drop_first(), back, attr, call_site);
        assert((front + back).drop_first() =~= front.drop_first() + back);
    }
    assert(whole.code =~= a.code + b.code);
    assert(whole.errors =~= a.errors + b.errors);
}

/// Whether `after` is `before` with the code in it walked, and nothing else
/// changed, and `errors` are those that the walk found, in the order of the
/// source.
pub open spec fn is_walked(
    before: ExpressionView,
    after: ExpressionView,
    errors: Seq<MessageView>,
    call_site: Span,
) -> bool {
    match (before, after) {
        (ExpressionView::Unsafe(a), ExpressionView::Unsafe(b)) => {
            let attrs = visited_attrs(a.attrs, call_site);
            let stmts = visited_codes(a.stmts, call_site);
            &&& b.attrs == attrs.code
            &&& b.stmts == stmts.code
            &&& b.bare == a.bare
            &&& b.source == a.source
            &&& errors == attrs.errors + stmts.errors
        },
        (ExpressionView::Call(a), ExpressionView::Call(b)) => {
            let attrs = visited_attrs(a.attrs, call_site);
            let func = visited_expr(*a.func, call_site);
            let args = visited_codes(a.args, call_site);
            &&& b.attrs == attrs.code
            &&& *b.func == func.code
            &&& b.args == args.code
            &&& b.bare == a.bare
            &&& b.source == a.source
            &&& errors == attrs.errors + func.errors + args.errors
        },
        (ExpressionView::MethodCall(a), ExpressionView::MethodCall(b)) => {
            let attrs = visited_attrs(a.attrs, call_site);
            let children = visited_codes(a.children, call_site);
            &&& b.attrs == attrs.code
            &&& b.children == children.code
            &&& b.bare == a.bare
            &&& b.source == a.source
            &&& errors == attrs.errors + children.errors
        },
        (ExpressionView::Path(a), ExpressionView::Path(b)) => {
            let children = visited_codes(a.children, call_site);
            &&& b.segments == a.segments
            &&& b.children == children.code
            &&& b.extent == a.extent
            &&& b.source == a.source
            &&& errors == children.errors
        },
        (ExpressionView::Checked(a), ExpressionView::Checked(b)) => {
            let inner = visited_expr(*a.inner, call_site);
            &&& b.prelude == a.prelude
            &&& *b.inner == inner.code
            &&& b.at == a.at
            &&& errors == inner.errors
        },
        (ExpressionView::Other(a), ExpressionView::Other(b)) => {
            let children = visited_codes(a.children, call_site);
            &&& b.children == children.code
            &&& b.extent == a.extent
            &&& b.source == a.source
            &&& errors == children.errors
        },
        _ => false,
    }
}

/// The attributes that may be `checked` attributes of an expression: those of
/// a call, a method call and an unsafe block.
pub open spec fn own_attrs(expr: ExpressionView) -> Seq<AttrView> {
    match expr {
        ExpressionView::Unsafe(u) => u.attrs,
        ExpressionView::Call(c) => c.attrs,
        ExpressionView::MethodCall(m) => m.attrs,
        _ => Seq::empty(),
    }
}

/// The expression without its attribute at `pos`.
pub open spec fn stripped(expr: ExpressionView, pos: int) -> ExpressionView {
    match expr {
        ExpressionView::Unsafe(u) => ExpressionView::Unsafe(
            UnsafeExprView { attrs: u.attrs.remove(pos), ..u },
        ),
        ExpressionView::Call(c) => ExpressionView::Call(
            CallExprView { attrs: c.attrs.remove(pos), ..c },
        ),
        ExpressionView::MethodCall(m) => ExpressionView::MethodCall(
            MethodCallExprView { attrs: m.attrs.remove(pos), ..m },
        ),
        other => other,
    }
}

/// Of an expression without a `checked` attribute the walk changes nothing but
/// the code in it.
pub proof fn law_walk_goes_into_expressions(expr: ExpressionView, call_site: Span)
    requires
        none_is_checked(own_attrs(expr)),
    ensures
        is_walked(
            expr,
            visited_expr(expr, call_site).code,
            visited_expr(expr, call_site).errors,
            call_site,
        ),
{
    lemma_no_position(own_attrs(expr));
    lemma_is_walked(expr, call_site);
}

proof fn lemma_is_walked(expr: ExpressionView, call_site: Span)
    ensures
        is_walked(
            expr,
            walked_expr(expr, call_site).code,
            walked_expr(expr, call_site).errors,
            call_site,
        ),
{
}

/// The first `checked` attribute of an expression is taken off and its tags
/// are applied to what is left. If that makes a block, the walk goes into the
/// block; if not, it says why and goes into what is left. A second `checked`
/// attribute is not expanded.
pub proof fn law_walk_expands_the_first_attribute(
    expr: ExpressionView,
    pos: int,
    call_site: Span,
)
    requires
        first_checked_at(own_attrs(expr), pos),
    ensures
        ({
            let bare = stripped(expr, pos);
            let walked = visited_expr(expr, call_site);
            match expanded(own_attrs(expr)[pos], bare, call_site) {
                Ok(block) => is_walked(block, walked.code, walked.errors, call_site),
                Err(error) => exists|errors: Seq<MessageView>|
                    walked.errors == error + errors && #[trigger] is_walked(
                        bare,
                        walked.code,
                        errors,
                        call_site,
                    ),
            }
        }),
{
    let bare = stripped(expr, pos);
    lemma_position(own_attrs(expr), pos);
    lemma_is_walked(bare, call_site);
    if let Ok(block) = expanded(own_attrs(expr)[pos], bare, call_site) {
        lemma_is_walked(block, call_site);
    }
}

/// Whether `after` is `before` with the code in it walked, and nothing else
/// changed, and `errors` are those that the walk found, in the order of the
/// source.
pub open spec fn is_walked_let(
    before: LetView,
    after: LetView,
    errors: Seq<MessageView>,
    call_site: Span,
) -> bool {
    let attrs = visited_attrs(before.attrs, call_site);
    let pattern = visited_codes(before.pattern, call_site);
    let diverge = visited_codes(before.diverge, call_site);
    &&& after.attrs == attrs.code
    &&& after.pattern == pattern.code
    &&& after.diverge == diverge.code
    &&& after.bare == before.bare
    &&& after.source == before.source
    &&& match before.init {
        Some(init) => {
            let init = visited_expr(*init, call_site);
            &&& after.init == Some(Box::new(init.code))
            &&& errors == attrs.errors + pattern.errors + init.errors + diverge.errors
        },
        None => after.init is None && errors == attrs.errors + pattern.errors + diverge.errors,
    }
}

/// Of a `let` without a `checked` attribute the walk changes nothing but the
/// code in it.
pub proof fn law_walk_goes_into_lets(local: LetView, call_site: Span)
    requires
        none_is_checked(local.attrs),
    ensures
        is_walked_let(
            local,
            visited_local(local, call_site).code,
            visited_local(local, call_site).errors,
            call_site,
        ),
{
    lemma_no_position(local.attrs);
    assert(visited_local(local, call_site) == walked_local(local, call_site));
}

/// Each `checked` attribute of a `let` is taken off, the first one first, and
/// its tags are applied to the initializer. Where this fails, or there is no
/// initializer, the `let` is walked as if the attribute were not there, and the
/// reason stands in front of the other errors.
pub proof fn law_walk_expands_attributes_of_lets(local: LetView, pos: int, call_site: Span)
    requires
        first_checked_at(local.attrs, pos),
    ensures
        ({
            let bare = LetView { attrs: local.attrs.remove(pos), ..local };
            let walked = visited_local(local, call_site);
            let without = visited_local(bare, call_site);
            match local.init {
                Some(init) => match expanded(local.attrs[pos], *init, call_site) {
                    Ok(block) => walked == visited_local(
                        LetView { init: Some(Box::new(block)), ..bare },
                        call_site,
                    ),
                    Err(error) => walked.code == without.code && walked.errors == error
                        + without.errors,
                },
                None => {
                    let extent = extent_with(bare.attrs, bare.bare);
                    &&& walked.code == without.code
                    &&& walked.errors == one_message(
                        "#[safety::checked] on a `let` requires an initializer"@,
                        extent.first,
                        extent.last,
                    ) + without.errors
                },
            }
        }),
{
    lemma_position(local.attrs, pos);
}

/// The walk makes expressions of expressions, `let` statements of `let`
/// statements, attributes of attributes and other statements of other
/// statements. A `checked` attribute that stands by itself is refused where it
/// stands.
pub proof fn law_walk_keeps_the_sort_of_code(
    expr: ExpressionView,
    local: LetView,
    attr: AttrView,
    children: Seq<CodeView>,
    extent: Extent,
    call_site: Span,
)
    ensures
        ({
            let walked = visited_code(CodeView::Expression(expr), call_site);
            &&& walked.code == CodeView::Expression(visited_expr(expr, call_site).code)
            &&& walked.errors == visited_expr(expr, call_site).errors
        }),
        ({
            let walked = visited_code(CodeView::Let(local), call_site);
            &&& walked.code == CodeView::Let(visited_local(local, call_site).code)
            &&& walked.errors == visited_local(local, call_site).errors
        }),
        ({
            let walked = visited_code(CodeView::Attr(attr), call_site);
            let inside = visited_codes(attr.children, call_site);
            &&& walked.code == CodeView::Attr(AttrView { children: inside.code, ..attr })
            &&& !is_checked(attr) ==> walked.errors == inside.errors
            &&& is_checked(attr) ==> walked.errors == one_message(
                "#[safety::checked] expects a single function call, optionally wrapped in `unsafe { .. }`"@,
                attr.extent.first,
                attr.extent.last,
            ) + inside.errors
        }),
        ({
            let walked = visited_code(CodeView::Other { children, extent }, call_site);
            let inside = visited_codes(children, call_site);
            &&& walked.code == CodeView::Other { children: inside.code, extent }
            &&& walked.errors == inside.errors
        }),
{
    let inside = visited_codes(attr.children, call_site);
    assert(Seq::<MessageView>::empty() + inside.errors =~= inside.errors);
}

proof fn lemma_rewritten_call_is_free(
    before: ExpressionView,
    after: ExpressionView,
    name: Seq<char>,
)
    requires
        differs_in_path(before, after, name),
        expr_is_free(before),
    ensures
        expr_is_free(after),
    decreases before,
{
    match (before, after) {
        (ExpressionView::Unsafe(a), ExpressionView::Unsafe(b)) => {
            if let (CodeView::Expression(x), CodeView::Expression(y)) = (a.stmts[0], b.stmts[0]) {
                assert(codes_are_free(a.stmts));
                assert(code_is_free(a.stmts[0]));
                lemma_rewritten_call_is_free(x, y, name);
                assert(code_is_free(b.stmts[0]));
                assert(codes_are_free(b.stmts.drop_first()));
                assert(codes_are_free(b.stmts));
            }
        },
        (ExpressionView::Call(a), ExpressionView::Call(b)) => {
            assert(expr_is_free(*a.func));
            assert(expr_is_free(*b.func));
        },
        _ => {},
    }
}

/// A call under one `checked` attribute, and none in it, comes out of the walk
/// as the block for its tags, without an error. The call in the block has the
/// arguments that were written, in their order, and differs from the call as
/// it was written, without the attribute, in its path alone.
pub proof fn law_walk_leaves_checked_calls_whole(
    expr: ExpressionView,
    pos: int,
    args: CheckedArgsView,
    call_site: Span,
)
    requires
        first_checked_at(own_attrs(expr), pos),
        args_of(own_attrs(expr)[pos]) == Ok::<_, Seq<MessageView>>(args),
        expr_is_free(stripped(expr, pos)),
    ensures
        ({
            let bare = stripped(expr, pos);
            let walked = visited_expr(expr, call_site);
            match applied(args, bare, call_site) {
                Ok(block) => {
                    &&& walked.errors.len() == 0
                    &&& walked.code == block
                    &&& walked.code is Checked
                    &&& differs_in_path(
                        bare,
                        *walked.code->Checked_0.inner,
                        entry_point(spec_names(args.discharged + args.delegated)),
                    )
                },
                Err(error) => walked.code == bare && walked.errors == error,
            }
        }),
{
    let bare = stripped(expr, pos);
    lemma_position(own_attrs(expr), pos);
    law_block_holds_the_call(args, bare, call_site);
    match applied(args, bare, call_site) {
        Ok(block) => {
            let name = entry_point(spec_names(args.discharged + args.delegated));
            lemma_rewritten_call_is_free(bare, *block->Checked_0.inner, name);
            assert(expr_is_free(block));
            lemma_walk_of_free_expr(block, call_site);
            assert(visited_expr(block, call_site) == walked_expr(block, call_site));
        },
        Err(error) => {
            lemma_walk_of_free_expr(bare, call_site);
            lemma_position_in_free_attrs(own_attrs(bare));
            assert(visited_expr(bare, call_site) == walked_expr(bare, call_site));
            assert(error + walked_expr(bare, call_site).errors =~= error);
        },
    }
}

} // verus!
