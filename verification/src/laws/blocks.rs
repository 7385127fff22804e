//! What the block for a checked call holds.
use proc_macro2::Span;
use vstd::prelude::*;

use crate::checked::accounted;
use crate::checked::applied;
use crate::checked::args_of;
use crate::checked::expanded;
use crate::checked::hidden_path;
use crate::checked::is_checked;
use crate::checked::justification;
use crate::checked::justifications;
use crate::checked::marker_uses;
use crate::checked::path_text;
use crate::checked::prelude;
use crate::checked::rewritten;
use crate::code::code_extent;
use crate::code::expr_extent;
use crate::code::extent_with;
use crate::code::AttrView;
use crate::code::CallExprView;
use crate::code::CodeView;
use crate::code::ExpressionView;
use crate::code::LetView;
use crate::code::Meta;
use crate::code::MethodCallExprView;
use crate::code::PathSegmentView;
use crate::code::UnsafeExprView;
use crate::diagnostic::Extent;
use crate::hash::tagset_digest;
use crate::laws::tokens::a_punct;
use crate::laws::tokens::a_word;
use crate::laws::tokens::in_brackets;
use crate::laws::tokens::in_parens;
use crate::laws::tokens::law_commas_stand_between_tokens;
use crate::laws::tokens::one_message;
use crate::lexeme::lexemes_of;
use crate::names::entry_point;
use crate::names::fragment;
use crate::syntax::extent_over;
use crate::tags::checked_args;
use crate::tags::spec_names;
use crate::tags::CheckedArgsView;
use crate::tags::TagSpecView;
use crate::token::comma_separated;
use crate::token::trees_of;
use crate::token::IdentView;
use crate::token::TokenView;

verus! {

/// Whether the path `after` is the path `before`, led on to `name`: every
/// segment of `before`, the last without its generic arguments, and then
/// `name` with these.
pub open spec fn leads_on_to(
    before: Seq<PathSegmentView>,
    after: Seq<PathSegmentView>,
    name: Seq<char>,
) -> bool {
    let last = before.len() - 1;
    &&& before.len() > 0
    &&& after.len() == before.len() + 1
    &&& forall|i: int| 0 <= i < last ==> #[trigger] after[i] == before[i]
    &&& after[last].ident == before[last].ident
    &&& after[last].arguments is None
    &&& after[last + 1].ident.text == name
    &&& after[last + 1].ident.span == before[last].ident.span
    &&& after[last + 1].arguments == before[last].arguments
}

/// Whether `after` is the call `before`, in the same unsafe blocks, with the
/// same attributes, arguments and place, and with its path led on to `name`.
pub open spec fn differs_in_path(
    before: ExpressionView,
    after: ExpressionView,
    name: Seq<char>,
) -> bool
    decreases before,
{
    match (before, after) {
        (ExpressionView::Unsafe(a), ExpressionView::Unsafe(b)) => {
            &&& b.attrs == a.attrs
            &&& b.bare == a.bare
            &&& b.source == a.source
            &&& a.stmts.len() == 1
            &&& b.stmts.len() == 1
            &&& match (a.stmts[0], b.stmts[0]) {
                (CodeView::Expression(x), CodeView::Expression(y)) => differs_in_path(x, y, name),
                _ => false,
            }
        },
        (ExpressionView::Call(a), ExpressionView::Call(b)) => {
            &&& b.attrs == a.attrs
            &&& b.args == a.args
            &&& b.bare == a.bare
            &&& b.source == a.source
            &&& match (*a.func, *b.func) {
                (ExpressionView::Path(p), ExpressionView::Path(q)) => {
                    &&& q.children == p.children
                    &&& q.extent == p.extent
                    &&& q.source == p.source
                    &&& leads_on_to(p.segments, q.segments, name)
                },
                _ => false,
            }
        },
        _ => false,
    }
}

/// Rewriting a call changes nothing but the path that is called. The
/// arguments, in their order, the attributes, the place and the unsafe blocks
/// round the call are those that were written.
pub proof fn law_rewriting_changes_the_path_alone(
    expr: ExpressionView,
    digest: Seq<char>,
    call_site: Span,
)
    ensures
        rewritten(expr, digest, call_site) matches Ok(call) ==> differs_in_path(
            expr,
            call,
            "__safety_"@ + digest,
        ),
    decreases expr,
{
    match expr {
        ExpressionView::Unsafe(u) => {
            if u.stmts.len() == 1 {
                if let CodeView::Expression(inner) = u.stmts[0] {
                    law_rewriting_changes_the_path_alone(inner, digest, call_site);
                }
            }
        },
        ExpressionView::Call(c) => {
            if let ExpressionView::Path(p) = *c.func {
                if p.segments.len() > 0 {
                    let path = hidden_path(p.segments, digest);
                    assert(leads_on_to(p.segments, path, "__safety_"@ + digest));
                }
            }
        },
        _ => {},
    }
}

/// The block for a checked call holds the call as it was written, but for the
/// path, which leads on to the entry point for the tags that the attribute
/// accounts for.
pub proof fn law_block_holds_the_call(
    args: CheckedArgsView,
    expr: ExpressionView,
    call_site: Span,
)
    ensures
        applied(args, expr, call_site) matches Ok(block) ==> {
            &&& block is Checked
            &&& block->Checked_0.at == call_site
            &&& differs_in_path(
                expr,
                *block->Checked_0.inner,
                entry_point(spec_names(args.discharged + args.delegated)),
            )
        },
{
    let digest = tagset_digest(accounted(args));
    law_rewriting_changes_the_path_alone(expr, digest, call_site);
}

proof fn lemma_uses_len(specs: Seq<TagSpecView>, span: Span)
    ensures
        marker_uses(specs, span).len() == 5 * specs.len(),
    decreases specs.len(),
{
    if specs.len() > 0 {
        lemma_uses_len(specs.drop_last(), span);
    }
}

proof fn lemma_use_tokens(specs: Seq<TagSpecView>, span: Span, i: int)
    requires
        0 <= i < specs.len(),
    ensures
        ({
            let uses = marker_uses(specs, span);
            let tag = specs[i].name;
            &&& uses.len() == 5 * specs.len()
            &&& uses[5 * i] == a_word("let"@, span)
            &&& uses[5 * i + 1] == a_word("_"@, span)
            &&& uses[5 * i + 2] == a_punct('=', span)
            &&& uses[5 * i + 3] == a_word("__safety_delegates_"@ + fragment(tag.text), tag.span)
            &&& uses[5 * i + 4] == a_punct(';', span)
        }),
    decreases specs.len(),
{
    let rest = specs.drop_last();
    lemma_uses_len(specs, span);
    lemma_uses_len(rest, span);
    if i < rest.len() {
        lemma_use_tokens(rest, span, i);
        assert(rest[i] == specs[i]);
    }
}

/// The block for a checked call uses, in front of the call, the marker of each
/// tag that the attribute delegates, whatever it discharges.
pub proof fn law_block_uses_the_marker_of_each_delegated_tag(
    args: CheckedArgsView,
    expr: ExpressionView,
    call_site: Span,
    i: int,
)
    requires
        0 <= i < args.delegated.len(),
    ensures
        applied(args, expr, call_site) matches Ok(block) ==> {
            let tokens = block->Checked_0.prelude;
            let tag = args.delegated[i].name;
            &&& tokens.len() == 9 + 5 * args.delegated.len()
            &&& tokens[9 + 5 * i] == a_word("let"@, call_site)
            &&& tokens[10 + 5 * i] == a_word("_"@, call_site)
            &&& tokens[11 + 5 * i] == a_punct('=', call_site)
            &&& tokens[12 + 5 * i] == a_word(
                "__safety_delegates_"@ + fragment(tag.text),
                tag.span,
            )
            &&& tokens[13 + 5 * i] == a_punct(';', call_site)
        },
{
    lemma_use_tokens(args.delegated, call_site, i);
    let tokens = prelude(args, call_site);
    let uses = marker_uses(args.delegated, call_site);
    assert(justifications(args.union(), call_site).len() == 9);
    assert(tokens[9 + 5 * i] == uses[5 * i]);
    assert(tokens[10 + 5 * i] == uses[5 * i + 1]);
    assert(tokens[11 + 5 * i] == uses[5 * i + 2]);
    assert(tokens[12 + 5 * i] == uses[5 * i + 3]);
    assert(tokens[13 + 5 * i] == uses[5 * i + 4]);
}

/// The block for a checked call begins with a constant of pairs of strings,
/// and nothing stands between this and the call but the uses of markers.
pub proof fn law_block_begins_with_the_reasons(
    args: CheckedArgsView,
    expr: ExpressionView,
    call_site: Span,
)
    ensures
        applied(args, expr, call_site) matches Ok(block) ==> {
            let tokens = block->Checked_0.prelude;
            let entries = tokens[7]->Group_tokens;
            let count = args.discharged.len() + args.delegated.len();
            &&& tokens.len() == 9 + 5 * args.delegated.len()
            &&& tokens[0] == a_word("const"@, call_site)
            &&& tokens[1] == a_word("_"@, call_site)
            &&& tokens[2] == a_punct(':', call_site)
            &&& tokens[3] == a_punct('&', call_site)
            &&& tokens[4] == in_brackets(
                seq![
                    in_parens(
                        seq![
                            a_punct('&', call_site),
                            a_word("str"@, call_site),
                            a_punct(',', call_site),
                            a_punct('&', call_site),
                            a_word("str"@, call_site),
                        ],
                        call_site,
                    ),
                ],
                call_site,
            )
            &&& tokens[5] == a_punct('=', call_site)
            &&& tokens[6] == a_punct('&', call_site)
            &&& tokens[7] == in_brackets(entries, call_site)
            &&& tokens[8] == a_punct(';', call_site)
            &&& count == 0 ==> entries.len() == 0
            &&& count > 0 ==> entries.len() == 2 * count - 1
        },
{
    lemma_uses_len(args.delegated, call_site);
    let data = justifications(args.union(), call_site);
    assert(data.len() == 9);
    let entry = |spec: TagSpecView| justification(spec, call_site);
    let entries = args.union().map_values(entry);
    if entries.len() > 0 {
        law_commas_stand_between_tokens(entries, call_site, 0);
    }
}

/// The constant in the block for a checked call has an entry for each tag, its
/// name and its reason, first those that are discharged, then those that are
/// delegated.
pub proof fn law_block_embeds_each_reason(
    args: CheckedArgsView,
    expr: ExpressionView,
    call_site: Span,
    i: int,
)
    requires
        0 <= i < args.discharged.len() + args.delegated.len(),
    ensures
        applied(args, expr, call_site) matches Ok(block) ==> {
            let entries = block->Checked_0.prelude[7]->Group_tokens;
            let count = args.discharged.len() as int;
            let spec = if i < count {
                args.discharged[i]
            } else {
                args.delegated[i - count]
            };
            &&& entries[2 * i] == in_parens(
                seq![
                    TokenView::Str(spec.name.text, call_site),
                    a_punct(',', call_site),
                    TokenView::Str(
                        if spec.reason is Some {
                            spec.reason->0
                        } else {
                            Seq::empty()
                        },
                        call_site,
                    ),
                ],
                call_site,
            )
            &&& i + 1 < count + args.delegated.len() ==> entries[2 * i + 1] == a_punct(
                ',',
                call_site,
            )
        },
{
    let data = justifications(args.union(), call_site);
    assert(data.len() == 9);
    let entry = |spec: TagSpecView| justification(spec, call_site);
    let entries = args.union().map_values(entry);
    law_commas_stand_between_tokens(entries, call_site, i);
    assert(entries[i] == justification(args.union()[i], call_site));
    assert(data[7]->Group_tokens == comma_separated(entries, call_site));
    assert(prelude(args, call_site)[7] == data[7]);
}

/// An attribute whose arguments can be read does to an expression what its
/// tags do; of one whose arguments cannot be read the error is handed on.
pub proof fn law_attribute_applies_its_tags(
    attr: AttrView,
    expr: ExpressionView,
    call_site: Span,
)
    ensures
        args_of(attr) matches Ok(args) ==> expanded(attr, expr, call_site) == applied(
            args,
            expr,
            call_site,
        ),
        args_of(attr) matches Err(error) ==> expanded(attr, expr, call_site) == Err::<
            ExpressionView,
            _,
        >(error),
{
}

/// What cannot be called is refused, with the reason, at the place of what
/// stands there instead.
pub proof fn law_refused_calls_say_why(
    unsafe_block: UnsafeExprView,
    call: CallExprView,
    method: MethodCallExprView,
    other: ExpressionView,
    args: CheckedArgsView,
    call_site: Span,
)
    ensures
        unsafe_block.stmts.len() != 1 ==> applied(
            args,
            ExpressionView::Unsafe(unsafe_block),
            call_site,
        ) == Err::<ExpressionView, _>(
            one_message(
                "#[safety::checked] requires the unsafe block to contain exactly one call"@,
                extent_with(unsafe_block.attrs, unsafe_block.bare).first,
                extent_with(unsafe_block.attrs, unsafe_block.bare).last,
            ),
        ),
        unsafe_block.stmts.len() == 1 && !(unsafe_block.stmts[0] is Expression) ==> applied(
            args,
            ExpressionView::Unsafe(unsafe_block),
            call_site,
        ) == Err::<ExpressionView, _>(
            one_message(
                "#[safety::checked] requires the unsafe block to contain exactly one call"@,
                code_extent(unsafe_block.stmts[0]).first,
                code_extent(unsafe_block.stmts[0]).last,
            ),
        ),
        unsafe_block.stmts.len() == 1 && unsafe_block.stmts[0] is Expression ==> {
            let inner = applied(args, unsafe_block.stmts[0]->Expression_0, call_site);
            let outer = applied(args, ExpressionView::Unsafe(unsafe_block), call_site);
            &&& outer is Ok <==> inner is Ok
            &&& inner is Err ==> outer == inner
        },
        !(*call.func is Path) ==> applied(args, ExpressionView::Call(call), call_site) == Err::<
            ExpressionView,
            _,
        >(
            one_message(
                "#[safety::checked] only supports direct path calls like `f(..)` or `path::to::f(..)`"@,
                expr_extent(*call.func).first,
                expr_extent(*call.func).last,
            ),
        ),
        *call.func is Path && (*call.func)->Path_0.segments.len() == 0 ==> applied(
            args,
            ExpressionView::Call(call),
            call_site,
        ) == Err::<ExpressionView, _>(one_message("empty call path"@, call_site, call_site)),
        *call.func is Path && (*call.func)->Path_0.segments.len() > 0 ==> applied(
            args,
            ExpressionView::Call(call),
            call_site,
        ) is Ok,
        applied(args, ExpressionView::MethodCall(method), call_site) == Err::<ExpressionView, _>(
            one_message(
                "#[safety::checked] does not support method-call syntax; use a path call"@,
                extent_with(method.attrs, method.bare).first,
                extent_with(method.attrs, method.bare).last,
            ),
        ),
        other is Path || other is Checked || other is Other ==> applied(args, other, call_site)
            == Err::<ExpressionView, _>(
            one_message(
                "#[safety::checked] expects a single function call, optionally wrapped in `unsafe { .. }`"@,
                expr_extent(other).first,
                expr_extent(other).last,
            ),
        ),
{
}

/// The extent of syntax reaches from its first token, which is that of its
/// first outer attribute if it begins with one, to its last.
pub proof fn law_extents_reach_over_attributes(
    attrs: Seq<AttrView>,
    bare: Extent,
    expr: ExpressionView,
    local: LetView,
    attr: AttrView,
    children: Seq<CodeView>,
    extent: Extent,
)
    ensures
        extent_with(attrs, bare).last == bare.last,
        attrs.len() == 0 || attrs[0].inner ==> extent_with(attrs, bare).first == bare.first,
        attrs.len() > 0 && !attrs[0].inner ==> extent_with(attrs, bare).first
            == attrs[0].extent.first,
        expr matches ExpressionView::Unsafe(u) ==> expr_extent(expr) == extent_with(
            u.attrs,
            u.bare,
        ),
        expr matches ExpressionView::Call(c) ==> expr_extent(expr) == extent_with(c.attrs, c.bare),
        expr matches ExpressionView::MethodCall(m) ==> expr_extent(expr) == extent_with(
            m.attrs,
            m.bare,
        ),
        expr matches ExpressionView::Path(p) ==> expr_extent(expr) == p.extent,
        expr matches ExpressionView::Checked(k) ==> expr_extent(expr).first == k.at && expr_extent(
            expr,
        ).last == k.at,
        expr matches ExpressionView::Other(o) ==> expr_extent(expr) == o.extent,
        code_extent(CodeView::Expression(expr)) == expr_extent(expr),
        code_extent(CodeView::Let(local)) == extent_with(local.attrs, local.bare),
        code_extent(CodeView::Attr(attr)) == attr.extent,
        code_extent(CodeView::Other { children, extent }) == extent,
{
}

/// The extent of trees reaches from the first of them to the last; that of no
/// tree is at the place that is given for it.
pub proof fn law_extents_reach_from_first_to_last(
    front: Seq<Span>,
    back: Seq<Span>,
    place: Span,
    call_site: Span,
)
    requires
        front.len() > 0,
        back.len() > 0,
    ensures
        extent_over(Seq::empty(), call_site).first == call_site,
        extent_over(Seq::empty(), call_site).last == call_site,
        extent_over(seq![place], call_site).first == place,
        extent_over(seq![place], call_site).last == place,
        extent_over(front + back, call_site).first == extent_over(front, call_site).first,
        extent_over(front + back, call_site).last == extent_over(back, call_site).last,
{
}

/// The names of the segments of a path.
pub open spec fn texts_of(path: Seq<IdentView>) -> Seq<Seq<char>> {
    Seq::new(path.len(), |i: int| path[i].text)
}

/// A `checked` attribute is one whose path is `checked` or `safety::checked`,
/// and no other.
pub proof fn law_checked_attributes_are_known_by_their_path(attr: AttrView)
    ensures
        is_checked(attr) <==> texts_of(attr.path) == seq!["checked"@] || texts_of(attr.path)
            == seq!["safety"@, "checked"@],
{
    let texts = texts_of(attr.path);
    if attr.path.len() == 1 && attr.path[0].text == "checked"@ {
        assert(texts =~= seq!["checked"@]);
    }
    if attr.path.len() == 2 && attr.path[0].text == "safety"@ && attr.path[1].text == "checked"@ {
        assert(texts =~= seq!["safety"@, "checked"@]);
    }
    let short = seq!["checked"@];
    let long = seq!["safety"@, "checked"@];
    if texts =~= short {
        assert(texts.len() == short.len());
        assert(texts[0] == short[0]);
    }
    if texts =~= long {
        assert(texts.len() == long.len());
        assert(texts[0] == long[0]);
        assert(texts[1] == long[1]);
    }
}

/// The text of a path is that of its front, two colons, and that of its back;
/// that of a single name is the name, behind two colons if the path begins
/// with them.
pub proof fn law_paths_are_spelled_with_colons(
    front: Seq<IdentView>,
    back: Seq<IdentView>,
    name: IdentView,
)
    requires
        front.len() > 0,
        back.len() > 0,
    ensures
        path_text(seq![name], false) == name.text,
        path_text(seq![name], true) == "::"@ + name.text,
        path_text(front + back, false) == path_text(front, false) + "::"@ + path_text(back, false),
        path_text(front + back, true) == path_text(front, true) + path_text(back, true),
    decreases back.len(),
{
    reveal_with_fuel(path_text, 2);
    assert(path_text(seq![name], false) =~= name.text);
    assert(path_text(seq![name], true) =~= "::"@ + name.text);
    assert((front + back).drop_last() =~= front + back.drop_last());
    assert((front + back).last() == back.last());
    if back.len() > 1 {
        law_paths_are_spelled_with_colons(front, back.drop_last(), name);
    } else {
        assert(front + back.drop_last() =~= front);
        assert(back =~= seq![back.last()]);
        assert(path_text(back, false) =~= back.last().text);
        assert(path_text(back, true) =~= "::"@ + back.last().text);
    }
    assert(path_text(front + back, false) =~= path_text(front, false) + "::"@ + path_text(
        back,
        false,
    ));
    assert(path_text(front + back, true) =~= path_text(front, true) + path_text(back, true));
}

/// An attribute's tags are read from its arguments in parentheses. One without
/// arguments is refused at its path, one with a value at its `=`, and both are
/// shown how the attribute is written.
pub proof fn law_tags_stand_in_parentheses(attr: AttrView)
    ensures
        ({
            let style = if attr.inner {
                "#!["@
            } else {
                "#["@
            };
            let shown = style + path_text(attr.path, attr.leading_colon) + "(...)]"@;
            match attr.meta {
                Meta::Path => args_of(attr) == Err::<CheckedArgsView, _>(
                    one_message(
                        "expected attribute arguments in parentheses: "@ + shown,
                        attr.path.first().span,
                        attr.path.last().span,
                    ),
                ),
                Meta::NameValue { eq } => args_of(attr) == Err::<CheckedArgsView, _>(
                    one_message("expected parentheses: "@ + shown, eq, eq),
                ),
                Meta::List { tokens, close } => args_of(attr) == checked_args(
                    lexemes_of(trees_of(tokens)),
                    close,
                ),
            }
        }),
{
    reveal_strlit("#![");
    reveal_strlit("#!");
    reveal_strlit("#[");
    reveal_strlit("#");
    reveal_strlit("[");
    assert("#!"@ + "["@ =~= "#!["@);
    assert("#"@ + "["@ =~= "#["@);
}

} // verus!
