//! `#[safety::checked(..)]`: the attribute on a call that accounts for every
//! tag the callee requires.
use proc_macro2::Span;
use vstd::prelude::*;
use vstd::string::StringExecFns;

use crate::code::attrs_view;
use crate::code::code_extent;
use crate::code::code_view;
use crate::code::codes_view;
use crate::code::expr_extent;
use crate::code::expr_view;
use crate::code::extent_of_code;
use crate::code::extent_of_expr;
use crate::code::segments_view;
use crate::code::Attr;
use crate::code::AttrView;
use crate::code::CallExprView;
use crate::code::CheckedExpr;
use crate::code::CheckedExprView;
use crate::code::Code;
use crate::code::CodeView;
use crate::code::Expression;
use crate::code::ExpressionView;
use crate::code::Meta;
use crate::code::OtherExpr;
use crate::code::PathExprView;
use crate::code::PathSegment;
use crate::code::PathSegmentView;
use crate::code::UnsafeExprView;
use crate::diagnostic::error_at;
use crate::diagnostic::error_over;
use crate::diagnostic::Diagnostic;
use crate::diagnostic::Extent;
use crate::diagnostic::MessageView;
use crate::hash::tag_names;
use crate::hash::tagset_digest;
use crate::hash::tagset_hash;
use crate::lexeme::lexemes_of;
use crate::names::hidden_name;
use crate::names::hidden_text;
use crate::names::marker_ident;
use crate::names::marker_text;
use crate::tags::checked_args;
use crate::tags::spec_names;
use crate::tags::specs_view;
use crate::tags::CheckedArgs;
use crate::tags::CheckedArgsView;
use crate::tags::TagSpec;
use crate::tags::TagSpecView;
use crate::token::append;
use crate::token::comma_separated;
use crate::token::group;
use crate::token::idents_view;
use crate::token::punct;
use crate::token::push_group;
use crate::token::push_ident;
use crate::token::push_punct;
use crate::token::push_str;
use crate::token::push_word;
use crate::token::separate;
use crate::token::tokens_view;
use crate::token::trees_of;
use crate::token::word;
use crate::token::Delimiter;
use crate::token::Ident;
use crate::token::IdentView;
use crate::token::Token;
use crate::token::TokenView;

verus! {

/// `#[checked(...)]` / `#[safety::checked(...)]`
pub open spec fn is_checked(attr: AttrView) -> bool {
    ||| attr.path.len() == 1 && attr.path[0].text == "checked"@
    ||| attr.path.len() == 2 && attr.path[0].text == "safety"@ && attr.path[1].text == "checked"@
}

/// The position of the first `checked` attribute, or behind the last
/// attribute if there is none.
pub open spec fn checked_position(attrs: Seq<AttrView>) -> int
    decreases attrs.len(),
{
    if attrs.len() == 0 || is_checked(attrs[0]) {
        0
    } else {
        1 + checked_position(attrs.drop_first())
    }
}

/// `#[checked(...)]` / `#[safety::checked(...)]`
pub fn is_checked_attr(attr: &Attr) -> (r: bool)
    ensures
        r == is_checked(attr@),
{
    let segs = &attr.path;
    match segs.len() {
        1 => segs[0].text == "checked".to_owned(),
        2 => segs[0].text == "safety".to_owned() && segs[1].text == "checked".to_owned(),
        _ => false,
    }
}

/// Takes the first `checked` attribute out of the attributes.
pub fn take_checked_attr(attrs: &mut Vec<Attr>) -> (r: Option<Attr>)
    ensures
        ({
            let before = attrs_view(old(attrs)@);
            let pos = checked_position(before);
            match r {
                Some(attr) => pos < before.len() && attr@ == before[pos] && is_checked(attr@)
                    && attrs_view(final(attrs)@) == before.remove(pos),
                None => pos == before.len() && attrs_view(final(attrs)@) == before,
            }
        }),
{
    let ghost all = attrs_view(attrs@);
    let mut pos: usize = 0;
    proof {
        assert(all.skip(0) == all);
    }
    while pos < attrs.len()
        invariant
            pos <= attrs@.len(),
            all == attrs_view(attrs@),
            all == attrs_view(old(attrs)@),
            checked_position(all) == pos + checked_position(all.skip(pos as int)),
        decreases attrs@.len() - pos,
    {
        proof {
            assert(all.skip(pos as int)[0] == attrs@[pos as int]@);
            assert(all.skip(pos as int).drop_first() == all.skip(pos + 1));
        }
        if is_checked_attr(&attrs[pos]) {
            let attr = attrs.remove(pos);
            proof {
                assert(attrs_view(attrs@) =~= all.remove(pos as int));
            }
            return Some(attr);
        }
        pos += 1;
    }
    None
}

/// A path whose last segment is `f` or `f::<T>`, led on to the entry point
/// for a set of tags: `f::__safety_<hash>` or `f::__safety_<hash>::<T>`.
pub open spec fn hidden_path(segments: Seq<PathSegmentView>, digest: Seq<char>) -> Seq<
    PathSegmentView,
> {
    let last = segments.last();
    segments.drop_last().push(PathSegmentView { ident: last.ident, arguments: None }).push(
        PathSegmentView {
            ident: IdentView { text: hidden_text(digest), span: last.ident.span },
            arguments: last.arguments,
        },
    )
}

/// The call with its callee's path led on to the entry point for a set of
/// tags, or why the expression is no such call.
pub open spec fn rewritten(expr: ExpressionView, digest: Seq<char>, call_site: Span) -> Result<
    ExpressionView,
    Seq<MessageView>,
>
    decreases expr,
{
    match expr {
        ExpressionView::Unsafe(u) => if u.stmts.len() != 1 {
            Err(
                error_over(
                    expr_extent(expr),
                    "#[safety::checked] requires the unsafe block to contain exactly one call"@,
                ),
            )
        } else {
            match u.stmts[0] {
                CodeView::Expression(inner) => match rewritten(inner, digest, call_site) {
                    Ok(call) => Ok(
                        ExpressionView::Unsafe(
                            UnsafeExprView { stmts: seq![CodeView::Expression(call)], ..u },
                        ),
                    ),
                    Err(error) => Err(error),
                },
                other => Err(
                    error_over(
                        code_extent(other),
                        "#[safety::checked] requires the unsafe block to contain exactly one call"@,
                    ),
                ),
            }
        },
        ExpressionView::Call(c) => match rewritten_callee(*c.func, digest, call_site) {
            Ok(func) => Ok(ExpressionView::Call(CallExprView { func: Box::new(func), ..c })),
            Err(error) => Err(error),
        },
        ExpressionView::MethodCall(m) => Err(
            error_over(
                expr_extent(expr),
                "#[safety::checked] does not support method-call syntax; use a path call"@,
            ),
        ),
        other => Err(
            error_over(
                expr_extent(other),
                "#[safety::checked] expects a single function call, optionally wrapped in `unsafe { .. }`"@,
            ),
        ),
    }
}

/// The callee with its path led on to the entry point for a set of tags, or
/// why it is no path.
pub open spec fn rewritten_callee(func: ExpressionView, digest: Seq<char>, call_site: Span) -> Result<
    ExpressionView,
    Seq<MessageView>,
> {
    match func {
        ExpressionView::Path(p) => if p.segments.len() == 0 {
            Err(error_at(call_site, "empty call path"@))
        } else {
            Ok(ExpressionView::Path(PathExprView { segments: hidden_path(p.segments, digest), ..p }))
        },
        other => Err(
            error_over(
                expr_extent(other),
                "#[safety::checked] only supports direct path calls like `f(..)` or `path::to::f(..)`"@,
            ),
        ),
    }
}

/// Leads the callee's path on to the entry point for a set of tags.
fn rewrite_callee(func: &mut Expression, suffix: &str, call_site: Span) -> (r: Result<(), Diagnostic>)
    ensures
        match (r, rewritten_callee(expr_view(*old(func)), suffix@, call_site)) {
            (Ok(()), Ok(view)) => expr_view(*final(func)) == view,
            (Err(error), Err(view)) => error@ == view && expr_view(*final(func)) == expr_view(
                *old(func),
            ),
            _ => false,
        },
{
    let extent = extent_of_expr(func);
    match func {
        Expression::Path(p) => {
            let ghost before = segments_view(p.segments@);
            let last = match p.segments.pop() {
                Some(last) => last,
                None => {
                    proof {
                        assert(segments_view(p.segments@) =~= before);
                    }
                    return Err(Diagnostic::new(call_site, "empty call path".to_owned()));
                },
            };
            // `f(..)` -> `f::__safety_<hash>(..)`; a turbofish moves onto
            // the associated fn: `f::<T>(..)` -> `f::__safety_<hash>::<T>(..)`.
            let hidden = hidden_name(suffix, last.ident.span);
            p.segments.push(PathSegment { ident: last.ident, arguments: None });
            p.segments.push(PathSegment { ident: hidden, arguments: last.arguments });
            proof {
                assert(segments_view(p.segments@) =~= hidden_path(before, suffix@));
            }
            Ok(())
        },
        _ => Err(
            Diagnostic::new_spanned(
                extent,
                "#[safety::checked] only supports direct path calls like `f(..)` or `path::to::f(..)`".to_owned(),
            ),
        ),
    }
}

/// Rewrite the single (optionally `unsafe { .. }`-wrapped) call expression
/// so its final path gains a `::__safety_<hash>` segment.
pub fn rewrite_call(expr: &mut Expression, suffix: &str, call_site: Span) -> (r: Result<(), Diagnostic>)
    ensures
        match (r, rewritten(expr_view(*old(expr)), suffix@, call_site)) {
            (Ok(()), Ok(call)) => expr_view(*final(expr)) == call,
            (Err(error), Err(view)) => error@ == view && expr_view(*final(expr)) == expr_view(
                *old(expr),
            ),
            _ => false,
        },
    decreases *old(expr),
{
    let extent = extent_of_expr(expr);
    match expr {
        Expression::Unsafe(u) => {
            let ghost stmts = codes_view(u.stmts@);
            proof {
                assert(stmts.len() == u.stmts@.len());
            }
            if u.stmts.len() != 1 {
                return Err(
                    Diagnostic::new_spanned(
                        extent,
                        "#[safety::checked] requires the unsafe block to contain exactly one call".to_owned(),
                    ),
                );
            }
            proof {
                assert(stmts[0] == code_view(u.stmts@[0]));
            }
            let extent = extent_of_code(&u.stmts[0]);
            let r = match &mut u.stmts[0] {
                Code::Expression(inner) => rewrite_call(inner, suffix, call_site),
                _ => Err(
                    Diagnostic::new_spanned(
                        extent,
                        "#[safety::checked] requires the unsafe block to contain exactly one call".to_owned(),
                    ),
                ),
            };
            proof {
                assert(codes_view(u.stmts@) =~= seq![code_view(u.stmts@[0])]);
                assert(stmts =~= seq![stmts[0]]);
            }
            r
        },
        Expression::Call(c) => rewrite_callee(&mut c.func, suffix, call_site),
        Expression::MethodCall(_) => Err(
            Diagnostic::new_spanned(
                extent,
                "#[safety::checked] does not support method-call syntax; use a path call".to_owned(),
            ),
        ),
        _ => Err(
            Diagnostic::new_spanned(
                extent,
                "#[safety::checked] expects a single function call, optionally wrapped in `unsafe { .. }`".to_owned(),
            ),
        ),
    }
}

/// `("name", "reason")`.
pub open spec fn justification(spec: TagSpecView, call_site: Span) -> TokenView {
    let reason = match spec.reason {
        Some(reason) => reason,
        None => Seq::empty(),
    };
    group(
        Delimiter::Parenthesis,
        seq![
            TokenView::Str(spec.name.text, call_site),
            punct(',', call_site),
            TokenView::Str(reason, call_site),
        ],
        call_site,
    )
}

/// `const _: &[(&str, &str)] = &[("name", "reason"), ...];`
pub open spec fn justifications(specs: Seq<TagSpecView>, call_site: Span) -> Seq<TokenView> {
    let pair = group(
        Delimiter::Parenthesis,
        seq![
            punct('&', call_site),
            word("str"@, call_site),
            punct(',', call_site),
            punct('&', call_site),
            word("str"@, call_site),
        ],
        call_site,
    );
    let entries = comma_separated(
        specs.map_values(|spec: TagSpecView| justification(spec, call_site)),
        call_site,
    );
    seq![
        word("const"@, call_site),
        word("_"@, call_site),
        punct(':', call_site),
        punct('&', call_site),
        group(Delimiter::Bracket, seq![pair], call_site),
        punct('=', call_site),
        punct('&', call_site),
        group(Delimiter::Bracket, entries, call_site),
        punct(';', call_site),
    ]
}

/// `let _ = __safety_delegates_<Tag>;`
pub open spec fn marker_use(tag: IdentView, call_site: Span) -> Seq<TokenView> {
    seq![
        word("let"@, call_site),
        word("_"@, call_site),
        punct('=', call_site),
        word(marker_text(tag.text), tag.span),
        punct(';', call_site),
    ]
}

/// One use of a marker for each of the tags.
pub open spec fn marker_uses(specs: Seq<TagSpecView>, call_site: Span) -> Seq<TokenView>
    decreases specs.len(),
{
    if specs.len() == 0 {
        Seq::empty()
    } else {
        marker_uses(specs.drop_last(), call_site) + marker_use(specs.last().name, call_site)
    }
}

/// What stands in front of a checked call.
pub open spec fn prelude(args: CheckedArgsView, call_site: Span) -> Seq<TokenView> {
    justifications(args.union(), call_site) + marker_uses(args.delegated, call_site)
}

/// Writes an entry for each of the tags behind those in `entries`.
fn write_entries(specs: &Vec<TagSpec>, entries: &mut Vec<Token>, call_site: Span)
    ensures
        tokens_view(final(entries)@) == tokens_view(old(entries)@) + specs_view(specs@).map_values(
            |spec: TagSpecView| justification(spec, call_site),
        ),
{
    let ghost before = tokens_view(entries@);
    let ghost entry = |spec: TagSpecView| justification(spec, call_site);
    let ghost all = specs_view(specs@).map_values(entry);
    let mut i: usize = 0;
    proof {
        assert(before + all.take(0) =~= before);
    }
    while i < specs.len()
        invariant
            i <= specs@.len(),
            entry == (|spec: TagSpecView| justification(spec, call_site)),
            all == specs_view(specs@).map_values(entry),
            tokens_view(entries@) == before + all.take(i as int),
        decreases specs@.len() - i,
    {
        let mut parts: Vec<Token> = Vec::new();
        push_str(&mut parts, specs[i].name.text.as_str(), call_site);
        push_punct(&mut parts, ',', call_site);
        match &specs[i].reason {
            Some(reason) => push_str(&mut parts, reason.as_str(), call_site),
            None => push_str(&mut parts, String::new().as_str(), call_site),
        }
        proof {
            assert(tokens_view(parts@) =~= justification(
                specs@[i as int]@,
                call_site,
            )->Group_tokens);
            assert(all.take(i + 1) =~= all.take(i as int).push(all[i as int]));
            assert(before + all.take(i + 1) =~= (before + all.take(i as int)).push(all[i as int]));
        }
        push_group(entries, Delimiter::Parenthesis, parts, call_site);
        i += 1;
    }
    proof {
        assert(all.take(i as int) == all);
    }
}

/// Writes what stands in front of a checked call.
pub fn write_prelude(args: &CheckedArgs, call_site: Span) -> (out: Vec<Token>)
    ensures
        tokens_view(out@) == prelude(args@, call_site),
{
    // Embed the per-call-site justifications as data so external tooling
    // (e.g. a future clippy-style checker, or a section-scanner) can read
    // them back out of the expansion.
    let mut entries: Vec<Token> = Vec::new();
    write_entries(&args.discharged, &mut entries, call_site);
    write_entries(&args.delegated, &mut entries, call_site);
    proof {
        let entry = |spec: TagSpecView| justification(spec, call_site);
        assert(tokens_view(entries@) =~= args@.union().map_values(entry));
    }
    let mut pair: Vec<Token> = Vec::new();
    push_punct(&mut pair, '&', call_site);
    push_word(&mut pair, "str", call_site);
    push_punct(&mut pair, ',', call_site);
    push_punct(&mut pair, '&', call_site);
    push_word(&mut pair, "str", call_site);
    let mut element: Vec<Token> = Vec::new();
    push_group(&mut element, Delimiter::Parenthesis, pair, call_site);
    let mut out: Vec<Token> = Vec::new();
    push_word(&mut out, "const", call_site);
    push_word(&mut out, "_", call_site);
    push_punct(&mut out, ':', call_site);
    push_punct(&mut out, '&', call_site);
    push_group(&mut out, Delimiter::Bracket, element, call_site);
    push_punct(&mut out, '=', call_site);
    push_punct(&mut out, '&', call_site);
    push_group(&mut out, Delimiter::Bracket, separate(entries, call_site), call_site);
    push_punct(&mut out, ';', call_site);
    let ghost data = justifications(args@.union(), call_site);
    proof {
        assert(tokens_view(pair@) =~= data[4]->Group_tokens[0]->Group_tokens);
        assert(tokens_view(element@) =~= data[4]->Group_tokens);
        assert(tokens_view(out@) =~= data);
    }
    // Each delegated tag must resolve against a body-local marker injected
    // by #[safety::requires(Tag = "...")] on the *enclosing* function.
    let ghost specs = specs_view(args.delegated@);
    let mut i: usize = 0;
    proof {
        assert(marker_uses(specs.take(0), call_site) =~= Seq::empty());
        assert(data + marker_uses(specs.take(0), call_site) =~= data);
    }
    while i < args.delegated.len()
        invariant
            i <= args.delegated@.len(),
            specs == specs_view(args.delegated@),
            tokens_view(out@) == data + marker_uses(specs.take(i as int), call_site),
        decreases args.delegated@.len() - i,
    {
        let ghost before = tokens_view(out@);
        let marker = marker_ident(&args.delegated[i].name);
        push_word(&mut out, "let", call_site);
        push_word(&mut out, "_", call_site);
        push_punct(&mut out, '=', call_site);
        push_ident(&mut out, &marker);
        push_punct(&mut out, ';', call_site);
        proof {
            let next = specs.take(i + 1);
            assert(next.drop_last() == specs.take(i as int));
            assert(next.last() == args.delegated@[i as int]@);
            assert(tokens_view(out@) =~= before + marker_use(next.last().name, call_site));
            assert(before + marker_use(next.last().name, call_site) =~= data + marker_uses(
                next,
                call_site,
            ));
        }
        i += 1;
    }
    proof {
        assert(specs.take(i as int) == specs);
    }
    out
}

/// A path as it is written.
pub open spec fn path_text(path: Seq<IdentView>, leading_colon: bool) -> Seq<char>
    decreases path.len(),
{
    if path.len() == 0 {
        Seq::empty()
    } else {
        let colons = if path.len() > 1 || leading_colon {
            "::"@
        } else {
            Seq::empty()
        };
        path_text(path.drop_last(), leading_colon) + colons + path.last().text
    }
}

/// The attribute with its arguments in parentheses: `#[path(...)]`.
pub open spec fn usage_text(attr: AttrView) -> Seq<char> {
    let style = if attr.inner {
        "#!"@
    } else {
        "#"@
    };
    style + "["@ + path_text(attr.path, attr.leading_colon) + "(...)]"@
}

/// The tags in an attribute's arguments.
pub open spec fn args_of(attr: AttrView) -> Result<CheckedArgsView, Seq<MessageView>> {
    match attr.meta {
        Meta::Path => Err(
            error_over(
                Extent { first: attr.path.first().span, last: attr.path.last().span },
                "expected attribute arguments in parentheses: "@ + usage_text(attr),
            ),
        ),
        Meta::NameValue { eq } => Err(
            error_at(eq, "expected parentheses: "@ + usage_text(attr)),
        ),
        Meta::List { tokens, close } => checked_args(lexemes_of(trees_of(tokens)), close),
    }
}

/// Writes a path behind what `text` holds.
fn write_path(path: &Vec<Ident>, leading_colon: bool, text: &mut String)
    ensures
        final(text)@ == old(text)@ + path_text(idents_view(path@), leading_colon),
{
    let ghost before = text@;
    let ghost all = idents_view(path@);
    let mut i: usize = 0;
    proof {
        assert(before + path_text(all.take(0), leading_colon) =~= before);
    }
    while i < path.len()
        invariant
            i <= path@.len(),
            all == idents_view(path@),
            text@ == before + path_text(all.take(i as int), leading_colon),
        decreases path@.len() - i,
    {
        proof {
            let next = all.take(i + 1);
            assert(next.drop_last() == all.take(i as int));
            assert(next.last() == path@[i as int]@);
        }
        if i > 0 || leading_colon {
            text.append("::");
        }
        text.append(path[i].text.as_str());
        proof {
            assert(text@ =~= before + path_text(all.take(i + 1), leading_colon));
        }
        i += 1;
    }
    proof {
        assert(all.take(i as int) == all);
    }
}

/// Says how an attribute is to be written.
fn usage_error(attr: &Attr, extent: Extent, lead: &str) -> (error: Diagnostic)
    ensures
        error@ == error_over(extent, lead@ + usage_text(attr@)),
{
    let mut text = lead.to_owned();
    if attr.inner {
        text.append("#!");
    } else {
        text.append("#");
    }
    text.append("[");
    write_path(&attr.path, attr.leading_colon, &mut text);
    text.append("(...)]");
    proof {
        assert(text@ =~= lead@ + usage_text(attr@));
    }
    Diagnostic::new_spanned(extent, text)
}

/// Reads the tags in an attribute's arguments.
pub fn parse_args(attr: Attr) -> (r: Result<CheckedArgs, Diagnostic>)
    requires
        attr@.path.len() > 0,
    ensures
        match (r, args_of(attr@)) {
            (Ok(args), Ok(view)) => args@ == view,
            (Err(error), Err(view)) => error@ == view,
            _ => false,
        },
{
    let first = attr.path[0].span;
    let last = attr.path[attr.path.len() - 1].span;
    match attr.meta {
        Meta::Path => Err(
            usage_error(
                &attr,
                Extent { first, last },
                "expected attribute arguments in parentheses: ",
            ),
        ),
        Meta::NameValue { eq } => Err(
            usage_error(&attr, Extent { first: eq, last: eq }, "expected parentheses: "),
        ),
        Meta::List { tokens, close } => CheckedArgs::parse(tokens, close),
    }
}

/// The set of the names of all the tags that are accounted for.
pub open spec fn accounted(args: CheckedArgsView) -> Set<Seq<char>> {
    tag_names(spec_names(args.union()))
}

/// The block that stands in place of a checked call.
pub open spec fn applied(args: CheckedArgsView, expr: ExpressionView, call_site: Span) -> Result<
    ExpressionView,
    Seq<MessageView>,
> {
    match rewritten(expr, tagset_digest(accounted(args)), call_site) {
        Ok(call) => Ok(
            ExpressionView::Checked(
                CheckedExprView {
                    prelude: prelude(args, call_site),
                    inner: Box::new(call),
                    at: call_site,
                },
            ),
        ),
        Err(error) => Err(error),
    }
}

/// What an attribute makes of the expression under it.
pub open spec fn expanded(attr: AttrView, expr: ExpressionView, call_site: Span) -> Result<
    ExpressionView,
    Seq<MessageView>,
> {
    match args_of(attr) {
        Ok(args) => applied(args, expr, call_site),
        Err(error) => Err(error),
    }
}

/// The names of all the tags, the discharged ones first.
fn all_names(args: &CheckedArgs) -> (names: Vec<Ident>)
    ensures
        idents_view(names@) == spec_names(args@.union()),
{
    let mut names: Vec<Ident> = Vec::new();
    collect_names(&args.discharged, &mut names);
    collect_names(&args.delegated, &mut names);
    proof {
        assert(idents_view(names@) =~= spec_names(args@.union()));
    }
    names
}

/// Adds the names of the tags behind those in `names`.
pub(crate) fn collect_names(specs: &Vec<TagSpec>, names: &mut Vec<Ident>)
    ensures
        idents_view(final(names)@) == idents_view(old(names)@) + spec_names(specs_view(specs@)),
{
    let ghost before = idents_view(names@);
    let ghost all = spec_names(specs_view(specs@));
    let mut i: usize = 0;
    proof {
        assert(before + all.take(0) =~= before);
    }
    while i < specs.len()
        invariant
            i <= specs@.len(),
            all == spec_names(specs_view(specs@)),
            idents_view(names@) == before + all.take(i as int),
        decreases specs@.len() - i,
    {
        let name = &specs[i].name;
        let ghost held = idents_view(names@);
        let copy = Ident { text: name.text.clone(), span: name.span };
        names.push(copy);
        proof {
            assert(all[i as int] == copy@);
            assert(idents_view(names@) =~= held.push(copy@));
            assert(all.take(i + 1) =~= all.take(i as int).push(copy@));
            assert(before + all.take(i + 1) =~= held.push(copy@));
        }
        i += 1;
    }
    proof {
        assert(all.take(i as int) == all);
    }
}

/// Puts the block for a checked call in the place of the call, or leaves the
/// expression as it is if it is no such call.
pub fn apply_checked(args: &CheckedArgs, expr: &mut Expression, call_site: Span) -> (r: Result<
    (),
    Diagnostic,
>)
    ensures
        match (r, applied(args@, expr_view(*old(expr)), call_site)) {
            (Ok(()), Ok(view)) => expr_view(*final(expr)) == view,
            (Err(error), Err(view)) => error@ == view && expr_view(*final(expr)) == expr_view(
                *old(expr),
            ),
            _ => false,
        },
{
    // The hidden name encodes the *union*: discharged + delegated must
    // together cover exactly the callee's required tag set, or this fails
    // to resolve (compile error at the call site).
    let union = all_names(args);
    if let Err(error) = rewrite_call(expr, tagset_hash(union.as_slice()).as_str(), call_site) {
        return Err(error);
    }
    let mut inner = Expression::Other(
        OtherExpr {
            children: Vec::new(),
            extent: Extent { first: call_site, last: call_site },
            source: 0,
        },
    );
    std::mem::swap(&mut inner, expr);
    *expr = Expression::Checked(
        CheckedExpr {
            prelude: write_prelude(args, call_site),
            inner: Box::new(inner),
            at: call_site,
        },
    );
    Ok(())
}

/// Apply one parsed `#[checked]` attribute to the expression it annotated.
pub fn expand_checked(attr: Attr, expr: &mut Expression, call_site: Span) -> (r: Result<
    (),
    Diagnostic,
>)
    requires
        attr@.path.len() > 0,
    ensures
        match (r, expanded(attr@, expr_view(*old(expr)), call_site)) {
            (Ok(()), Ok(view)) => expr_view(*final(expr)) == view,
            (Err(error), Err(view)) => error@ == view && expr_view(*final(expr)) == expr_view(
                *old(expr),
            ),
            _ => false,
        },
{
    match parse_args(attr) {
        Ok(args) => apply_checked(&args, expr, call_site),
        Err(error) => Err(error),
    }
}

} // verus!
