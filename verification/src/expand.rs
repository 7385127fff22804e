//! `#[safety::requires(Tag = "...", ...)]`.
use proc_macro2::Span;
use proc_macro2::TokenStream;
use vstd::prelude::*;
use vstd::string::StrSliceExecFns;
use vstd::string::StringExecFns;

use crate::checked::collect_names;
use crate::code::codes_view;
use crate::code::Code;
use crate::code::CodeView;
use crate::diagnostic::error_at;
use crate::diagnostic::error_over;
use crate::diagnostic::Diagnostic;
use crate::diagnostic::MessageView;
use crate::item::expand_body_checks;
use crate::item::generics_view;
use crate::item::inputs_view;
use crate::item::pieces_view;
use crate::item::push_piece;
use crate::item::FnArg;
use crate::item::FnArgView;
use crate::item::Function;
use crate::item::FunctionView;
use crate::item::GenericParam;
use crate::item::GenericParamView;
use crate::item::Piece;
use crate::item::PieceView;
use crate::lexeme::lexemes_of;
use crate::names::entry_point;
use crate::names::hidden_ident;
use crate::names::marker_ident;
use crate::names::marker_text;
use crate::names::poison_ident;
use crate::names::poison_text;
use crate::syntax::item_of;
use crate::syntax::parse_item;
use crate::syntax::source_of;
use crate::syntax::Source;
use crate::tags::first_missing;
use crate::tags::require_reasons;
use crate::tags::spec_names;
use crate::tags::specs_view;
use crate::tags::tag_list;
use crate::tags::TagList;
use crate::tags::TagSpec;
use crate::tags::TagSpecView;
use crate::token::append;
use crate::token::comma_separated;
use crate::token::group;
use crate::token::idents_view;
use crate::token::joint;
use crate::token::punct;
use crate::token::push_group;
use crate::token::push_ident;
use crate::token::push_joint;
use crate::token::push_punct;
use crate::token::push_str;
use crate::token::push_word;
use crate::token::separate;
use crate::token::token_view;
use crate::token::tokens_view;
use crate::token::trees_of;
use crate::token::word;
use crate::token::Delimiter;
use crate::token::Ident;
use crate::token::IdentView;
use crate::token::Token;
use crate::token::TokenView;
use crate::walk::visited_codes;

verus! {

/// The package's name as a part of an identifier.
pub open spec fn crate_text(package: Seq<char>) -> Seq<char> {
    package.map_values(
        |c: char|
            if c == '-' || c == '.' {
                '_'
            } else {
                c
            },
    )
}

/// Writes a package's name as a part of an identifier.
fn crate_name(package: &str) -> (krate: String)
    ensures
        krate@ == crate_text(package@),
{
    let n = package.unicode_len();
    let mut krate = String::new();
    let mut i: usize = 0;
    while i < n
        invariant
            i <= n,
            n == package@.len(),
            krate@ == crate_text(package@).take(i as int),
        decreases n - i,
    {
        let c = package.get_char(i);
        proof {
            reveal_strlit("_");
        }
        if c == '-' || c == '.' {
            krate.append("_");
        } else {
            krate.append(package.substring_char(i, i + 1));
        }
        proof {
            assert(krate@ =~= crate_text(package@).take(i + 1));
        }
        i += 1;
    }
    proof {
        assert(crate_text(package@).take(n as int) == crate_text(package@));
    }
    krate
}

/// The error for the first parameter that cannot be passed on by its name.
pub open spec fn first_unforwardable(inputs: Seq<FnArgView>) -> Option<Seq<MessageView>>
    decreases inputs.len(),
{
    if inputs.len() == 0 {
        None
    } else {
        match inputs[0] {
            FnArgView::Receiver(extent) => Some(
                error_over(
                    extent,
                    "this minimal implementation does not support methods (`self`)"@,
                ),
            ),
            FnArgView::Pattern(extent) => Some(
                error_over(
                    extent,
                    "this minimal implementation only supports plain identifier parameters"@,
                ),
            ),
            FnArgView::Plain(_) => first_unforwardable(inputs.drop_first()),
        }
    }
}

/// The names of the parameters that have one.
pub open spec fn forwarded(inputs: Seq<FnArgView>) -> Seq<TokenView>
    decreases inputs.len(),
{
    if inputs.len() == 0 {
        Seq::empty()
    } else {
        let before = forwarded(inputs.drop_last());
        match inputs.last() {
            FnArgView::Plain(ident) => before.push(TokenView::Ident(ident)),
            _ => before,
        }
    }
}

/// The names of the type and const parameters.
pub open spec fn generic_args(generics: Seq<GenericParamView>) -> Seq<TokenView>
    decreases generics.len(),
{
    if generics.len() == 0 {
        Seq::empty()
    } else {
        let before = generic_args(generics.drop_last());
        match generics.last() {
            GenericParamView::Type(ident) => before.push(TokenView::Ident(ident)),
            GenericParamView::Const(ident) => before.push(TokenView::Ident(ident)),
            GenericParamView::Lifetime => before,
        }
    }
}

/// The names of the parameters, or why one cannot be passed on.
fn forward(inputs: &Vec<FnArg>) -> (r: Result<Vec<Token>, Diagnostic>)
    ensures
        match (r, first_unforwardable(inputs_view(inputs@))) {
            (Ok(args), None) => tokens_view(args@) == forwarded(inputs_view(inputs@)),
            (Err(error), Some(view)) => error@ == view,
            _ => false,
        },
{
    let ghost all = inputs_view(inputs@);
    let mut args: Vec<Token> = Vec::new();
    let mut i: usize = 0;
    proof {
        assert(all.skip(0) == all);
        assert(tokens_view(args@) =~= forwarded(all.take(0)));
    }
    while i < inputs.len()
        invariant
            i <= inputs@.len(),
            all == inputs_view(inputs@),
            first_unforwardable(all) == first_unforwardable(all.skip(i as int)),
            tokens_view(args@) == forwarded(all.take(i as int)),
        decreases inputs@.len() - i,
    {
        proof {
            assert(all.skip(i as int)[0] == inputs@[i as int]@);
            assert(all.skip(i as int).drop_first() == all.skip(i + 1));
            assert(all.take(i + 1).drop_last() == all.take(i as int));
            assert(all.take(i + 1).last() == inputs@[i as int]@);
        }
        match &inputs[i] {
            FnArg::Receiver(extent) => {
                return Err(
                    Diagnostic::new_spanned(
                        *extent,
                        "this minimal implementation does not support methods (`self`)".to_owned(),
                    ),
                );
            },
            FnArg::Plain(ident) => push_ident(&mut args, ident),
            FnArg::Pattern(extent) => {
                return Err(
                    Diagnostic::new_spanned(
                        *extent,
                        "this minimal implementation only supports plain identifier parameters".to_owned(),
                    ),
                );
            },
        }
        i += 1;
    }
    proof {
        assert(all.take(i as int) == all);
    }
    Ok(args)
}

/// Writes the names of the type and const parameters.
fn write_generic_args(generics: &Vec<GenericParam>) -> (args: Vec<Token>)
    ensures
        tokens_view(args@) == generic_args(generics_view(generics@)),
{
    let ghost all = generics_view(generics@);
    let mut args: Vec<Token> = Vec::new();
    let mut i: usize = 0;
    proof {
        assert(tokens_view(args@) =~= generic_args(all.take(0)));
    }
    while i < generics.len()
        invariant
            i <= generics@.len(),
            all == generics_view(generics@),
            tokens_view(args@) == generic_args(all.take(i as int)),
        decreases generics@.len() - i,
    {
        proof {
            assert(all.take(i + 1).drop_last() == all.take(i as int));
            assert(all.take(i + 1).last() == generics@[i as int]@);
        }
        match &generics[i] {
            GenericParam::Type(ident) => push_ident(&mut args, ident),
            GenericParam::Const(ident) => push_ident(&mut args, ident),
            GenericParam::Lifetime => {},
        }
        i += 1;
    }
    proof {
        assert(all.take(i as int) == all);
    }
    args
}

/// `#[tokens]`.
pub open spec fn attribute(tokens: Seq<TokenView>, span: Span) -> Seq<TokenView> {
    seq![punct('#', span), group(Delimiter::Bracket, tokens, span)]
}

/// `#[name(tokens)]`.
pub open spec fn list_attribute(name: Seq<char>, tokens: Seq<TokenView>, span: Span) -> Seq<
    TokenView,
> {
    attribute(seq![word(name, span), group(Delimiter::Parenthesis, tokens, span)], span)
}

/// `#[doc = "line"]`.
pub open spec fn doc_attribute(line: Seq<char>, span: Span) -> Seq<TokenView> {
    attribute(seq![word("doc"@, span), punct('=', span), TokenView::Str(line, span)], span)
}

/// `#[allow(dead_code, non_snake_case)] fn __safety_delegates_<Tag>() {}`
pub open spec fn marker_fn(tag: IdentView, span: Span) -> Seq<TokenView> {
    list_attribute(
        "allow"@,
        seq![word("dead_code"@, span), punct(',', span), word("non_snake_case"@, span)],
        span,
    ) + seq![
        word("fn"@, span),
        word(marker_text(tag.text), tag.span),
        group(Delimiter::Parenthesis, Seq::empty(), span),
        group(Delimiter::Brace, Seq::empty(), span),
    ]
}

/// One marker for each of the tags.
pub open spec fn marker_fns(tags: Seq<IdentView>, span: Span) -> Seq<TokenView>
    decreases tags.len(),
{
    if tags.len() == 0 {
        Seq::empty()
    } else {
        marker_fns(tags.drop_last(), span) + marker_fn(tags.last(), span)
    }
}

/// The symbol for a tag.
pub open spec fn poison(
    krate: Seq<char>,
    name: IdentView,
    tag: IdentView,
) -> TokenView {
    word(poison_text(krate, name.text, tag.text), name.span)
}

/// `fn <symbol>();` for each of the tags.
pub open spec fn poison_decls(
    krate: Seq<char>,
    name: IdentView,
    tags: Seq<IdentView>,
    span: Span,
) -> Seq<TokenView>
    decreases tags.len(),
{
    if tags.len() == 0 {
        Seq::empty()
    } else {
        poison_decls(krate, name, tags.drop_last(), span) + seq![
            word("fn"@, span),
            poison(krate, name, tags.last()),
            group(Delimiter::Parenthesis, Seq::empty(), span),
            punct(';', span),
        ]
    }
}

/// `<symbol>();` for each of the tags.
pub open spec fn poison_calls(
    krate: Seq<char>,
    name: IdentView,
    tags: Seq<IdentView>,
    span: Span,
) -> Seq<TokenView>
    decreases tags.len(),
{
    if tags.len() == 0 {
        Seq::empty()
    } else {
        poison_calls(krate, name, tags.drop_last(), span) + seq![
            poison(krate, name, tags.last()),
            group(Delimiter::Parenthesis, Seq::empty(), span),
            punct(';', span),
        ]
    }
}

/// The line of documentation for a tag.
pub open spec fn tag_line(spec: TagSpecView) -> Seq<char> {
    let reason = match spec.reason {
        Some(reason) => reason,
        None => Seq::empty(),
    };
    " - **`"@ + spec.name.text + "`** — "@ + reason
}

/// A line of documentation for each of the tags.
pub open spec fn tag_docs(specs: Seq<TagSpecView>, span: Span) -> Seq<TokenView>
    decreases specs.len(),
{
    if specs.len() == 0 {
        Seq::empty()
    } else {
        tag_docs(specs.drop_last(), span) + doc_attribute(tag_line(specs.last()), span)
    }
}

/// The attributes that the public function gets behind its own: the
/// documentation of the tags, and what keeps it from being compiled unless it
/// is called.
pub open spec fn wrapper_attributes(specs: Seq<TagSpecView>, span: Span) -> Seq<TokenView> {
    doc_attribute(""@, span) + doc_attribute(" # Safety"@, span) + doc_attribute(
        " Callers must discharge each tag with `#[safety::checked(..)]`:"@,
        span,
    ) + tag_docs(specs, span) + list_attribute(
        "allow"@,
        seq![word("unused_unsafe"@, span)],
        span,
    ) + list_attribute("inline"@, seq![word("always"@, span)], span)
}

/// `::<T, ...>`, or nothing without arguments.
pub open spec fn turbofish(args: Seq<TokenView>, span: Span) -> Seq<TokenView> {
    if args.len() == 0 {
        Seq::empty()
    } else {
        seq![joint(':', span), punct(':', span), punct('<', span)] + comma_separated(
            args,
            span,
        ).push(punct('>', span))
    }
}

/// `name::hidden::<T, ...>(arg, ...)`
pub open spec fn forwarding_call(func: FunctionView, hidden: IdentView, span: Span) -> Seq<
    TokenView,
> {
    seq![
        TokenView::Ident(func.ident),
        joint(':', span),
        punct(':', span),
        TokenView::Ident(hidden),
    ] + turbofish(generic_args(func.generics), span) + seq![
        group(
            Delimiter::Parenthesis,
            comma_separated(forwarded(func.inputs), span),
            span,
        ),
    ]
}

/// The body of the public function: declare and call the symbol for each tag,
/// then pass everything on to the hidden entry point.
pub open spec fn wrapper_body(
    func: FunctionView,
    tags: Seq<IdentView>,
    hidden: IdentView,
    krate: Seq<char>,
    span: Span,
) -> Seq<TokenView> {
    seq![
        word("unsafe"@, span),
        word("extern"@, span),
        TokenView::Str("C"@, span),
        group(Delimiter::Brace, poison_decls(krate, func.ident, tags, span), span),
        word("unsafe"@, span),
        group(Delimiter::Brace, poison_calls(krate, func.ident, tags, span), span),
        word("unsafe"@, span),
        group(Delimiter::Brace, forwarding_call(func, hidden, span), span),
    ]
}

/// Tokens as pieces.
pub open spec fn as_pieces(tokens: Seq<TokenView>) -> Seq<PieceView> {
    tokens.map_values(|token: TokenView| PieceView::Token(token))
}

/// `non_snake_case, clippy::missing_safety_doc`.
pub open spec fn hidden_lints(span: Span) -> Seq<TokenView> {
    seq![
        word("non_snake_case"@, span),
        punct(',', span),
        word("clippy"@, span),
        joint(':', span),
        punct(':', span),
        word("missing_safety_doc"@, span),
    ]
}

/// What stands in front of the hidden function's signature.
pub open spec fn hidden_head(span: Span) -> Seq<TokenView> {
    (list_attribute("doc"@, seq![word("hidden"@, span)], span) + list_attribute(
        "allow"@,
        hidden_lints(span),
        span,
    )).push(word("pub"@, span))
}

/// The function whose body is the real one, under the hidden name.
pub open spec fn hidden_fn(
    block: Seq<CodeView>,
    tags: Seq<IdentView>,
    hidden: IdentView,
    span: Span,
) -> Seq<PieceView> {
    as_pieces(hidden_head(span)) + seq![
        PieceView::Signature(hidden),
        PieceView::Body(
            as_pieces(marker_fns(tags, span)) + seq![PieceView::Statements(block)],
        ),
    ]
}

/// What stands in front of the enum's visibility.
pub open spec fn namespace_head(span: Span) -> Seq<TokenView> {
    list_attribute("doc"@, seq![word("hidden"@, span)], span) + list_attribute(
        "allow"@,
        seq![word("non_camel_case_types"@, span)],
        span,
    )
}

/// `enum name {} impl name`.
pub open spec fn namespace_items(name: IdentView, span: Span) -> Seq<TokenView> {
    seq![
        word("enum"@, span),
        TokenView::Ident(name),
        group(Delimiter::Brace, Seq::empty(), span),
        word("impl"@, span),
        TokenView::Ident(name),
    ]
}

/// The empty enum that shares the function's name, with the hidden function
/// on it.
pub open spec fn namespace(
    name: IdentView,
    block: Seq<CodeView>,
    tags: Seq<IdentView>,
    hidden: IdentView,
    span: Span,
) -> Seq<PieceView> {
    as_pieces(namespace_head(span)) + seq![PieceView::Visibility] + as_pieces(
        namespace_items(name, span),
    ) + seq![PieceView::Braces(hidden_fn(block, tags, hidden, span), span)]
}

/// The function under the public name.
pub open spec fn wrapper(
    func: FunctionView,
    specs: Seq<TagSpecView>,
    hidden: IdentView,
    krate: Seq<char>,
    span: Span,
) -> Seq<PieceView> {
    seq![PieceView::OuterAttributes] + as_pieces(wrapper_attributes(specs, span)) + seq![
        PieceView::Visibility,
        PieceView::Signature(func.ident),
        PieceView::Braces(
            seq![PieceView::InnerAttributes] + as_pieces(
                wrapper_body(func, spec_names(specs), hidden, krate, span),
            ),
            span,
        ),
    ]
}

/// What `#[safety::requires(..)]` makes of the function under it.
pub open spec fn requires_expansion(
    specs: Seq<TagSpecView>,
    func: FunctionView,
    package: Seq<char>,
    call_site: Span,
) -> Result<Seq<PieceView>, Seq<MessageView>> {
    let walked = visited_codes(func.block, call_site);
    if !func.unsafety {
        Err(
            error_at(
                func.fn_token,
                "#[safety::requires] may only be applied to `unsafe fn`"@,
            ),
        )
    } else if first_missing(specs, "what callers must uphold"@) is Some {
        Err(first_missing(specs, "what callers must uphold"@)->0)
    } else if walked.errors.len() > 0 {
        Err(walked.errors)
    } else if first_unforwardable(func.inputs) is Some {
        Err(first_unforwardable(func.inputs)->0)
    } else {
        let func = FunctionView { block: walked.code, ..func };
        let tags = spec_names(specs);
        let hidden = IdentView { text: entry_point(tags), span: call_site };
        Ok(
            namespace(func.ident, func.block, tags, hidden, call_site) + wrapper(
                func,
                specs,
                hidden,
                crate_text(package),
                call_site,
            ),
        )
    }
}

/// Writes `#[tokens]` behind what `out` holds.
fn push_attribute(out: &mut Vec<Token>, tokens: Vec<Token>, span: Span)
    ensures
        tokens_view(final(out)@) == tokens_view(old(out)@) + attribute(tokens_view(tokens@), span),
{
    push_punct(out, '#', span);
    push_group(out, Delimiter::Bracket, tokens, span);
    proof {
        assert(tokens_view(out@) =~= tokens_view(old(out)@) + attribute(
            tokens_view(tokens@),
            span,
        ));
    }
}

/// Writes `#[name(tokens)]` behind what `out` holds.
fn push_list_attribute(out: &mut Vec<Token>, name: &str, tokens: Vec<Token>, span: Span)
    ensures
        tokens_view(final(out)@) == tokens_view(old(out)@) + list_attribute(
            name@,
            tokens_view(tokens@),
            span,
        ),
{
    let mut meta: Vec<Token> = Vec::new();
    push_word(&mut meta, name, span);
    push_group(&mut meta, Delimiter::Parenthesis, tokens, span);
    proof {
        assert(tokens_view(meta@) =~= seq![
            word(name@, span),
            group(Delimiter::Parenthesis, tokens_view(tokens@), span),
        ]);
    }
    push_attribute(out, meta, span);
}

/// Writes `#[name(arg)]` behind what `out` holds.
fn push_word_attribute(out: &mut Vec<Token>, name: &str, arg: &str, span: Span)
    ensures
        tokens_view(final(out)@) == tokens_view(old(out)@) + list_attribute(
            name@,
            seq![word(arg@, span)],
            span,
        ),
{
    let mut args: Vec<Token> = Vec::new();
    push_word(&mut args, arg, span);
    proof {
        assert(tokens_view(args@) =~= seq![word(arg@, span)]);
    }
    push_list_attribute(out, name, args, span);
}

/// Writes `#[doc = "line"]` behind what `out` holds.
fn push_doc(out: &mut Vec<Token>, line: &str, span: Span)
    ensures
        tokens_view(final(out)@) == tokens_view(old(out)@) + doc_attribute(line@, span),
{
    let mut meta: Vec<Token> = Vec::new();
    push_word(&mut meta, "doc", span);
    push_punct(&mut meta, '=', span);
    push_str(&mut meta, line, span);
    proof {
        assert(tokens_view(meta@) =~= seq![
            word("doc"@, span),
            punct('=', span),
            TokenView::Str(line@, span),
        ]);
    }
    push_attribute(out, meta, span);
}

/// Writes the marker for a tag behind what `out` holds.
fn push_marker(out: &mut Vec<Token>, tag: &Ident, span: Span)
    ensures
        tokens_view(final(out)@) == tokens_view(old(out)@) + marker_fn(tag@, span),
{
    let mut lints: Vec<Token> = Vec::new();
    push_word(&mut lints, "dead_code", span);
    push_punct(&mut lints, ',', span);
    push_word(&mut lints, "non_snake_case", span);
    push_list_attribute(out, "allow", lints, span);
    push_word(out, "fn", span);
    push_ident(out, &marker_ident(tag));
    push_group(out, Delimiter::Parenthesis, Vec::new(), span);
    push_group(out, Delimiter::Brace, Vec::new(), span);
    proof {
        assert(tokens_view(lints@) =~= seq![
            word("dead_code"@, span),
            punct(',', span),
            word("non_snake_case"@, span),
        ]);
        assert(tokens_view(Seq::<Token>::empty()) =~= Seq::empty());
        assert(tokens_view(out@) =~= tokens_view(old(out)@) + marker_fn(tag@, span));
    }
}

/// Writes one marker for each of the tags.
fn write_markers(tags: &Vec<Ident>, span: Span) -> (out: Vec<Token>)
    ensures
        tokens_view(out@) == marker_fns(idents_view(tags@), span),
{
    let ghost all = idents_view(tags@);
    let mut out: Vec<Token> = Vec::new();
    let mut i: usize = 0;
    proof {
        assert(tokens_view(out@) =~= marker_fns(all.take(0), span));
    }
    while i < tags.len()
        invariant
            i <= tags@.len(),
            all == idents_view(tags@),
            tokens_view(out@) == marker_fns(all.take(i as int), span),
        decreases tags@.len() - i,
    {
        proof {
            assert(all.take(i + 1).drop_last() == all.take(i as int));
            assert(all.take(i + 1).last() == tags@[i as int]@);
        }
        push_marker(&mut out, &tags[i], span);
        i += 1;
    }
    proof {
        assert(all.take(i as int) == all);
    }
    out
}

/// Writes `fn <symbol>();` for each of the tags.
fn write_poison_decls(krate: &str, name: &Ident, tags: &Vec<Ident>, span: Span) -> (out: Vec<Token>)
    ensures
        tokens_view(out@) == poison_decls(krate@, name@, idents_view(tags@), span),
{
    let ghost all = idents_view(tags@);
    let mut out: Vec<Token> = Vec::new();
    let mut i: usize = 0;
    proof {
        assert(tokens_view(out@) =~= poison_decls(krate@, name@, all.take(0), span));
    }
    while i < tags.len()
        invariant
            i <= tags@.len(),
            all == idents_view(tags@),
            tokens_view(out@) == poison_decls(krate@, name@, all.take(i as int), span),
        decreases tags@.len() - i,
    {
        proof {
            assert(all.take(i + 1).drop_last() == all.take(i as int));
            assert(all.take(i + 1).last() == tags@[i as int]@);
            assert(tokens_view(Seq::<Token>::empty()) =~= Seq::empty());
        }
        push_word(&mut out, "fn", span);
        push_ident(&mut out, &poison_ident(krate, name, &tags[i]));
        push_group(&mut out, Delimiter::Parenthesis, Vec::new(), span);
        push_punct(&mut out, ';', span);
        proof {
            assert(tokens_view(out@) =~= poison_decls(krate@, name@, all.take(i + 1), span));
        }
        i += 1;
    }
    proof {
        assert(all.take(i as int) == all);
    }
    out
}

/// Writes `<symbol>();` for each of the tags.
fn write_poison_calls(krate: &str, name: &Ident, tags: &Vec<Ident>, span: Span) -> (out: Vec<Token>)
    ensures
        tokens_view(out@) == poison_calls(krate@, name@, idents_view(tags@), span),
{
    let ghost all = idents_view(tags@);
    let mut out: Vec<Token> = Vec::new();
    let mut i: usize = 0;
    proof {
        assert(tokens_view(out@) =~= poison_calls(krate@, name@, all.take(0), span));
    }
    while i < tags.len()
        invariant
            i <= tags@.len(),
            all == idents_view(tags@),
            tokens_view(out@) == poison_calls(krate@, name@, all.take(i as int), span),
        decreases tags@.len() - i,
    {
        proof {
            assert(all.take(i + 1).drop_last() == all.take(i as int));
            assert(all.take(i + 1).last() == tags@[i as int]@);
            assert(tokens_view(Seq::<Token>::empty()) =~= Seq::empty());
        }
        push_ident(&mut out, &poison_ident(krate, name, &tags[i]));
        push_group(&mut out, Delimiter::Parenthesis, Vec::new(), span);
        push_punct(&mut out, ';', span);
        proof {
            assert(tokens_view(out@) =~= poison_calls(krate@, name@, all.take(i + 1), span));
        }
        i += 1;
    }
    proof {
        assert(all.take(i as int) == all);
    }
    out
}

/// Writes a line of documentation for each of the tags behind what `out`
/// holds.
fn push_tag_docs(out: &mut Vec<Token>, specs: &Vec<TagSpec>, span: Span)
    ensures
        tokens_view(final(out)@) == tokens_view(old(out)@) + tag_docs(specs_view(specs@), span),
{
    let ghost before = tokens_view(out@);
    let ghost all = specs_view(specs@);
    let mut i: usize = 0;
    proof {
        assert(before + tag_docs(all.take(0), span) =~= before);
    }
    while i < specs.len()
        invariant
            i <= specs@.len(),
            all == specs_view(specs@),
            tokens_view(out@) == before + tag_docs(all.take(i as int), span),
        decreases specs@.len() - i,
    {
        let mut line = " - **`".to_owned();
        line.append(specs[i].name.text.as_str());
        line.append("`** — ");
        match &specs[i].reason {
            Some(reason) => line.append(reason.as_str()),
            None => {},
        }
        proof {
            let next = all.take(i + 1);
            assert(next.drop_last() == all.take(i as int));
            assert(next.last() == specs@[i as int]@);
            assert(line@ =~= tag_line(next.last()));
            assert((before + tag_docs(all.take(i as int), span)) + doc_attribute(line@, span)
                =~= before + tag_docs(next, span));
        }
        push_doc(out, line.as_str(), span);
        i += 1;
    }
    proof {
        assert(all.take(i as int) == all);
    }
}

/// Writes the attributes that the public function gets behind its own.
fn write_wrapper_attributes(specs: &Vec<TagSpec>, span: Span) -> (out: Vec<Token>)
    ensures
        tokens_view(out@) == wrapper_attributes(specs_view(specs@), span),
{
    let mut out: Vec<Token> = Vec::new();
    // Auto-generated safety docs from the tag reasons. Appending after the
    // user's own docs; also satisfies clippy::missing_safety_doc.
    push_doc(&mut out, "", span);
    proof {
        assert(tokens_view(out@) =~= doc_attribute(""@, span));
    }
    push_doc(&mut out, " # Safety", span);
    push_doc(
        &mut out,
        " Callers must discharge each tag with `#[safety::checked(..)]`:",
        span,
    );
    push_tag_docs(&mut out, specs, span);
    push_word_attribute(&mut out, "allow", "unused_unsafe", span);
    // critical: codegen only if actually called
    push_word_attribute(&mut out, "inline", "always", span);
    out
}

/// Writes the call that passes everything on to the hidden entry point.
fn write_forwarding_call(
    func: &Function,
    args: Vec<Token>,
    hidden: &Ident,
    span: Span,
) -> (out: Vec<Token>)
    requires
        tokens_view(args@) == forwarded(func@.inputs),
    ensures
        tokens_view(out@) == forwarding_call(func@, hidden@, span),
{
    let mut out: Vec<Token> = Vec::new();
    push_ident(&mut out, &func.ident);
    push_joint(&mut out, ':', span);
    push_punct(&mut out, ':', span);
    push_ident(&mut out, hidden);
    // Explicit turbofish so forwarding works even when a type/const parameter
    // is not inferrable from the value arguments.
    let params = write_generic_args(&func.generics);
    let ghost path = tokens_view(out@);
    let ghost generics = generic_args(func@.generics);
    if params.len() > 0 {
        push_joint(&mut out, ':', span);
        push_punct(&mut out, ':', span);
        push_punct(&mut out, '<', span);
        append(&mut out, separate(params, span));
        push_punct(&mut out, '>', span);
    }
    proof {
        assert(generics.len() == params@.len());
        assert(tokens_view(out@) =~= path + turbofish(generics, span));
    }
    push_group(&mut out, Delimiter::Parenthesis, separate(args, span), span);
    proof {
        assert(tokens_view(out@) =~= forwarding_call(func@, hidden@, span));
    }
    out
}

/// Adds tokens behind the pieces in `out`.
fn push_tokens(out: &mut Vec<Piece>, tokens: Vec<Token>)
    ensures
        pieces_view(final(out)@) == pieces_view(old(out)@) + as_pieces(tokens_view(tokens@)),
    decreases tokens@.len(),
{
    let ghost all = tokens_view(tokens@);
    let mut tokens = tokens;
    match tokens.pop() {
        Some(last) => {
            push_tokens(out, tokens);
            push_piece(out, Piece::Token(last));
            proof {
                assert(tokens_view(tokens@) =~= all.drop_last());
                assert(token_view(last) == all.last());
            }
        },
        None => {},
    }
    proof {
        assert(pieces_view(out@) =~= pieces_view(old(out)@) + as_pieces(all));
    }
}

/// Writes the function whose body is the real one, under the hidden name.
fn write_hidden_fn(block: Vec<Code>, tags: &Vec<Ident>, hidden: Ident, span: Span) -> (out: Vec<
    Piece,
>)
    ensures
        pieces_view(out@) == hidden_fn(codes_view(block@), idents_view(tags@), hidden@, span),
{
    let mut lints: Vec<Token> = Vec::new();
    push_word(&mut lints, "non_snake_case", span);
    push_punct(&mut lints, ',', span);
    push_word(&mut lints, "clippy", span);
    push_joint(&mut lints, ':', span);
    push_punct(&mut lints, ':', span);
    push_word(&mut lints, "missing_safety_doc", span);
    let mut head: Vec<Token> = Vec::new();
    push_word_attribute(&mut head, "doc", "hidden", span);
    push_list_attribute(&mut head, "allow", lints, span);
    // reachability bounded by the enum's vis
    push_word(&mut head, "pub", span);
    let mut body: Vec<Piece> = Vec::new();
    push_tokens(&mut body, write_markers(tags, span));
    push_piece(&mut body, Piece::Statements(block));
    let mut out: Vec<Piece> = Vec::new();
    push_tokens(&mut out, head);
    push_piece(&mut out, Piece::Signature(hidden));
    push_piece(&mut out, Piece::Body(body));
    proof {
        assert(tokens_view(lints@) =~= hidden_lints(span));
        assert(tokens_view(head@) =~= hidden_head(span));
        assert(pieces_view(body@) =~= as_pieces(marker_fns(idents_view(tags@), span)) + seq![
            PieceView::Statements(codes_view(block@)),
        ]);
        assert(pieces_view(out@) =~= hidden_fn(
            codes_view(block@),
            idents_view(tags@),
            hidden@,
            span,
        ));
    }
    out
}

/// Adds the empty enum that shares the function's name, with the hidden
/// function on it, behind the pieces in `out`.
fn push_namespace(
    out: &mut Vec<Piece>,
    name: &Ident,
    block: Vec<Code>,
    tags: &Vec<Ident>,
    hidden: Ident,
    span: Span,
)
    ensures
        pieces_view(final(out)@) == pieces_view(old(out)@) + namespace(
            name@,
            codes_view(block@),
            idents_view(tags@),
            hidden@,
            span,
        ),
{
    // The empty enum occupies only the type namespace, so it coexists with
    // the wrapper fn (value namespace) under one name, and any `use` of the
    // public fn imports both.
    let mut head: Vec<Token> = Vec::new();
    push_word_attribute(&mut head, "doc", "hidden", span);
    push_word_attribute(&mut head, "allow", "non_camel_case_types", span);
    let mut items: Vec<Token> = Vec::new();
    push_word(&mut items, "enum", span);
    push_ident(&mut items, name);
    push_group(&mut items, Delimiter::Brace, Vec::new(), span);
    push_word(&mut items, "impl", span);
    push_ident(&mut items, name);
    proof {
        assert(tokens_view(head@) =~= namespace_head(span));
        assert(tokens_view(Seq::<Token>::empty()) =~= Seq::empty());
        assert(tokens_view(items@) =~= namespace_items(name@, span));
    }
    let hidden_fn = write_hidden_fn(block, tags, hidden, span);
    push_tokens(out, head);
    push_piece(out, Piece::Visibility);
    push_tokens(out, items);
    push_piece(out, Piece::Braces(hidden_fn, span));
    proof {
        assert(pieces_view(out@) =~= pieces_view(old(out)@) + namespace(
            name@,
            codes_view(block@),
            idents_view(tags@),
            hidden@,
            span,
        ));
    }
}

/// Writes the body of the public function.
fn write_wrapper_body(
    func: &Function,
    tags: &Vec<Ident>,
    args: Vec<Token>,
    hidden: &Ident,
    krate: &str,
    span: Span,
) -> (out: Vec<Token>)
    requires
        tokens_view(args@) == forwarded(func@.inputs),
    ensures
        tokens_view(out@) == wrapper_body(func@, idents_view(tags@), hidden@, krate@, span),
{
    // These are *references only*; nothing ever defines them, so name
    // collisions across crates/modules are benign (diagnostics merge).
    let decls = write_poison_decls(krate, &func.ident, tags, span);
    let calls = write_poison_calls(krate, &func.ident, tags, span);
    let forwarding = write_forwarding_call(func, args, hidden, span);
    let mut out: Vec<Token> = Vec::new();
    push_word(&mut out, "unsafe", span);
    push_word(&mut out, "extern", span);
    push_str(&mut out, "C", span);
    push_group(&mut out, Delimiter::Brace, decls, span);
    push_word(&mut out, "unsafe", span);
    push_group(&mut out, Delimiter::Brace, calls, span);
    push_word(&mut out, "unsafe", span);
    push_group(&mut out, Delimiter::Brace, forwarding, span);
    proof {
        assert(tokens_view(out@) =~= wrapper_body(
            func@,
            idents_view(tags@),
            hidden@,
            krate@,
            span,
        ));
    }
    out
}

/// Moves a function's body into the hidden entry point for its tags, and puts
/// a function that leaves an undefined symbol for each tag under its name.
pub fn expand_requires(specs: Vec<TagSpec>, func: Function, package: &str, call_site: Span) -> (r:
    Result<Vec<Piece>, Diagnostic>)
    ensures
        match (r, requires_expansion(specs_view(specs@), func@, package@, call_site)) {
            (Ok(pieces), Ok(view)) => pieces_view(pieces@) == view,
            (Err(error), Err(view)) => error@ == view,
            _ => false,
        },
{
    if !func.unsafety {
        return Err(
            Diagnostic::new(
                func.fn_token,
                "#[safety::requires] may only be applied to `unsafe fn`".to_owned(),
            ),
        );
    }
    // Reasons are mandatory on the requiring side: they *define* the
    // invariant and become the auto-generated `# Safety` docs.
    if let Err(error) = require_reasons(&specs, "what callers must uphold") {
        return Err(error);
    }
    let mut tags: Vec<Ident> = Vec::new();
    collect_names(&specs, &mut tags);
    let ghost names = spec_names(specs_view(specs@));
    proof {
        assert(idents_view(tags@) =~= names);
    }
    // This fn may itself contain checked call sites (e.g. when delegating).
    let mut func = func;
    if let Err(error) = expand_body_checks(&mut func, call_site) {
        return Err(error);
    }
    let ghost view = func@;
    let args = match forward(&func.inputs) {
        Ok(args) => args,
        Err(error) => return Err(error),
    };
    let hidden = hidden_ident(tags.as_slice(), call_site);
    let krate = crate_name(package);
    let attributes = write_wrapper_attributes(&specs, call_site);
    let tokens = write_wrapper_body(&func, &tags, args, &hidden, krate.as_str(), call_site);
    let mut pieces: Vec<Piece> = Vec::new();
    let ghost hidden_view = hidden@;
    proof {
        assert(pieces_view(pieces@) =~= Seq::empty());
    }
    push_namespace(&mut pieces, &func.ident, func.block, &tags, hidden, call_site);
    let mut body: Vec<Piece> = Vec::new();
    push_piece(&mut body, Piece::InnerAttributes);
    push_tokens(&mut body, tokens);
    push_piece(&mut pieces, Piece::OuterAttributes);
    push_tokens(&mut pieces, attributes);
    push_piece(&mut pieces, Piece::Visibility);
    push_piece(&mut pieces, Piece::Signature(func.ident));
    push_piece(&mut pieces, Piece::Braces(body, call_site));
    proof {
        assert(pieces_view(body@) =~= seq![PieceView::InnerAttributes] + as_pieces(
            wrapper_body(view, names, hidden_view, krate@, call_site),
        ));
        assert(pieces_view(pieces@) =~= namespace(
            view.ident,
            view.block,
            names,
            hidden_view,
            call_site,
        ) + wrapper(view, specs_view(specs@), hidden_view, krate@, call_site));
    }
    Ok(pieces)
}

/// What `#[safety::requires(..)]` makes of its arguments and of the item
/// under it.
pub open spec fn requires_attribute_expansion(
    attr: Seq<TokenView>,
    item: Result<FunctionView, syn::Error>,
    package: Seq<char>,
    call_site: Span,
) -> Result<Seq<PieceView>, Seq<MessageView>> {
    match tag_list(lexemes_of(attr), call_site) {
        Err(error) => Err(error),
        Ok(specs) => match item {
            Err(error) => Err(seq![MessageView::Syntax(error)]),
            Ok(func) => requires_expansion(specs, func, package, call_site),
        },
    }
}

/// Expands a function of the package `package` under
/// `#[safety::requires(Tag = "...", ...)]`, where `item` is what the Rust
/// grammar made of the tokens under the attribute.
pub fn requires_parsed(
    attr: TokenStream,
    item: Result<Function, syn::Error>,
    package: &str,
    call_site: Span,
) -> (r: Result<Vec<Piece>, Diagnostic>)
    ensures
        ({
            let view = match item {
                Ok(func) => Ok(func@),
                Err(error) => Err(error),
            };
            match (r, requires_attribute_expansion(trees_of(attr), view, package@, call_site)) {
                (Ok(pieces), Ok(view)) => pieces_view(pieces@) == view,
                (Err(error), Err(view)) => error@ == view,
                _ => false,
            }
        }),
{
    let tags = match TagList::parse(attr, call_site) {
        Ok(tags) => tags,
        Err(error) => return Err(error),
    };
    match item {
        Ok(func) => expand_requires(tags.0, func, package, call_site),
        Err(error) => Err(Diagnostic::syntax(error)),
    }
}

/// `#[safety::requires(Tag = "...", ...)]` on an `unsafe fn` of the package
/// `package`.
///
/// With the expansion comes the function's own syntax, which the pieces refer
/// to. Of tokens that are no function, the error is the one that the Rust
/// grammar gives.
pub fn requires_attribute(
    attr: TokenStream,
    item: TokenStream,
    package: &str,
    call_site: Span,
) -> (r: Result<(Vec<Piece>, Source), Diagnostic>)
    ensures
        match item_of(trees_of(item), call_site) {
            Some(func) => match (
                r,
                requires_attribute_expansion(trees_of(attr), Ok(func), package@, call_site),
            ) {
                (Ok((pieces, source)), Ok(view)) => pieces_view(pieces@) == view && source
                    == source_of(trees_of(item), call_site),
                (Err(error), Err(view)) => error@ == view,
                _ => false,
            },
            None => r matches Err(error) && exists|said: syn::Error|
                #[trigger] requires_attribute_expansion(
                    trees_of(attr),
                    Err(said),
                    package@,
                    call_site,
                ) == Err::<Seq<PieceView>, _>(error@),
        },
{
    match parse_item(item, call_site) {
        Ok((func, source)) => match requires_parsed(attr, Ok(func), package, call_site) {
            Ok(pieces) => Ok((pieces, source)),
            Err(error) => Err(error),
        },
        Err(said) => match requires_parsed(attr, Err(said), package, call_site) {
            Ok(_) => vstd::pervasive::unreached(),
            Err(error) => Err(error),
        },
    }
}

} // verus!
