//! What the expansion of `#[safety::requires(..)]` holds, piece by piece.
use proc_macro2::Span;
use vstd::prelude::*;

use crate::code::CodeView;
use crate::expand::as_pieces;
use crate::expand::crate_text;
use crate::expand::forwarded;
use crate::expand::forwarding_call;
use crate::expand::generic_args;
use crate::expand::hidden_fn;
use crate::expand::hidden_head;
use crate::expand::marker_fns;
use crate::expand::namespace;
use crate::expand::poison_calls;
use crate::expand::poison_decls;
use crate::expand::requires_expansion;
use crate::expand::tag_docs;
use crate::expand::turbofish;
use crate::expand::wrapper;
use crate::expand::wrapper_attributes;
use crate::expand::wrapper_body;
use crate::item::FunctionView;
use crate::item::GenericParamView;
use crate::item::PieceView;
use crate::laws::expansion::law_every_parameter_is_passed_on;
use crate::laws::expansion::law_when_a_function_is_expanded;
use crate::laws::tokens::a_joint;
use crate::laws::tokens::a_punct;
use crate::laws::tokens::a_word;
use crate::laws::tokens::in_braces;
use crate::laws::tokens::in_brackets;
use crate::laws::tokens::in_parens;
use crate::laws::tokens::law_commas_stand_between_tokens;
use crate::names::entry_point;
use crate::names::fragment;
use crate::tags::spec_names;
use crate::tags::TagSpecView;
use crate::token::comma_separated;
use crate::token::IdentView;
use crate::token::TokenView;
use crate::walk::visited_codes;

verus! {

/// A token as a piece.
pub open spec fn a_piece(token: TokenView) -> PieceView {
    PieceView::Token(token)
}

/// `[name(arg)]`.
pub open spec fn word_attribute(name: Seq<char>, arg: Seq<char>, span: Span) -> TokenView {
    in_brackets(seq![a_word(name, span), in_parens(seq![a_word(arg, span)], span)], span)
}

/// `[doc = "line"]`.
pub open spec fn line_attribute(line: Seq<char>, span: Span) -> TokenView {
    in_brackets(
        seq![a_word("doc"@, span), a_punct('=', span), TokenView::Str(line, span)],
        span,
    )
}

/// The symbol for a tag of a function.
pub open spec fn symbol(package: Seq<char>, name: IdentView, tag: IdentView) -> TokenView {
    a_word(
        "SAFETY_VIOLATION__in_crate_"@ + crate_text(package) + "__unchecked_call_to_"@ + fragment(
            name.text,
        ) + "__requires_tag_"@ + fragment(tag.text),
        name.span,
    )
}

/// The parts that an expansion is made of.
proof fn lemma_parts(
    specs: Seq<TagSpecView>,
    func: FunctionView,
    package: Seq<char>,
    call_site: Span,
)
    ensures
        requires_expansion(specs, func, package, call_site) matches Ok(pieces) ==> {
            let block = visited_codes(func.block, call_site).code;
            let hidden = IdentView { text: entry_point(spec_names(specs)), span: call_site };
            pieces == namespace(func.ident, block, spec_names(specs), hidden, call_site) + wrapper(
                FunctionView { block, ..func },
                specs,
                hidden,
                crate_text(package),
                call_site,
            )
        },
{
}

proof fn lemma_namespace(
    name: IdentView,
    block: Seq<CodeView>,
    tags: Seq<IdentView>,
    hidden: IdentView,
    span: Span,
)
    ensures
        namespace(name, block, tags, hidden, span) == seq![
            a_piece(a_punct('#', span)),
            a_piece(word_attribute("doc"@, "hidden"@, span)),
            a_piece(a_punct('#', span)),
            a_piece(word_attribute("allow"@, "non_camel_case_types"@, span)),
            PieceView::Visibility,
            a_piece(a_word("enum"@, span)),
            a_piece(TokenView::Ident(name)),
            a_piece(in_braces(Seq::empty(), span)),
            a_piece(a_word("impl"@, span)),
            a_piece(TokenView::Ident(name)),
            PieceView::Braces(hidden_fn(block, tags, hidden, span), span),
        ],
{
    assert(namespace(name, block, tags, hidden, span) =~= seq![
        a_piece(a_punct('#', span)),
        a_piece(word_attribute("doc"@, "hidden"@, span)),
        a_piece(a_punct('#', span)),
        a_piece(word_attribute("allow"@, "non_camel_case_types"@, span)),
        PieceView::Visibility,
        a_piece(a_word("enum"@, span)),
        a_piece(TokenView::Ident(name)),
        a_piece(in_braces(Seq::empty(), span)),
        a_piece(a_word("impl"@, span)),
        a_piece(TokenView::Ident(name)),
        PieceView::Braces(hidden_fn(block, tags, hidden, span), span),
    ]);
}

/// The expansion begins with an empty enum of the function's name and
/// visibility, and an `impl` of it with the hidden function: hidden from the
/// documentation, public, with the function's own signature under the entry
/// point's name, and with the function's own body.
pub proof fn law_expansion_begins_with_the_namespace(
    specs: Seq<TagSpecView>,
    func: FunctionView,
    package: Seq<char>,
    call_site: Span,
)
    ensures
        requires_expansion(specs, func, package, call_site) matches Ok(pieces) ==> {
            let span = call_site;
            let hidden = pieces[10]->Braces_0;
            let body = hidden[6]->Body_0;
            &&& pieces.len() == 25 + 2 * specs.len()
            &&& pieces[0] == a_piece(a_punct('#', span))
            &&& pieces[1] == a_piece(word_attribute("doc"@, "hidden"@, span))
            &&& pieces[2] == a_piece(a_punct('#', span))
            &&& pieces[3] == a_piece(word_attribute("allow"@, "non_camel_case_types"@, span))
            &&& pieces[4] == PieceView::Visibility
            &&& pieces[5] == a_piece(a_word("enum"@, span))
            &&& pieces[6] == a_piece(TokenView::Ident(func.ident))
            &&& pieces[7] == a_piece(in_braces(Seq::empty(), span))
            &&& pieces[8] == a_piece(a_word("impl"@, span))
            &&& pieces[9] == a_piece(TokenView::Ident(func.ident))
            &&& pieces[10] == PieceView::Braces(hidden, span)
            &&& hidden.len() == 7
            &&& hidden[0] == a_piece(a_punct('#', span))
            &&& hidden[1] == a_piece(word_attribute("doc"@, "hidden"@, span))
            &&& hidden[2] == a_piece(a_punct('#', span))
            &&& hidden[3] == a_piece(
                in_brackets(
                    seq![
                        a_word("allow"@, span),
                        in_parens(
                            seq![
                                a_word("non_snake_case"@, span),
                                a_punct(',', span),
                                a_word("clippy"@, span),
                                a_joint(':', span),
                                a_punct(':', span),
                                a_word("missing_safety_doc"@, span),
                            ],
                            span,
                        ),
                    ],
                    span,
                ),
            )
            &&& hidden[4] == a_piece(a_word("pub"@, span))
            &&& hidden[5] == PieceView::Signature(
                IdentView { text: entry_point(spec_names(specs)), span },
            )
            &&& hidden[6] == PieceView::Body(body)
            &&& body.len() == 6 * specs.len() + 1
            &&& body.last() == PieceView::Statements(visited_codes(func.block, span).code)
        },
{
    if let Ok(pieces) = requires_expansion(specs, func, package, call_site) {
        let block = visited_codes(func.block, call_site).code;
        let tags = spec_names(specs);
        let hidden = IdentView { text: entry_point(tags), span: call_site };
        lemma_parts(specs, func, package, call_site);
        lemma_namespace(func.ident, block, tags, hidden, call_site);
        lemma_wrapper(
            FunctionView { block, ..func },
            specs,
            hidden,
            crate_text(package),
            call_site,
        );
        lemma_markers_len(tags, call_site);
        let inner = hidden_fn(block, tags, hidden, call_site);
        assert(pieces[10] == PieceView::Braces(inner, call_site));
        assert(hidden_head(call_site).len() == 5);
    }
}

proof fn lemma_markers_len(tags: Seq<IdentView>, span: Span)
    ensures
        marker_fns(tags, span).len() == 6 * tags.len(),
    decreases tags.len(),
{
    if tags.len() > 0 {
        lemma_markers_len(tags.drop_last(), span);
    }
}

proof fn lemma_marker_tokens(tags: Seq<IdentView>, span: Span, i: int)
    requires
        0 <= i < tags.len(),
    ensures
        marker_fns(tags, span).len() == 6 * tags.len(),
        marker_fns(tags, span).subrange(6 * i, 6 * i + 6) == seq![
            a_punct('#', span),
            in_brackets(
                seq![
                    a_word("allow"@, span),
                    in_parens(
                        seq![
                            a_word("dead_code"@, span),
                            a_punct(',', span),
                            a_word("non_snake_case"@, span),
                        ],
                        span,
                    ),
                ],
                span,
            ),
            a_word("fn"@, span),
            a_word("__safety_delegates_"@ + fragment(tags[i].text), tags[i].span),
            in_parens(Seq::empty(), span),
            in_braces(Seq::empty(), span),
        ],
    decreases tags.len(),
{
    let rest = tags.drop_last();
    lemma_markers_len(tags, span);
    lemma_markers_len(rest, span);
    let here = marker_fns(tags, span).subrange(6 * i, 6 * i + 6);
    if i < rest.len() {
        lemma_marker_tokens(rest, span, i);
        assert(rest[i] == tags[i]);
        assert(here =~= marker_fns(rest, span).subrange(6 * i, 6 * i + 6));
    } else {
        assert(here =~= seq![
            a_punct('#', span),
            in_brackets(
                seq![
                    a_word("allow"@, span),
                    in_parens(
                        seq![
                            a_word("dead_code"@, span),
                            a_punct(',', span),
                            a_word("non_snake_case"@, span),
                        ],
                        span,
                    ),
                ],
                span,
            ),
            a_word("fn"@, span),
            a_word("__safety_delegates_"@ + fragment(tags[i].text), tags[i].span),
            in_parens(Seq::empty(), span),
            in_braces(Seq::empty(), span),
        ]);
    }
}

/// The body of the hidden function holds, in front of the function's own
/// statements, a marker for each tag.
pub proof fn law_hidden_body_holds_a_marker_for_each_tag(
    specs: Seq<TagSpecView>,
    func: FunctionView,
    package: Seq<char>,
    call_site: Span,
    i: int,
)
    requires
        0 <= i < specs.len(),
    ensures
        requires_expansion(specs, func, package, call_site) matches Ok(pieces) ==> {
            let span = call_site;
            let body = pieces[10]->Braces_0[6]->Body_0;
            let tag = specs[i].name;
            &&& body[6 * i] == a_piece(a_punct('#', span))
            &&& body[6 * i + 1] == a_piece(
                in_brackets(
                    seq![
                        a_word("allow"@, span),
                        in_parens(
                            seq![
                                a_word("dead_code"@, span),
                                a_punct(',', span),
                                a_word("non_snake_case"@, span),
                            ],
                            span,
                        ),
                    ],
                    span,
                ),
            )
            &&& body[6 * i + 2] == a_piece(a_word("fn"@, span))
            &&& body[6 * i + 3] == a_piece(
                a_word("__safety_delegates_"@ + fragment(tag.text), tag.span),
            )
            &&& body[6 * i + 4] == a_piece(in_parens(Seq::empty(), span))
            &&& body[6 * i + 5] == a_piece(in_braces(Seq::empty(), span))
        },
{
    if let Ok(pieces) = requires_expansion(specs, func, package, call_site) {
        let block = visited_codes(func.block, call_site).code;
        let tags = spec_names(specs);
        let hidden = IdentView { text: entry_point(tags), span: call_site };
        lemma_parts(specs, func, package, call_site);
        lemma_namespace(func.ident, block, tags, hidden, call_site);
        lemma_marker_tokens(tags, call_site, i);
        let tokens = marker_fns(tags, call_site);
        let inner = hidden_fn(block, tags, hidden, call_site);
        assert(pieces[10] == PieceView::Braces(inner, call_site));
        assert(hidden_head(call_site).len() == 5);
        let body = as_pieces(tokens) + seq![PieceView::Statements(block)];
        assert(inner[6] == PieceView::Body(body));
        let here = tokens.subrange(6 * i, 6 * i + 6);
        assert(tokens[6 * i] == here[0]);
        assert(tokens[6 * i + 1] == here[1]);
        assert(tokens[6 * i + 2] == here[2]);
        assert(tokens[6 * i + 3] == here[3]);
        assert(tokens[6 * i + 4] == here[4]);
        assert(tokens[6 * i + 5] == here[5]);
    }
}

proof fn lemma_docs_len(specs: Seq<TagSpecView>, span: Span)
    ensures
        tag_docs(specs, span).len() == 2 * specs.len(),
    decreases specs.len(),
{
    if specs.len() > 0 {
        lemma_docs_len(specs.drop_last(), span);
    }
}

/// The line of documentation for a tag with a reason.
pub open spec fn line_of(spec: TagSpecView) -> Seq<char> {
    " - **`"@ + spec.name.text + "`** — "@ + spec.reason->0
}

proof fn lemma_doc_tokens(specs: Seq<TagSpecView>, span: Span, i: int)
    requires
        0 <= i < specs.len(),
        specs[i].reason is Some,
    ensures
        tag_docs(specs, span).len() == 2 * specs.len(),
        tag_docs(specs, span)[2 * i] == a_punct('#', span),
        tag_docs(specs, span)[2 * i + 1] == line_attribute(line_of(specs[i]), span),
    decreases specs.len(),
{
    let rest = specs.drop_last();
    lemma_docs_len(specs, span);
    lemma_docs_len(rest, span);
    if i < rest.len() {
        lemma_doc_tokens(rest, span, i);
        assert(rest[i] == specs[i]);
    }
}

/// The last pieces of an expansion, behind the documentation of the tags.
proof fn lemma_wrapper(
    func: FunctionView,
    specs: Seq<TagSpecView>,
    hidden: IdentView,
    krate: Seq<char>,
    span: Span,
)
    ensures
        ({
            let pieces = wrapper(func, specs, hidden, krate, span);
            let n = 2 * specs.len() as int;
            &&& pieces.len() == 14 + n
            &&& pieces[0] == PieceView::OuterAttributes
            &&& pieces[1] == a_piece(a_punct('#', span))
            &&& pieces[2] == a_piece(line_attribute(""@, span))
            &&& pieces[3] == a_piece(a_punct('#', span))
            &&& pieces[4] == a_piece(line_attribute(" # Safety"@, span))
            &&& pieces[5] == a_piece(a_punct('#', span))
            &&& pieces[6] == a_piece(
                line_attribute(
                    " Callers must discharge each tag with `#[safety::checked(..)]`:"@,
                    span,
                ),
            )
            &&& forall|k: int|
                0 <= k < n ==> #[trigger] pieces[7 + k] == a_piece(tag_docs(specs, span)[k])
            &&& pieces[7 + n] == a_piece(a_punct('#', span))
            &&& pieces[8 + n] == a_piece(word_attribute("allow"@, "unused_unsafe"@, span))
            &&& pieces[9 + n] == a_piece(a_punct('#', span))
            &&& pieces[10 + n] == a_piece(word_attribute("inline"@, "always"@, span))
            &&& pieces[11 + n] == PieceView::Visibility
            &&& pieces[12 + n] == PieceView::Signature(func.ident)
            &&& pieces[13 + n] == PieceView::Braces(
                seq![PieceView::InnerAttributes] + as_pieces(
                    wrapper_body(func, spec_names(specs), hidden, krate, span),
                ),
                span,
            )
        }),
{
    lemma_docs_len(specs, span);
    let n = 2 * specs.len() as int;
    let tokens = wrapper_attributes(specs, span);
    let front = seq![
        a_punct('#', span),
        line_attribute(""@, span),
        a_punct('#', span),
        line_attribute(" # Safety"@, span),
        a_punct('#', span),
        line_attribute(
            " Callers must discharge each tag with `#[safety::checked(..)]`:"@,
            span,
        ),
    ];
    let back = seq![
        a_punct('#', span),
        word_attribute("allow"@, "unused_unsafe"@, span),
        a_punct('#', span),
        word_attribute("inline"@, "always"@, span),
    ];
    assert(tokens =~= front + tag_docs(specs, span) + back);
    let pieces = wrapper(func, specs, hidden, krate, span);
    assert forall|k: int| 0 <= k < n implies #[trigger] pieces[7 + k] == a_piece(
        tag_docs(specs, span)[k],
    ) by {
        assert(tokens[6 + k] == tag_docs(specs, span)[k]);
    }
}

/// Behind the namespace stands the public function, with its own attributes,
/// the documentation of its safety, and the attributes that keep it from being
/// compiled unless it is called.
pub proof fn law_expansion_ends_with_the_public_function(
    specs: Seq<TagSpecView>,
    func: FunctionView,
    package: Seq<char>,
    call_site: Span,
)
    ensures
        requires_expansion(specs, func, package, call_site) matches Ok(pieces) ==> {
            let span = call_site;
            let n = 2 * specs.len() as int;
            &&& pieces.len() == 25 + n
            &&& pieces[11] == PieceView::OuterAttributes
            &&& pieces[12] == a_piece(a_punct('#', span))
            &&& pieces[13] == a_piece(line_attribute(""@, span))
            &&& pieces[14] == a_piece(a_punct('#', span))
            &&& pieces[15] == a_piece(line_attribute(" # Safety"@, span))
            &&& pieces[16] == a_piece(a_punct('#', span))
            &&& pieces[17] == a_piece(
                line_attribute(
                    " Callers must discharge each tag with `#[safety::checked(..)]`:"@,
                    span,
                ),
            )
            &&& pieces[18 + n] == a_piece(a_punct('#', span))
            &&& pieces[19 + n] == a_piece(word_attribute("allow"@, "unused_unsafe"@, span))
            &&& pieces[20 + n] == a_piece(a_punct('#', span))
            &&& pieces[21 + n] == a_piece(word_attribute("inline"@, "always"@, span))
            &&& pieces[22 + n] == PieceView::Visibility
            &&& pieces[23 + n] == PieceView::Signature(func.ident)
            &&& pieces[24 + n] is Braces
            &&& pieces[24 + n]->Braces_1 == span
        },
{
    if let Ok(pieces) = requires_expansion(specs, func, package, call_site) {
        let block = visited_codes(func.block, call_site).code;
        let tags = spec_names(specs);
        let hidden = IdentView { text: entry_point(tags), span: call_site };
        let walked = FunctionView { block, ..func };
        lemma_parts(specs, func, package, call_site);
        lemma_namespace(func.ident, block, tags, hidden, call_site);
        lemma_wrapper(walked, specs, hidden, crate_text(package), call_site);
    }
}

/// The public function's documentation has a line for each tag, in order, with
/// the tag's name and its reason.
pub proof fn law_public_function_documents_each_tag(
    specs: Seq<TagSpecView>,
    func: FunctionView,
    package: Seq<char>,
    call_site: Span,
    i: int,
)
    requires
        0 <= i < specs.len(),
    ensures
        requires_expansion(specs, func, package, call_site) matches Ok(pieces) ==> {
            &&& specs[i].reason is Some
            &&& pieces[18 + 2 * i] == a_piece(a_punct('#', call_site))
            &&& pieces[19 + 2 * i] == a_piece(
                line_attribute(
                    " - **`"@ + specs[i].name.text + "`** — "@ + specs[i].reason->0,
                    call_site,
                ),
            )
        },
{
    if let Ok(pieces) = requires_expansion(specs, func, package, call_site) {
        let block = visited_codes(func.block, call_site).code;
        let tags = spec_names(specs);
        let hidden = IdentView { text: entry_point(tags), span: call_site };
        let walked = FunctionView { block, ..func };
        lemma_parts(specs, func, package, call_site);
        lemma_namespace(func.ident, block, tags, hidden, call_site);
        lemma_wrapper(walked, specs, hidden, crate_text(package), call_site);
        law_when_a_function_is_expanded(specs, func, package, call_site);
        assert(specs[i].reason is Some);
        lemma_doc_tokens(specs, call_site, i);
        let second = wrapper(walked, specs, hidden, crate_text(package), call_site);
        assert(pieces[18 + 2 * i] == second[7 + (2 * i)]);
        assert(pieces[19 + 2 * i] == second[7 + (2 * i + 1)]);
    }
}

proof fn lemma_symbol_tokens(
    package: Seq<char>,
    name: IdentView,
    tags: Seq<IdentView>,
    span: Span,
    i: int,
)
    requires
        0 <= i < tags.len(),
    ensures
        ({
            let decls = poison_decls(crate_text(package), name, tags, span);
            let calls = poison_calls(crate_text(package), name, tags, span);
            &&& decls.len() == 4 * tags.len()
            &&& decls[4 * i] == a_word("fn"@, span)
            &&& decls[4 * i + 1] == symbol(package, name, tags[i])
            &&& decls[4 * i + 2] == in_parens(Seq::empty(), span)
            &&& decls[4 * i + 3] == a_punct(';', span)
            &&& calls.len() == 3 * tags.len()
            &&& calls[3 * i] == symbol(package, name, tags[i])
            &&& calls[3 * i + 1] == in_parens(Seq::empty(), span)
            &&& calls[3 * i + 2] == a_punct(';', span)
        }),
    decreases tags.len(),
{
    let rest = tags.drop_last();
    lemma_symbols_len(crate_text(package), name, tags, span);
    lemma_symbols_len(crate_text(package), name, rest, span);
    if i < rest.len() {
        lemma_symbol_tokens(package, name, rest, span, i);
        assert(rest[i] == tags[i]);
    }
}

proof fn lemma_symbols_len(krate: Seq<char>, name: IdentView, tags: Seq<IdentView>, span: Span)
    ensures
        poison_decls(krate, name, tags, span).len() == 4 * tags.len(),
        poison_calls(krate, name, tags, span).len() == 3 * tags.len(),
    decreases tags.len(),
{
    if tags.len() > 0 {
        lemma_symbols_len(krate, name, tags.drop_last(), span);
    }
}

/// The braces behind the public signature hold the function's inner attributes,
/// the declarations of the symbols, their calls in an `unsafe` block, and the
/// forwarding call in another, and nothing else.
pub proof fn law_public_function_declares_calls_and_forwards(
    specs: Seq<TagSpecView>,
    func: FunctionView,
    package: Seq<char>,
    call_site: Span,
)
    ensures
        requires_expansion(specs, func, package, call_site) matches Ok(pieces) ==> {
            let span = call_site;
            let body = pieces.last()->Braces_0;
            let decls = body[4]->Token_0->Group_tokens;
            let calls = body[6]->Token_0->Group_tokens;
            &&& pieces.last() == PieceView::Braces(body, span)
            &&& body.len() == 9
            &&& body[0] == PieceView::InnerAttributes
            &&& body[1] == a_piece(a_word("unsafe"@, span))
            &&& body[2] == a_piece(a_word("extern"@, span))
            &&& body[3] == a_piece(TokenView::Str("C"@, span))
            &&& body[4] == a_piece(in_braces(decls, span))
            &&& body[5] == a_piece(a_word("unsafe"@, span))
            &&& body[6] == a_piece(in_braces(calls, span))
            &&& body[7] == a_piece(a_word("unsafe"@, span))
            &&& body[8] == a_piece(in_braces(body[8]->Token_0->Group_tokens, span))
            &&& decls.len() == 4 * specs.len()
            &&& calls.len() == 3 * specs.len()
        },
{
    if let Ok(pieces) = requires_expansion(specs, func, package, call_site) {
        let block = visited_codes(func.block, call_site).code;
        let tags = spec_names(specs);
        let hidden = IdentView { text: entry_point(tags), span: call_site };
        let walked = FunctionView { block, ..func };
        lemma_parts(specs, func, package, call_site);
        lemma_namespace(func.ident, block, tags, hidden, call_site);
        lemma_wrapper(walked, specs, hidden, crate_text(package), call_site);
        lemma_symbols_len(crate_text(package), func.ident, tags, call_site);
        let second = wrapper(walked, specs, hidden, crate_text(package), call_site);
        assert(pieces.last() == second.last());
        let tokens = wrapper_body(walked, tags, hidden, crate_text(package), call_site);
        assert(tokens.len() == 8);
    }
}

/// For each tag the public function declares its symbol and calls it, in front
/// of the forwarding call, whatever its generics and parameters are.
pub proof fn law_public_function_calls_a_symbol_for_each_tag(
    specs: Seq<TagSpecView>,
    func: FunctionView,
    package: Seq<char>,
    call_site: Span,
    i: int,
)
    requires
        0 <= i < specs.len(),
    ensures
        requires_expansion(specs, func, package, call_site) matches Ok(pieces) ==> {
            let span = call_site;
            let body = pieces.last()->Braces_0;
            let decls = body[4]->Token_0->Group_tokens;
            let calls = body[6]->Token_0->Group_tokens;
            let tag = specs[i].name;
            &&& body[4] == a_piece(in_braces(decls, span))
            &&& body[5] == a_piece(a_word("unsafe"@, span))
            &&& body[6] == a_piece(in_braces(calls, span))
            &&& decls[4 * i] == a_word("fn"@, span)
            &&& decls[4 * i + 1] == symbol(package, func.ident, tag)
            &&& decls[4 * i + 2] == in_parens(Seq::empty(), span)
            &&& decls[4 * i + 3] == a_punct(';', span)
            &&& calls[3 * i] == symbol(package, func.ident, tag)
            &&& calls[3 * i + 1] == in_parens(Seq::empty(), span)
            &&& calls[3 * i + 2] == a_punct(';', span)
        },
{
    if let Ok(pieces) = requires_expansion(specs, func, package, call_site) {
        let block = visited_codes(func.block, call_site).code;
        let tags = spec_names(specs);
        let hidden = IdentView { text: entry_point(tags), span: call_site };
        let walked = FunctionView { block, ..func };
        lemma_parts(specs, func, package, call_site);
        lemma_namespace(func.ident, block, tags, hidden, call_site);
        lemma_wrapper(walked, specs, hidden, crate_text(package), call_site);
        lemma_symbol_tokens(package, func.ident, tags, call_site, i);
        let second = wrapper(walked, specs, hidden, crate_text(package), call_site);
        assert(pieces.last() == second.last());
        let tokens = wrapper_body(walked, tags, hidden, crate_text(package), call_site);
        assert(tokens.len() == 8);
    }
}

/// The names that a turbofish of these parameters holds: that of each type and
/// const parameter, none for a lifetime, in the order of the declaration.
pub proof fn law_generics_are_passed_on_in_order(
    front: Seq<GenericParamView>,
    back: Seq<GenericParamView>,
    ident: IdentView,
)
    ensures
        generic_args(Seq::empty()) == Seq::<TokenView>::empty(),
        generic_args(seq![GenericParamView::Lifetime]) == Seq::<TokenView>::empty(),
        generic_args(seq![GenericParamView::Type(ident)]) == seq![TokenView::Ident(ident)],
        generic_args(seq![GenericParamView::Const(ident)]) == seq![TokenView::Ident(ident)],
        generic_args(front + back) == generic_args(front) + generic_args(back),
    decreases back.len(),
{
    reveal_with_fuel(generic_args, 2);
    assert(generic_args(seq![GenericParamView::Lifetime]) =~= Seq::empty());
    assert(generic_args(seq![GenericParamView::Type(ident)]) =~= seq![TokenView::Ident(ident)]);
    assert(generic_args(seq![GenericParamView::Const(ident)]) =~= seq![TokenView::Ident(ident)]);
    if back.len() == 0 {
        assert(front + back =~= front);
    } else {
        law_generics_are_passed_on_in_order(front, back.drop_last(), ident);
        assert((front + back).drop_last() =~= front + back.drop_last());
    }
    assert(generic_args(front + back) =~= generic_args(front) + generic_args(back));
}

/// The forwarding call: the entry point on the function's name, a turbofish of
/// the generic arguments `generics` if there are any, and the arguments `args`
/// in parentheses.
pub open spec fn forwards(
    tokens: Seq<TokenView>,
    name: IdentView,
    hidden: Seq<char>,
    generics: Seq<TokenView>,
    args: TokenView,
    span: Span,
) -> bool {
    let g = 2 * generics.len() as int;
    &&& tokens[0] == TokenView::Ident(name)
    &&& tokens[1] == a_joint(':', span)
    &&& tokens[2] == a_punct(':', span)
    &&& tokens[3] == a_word(hidden, span)
    &&& generics.len() == 0 ==> tokens.len() == 5
    &&& generics.len() > 0 ==> {
        &&& tokens.len() == 8 + g
        &&& tokens[4] == a_joint(':', span)
        &&& tokens[5] == a_punct(':', span)
        &&& tokens[6] == a_punct('<', span)
        &&& tokens[6 + g] == a_punct('>', span)
    }
    &&& tokens.last() == args
}

/// The public function forwards to the entry point of its own namespace, with
/// all its type and const parameters and all its arguments.
pub proof fn law_public_function_forwards_everything(
    specs: Seq<TagSpecView>,
    func: FunctionView,
    package: Seq<char>,
    call_site: Span,
    i: int,
    j: int,
)
    ensures
        requires_expansion(specs, func, package, call_site) matches Ok(pieces) ==> {
            let span = call_site;
            let tokens = pieces.last()->Braces_0[8]->Token_0->Group_tokens;
            let generics = generic_args(func.generics);
            let args = tokens.last()->Group_tokens;
            &&& forwards(
                tokens,
                func.ident,
                entry_point(spec_names(specs)),
                generics,
                in_parens(args, span),
                span,
            )
            &&& 0 <= i < generics.len() ==> tokens[7 + 2 * i] == generics[i]
            &&& 0 <= i < generics.len() - 1 ==> tokens[8 + 2 * i] == a_punct(',', span)
            &&& func.inputs.len() == 0 ==> args.len() == 0
            &&& func.inputs.len() > 0 ==> args.len() == 2 * func.inputs.len() - 1
            &&& 0 <= j < func.inputs.len() ==> func.inputs[j] is Plain && args[2 * j]
                == TokenView::Ident(func.inputs[j]->Plain_0)
            &&& 0 <= j < func.inputs.len() - 1 ==> args[2 * j + 1] == a_punct(',', span)
        },
{
    if let Ok(pieces) = requires_expansion(specs, func, package, call_site) {
        let block = visited_codes(func.block, call_site).code;
        let tags = spec_names(specs);
        let hidden = IdentView { text: entry_point(tags), span: call_site };
        let walked = FunctionView { block, ..func };
        lemma_parts(specs, func, package, call_site);
        lemma_namespace(func.ident, block, tags, hidden, call_site);
        lemma_wrapper(walked, specs, hidden, crate_text(package), call_site);
        law_when_a_function_is_expanded(specs, func, package, call_site);
        let second = wrapper(walked, specs, hidden, crate_text(package), call_site);
        assert(pieces.last() == second.last());
        let body = wrapper_body(walked, tags, hidden, crate_text(package), call_site);
        assert(body.len() == 8);
        let tokens = forwarding_call(walked, hidden, call_site);
        assert(pieces.last()->Braces_0[8]->Token_0->Group_tokens == tokens);
        lemma_forwarding(walked, hidden, call_site, i, j);
    }
}

proof fn lemma_forwarding(
    func: FunctionView,
    hidden: IdentView,
    span: Span,
    i: int,
    j: int,
)
    requires
        hidden.span == span,
        forall|k: int| 0 <= k < func.inputs.len() ==> (#[trigger] func.inputs[k]) is Plain,
    ensures
        ({
            let tokens = forwarding_call(func, hidden, span);
            let generics = generic_args(func.generics);
            let args = tokens.last()->Group_tokens;
            &&& forwards(tokens, func.ident, hidden.text, generics, in_parens(args, span), span)
            &&& 0 <= i < generics.len() ==> tokens[7 + 2 * i] == generics[i]
            &&& 0 <= i < generics.len() - 1 ==> tokens[8 + 2 * i] == a_punct(',', span)
            &&& func.inputs.len() == 0 ==> args.len() == 0
            &&& func.inputs.len() > 0 ==> args.len() == 2 * func.inputs.len() - 1
            &&& 0 <= j < func.inputs.len() ==> func.inputs[j] is Plain && args[2 * j]
                == TokenView::Ident(func.inputs[j]->Plain_0)
            &&& 0 <= j < func.inputs.len() - 1 ==> args[2 * j + 1] == a_punct(',', span)
        }),
{
    let tokens = forwarding_call(func, hidden, span);
    let generics = generic_args(func.generics);
    let names = forwarded(func.inputs);
    let fish = turbofish(generics, span);
    law_every_parameter_is_passed_on(func.inputs);
    if generics.len() > 0 {
        law_commas_stand_between_tokens(generics, span, 0);
        assert(fish.len() == 2 * generics.len() + 3);
        assert(tokens[4] == fish[0]);
        assert(tokens[5] == fish[1]);
        assert(tokens[6] == fish[2]);
        assert(tokens[6 + 2 * generics.len() as int] == fish.last());
        if 0 <= i < generics.len() {
            law_commas_stand_between_tokens(generics, span, i);
            assert(tokens[7 + 2 * i] == fish[3 + 2 * i]);
            if i + 1 < generics.len() {
                assert(tokens[8 + 2 * i] == fish[4 + 2 * i]);
            }
        }
    }
    let args = tokens.last()->Group_tokens;
    assert(args == comma_separated(names, span));
    assert(names.len() == func.inputs.len());
    if func.inputs.len() > 0 {
        law_commas_stand_between_tokens(names, span, 0);
    }
    if 0 <= j < func.inputs.len() {
        law_commas_stand_between_tokens(names, span, j);
        assert(names[j] == TokenView::Ident(func.inputs[j]->Plain_0));
    }
}

} // verus!
