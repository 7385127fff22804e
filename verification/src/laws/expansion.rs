//! What holds of the expansion of `#[safety::requires(..)]`.
use proc_macro2::Span;
use vstd::prelude::*;

use crate::checked::justification;
use crate::checked::justifications;
use crate::checked::marker_use;
use crate::checked::marker_uses;
use crate::code::CodeView;
use crate::diagnostic::MessageView;
use crate::expand::as_pieces;
use crate::expand::crate_text;
use crate::expand::doc_attribute;
use crate::expand::first_unforwardable;
use crate::expand::forwarded;
use crate::expand::hidden_fn;
use crate::expand::hidden_head;
use crate::expand::marker_fn;
use crate::expand::marker_fns;
use crate::expand::namespace;
use crate::expand::namespace_head;
use crate::expand::namespace_items;
use crate::expand::poison;
use crate::expand::poison_calls;
use crate::expand::poison_decls;
use crate::expand::requires_expansion;
use crate::expand::tag_docs;
use crate::expand::tag_line;
use crate::expand::wrapper;
use crate::expand::wrapper_attributes;
use crate::expand::wrapper_body;
use crate::item::checks_expansion;
use crate::item::function_pieces;
use crate::item::FnArgView;
use crate::item::FunctionView;
use crate::item::PieceView;
use crate::laws::grammar::all_have_reasons;
use crate::laws::grammar::lemma_missing_reason;
use crate::laws::naming::law_markers_tell_tags_apart;
use crate::laws::walking::codes_are_free;
use crate::laws::walking::law_unmarked_code_is_left_alone;
use crate::names::entry_point;
use crate::names::fragment;
use crate::names::marker_text;
use crate::tags::spec_names;
use crate::tags::TagSpecView;
use crate::token::comma_separated;
use crate::token::IdentView;
use crate::token::TokenView;
use crate::walk::visited_codes;

verus! {

/// Whether `pieces` hold a function of that name, not counting those in
/// braces.
pub open spec fn holds_fn(pieces: Seq<PieceView>, name: Seq<char>) -> bool {
    exists|k: int|
        0 <= k < pieces.len() && (#[trigger] pieces[k]) is Signature && pieces[k]->Signature_0.text
            == name
}

/// Whether `pieces` hold a function of that name in braces.
pub open spec fn holds_associated_fn(pieces: Seq<PieceView>, name: Seq<char>) -> bool {
    exists|k: int|
        0 <= k < pieces.len() && (#[trigger] pieces[k]) is Braces && holds_fn(
            pieces[k]->Braces_0,
            name,
        )
}

/// The expansion of a function defines one associated function, the entry
/// point for its tags.
pub proof fn law_entry_point_is_defined(
    specs: Seq<TagSpecView>,
    func: FunctionView,
    package: Seq<char>,
    call_site: Span,
    name: Seq<char>,
)
    ensures
        requires_expansion(specs, func, package, call_site) matches Ok(pieces) ==> (
        holds_associated_fn(pieces, name) <==> name == entry_point(spec_names(specs))),
{
    if let Ok(pieces) = requires_expansion(specs, func, package, call_site) {
        let block = visited_codes(func.block, call_site).code;
        let walked = FunctionView { block, ..func };
        let tags = spec_names(specs);
        let hidden = IdentView { text: entry_point(tags), span: call_site };
        let krate = crate_text(package);
        let first = namespace(func.ident, block, tags, hidden, call_site);
        let second = wrapper(walked, specs, hidden, krate, call_site);
        let inner = hidden_fn(block, tags, hidden, call_site);
        let head = hidden_head(call_site);
        assert(pieces == first + second);
        let place = first.len() - 1;
        assert(pieces[place] == PieceView::Braces(inner, call_site));
        assert(inner[head.len() as int] == PieceView::Signature(hidden));
        if name == hidden.text {
            assert(holds_fn(inner, name));
            assert(holds_associated_fn(pieces, name));
        }
        if holds_associated_fn(pieces, name) {
            let k = choose|k: int|
                0 <= k < pieces.len() && (#[trigger] pieces[k]) is Braces && holds_fn(
                    pieces[k]->Braces_0,
                    name,
                );
            let body = seq![PieceView::InnerAttributes] + as_pieces(
                wrapper_body(walked, tags, hidden, krate, call_site),
            );
            assert(pieces.last() == PieceView::Braces(body, call_site));
            if k == pieces.len() - 1 {
                let j = choose|j: int|
                    0 <= j < body.len() && (#[trigger] body[j]) is Signature
                        && body[j]->Signature_0.text == name;
                assert(false);
            } else {
                assert(k == place);
                let j = choose|j: int|
                    0 <= j < inner.len() && (#[trigger] inner[j]) is Signature
                        && inner[j]->Signature_0.text == name;
                assert(j == head.len());
            }
        }
    }
}

/// The expansion of a function holds one function beside the enum, under the
/// function's own name.
pub proof fn law_public_name_is_kept(
    specs: Seq<TagSpecView>,
    func: FunctionView,
    package: Seq<char>,
    call_site: Span,
    name: Seq<char>,
)
    ensures
        requires_expansion(specs, func, package, call_site) matches Ok(pieces) ==> (holds_fn(
            pieces,
            name,
        ) <==> name == func.ident.text),
{
    if let Ok(pieces) = requires_expansion(specs, func, package, call_site) {
        let place = pieces.len() - 2;
        assert(pieces[place] == PieceView::Signature(func.ident));
        if holds_fn(pieces, name) {
            let k = choose|k: int|
                0 <= k < pieces.len() && (#[trigger] pieces[k]) is Signature
                    && pieces[k]->Signature_0.text == name;
            assert(k == place);
        }
    }
}

/// A function without a `checked` attribute in its body comes out of
/// `#[safety::checks]` as it went in: its own attributes, visibility and
/// signature round its own code.
pub proof fn law_unmarked_function_is_given_back(func: FunctionView, call_site: Span)
    requires
        codes_are_free(func.block),
    ensures
        checks_expansion(Seq::empty(), Ok(func), call_site) == Ok::<_, Seq<MessageView>>(
            function_pieces(func),
        ),
{
    law_unmarked_code_is_left_alone(func.block, call_site);
}

/// The bodies in `pieces`, in order.
pub open spec fn bodies(pieces: Seq<PieceView>) -> Seq<Seq<CodeView>>
    decreases pieces,
{
    if pieces.len() == 0 {
        Seq::empty()
    } else {
        let first = match pieces[0] {
            PieceView::Statements(codes) => seq![codes],
            PieceView::Body(inner) => bodies(inner),
            PieceView::Braces(inner, _) => bodies(inner),
            _ => Seq::empty(),
        };
        first + bodies(pieces.drop_first())
    }
}

proof fn lemma_bodies_of_sum(a: Seq<PieceView>, b: Seq<PieceView>)
    ensures
        bodies(a + b) == bodies(a) + bodies(b),
    decreases a.len(),
{
    if a.len() == 0 {
        assert(a + b =~= b);
    } else {
        lemma_bodies_of_sum(a.drop_first(), b);
        assert((a + b).drop_first() =~= a.drop_first() + b);
    }
    assert(bodies(a + b) =~= bodies(a) + bodies(b));
}

proof fn lemma_no_bodies_in_tokens(tokens: Seq<TokenView>)
    ensures
        bodies(as_pieces(tokens)) == Seq::<Seq<CodeView>>::empty(),
    decreases tokens.len(),
{
    if tokens.len() > 0 {
        lemma_no_bodies_in_tokens(tokens.drop_first());
        assert(as_pieces(tokens).drop_first() =~= as_pieces(tokens.drop_first()));
        assert(bodies(as_pieces(tokens)) =~= Seq::empty());
    }
}

proof fn lemma_bodies_of_one(piece: PieceView)
    ensures
        bodies(seq![piece]) == (match piece {
            PieceView::Statements(codes) => seq![codes],
            PieceView::Body(inner) => bodies(inner),
            PieceView::Braces(inner, _) => bodies(inner),
            _ => Seq::empty(),
        }),
{
    assert(seq![piece].drop_first() =~= Seq::empty());
    assert(bodies(Seq::<PieceView>::empty()) =~= Seq::empty());
    assert(bodies(seq![piece]) =~= bodies(seq![piece]) + bodies(Seq::<PieceView>::empty()));
}

proof fn lemma_bodies_of_namespace(
    name: IdentView,
    block: Seq<CodeView>,
    tags: Seq<IdentView>,
    hidden: IdentView,
    span: Span,
)
    ensures
        bodies(namespace(name, block, tags, hidden, span)) == seq![block],
{
    let none = Seq::<Seq<CodeView>>::empty();
    let body = as_pieces(marker_fns(tags, span)) + seq![PieceView::Statements(block)];
    lemma_no_bodies_in_tokens(marker_fns(tags, span));
    lemma_bodies_of_one(PieceView::Statements(block));
    lemma_bodies_of_sum(as_pieces(marker_fns(tags, span)), seq![PieceView::Statements(block)]);
    assert(bodies(body) =~= seq![block]);
    let inner = hidden_fn(block, tags, hidden, span);
    let head = as_pieces(hidden_head(span)) + seq![PieceView::Signature(hidden)];
    lemma_no_bodies_in_tokens(hidden_head(span));
    lemma_bodies_of_one(PieceView::Signature(hidden));
    lemma_bodies_of_sum(as_pieces(hidden_head(span)), seq![PieceView::Signature(hidden)]);
    lemma_bodies_of_one(PieceView::Body(body));
    lemma_bodies_of_sum(head, seq![PieceView::Body(body)]);
    assert(inner =~= head + seq![PieceView::Body(body)]);
    assert(bodies(head) =~= none);
    assert(bodies(inner) =~= seq![block]);
    let a = as_pieces(namespace_head(span));
    let b = as_pieces(namespace_items(name, span));
    lemma_no_bodies_in_tokens(namespace_head(span));
    lemma_no_bodies_in_tokens(namespace_items(name, span));
    lemma_bodies_of_one(PieceView::Visibility);
    lemma_bodies_of_one(PieceView::Braces(inner, span));
    lemma_bodies_of_sum(a, seq![PieceView::Visibility]);
    lemma_bodies_of_sum(a + seq![PieceView::Visibility], b);
    lemma_bodies_of_sum(a + seq![PieceView::Visibility] + b, seq![PieceView::Braces(inner, span)]);
    assert(bodies(namespace(name, block, tags, hidden, span)) =~= seq![block]);
}

proof fn lemma_bodies_of_wrapper(
    func: FunctionView,
    specs: Seq<TagSpecView>,
    hidden: IdentView,
    krate: Seq<char>,
    span: Span,
)
    ensures
        bodies(wrapper(func, specs, hidden, krate, span)) == Seq::<Seq<CodeView>>::empty(),
{
    let none = Seq::<Seq<CodeView>>::empty();
    let tokens = wrapper_body(func, spec_names(specs), hidden, krate, span);
    let body = seq![PieceView::InnerAttributes] + as_pieces(tokens);
    lemma_bodies_of_one(PieceView::InnerAttributes);
    lemma_no_bodies_in_tokens(tokens);
    lemma_bodies_of_sum(seq![PieceView::InnerAttributes], as_pieces(tokens));
    assert(bodies(body) =~= none);
    let attributes = as_pieces(wrapper_attributes(specs, span));
    let front = seq![PieceView::OuterAttributes] + attributes;
    lemma_bodies_of_one(PieceView::OuterAttributes);
    lemma_no_bodies_in_tokens(wrapper_attributes(specs, span));
    lemma_bodies_of_sum(seq![PieceView::OuterAttributes], attributes);
    assert(bodies(front) =~= none);
    let back = seq![
        PieceView::Visibility,
        PieceView::Signature(func.ident),
        PieceView::Braces(body, span),
    ];
    lemma_bodies_of_one(PieceView::Visibility);
    lemma_bodies_of_one(PieceView::Signature(func.ident));
    lemma_bodies_of_one(PieceView::Braces(body, span));
    let two = seq![PieceView::Visibility] + seq![PieceView::Signature(func.ident)];
    lemma_bodies_of_sum(seq![PieceView::Visibility], seq![PieceView::Signature(func.ident)]);
    lemma_bodies_of_sum(two, seq![PieceView::Braces(body, span)]);
    assert(back =~= two + seq![PieceView::Braces(body, span)]);
    assert(bodies(back) =~= none);
    lemma_bodies_of_sum(front, back);
    assert(wrapper(func, specs, hidden, krate, span) =~= front + back);
    assert(bodies(front + back) =~= none);
}

/// The real body, its checked calls expanded, stands in the expansion of a
/// function once: in the hidden entry point. The public function does not hold
/// it.
pub proof fn law_body_is_moved(
    specs: Seq<TagSpecView>,
    func: FunctionView,
    package: Seq<char>,
    call_site: Span,
)
    ensures
        requires_expansion(specs, func, package, call_site) matches Ok(pieces) ==> bodies(pieces)
            == seq![visited_codes(func.block, call_site).code],
{
    if let Ok(pieces) = requires_expansion(specs, func, package, call_site) {
        let block = visited_codes(func.block, call_site).code;
        let walked = FunctionView { block, ..func };
        let tags = spec_names(specs);
        let hidden = IdentView { text: entry_point(tags), span: call_site };
        let krate = crate_text(package);
        let first = namespace(func.ident, block, tags, hidden, call_site);
        let second = wrapper(walked, specs, hidden, krate, call_site);
        lemma_bodies_of_namespace(func.ident, block, tags, hidden, call_site);
        lemma_bodies_of_wrapper(walked, specs, hidden, krate, call_site);
        lemma_bodies_of_sum(first, second);
        assert(pieces == first + second);
        assert(bodies(pieces) =~= seq![block]);
    }
}

/// A function is expanded if and only if it is an `unsafe fn`, each of its
/// tags has a reason, the walk through its body finds no error, and each of its
/// parameters has a name to pass it on by.
pub proof fn law_when_a_function_is_expanded(
    specs: Seq<TagSpecView>,
    func: FunctionView,
    package: Seq<char>,
    call_site: Span,
)
    ensures
        requires_expansion(specs, func, package, call_site) is Ok <==> {
            &&& func.unsafety
            &&& all_have_reasons(specs)
            &&& visited_codes(func.block, call_site).errors.len() == 0
            &&& forall|i: int| 0 <= i < func.inputs.len() ==> (#[trigger] func.inputs[i]) is Plain
        },
{
    lemma_missing_reason(specs, "what callers must uphold"@);
    lemma_forwardable(func.inputs);
}

proof fn lemma_forwardable(inputs: Seq<FnArgView>)
    ensures
        first_unforwardable(inputs) is None <==> forall|i: int|
            0 <= i < inputs.len() ==> (#[trigger] inputs[i]) is Plain,
    decreases inputs.len(),
{
    if inputs.len() > 0 {
        let rest = inputs.drop_first();
        lemma_forwardable(rest);
        if first_unforwardable(inputs) is None {
            assert forall|i: int| 0 <= i < inputs.len() implies (#[trigger] inputs[i]) is Plain by {
                if i > 0 {
                    assert(inputs[i] == rest[i - 1]);
                }
            }
        }
        if forall|i: int| 0 <= i < inputs.len() ==> (#[trigger] inputs[i]) is Plain {
            assert(inputs[0] is Plain);
            assert forall|i: int| 0 <= i < rest.len() implies (#[trigger] rest[i]) is Plain by {
                assert(rest[i] == inputs[i + 1]);
            }
        }
    }
}

/// Where a function is expanded, the public function passes on each of its
/// parameters, in order.
pub proof fn law_every_parameter_is_passed_on(inputs: Seq<FnArgView>)
    requires
        forall|i: int| 0 <= i < inputs.len() ==> (#[trigger] inputs[i]) is Plain,
    ensures
        forwarded(inputs) == inputs.map_values(
            |arg: FnArgView| TokenView::Ident(arg->Plain_0),
        ),
    decreases inputs.len(),
{
    let names = inputs.map_values(|arg: FnArgView| TokenView::Ident(arg->Plain_0));
    if inputs.len() > 0 {
        let rest = inputs.drop_last();
        assert forall|i: int| 0 <= i < rest.len() implies (#[trigger] rest[i]) is Plain by {
            assert(rest[i] == inputs[i]);
        }
        assert(inputs[inputs.len() - 1] is Plain);
        law_every_parameter_is_passed_on(rest);
        assert(names =~= rest.map_values(
            |arg: FnArgView| TokenView::Ident(arg->Plain_0),
        ).push(TokenView::Ident(inputs.last()->Plain_0)));
    } else {
        assert(forwarded(inputs) =~= names);
    }
}

/// Whether `tokens` hold `fn` and then that name.
pub open spec fn defines_fn(tokens: Seq<TokenView>, name: Seq<char>) -> bool {
    exists|k: int|
        0 <= k && k + 1 < tokens.len() && is_word(#[trigger] tokens[k], "fn"@) && is_word(
            tokens[k + 1],
            name,
        )
}

/// Whether a token is that word.
pub open spec fn is_word(token: TokenView, text: Seq<char>) -> bool {
    token is Ident && token->Ident_0.text == text
}

proof fn lemma_marker_at(tags: Seq<IdentView>, span: Span, i: int)
    requires
        0 <= i < tags.len(),
    ensures
        marker_fns(tags, span).len() == 6 * tags.len(),
        marker_fns(tags, span).subrange(6 * i, 6 * i + 6) == marker_fn(tags[i], span),
    decreases tags.len(),
{
    let rest = tags.drop_last();
    if rest.len() > 0 {
        lemma_marker_at(rest, span, 0);
    }
    assert(marker_fns(rest, span).len() == 6 * rest.len());
    if i < rest.len() {
        lemma_marker_at(rest, span, i);
        assert(rest[i] == tags[i]);
        assert(marker_fns(tags, span).subrange(6 * i, 6 * i + 6) =~= marker_fns(
            rest,
            span,
        ).subrange(6 * i, 6 * i + 6));
    } else {
        assert(marker_fns(tags, span).subrange(6 * i, 6 * i + 6) =~= marker_fn(tags[i], span));
    }
}

/// The markers in the body of a function are those for the tags that it
/// requires. So a delegated tag finds its marker in the body of a function if
/// and only if the function requires the tag.
pub proof fn law_delegation_needs_the_tag(tags: Seq<IdentView>, tag: Seq<char>, span: Span)
    ensures
        defines_fn(marker_fns(tags, span), marker_text(tag)) <==> exists|i: int|
            0 <= i < tags.len() && fragment((#[trigger] tags[i]).text) == fragment(tag),
{
    let tokens = marker_fns(tags, span);
    if exists|i: int| 0 <= i < tags.len() && fragment((#[trigger] tags[i]).text) == fragment(tag) {
        let i = choose|i: int|
            0 <= i < tags.len() && fragment((#[trigger] tags[i]).text) == fragment(tag);
        lemma_marker_at(tags, span, i);
        let marker = tokens.subrange(6 * i, 6 * i + 6);
        assert(tokens[6 * i + 2] == marker[2]);
        assert(tokens[6 * i + 3] == marker[3]);
        assert(is_word(tokens[6 * i + 2], "fn"@) && is_word(
            tokens[6 * i + 2 + 1],
            marker_text(tag),
        ));
    }
    if defines_fn(tokens, marker_text(tag)) {
        let k = choose|k: int|
            0 <= k && k + 1 < tokens.len() && is_word(#[trigger] tokens[k], "fn"@) && is_word(
                tokens[k + 1],
                marker_text(tag),
            );
        assert(tags.len() > 0);
        lemma_marker_at(tags, span, 0);
        let i = k / 6;
        let j = k % 6;
        lemma_marker_at(tags, span, i);
        let marker = tokens.subrange(6 * i, 6 * i + 6);
        assert(tokens[k] == marker[j]);
        reveal_strlit("fn");
        reveal_strlit("__safety_delegates_");
        assert(marker_text(tags[i].text)[0] == '_');
        assert(j == 2);
        assert(tokens[k + 1] == marker[3]);
        law_markers_tell_tags_apart(tags[i].text, tag);
    }
}

/// In front of a checked call the marker of each delegated tag is used, in
/// order.
pub proof fn law_every_delegated_tag_is_used(specs: Seq<TagSpecView>, span: Span, i: int)
    requires
        0 <= i < specs.len(),
    ensures
        marker_uses(specs, span).len() == 5 * specs.len(),
        marker_uses(specs, span).subrange(5 * i, 5 * i + 5) == marker_use(specs[i].name, span),
    decreases specs.len(),
{
    let rest = specs.drop_last();
    if rest.len() > 0 {
        law_every_delegated_tag_is_used(rest, span, 0);
    }
    assert(marker_uses(rest, span).len() == 5 * rest.len());
    if i < rest.len() {
        law_every_delegated_tag_is_used(rest, span, i);
        assert(rest[i] == specs[i]);
        assert(marker_uses(specs, span).subrange(5 * i, 5 * i + 5) =~= marker_uses(
            rest,
            span,
        ).subrange(5 * i, 5 * i + 5));
    } else {
        assert(marker_uses(specs, span).subrange(5 * i, 5 * i + 5) =~= marker_use(
            specs[i].name,
            span,
        ));
    }
}

proof fn lemma_separated_at(tokens: Seq<TokenView>, span: Span, i: int)
    requires
        0 <= i < tokens.len(),
    ensures
        comma_separated(tokens, span).len() == 2 * tokens.len() - 1,
        comma_separated(tokens, span)[2 * i] == tokens[i],
    decreases tokens.len(),
{
    if tokens.len() > 1 {
        let rest = tokens.drop_last();
        lemma_separated_at(rest, span, 0);
        if i < rest.len() {
            lemma_separated_at(rest, span, i);
            assert(rest[i] == tokens[i]);
        }
    }
}

/// A checked call holds the name and the reason of each tag that it accounts
/// for as data, in order.
pub proof fn law_every_reason_is_embedded(specs: Seq<TagSpecView>, span: Span, i: int)
    requires
        0 <= i < specs.len(),
    ensures
        ({
            let data = justifications(specs, span)[7];
            &&& data is Group
            &&& data->Group_tokens.len() == 2 * specs.len() - 1
            &&& data->Group_tokens[2 * i] == justification(specs[i], span)
        }),
{
    lemma_separated_at(
        specs.map_values(|spec: TagSpecView| justification(spec, span)),
        span,
        i,
    );
}

/// The public function declares and calls one symbol for each tag that it
/// requires, in order.
pub proof fn law_every_tag_leaves_a_symbol(
    krate: Seq<char>,
    name: IdentView,
    tags: Seq<IdentView>,
    span: Span,
    i: int,
)
    requires
        0 <= i < tags.len(),
    ensures
        poison_decls(krate, name, tags, span).len() == 4 * tags.len(),
        poison_decls(krate, name, tags, span)[4 * i + 1] == poison(krate, name, tags[i]),
        poison_calls(krate, name, tags, span).len() == 3 * tags.len(),
        poison_calls(krate, name, tags, span)[3 * i] == poison(krate, name, tags[i]),
    decreases tags.len(),
{
    let rest = tags.drop_last();
    if rest.len() > 0 {
        law_every_tag_leaves_a_symbol(krate, name, rest, span, 0);
    }
    assert(poison_decls(krate, name, rest, span).len() == 4 * rest.len());
    assert(poison_calls(krate, name, rest, span).len() == 3 * rest.len());
    if i < rest.len() {
        law_every_tag_leaves_a_symbol(krate, name, rest, span, i);
        assert(rest[i] == tags[i]);
    }
}

/// The documentation of the public function lists each tag with its reason, in
/// order.
pub proof fn law_every_tag_is_documented(specs: Seq<TagSpecView>, span: Span, i: int)
    requires
        0 <= i < specs.len(),
    ensures
        tag_docs(specs, span).len() == 2 * specs.len(),
        tag_docs(specs, span).subrange(2 * i, 2 * i + 2) == doc_attribute(
            tag_line(specs[i]),
            span,
        ),
    decreases specs.len(),
{
    let rest = specs.drop_last();
    if rest.len() > 0 {
        law_every_tag_is_documented(rest, span, 0);
    }
    assert(tag_docs(rest, span).len() == 2 * rest.len());
    if i < rest.len() {
        law_every_tag_is_documented(rest, span, i);
        assert(rest[i] == specs[i]);
        assert(tag_docs(specs, span).subrange(2 * i, 2 * i + 2) =~= tag_docs(
            rest,
            span,
        ).subrange(2 * i, 2 * i + 2));
    } else {
        assert(tag_docs(specs, span).subrange(2 * i, 2 * i + 2) =~= doc_attribute(
            tag_line(specs[i]),
            span,
        ));
    }
}

} // verus!
