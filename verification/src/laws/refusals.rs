//! What the attributes on functions refuse, and what they give back.
use proc_macro2::Span;
use vstd::prelude::*;

use crate::checked::accounted;
use crate::diagnostic::MessageView;
use crate::expand::first_unforwardable;
use crate::expand::requires_attribute_expansion;
use crate::expand::requires_expansion;
use crate::item::checks_expansion;
use crate::item::FnArgView;
use crate::item::FunctionView;
use crate::item::PieceView;
use crate::laws::grammar::all_have_reasons;
use crate::laws::grammar::lemma_missing_reason;
use crate::laws::naming::has_tag;
use crate::laws::naming::lemma_has_tag;
use crate::laws::tokens::one_message;
use crate::lexeme::lexemes_of;
use crate::tags::first_missing;
use crate::tags::spec_names;
use crate::tags::tag_list;
use crate::tags::CheckedArgsView;
use crate::tags::TagSpecView;
use crate::token::TokenView;
use crate::walk::visited_codes;

verus! {

/// Whether the first of the tags without a reason is the one at `i`.
pub open spec fn first_without_reason(specs: Seq<TagSpecView>, i: int) -> bool {
    &&& 0 <= i < specs.len()
    &&& specs[i].reason is None
    &&& forall|j: int| 0 <= j < i ==> (#[trigger] specs[j]).reason is Some
}

/// The message that asks for the reason of a tag.
pub open spec fn asks_for_reason(spec: TagSpecView, what: Seq<char>) -> Seq<MessageView> {
    one_message(
        "safety tag `"@ + spec.name.text + "` is missing its reason string: write `"@
            + spec.name.text + " = \""@ + what + "\"`"@,
        spec.name.span,
        spec.name.span,
    )
}

/// Of tags without reasons the first is asked for its own; where each has one,
/// none is.
pub proof fn law_first_missing_reason_is_asked_for(
    specs: Seq<TagSpecView>,
    what: Seq<char>,
    i: int,
)
    ensures
        first_without_reason(specs, i) ==> first_missing(specs, what) == Some(
            asks_for_reason(specs[i], what),
        ),
        all_have_reasons(specs) ==> first_missing(specs, what) is None,
    decreases specs.len(),
{
    lemma_missing_reason(specs, what);
    if first_without_reason(specs, i) && i > 0 {
        let rest = specs.drop_first();
        assert(rest[i - 1] == specs[i]);
        assert forall|j: int| 0 <= j < i - 1 implies (#[trigger] rest[j]).reason is Some by {
            assert(rest[j] == specs[j + 1]);
        }
        law_first_missing_reason_is_asked_for(rest, what, i - 1);
        assert(specs[0].reason is Some);
    }
}

/// Whether the first of the parameters that have no name to pass them on by is
/// the one at `k`.
pub open spec fn first_without_name(inputs: Seq<FnArgView>, k: int) -> bool {
    &&& 0 <= k < inputs.len()
    &&& !(inputs[k] is Plain)
    &&& forall|j: int| 0 <= j < k ==> (#[trigger] inputs[j]) is Plain
}

/// The message that refuses a parameter.
pub open spec fn refuses_parameter(input: FnArgView) -> Seq<MessageView> {
    match input {
        FnArgView::Receiver(extent) => one_message(
            "this minimal implementation does not support methods (`self`)"@,
            extent.first,
            extent.last,
        ),
        FnArgView::Pattern(extent) => one_message(
            "this minimal implementation only supports plain identifier parameters"@,
            extent.first,
            extent.last,
        ),
        FnArgView::Plain(_) => Seq::empty(),
    }
}

proof fn lemma_first_unforwardable(inputs: Seq<FnArgView>, k: int)
    requires
        first_without_name(inputs, k),
    ensures
        first_unforwardable(inputs) == Some(refuses_parameter(inputs[k])),
    decreases inputs.len(),
{
    if k > 0 {
        let rest = inputs.drop_first();
        assert(rest[k - 1] == inputs[k]);
        assert forall|j: int| 0 <= j < k - 1 implies (#[trigger] rest[j]) is Plain by {
            assert(rest[j] == inputs[j + 1]);
        }
        lemma_first_unforwardable(rest, k - 1);
        assert(inputs[0] is Plain);
    }
}

/// A function that is not expanded is refused for one reason: that it is not
/// `unsafe`, or else the first of its tags without a reason, or else all that
/// the walk found in its body, or else the first of its parameters that cannot
/// be passed on.
pub proof fn law_refused_functions_say_why(
    specs: Seq<TagSpecView>,
    func: FunctionView,
    package: Seq<char>,
    call_site: Span,
    i: int,
    k: int,
)
    ensures
        ({
            let r = requires_expansion(specs, func, package, call_site);
            let errors = visited_codes(func.block, call_site).errors;
            &&& !func.unsafety ==> r == Err::<Seq<PieceView>, _>(
                one_message(
                    "#[safety::requires] may only be applied to `unsafe fn`"@,
                    func.fn_token,
                    func.fn_token,
                ),
            )
            &&& func.unsafety && first_without_reason(specs, i) ==> r == Err::<Seq<PieceView>, _>(
                asks_for_reason(specs[i], "what callers must uphold"@),
            )
            &&& func.unsafety && all_have_reasons(specs) && errors.len() > 0 ==> r == Err::<
                Seq<PieceView>,
                _,
            >(errors)
            &&& func.unsafety && all_have_reasons(specs) && errors.len() == 0
                && first_without_name(func.inputs, k) ==> r == Err::<Seq<PieceView>, _>(
                refuses_parameter(func.inputs[k]),
            )
        }),
{
    let what = "what callers must uphold"@;
    law_first_missing_reason_is_asked_for(specs, what, i);
    if first_without_name(func.inputs, k) {
        lemma_first_unforwardable(func.inputs, k);
    }
}

/// `#[safety::requires(..)]` reads its tags before it looks at the item. An
/// error in them comes first, then what the Rust grammar says of the item; a
/// function is expanded for the tags that were read.
pub proof fn law_requires_reads_tags_then_the_item(
    attr: Seq<TokenView>,
    func: FunctionView,
    said: syn::Error,
    package: Seq<char>,
    call_site: Span,
)
    ensures
        match tag_list(lexemes_of(attr), call_site) {
            Ok(specs) => {
                &&& requires_attribute_expansion(attr, Ok(func), package, call_site)
                    == requires_expansion(specs, func, package, call_site)
                &&& requires_attribute_expansion(attr, Err(said), package, call_site) == Err::<
                    Seq<PieceView>,
                    _,
                >(seq![MessageView::Syntax(said)])
            },
            Err(error) => {
                &&& requires_attribute_expansion(attr, Ok(func), package, call_site) == Err::<
                    Seq<PieceView>,
                    _,
                >(error)
                &&& requires_attribute_expansion(attr, Err(said), package, call_site) == Err::<
                    Seq<PieceView>,
                    _,
                >(error)
            },
        },
{
}

/// `#[safety::checks]` takes no arguments. It gives back the function with its
/// own attributes, visibility, name and signature, and with its body walked, or
/// all the errors that the walk found there, or what the Rust grammar says of
/// an item that is no function.
pub proof fn law_checks_gives_the_function_back(
    attr: Seq<TokenView>,
    func: FunctionView,
    said: syn::Error,
    call_site: Span,
)
    ensures
        ({
            let r = checks_expansion(attr, Ok(func), call_site);
            let walked = visited_codes(func.block, call_site);
            let refused = Err::<Seq<PieceView>, _>(
                one_message("#[safety::checks] takes no arguments"@, call_site, call_site),
            );
            &&& attr.len() > 0 ==> r == refused && checks_expansion(attr, Err(said), call_site)
                == refused
            &&& attr.len() == 0 ==> checks_expansion(attr, Err(said), call_site) == Err::<
                Seq<PieceView>,
                _,
            >(seq![MessageView::Syntax(said)])
            &&& attr.len() == 0 && walked.errors.len() > 0 ==> r == Err::<Seq<PieceView>, _>(
                walked.errors,
            )
            &&& attr.len() == 0 && walked.errors.len() == 0 ==> {
                &&& r is Ok
                &&& r->Ok_0.len() == 4
                &&& r->Ok_0[0] == PieceView::OuterAttributes
                &&& r->Ok_0[1] == PieceView::Visibility
                &&& r->Ok_0[2] == PieceView::Signature(func.ident)
                &&& r->Ok_0[3] is Body
                &&& r->Ok_0[3]->Body_0.len() == 2
                &&& r->Ok_0[3]->Body_0[0] == PieceView::InnerAttributes
                &&& r->Ok_0[3]->Body_0[1] == PieceView::Statements(walked.code)
            }
        }),
{
}

/// Whether one of the tags has that name.
pub open spec fn names_tag(specs: Seq<TagSpecView>, name: Seq<char>) -> bool {
    exists|i: int| 0 <= i < specs.len() && (#[trigger] specs[i]).name.text == name
}

/// A checked call accounts for the tags that it discharges and those that it
/// delegates, and for no others.
pub proof fn law_discharged_and_delegated_tags_are_accounted_for(
    args: CheckedArgsView,
    name: Seq<char>,
)
    ensures
        accounted(args).contains(name) <==> names_tag(args.discharged, name) || names_tag(
            args.delegated,
            name,
        ),
{
    let all = args.discharged + args.delegated;
    let tags = spec_names(all);
    let n = args.discharged.len() as int;
    lemma_has_tag(tags, name);
    if has_tag(tags, name) {
        let i = choose|i: int| 0 <= i < tags.len() && #[trigger] tags[i].text == name;
        assert(tags[i] == all[i].name);
        if i < n {
            assert(all[i] == args.discharged[i]);
        } else {
            assert(all[i] == args.delegated[i - n]);
        }
    }
    if names_tag(args.discharged, name) {
        let i = choose|i: int|
            0 <= i < args.discharged.len() && (#[trigger] args.discharged[i]).name.text == name;
        assert(all[i] == args.discharged[i]);
        assert(tags[i].text == name);
    }
    if names_tag(args.delegated, name) {
        let i = choose|i: int|
            0 <= i < args.delegated.len() && (#[trigger] args.delegated[i]).name.text == name;
        assert(all[i + n] == args.delegated[i]);
        assert(tags[i + n].text == name);
    }
}

/// The names of tags are theirs, in order, whatever their reasons.
pub proof fn law_names_of_tags_are_in_order(specs: Seq<TagSpecView>, i: int)
    ensures
        spec_names(specs).len() == specs.len(),
        0 <= i < specs.len() ==> spec_names(specs)[i] == specs[i].name,
{
}

} // verus!
