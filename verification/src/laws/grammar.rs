//! What holds of the arguments of the attributes.
use proc_macro2::Span;
use vstd::prelude::*;

use crate::diagnostic::MessageView;
use crate::lexeme::LexemeView;
use crate::tags::checked_args;
use crate::tags::checked_from;
use crate::tags::first_missing;
use crate::tags::is_ident;
use crate::tags::is_parens;
use crate::tags::is_punct;
use crate::tags::past_comma;
use crate::tags::tag_at;
use crate::tags::tag_list;
use crate::tags::tags_from;
use crate::tags::CheckedArgsView;
use crate::tags::TagSpecView;
use crate::token::Delimiter;

verus! {

/// Whether each of the tags has a reason.
pub open spec fn all_have_reasons(specs: Seq<TagSpecView>) -> bool {
    forall|i: int| 0 <= i < specs.len() ==> (#[trigger] specs[i]).reason is Some
}

/// There is an error for a missing reason if and only if a tag has none.
pub(crate) proof fn lemma_missing_reason(specs: Seq<TagSpecView>, what: Seq<char>)
    ensures
        first_missing(specs, what) is None <==> all_have_reasons(specs),
    decreases specs.len(),
{
    if specs.len() > 0 {
        let rest = specs.drop_first();
        lemma_missing_reason(rest, what);
        if all_have_reasons(specs) {
            assert(specs[0].reason is Some);
            assert forall|i: int| 0 <= i < rest.len() implies (#[trigger] rest[i]).reason is Some by {
                assert(rest[i] == specs[i + 1]);
            }
        }
        if first_missing(specs, what) is None {
            assert forall|i: int| 0 <= i < specs.len() implies (
            #[trigger] specs[i]).reason is Some by {
                if i > 0 {
                    assert(specs[i] == rest[i - 1]);
                }
            }
        }
    }
}

proof fn lemma_checked_tags_have_reasons(
    input: Seq<LexemeView>,
    pos: int,
    scope: Span,
    done: CheckedArgsView,
)
    requires
        all_have_reasons(done.discharged),
        all_have_reasons(done.delegated),
    ensures
        checked_from(input, pos, scope, done) matches Ok(args) ==> args.union().len() > 0
            && all_have_reasons(args.discharged) && all_have_reasons(args.delegated),
    decreases input.len() - pos,
{
    if pos < input.len() {
        if is_ident(input, pos) && is_parens(input, pos + 1) {
            let parens = input[pos + 1].kind;
            if let Ok(tags) = tags_from(parens->lexemes, 0, parens->close) {
                lemma_missing_reason(
                    tags,
                    "why passing this obligation to our own callers is sound"@,
                );
                if all_have_reasons(tags) {
                    lemma_checked_tags_have_reasons(
                        input,
                        past_comma(input, pos + 2),
                        scope,
                        CheckedArgsView { delegated: done.delegated + tags, ..done },
                    );
                }
            }
        } else if let Ok((spec, next)) = tag_at(input, pos, scope) {
            if spec.reason is Some {
                lemma_checked_tags_have_reasons(
                    input,
                    past_comma(input, next),
                    scope,
                    CheckedArgsView { discharged: done.discharged.push(spec), ..done },
                );
            }
        }
    }
}

/// A checked call accounts for at least one tag, and gives a reason for each,
/// discharged or delegated.
pub proof fn law_checked_tags_have_reasons(input: Seq<LexemeView>, scope: Span)
    ensures
        checked_args(input, scope) matches Ok(args) ==> args.union().len() > 0 && all_have_reasons(
            args.discharged,
        ) && all_have_reasons(args.delegated),
{
    lemma_checked_tags_have_reasons(
        input,
        0,
        scope,
        CheckedArgsView { discharged: Seq::empty(), delegated: Seq::empty() },
    );
}

/// A function requires at least one tag.
pub proof fn law_required_tags_are_not_empty(input: Seq<LexemeView>, scope: Span)
    ensures
        tag_list(input, scope) matches Ok(specs) ==> specs.len() > 0,
{
}

/// Whether `Tag = "reason"` is written at `pos`, with nothing or a comma
/// behind it.
pub open spec fn spelled_at(input: Seq<LexemeView>, pos: int, spec: TagSpecView) -> bool {
    &&& is_ident(input, pos)
    &&& input[pos].kind->Ident_0 == spec.name
    &&& is_punct(input, pos + 1, '=')
    &&& pos + 2 < input.len()
    &&& input[pos + 2].kind is Str
    &&& spec.reason == Some(input[pos + 2].kind->Str_0)
    &&& pos + 3 < input.len() ==> is_punct(input, pos + 3, ',')
}

/// Whether the tags are written one after the other, each with its reason,
/// with a comma behind each but perhaps the last.
pub open spec fn spells(input: Seq<LexemeView>, specs: Seq<TagSpecView>) -> bool {
    &&& 4 * specs.len() - 1 <= input.len() <= 4 * specs.len()
    &&& forall|i: int| 0 <= i < specs.len() ==> spelled_at(input, 4 * i, #[trigger] specs[i])
}

proof fn lemma_spelled_tags_are_read(
    input: Seq<LexemeView>,
    specs: Seq<TagSpecView>,
    k: int,
    scope: Span,
)
    requires
        spells(input, specs),
        0 <= k <= specs.len(),
    ensures
        tags_from(input, 4 * k, scope) == Ok::<_, Seq<MessageView>>(specs.skip(k)),
    decreases specs.len() - k,
{
    if k < specs.len() {
        assert(spelled_at(input, 4 * k, specs[k]));
        lemma_spelled_tags_are_read(input, specs, k + 1, scope);
        assert(specs.skip(k) =~= seq![specs[k]] + specs.skip(k + 1));
        assert(seq![specs[k]] + Seq::<TagSpecView>::empty() =~= seq![specs[k]]);
        if 4 * k + 3 >= input.len() {
            assert(specs.skip(k + 1) =~= Seq::empty());
        }
    } else {
        assert(specs.skip(k) =~= Seq::empty());
    }
}

/// Tags that are written with their reasons are read as they are written.
pub proof fn law_written_tags_are_read(
    input: Seq<LexemeView>,
    specs: Seq<TagSpecView>,
    scope: Span,
)
    requires
        specs.len() > 0,
        spells(input, specs),
    ensures
        tag_list(input, scope) == Ok::<_, Seq<MessageView>>(specs),
{
    lemma_spelled_tags_are_read(input, specs, 0, scope);
    assert(specs.skip(0) =~= specs);
}

proof fn lemma_spelled_tags_are_discharged(
    input: Seq<LexemeView>,
    specs: Seq<TagSpecView>,
    k: int,
    scope: Span,
)
    requires
        4 * specs.len() - 1 <= input.len(),
        forall|i: int| 0 <= i < specs.len() ==> spelled_at(input, 4 * i, #[trigger] specs[i]),
        0 <= k <= specs.len(),
    ensures
        ({
            let end = if 4 * specs.len() <= input.len() {
                4 * specs.len() as int
            } else {
                input.len() as int
            };
            let pos = if 4 * k <= input.len() {
                4 * k
            } else {
                input.len() as int
            };
            checked_from(
                input,
                pos,
                scope,
                CheckedArgsView { discharged: specs.take(k), delegated: Seq::empty() },
            ) == checked_from(
                input,
                end,
                scope,
                CheckedArgsView { discharged: specs, delegated: Seq::empty() },
            )
        }),
    decreases specs.len() - k,
{
    if k < specs.len() {
        assert(spelled_at(input, 4 * k, specs[k]));
        lemma_spelled_tags_are_discharged(input, specs, k + 1, scope);
        assert(specs.take(k).push(specs[k]) =~= specs.take(k + 1));
    } else {
        assert(specs.take(k) =~= specs);
    }
}

/// Discharged tags that are written with their reasons are read as they are
/// written.
pub proof fn law_written_discharge_is_read(
    input: Seq<LexemeView>,
    specs: Seq<TagSpecView>,
    scope: Span,
)
    requires
        specs.len() > 0,
        spells(input, specs),
    ensures
        checked_args(input, scope) == Ok::<_, Seq<MessageView>>(
            CheckedArgsView { discharged: specs, delegated: Seq::empty() },
        ),
{
    lemma_spelled_tags_are_discharged(input, specs, 0, scope);
    assert(specs.take(0) =~= Seq::empty());
}

/// Discharged tags that are written with their reasons, and behind them
/// delegated tags in `delegate(..)`, are read as they are written.
pub proof fn law_written_delegation_is_read(
    front: Seq<LexemeView>,
    discharged: Seq<TagSpecView>,
    word: LexemeView,
    parens: LexemeView,
    delegated: Seq<TagSpecView>,
    scope: Span,
)
    requires
        front.len() == 4 * discharged.len(),
        spells(front, discharged),
        word.kind is Ident,
        word.kind->Ident_0.text == "delegate"@,
        parens.kind is Group,
        parens.kind->delimiter == Delimiter::Parenthesis,
        spells(parens.kind->lexemes, delegated),
        discharged.len() + delegated.len() > 0,
    ensures
        checked_args(front.push(word).push(parens), scope) == Ok::<_, Seq<MessageView>>(
            CheckedArgsView { discharged, delegated },
        ),
{
    let input = front.push(word).push(parens);
    let pos = 4 * discharged.len() as int;
    assert forall|i: int| 0 <= i < discharged.len() implies spelled_at(
        input,
        4 * i,
        #[trigger] discharged[i],
    ) by {
        assert(spelled_at(front, 4 * i, discharged[i]));
    }
    lemma_spelled_tags_are_discharged(input, discharged, 0, scope);
    assert(discharged.take(0) =~= Seq::empty());
    lemma_spelled_tags_are_read(parens.kind->lexemes, delegated, 0, parens.kind->close);
    assert(delegated.skip(0) =~= delegated);
    assert(all_have_reasons(delegated)) by {
        assert forall|i: int| 0 <= i < delegated.len() implies (
        #[trigger] delegated[i]).reason is Some by {
            assert(spelled_at(parens.kind->lexemes, 4 * i, delegated[i]));
        }
    }
    lemma_missing_reason(delegated, "why passing this obligation to our own callers is sound"@);
    assert(Seq::<TagSpecView>::empty() + delegated =~= delegated);
    let read = CheckedArgsView { discharged, delegated };
    assert(checked_from(input, pos + 2, scope, read) == Ok::<_, Seq<MessageView>>(read));
}

} // verus!
