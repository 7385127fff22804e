//! How the arguments of the attributes are read, one after the other.
use proc_macro2::Span;
use vstd::prelude::*;

use crate::diagnostic::MessageView;
use crate::laws::grammar::all_have_reasons;
use crate::laws::refusals::asks_for_reason;
use crate::laws::refusals::first_without_reason;
use crate::laws::refusals::law_first_missing_reason_is_asked_for;
use crate::laws::tokens::one_message;
use crate::lexeme::KindView;
use crate::lexeme::LexemeView;
use crate::tags::checked_args;
use crate::tags::checked_from;
use crate::tags::first_missing;
use crate::tags::past_comma;
use crate::tags::tag_at;
use crate::tags::tag_list;
use crate::tags::tags_from;
use crate::tags::CheckedArgsView;
use crate::tags::TagSpecView;
use crate::token::Delimiter;

verus! {

/// Whether a lexeme is the character `ch`.
pub open spec fn is_char(lexeme: LexemeView, ch: char) -> bool {
    lexeme.kind matches KindView::Punct { ch: found, .. } && found == ch
}

/// Whether `input` begins with `name = "reason"`.
pub open spec fn begins_with_reason(input: Seq<LexemeView>) -> bool {
    &&& input.len() >= 3
    &&& input[0].kind is Ident
    &&& is_char(input[1], '=')
    &&& input[2].kind is Str
}

/// Whether `input` begins with a name that no `=` follows.
pub open spec fn begins_with_name(input: Seq<LexemeView>) -> bool {
    &&& input.len() >= 1
    &&& input[0].kind is Ident
    &&& input.len() >= 2 ==> !is_char(input[1], '=')
}

/// How many lexemes the tag at the start of `input` takes.
pub open spec fn tag_length(input: Seq<LexemeView>) -> int {
    if begins_with_reason(input) {
        3
    } else {
        1
    }
}

/// The tag at the start of `input`.
pub open spec fn tag_read(input: Seq<LexemeView>) -> TagSpecView {
    TagSpecView {
        name: input[0].kind->Ident_0,
        reason: if begins_with_reason(input) {
            Some(input[2].kind->Str_0)
        } else {
            None
        },
    }
}

/// Why `input`, which holds something, does not begin with a tag.
pub open spec fn no_tag(input: Seq<LexemeView>, scope: Span) -> Seq<MessageView> {
    match input[0].kind {
        KindView::Ident(_) => if input.len() == 2 {
            one_message("unexpected end of input, "@ + "expected string literal"@, scope, scope)
        } else {
            one_message("expected string literal"@, input[2].at, input[2].at)
        },
        KindView::Keyword(text) => one_message(
            "expected identifier, found keyword `"@ + text + "`"@,
            input[0].at,
            input[0].at,
        ),
        _ => one_message("expected identifier"@, input[0].at, input[0].at),
    }
}

/// A tag is a name, with `= "reason"` behind it or no `=`. Anything else is
/// refused where it goes wrong.
pub proof fn law_a_tag_is_a_name_and_a_reason(
    front: Seq<LexemeView>,
    input: Seq<LexemeView>,
    scope: Span,
)
    requires
        input.len() > 0,
    ensures
        tag_at(front + input, front.len() as int, scope) == (if begins_with_reason(input)
            || begins_with_name(input) {
            Ok::<(TagSpecView, int), Seq<MessageView>>(
                (tag_read(input), front.len() + tag_length(input)),
            )
        } else {
            Err::<(TagSpecView, int), Seq<MessageView>>(no_tag(input, scope))
        }),
{
    let all = front + input;
    let n = front.len() as int;
    assert(all[n] == input[0]);
    if input.len() > 1 {
        assert(all[n + 1] == input[1]);
    }
    if input.len() > 2 {
        assert(all[n + 2] == input[2]);
    }
}

proof fn lemma_tags_shift(front: Seq<LexemeView>, input: Seq<LexemeView>, pos: int, scope: Span)
    requires
        0 <= pos,
    ensures
        tags_from(front + input, front.len() + pos, scope) == tags_from(input, pos, scope),
    decreases input.len() - pos,
{
    let all = front + input;
    let n = front.len() as int;
    if pos < input.len() {
        let rest = input.skip(pos);
        assert(all =~= (front + input.take(pos)) + rest);
        assert(input =~= input.take(pos) + rest);
        law_a_tag_is_a_name_and_a_reason(front + input.take(pos), rest, scope);
        law_a_tag_is_a_name_and_a_reason(input.take(pos), rest, scope);
        if let Ok((spec, next)) = tag_at(input, pos, scope) {
            assert(tag_at(all, n + pos, scope) == Ok::<_, Seq<MessageView>>((spec, n + next)));
            if next < input.len() {
                assert(all[n + next] == input[next]);
                lemma_tags_shift(front, input, next + 1, scope);
            }
        }
    }
}

/// The error for a lexeme where a comma should be.
pub open spec fn no_comma(lexeme: LexemeView) -> Seq<MessageView> {
    match lexeme.kind {
        KindView::Punct { ch, span } => if ch == '\'' {
            one_message("expected `,`"@, lexeme.at, lexeme.at)
        } else {
            one_message("expected `,`"@, span, span)
        },
        _ => one_message("expected `,`"@, lexeme.at, lexeme.at),
    }
}

/// The tags of `#[safety::requires(..)]` are read one by one: the first, which
/// ends the list or has a comma behind it, and then the tags behind the comma.
pub proof fn law_tag_lists_are_read_tag_by_tag(input: Seq<LexemeView>, scope: Span)
    ensures
        ({
            let tags = tag_list(input, scope);
            if input.len() == 0 {
                tags == Err::<Seq<TagSpecView>, _>(
                    one_message(
                        "unexpected end of input, "@
                            + "expected at least one safety tag: #[safety::requires(Tag = \"reason\")]"@,
                        scope,
                        scope,
                    ),
                )
            } else if !begins_with_reason(input) && !begins_with_name(input) {
                tags == Err::<Seq<TagSpecView>, _>(no_tag(input, scope))
            } else {
                let first = tag_read(input);
                let n = tag_length(input);
                if input.len() <= n {
                    tags == Ok::<_, Seq<MessageView>>(seq![first])
                } else if !is_char(input[n], ',') {
                    tags == Err::<Seq<TagSpecView>, _>(no_comma(input[n]))
                } else if input.len() == n + 1 {
                    tags == Ok::<_, Seq<MessageView>>(seq![first])
                } else {
                    match tag_list(input.skip(n + 1), scope) {
                        Ok(rest) => tags == Ok::<_, Seq<MessageView>>(seq![first] + rest),
                        Err(error) => tags == Err::<Seq<TagSpecView>, _>(error),
                    }
                }
            }
        }),
{
    if input.len() > 0 {
        let none = Seq::<LexemeView>::empty();
        assert(none + input =~= input);
        law_a_tag_is_a_name_and_a_reason(none, input, scope);
        if begins_with_reason(input) || begins_with_name(input) {
            let n = tag_length(input);
            if n + 1 <= input.len() {
                let rest = input.skip(n + 1);
                assert(input =~= input.take(n + 1) + rest);
                lemma_tags_shift(input.take(n + 1), rest, 0, scope);
                assert(tags_from(input, n + 1, scope) == tags_from(rest, 0, scope));
                if rest.len() == 0 {
                    assert(seq![tag_read(input)] + Seq::<TagSpecView>::empty() =~= seq![
                        tag_read(input),
                    ]);
                } else {
                    lemma_some_tags(rest, scope);
                }
            }
        }
    }
}

proof fn lemma_some_tags(input: Seq<LexemeView>, scope: Span)
    requires
        input.len() > 0,
    ensures
        tags_from(input, 0, scope) matches Ok(tags) ==> tags.len() > 0,
        tag_list(input, scope) == tags_from(input, 0, scope),
{
}

/// Whether `input` begins with a name and parentheses.
pub open spec fn begins_with_parens(input: Seq<LexemeView>) -> bool {
    &&& input.len() >= 2
    &&& input[0].kind is Ident
    &&& input[1].kind is Group
    &&& input[1].kind->delimiter == Delimiter::Parenthesis
}

/// What is left of `input` behind its first `n` lexemes and a comma, if one
/// follows.
pub open spec fn left_behind(input: Seq<LexemeView>, n: int) -> Seq<LexemeView> {
    if n < input.len() && is_char(input[n], ',') {
        input.skip(n + 1)
    } else {
        input.skip(n)
    }
}

/// Whether `input` holds nothing but `delegate()`, with nothing in the
/// parentheses, any number of times.
pub open spec fn delegates_nothing(input: Seq<LexemeView>) -> bool
    decreases input.len(),
{
    input.len() == 0 || {
        &&& begins_with_parens(input)
        &&& input[0].kind->Ident_0.text == "delegate"@
        &&& input[1].kind->lexemes.len() == 0
        &&& delegates_nothing(left_behind(input, 2))
    }
}

/// The tags in `first`, and behind them those of the arguments in `rest`.
pub open spec fn read_on(first: CheckedArgsView, rest: Seq<LexemeView>, scope: Span) -> Result<
    CheckedArgsView,
    Seq<MessageView>,
> {
    if delegates_nothing(rest) {
        if first.discharged.len() + first.delegated.len() == 0 {
            Err(
                one_message("unexpected end of input, "@ + "expected at least one tag"@, scope, scope),
            )
        } else {
            Ok(first)
        }
    } else {
        match checked_args(rest, scope) {
            Ok(more) => Ok(
                CheckedArgsView {
                    discharged: first.discharged + more.discharged,
                    delegated: first.delegated + more.delegated,
                },
            ),
            Err(error) => Err(error),
        }
    }
}

/// No tags.
pub open spec fn no_args() -> CheckedArgsView {
    CheckedArgsView { discharged: Seq::empty(), delegated: Seq::empty() }
}

/// What the tags in the parentheses of `delegate(..)` are read as.
pub open spec fn tags_in(parens: LexemeView) -> Result<Seq<TagSpecView>, Seq<MessageView>> {
    if parens.kind->lexemes.len() == 0 {
        Ok(Seq::empty())
    } else {
        tag_list(parens.kind->lexemes, parens.kind->close)
    }
}

proof fn lemma_tags_in(parens: LexemeView)
    requires
        parens.kind is Group,
    ensures
        tags_from(parens.kind->lexemes, 0, parens.kind->close) == tags_in(parens),
{
    if parens.kind->lexemes.len() > 0 {
        lemma_some_tags(parens.kind->lexemes, parens.kind->close);
    }
}

proof fn lemma_checked_shift(
    front: Seq<LexemeView>,
    input: Seq<LexemeView>,
    pos: int,
    scope: Span,
    done: CheckedArgsView,
)
    requires
        0 <= pos,
    ensures
        checked_from(front + input, front.len() + pos, scope, done) == checked_from(
            input,
            pos,
            scope,
            done,
        ),
    decreases input.len() - pos,
{
    let all = front + input;
    let n = front.len() as int;
    if pos < input.len() {
        let rest = input.skip(pos);
        assert(all[n + pos] == input[pos]);
        if pos + 1 < input.len() {
            assert(all[n + pos + 1] == input[pos + 1]);
        }
        if begins_with_parens(rest) {
            assert(rest[0] == input[pos]);
            assert(rest[1] == input[pos + 1]);
            if pos + 2 < input.len() {
                assert(all[n + pos + 2] == input[pos + 2]);
            }
            let parens = input[pos + 1].kind;
            if let Ok(tags) = tags_from(parens->lexemes, 0, parens->close) {
                lemma_checked_shift(
                    front,
                    input,
                    past_comma(input, pos + 2),
                    scope,
                    CheckedArgsView { delegated: done.delegated + tags, ..done },
                );
            }
        } else {
            assert(all =~= (front + input.take(pos)) + rest);
            assert(input =~= input.take(pos) + rest);
            law_a_tag_is_a_name_and_a_reason(front + input.take(pos), rest, scope);
            law_a_tag_is_a_name_and_a_reason(input.take(pos), rest, scope);
            if let Ok((spec, next)) = tag_at(input, pos, scope) {
                assert(tag_at(all, n + pos, scope) == Ok::<_, Seq<MessageView>>((spec, n + next)));
                if next < input.len() {
                    assert(all[n + next] == input[next]);
                }
                lemma_checked_shift(
                    front,
                    input,
                    past_comma(input, next),
                    scope,
                    CheckedArgsView { discharged: done.discharged.push(spec), ..done },
                );
            }
        }
    }
}

/// From a position on is from the start of what is left there.
proof fn lemma_checked_left(
    input: Seq<LexemeView>,
    n: int,
    scope: Span,
    done: CheckedArgsView,
)
    requires
        0 <= n <= input.len(),
    ensures
        checked_from(input, past_comma(input, n), scope, done) == checked_from(
            left_behind(input, n),
            0,
            scope,
            done,
        ),
{
    let pos = past_comma(input, n);
    let rest = left_behind(input, n);
    assert(rest =~= input.skip(pos));
    assert(input =~= input.take(pos) + rest);
    lemma_checked_shift(input.take(pos), rest, 0, scope, done);
}

proof fn lemma_read_on_again(
    first: CheckedArgsView,
    second: CheckedArgsView,
    rest: Seq<LexemeView>,
    scope: Span,
)
    requires
        second.discharged.len() + second.delegated.len() > 0,
    ensures
        ({
            let both = CheckedArgsView {
                discharged: first.discharged + second.discharged,
                delegated: first.delegated + second.delegated,
            };
            read_on(both, rest, scope) == (match read_on(second, rest, scope) {
                Ok(more) => Ok::<CheckedArgsView, Seq<MessageView>>(
                    CheckedArgsView {
                        discharged: first.discharged + more.discharged,
                        delegated: first.delegated + more.delegated,
                    },
                ),
                Err(error) => Err::<CheckedArgsView, Seq<MessageView>>(error),
            })
        }),
{
    if !delegates_nothing(rest) {
        if let Ok(more) = checked_args(rest, scope) {
            assert((first.discharged + second.discharged) + more.discharged =~= first.discharged + (
            second.discharged + more.discharged));
            assert((first.delegated + second.delegated) + more.delegated =~= first.delegated + (
            second.delegated + more.delegated));
        }
    }
}

/// Tags that were read stand in front of those that are still to be read.
proof fn lemma_checked_reads_on(input: Seq<LexemeView>, scope: Span, done: CheckedArgsView)
    ensures
        checked_from(input, 0, scope, done) == read_on(done, input, scope),
        delegates_nothing(input) ==> checked_args(input, scope) is Err,
    decreases input.len(), 1nat,
{
    if input.len() > 0 {
        if begins_with_parens(input) {
            let parens = input[1];
            lemma_tags_in(parens);
            if input[0].kind->Ident_0.text == "delegate"@ {
                if let Ok(tags) = tags_in(parens) {
                    let what = "why passing this obligation to our own callers is sound"@;
                    if first_missing(tags, what) is None {
                        lemma_delegated(input, scope, done, tags);
                    }
                }
            }
        } else {
            let none = Seq::<LexemeView>::empty();
            assert(none + input =~= input);
            law_a_tag_is_a_name_and_a_reason(none, input, scope);
            if begins_with_reason(input) {
                lemma_discharged(input, scope, done);
            }
        }
    }
}

proof fn lemma_delegated(
    input: Seq<LexemeView>,
    scope: Span,
    done: CheckedArgsView,
    tags: Seq<TagSpecView>,
)
    requires
        begins_with_parens(input),
        input[0].kind->Ident_0.text == "delegate"@,
        tags_in(input[1]) == Ok::<_, Seq<MessageView>>(tags),
        first_missing(tags, "why passing this obligation to our own callers is sound"@) is None,
    ensures
        checked_from(input, 0, scope, done) == read_on(done, input, scope),
        delegates_nothing(input) ==> checked_args(input, scope) is Err,
        checked_args(input, scope) == read_on(
            CheckedArgsView { discharged: Seq::empty(), delegated: tags },
            left_behind(input, 2),
            scope,
        ),
    decreases input.len(), 0nat,
{
    let rest = left_behind(input, 2);
    let none = no_args();
    let second = CheckedArgsView { discharged: Seq::empty(), delegated: tags };
    let both = CheckedArgsView { delegated: done.delegated + tags, ..done };
    lemma_tags_in(input[1]);
    assert(none.delegated + tags =~= tags);
    lemma_checked_left(input, 2, scope, both);
    lemma_checked_left(input, 2, scope, second);
    lemma_checked_reads_on(rest, scope, both);
    lemma_checked_reads_on(rest, scope, second);
    assert(checked_from(input, 0, scope, done) == read_on(both, rest, scope));
    assert(checked_from(input, 0, scope, none) == read_on(second, rest, scope));
    assert(checked_args(input, scope) == read_on(second, rest, scope));
    assert(done.discharged + Seq::<TagSpecView>::empty() =~= done.discharged);
    if tags.len() > 0 {
        lemma_read_on_again(done, second, rest, scope);
        if input[1].kind->lexemes.len() == 0 {
            assert(tags =~= Seq::empty());
        }
    } else {
        if input[1].kind->lexemes.len() > 0 {
            lemma_some_tags(input[1].kind->lexemes, input[1].kind->close);
        }
        assert(done.delegated + tags =~= done.delegated);
        assert(second == none);
        if let Ok(more) = checked_args(rest, scope) {
            assert(none.discharged + more.discharged =~= more.discharged);
            assert(none.delegated + more.delegated =~= more.delegated);
        }
    }
}

proof fn lemma_discharged(input: Seq<LexemeView>, scope: Span, done: CheckedArgsView)
    requires
        begins_with_reason(input),
    ensures
        checked_from(input, 0, scope, done) == read_on(done, input, scope),
        !delegates_nothing(input),
        checked_args(input, scope) == read_on(
            CheckedArgsView { discharged: seq![tag_read(input)], delegated: Seq::empty() },
            left_behind(input, 3),
            scope,
        ),
    decreases input.len(), 0nat,
{
    let rest = left_behind(input, 3);
    let spec = tag_read(input);
    let none = no_args();
    let second = CheckedArgsView { discharged: seq![spec], delegated: Seq::empty() };
    let both = CheckedArgsView { discharged: done.discharged.push(spec), ..done };
    let start = Seq::<LexemeView>::empty();
    assert(start + input =~= input);
    law_a_tag_is_a_name_and_a_reason(start, input, scope);
    assert(none.discharged.push(spec) =~= seq![spec]);
    assert(done.discharged.push(spec) =~= done.discharged + seq![spec]);
    assert(done.delegated + Seq::<TagSpecView>::empty() =~= done.delegated);
    lemma_checked_left(input, 3, scope, both);
    lemma_checked_left(input, 3, scope, second);
    lemma_checked_reads_on(rest, scope, both);
    lemma_checked_reads_on(rest, scope, second);
    assert(checked_from(input, 0, scope, done) == read_on(both, rest, scope));
    assert(checked_args(input, scope) == read_on(second, rest, scope));
    lemma_read_on_again(done, second, rest, scope);
}

/// The arguments of `#[safety::checked(..)]` are read one by one: a tag with
/// its reason, which is discharged, or `delegate(..)`, whose tags are delegated
/// and must have reasons, and then the arguments behind it, or behind the comma
/// that follows it.
pub proof fn law_checked_arguments_are_read_one_by_one(input: Seq<LexemeView>, scope: Span)
    ensures
        ({
            let args = checked_args(input, scope);
            if input.len() == 0 {
                args == Err::<CheckedArgsView, _>(
                    one_message(
                        "unexpected end of input, "@ + "expected at least one tag"@,
                        scope,
                        scope,
                    ),
                )
            } else if begins_with_parens(input) {
                let word = input[0].kind->Ident_0;
                if word.text != "delegate"@ {
                    args == Err::<CheckedArgsView, _>(
                        one_message(
                            "expected `Tag = \"reason\"` or `delegate(Tag = \"reason\", ...)`"@,
                            word.span,
                            word.span,
                        ),
                    )
                } else {
                    match tags_in(input[1]) {
                        Err(error) => args == Err::<CheckedArgsView, _>(error),
                        Ok(tags) => {
                            &&& forall|i: int| #[trigger]
                                first_without_reason(tags, i) ==> args == Err::<CheckedArgsView, _>(
                                    asks_for_reason(
                                        tags[i],
                                        "why passing this obligation to our own callers is sound"@,
                                    ),
                                )
                            &&& all_have_reasons(tags) ==> args == read_on(
                                CheckedArgsView { discharged: Seq::empty(), delegated: tags },
                                left_behind(input, 2),
                                scope,
                            )
                        },
                    }
                }
            } else if begins_with_reason(input) {
                args == read_on(
                    CheckedArgsView { discharged: seq![tag_read(input)], delegated: Seq::empty() },
                    left_behind(input, 3),
                    scope,
                )
            } else if begins_with_name(input) {
                args == Err::<CheckedArgsView, _>(
                    asks_for_reason(
                        tag_read(input),
                        "why this invariant holds at this call site"@,
                    ),
                )
            } else {
                args == Err::<CheckedArgsView, _>(no_tag(input, scope))
            }
        }),
{
    if input.len() > 0 {
        if begins_with_parens(input) {
            lemma_tags_in(input[1]);
            if input[0].kind->Ident_0.text == "delegate"@ {
                if let Ok(tags) = tags_in(input[1]) {
                    let what = "why passing this obligation to our own callers is sound"@;
                    law_first_missing_reason_is_asked_for(tags, what, 0);
                    assert forall|i: int| #[trigger]
                        first_without_reason(tags, i) implies checked_args(input, scope) == Err::<
                        CheckedArgsView,
                        _,
                    >(asks_for_reason(tags[i], what)) by {
                        law_first_missing_reason_is_asked_for(tags, what, i);
                    }
                    if all_have_reasons(tags) {
                        lemma_delegated(input, scope, no_args(), tags);
                    }
                }
            }
        } else {
            let none = Seq::<LexemeView>::empty();
            assert(none + input =~= input);
            law_a_tag_is_a_name_and_a_reason(none, input, scope);
            if begins_with_reason(input) {
                lemma_discharged(input, scope, no_args());
            }
        }
    }
}

} // verus!
