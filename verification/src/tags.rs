//! The grammar of tags: `Tag = "reason"`, and the lists of them that the
//! attributes take.
use proc_macro2::Span;
use proc_macro2::TokenStream;
use vstd::prelude::*;
use vstd::string::StringExecFns;

use crate::diagnostic::error_at;
use crate::diagnostic::Diagnostic;
use crate::diagnostic::MessageView;
use crate::lexeme::lex_stream;
use crate::lexeme::lexemes_of;
use crate::lexeme::lexemes_view;
use crate::lexeme::Kind;
use crate::lexeme::KindView;
use crate::lexeme::Lexeme;
use crate::lexeme::LexemeView;
use crate::token::trees_of;
use crate::token::Delimiter;
use crate::token::Ident;
use crate::token::IdentView;

verus! {

/// `Tag = "reason"` (reason optional at parse time; each attribute decides
/// where it is mandatory).
pub struct TagSpec {
    pub name: Ident,
    pub reason: Option<String>,
}

pub struct TagSpecView {
    pub name: IdentView,
    pub reason: Option<Seq<char>>,
}

impl View for TagSpec {
    type V = TagSpecView;

    open spec fn view(&self) -> TagSpecView {
        TagSpecView {
            name: self.name@,
            reason: match self.reason {
                Some(reason) => Some(reason@),
                None => None,
            },
        }
    }
}

pub open spec fn specs_view(specs: Seq<TagSpec>) -> Seq<TagSpecView> {
    specs.map_values(|spec: TagSpec| spec@)
}

/// The names of the tags.
pub open spec fn spec_names(specs: Seq<TagSpecView>) -> Seq<IdentView> {
    specs.map_values(|spec: TagSpecView| spec.name)
}

/// The error for something other than what `wanted` says at `pos`.
pub open spec fn error_here(
    input: Seq<LexemeView>,
    pos: int,
    scope: Span,
    wanted: Seq<char>,
) -> Seq<MessageView> {
    if pos < input.len() {
        error_at(input[pos].at, wanted)
    } else {
        error_at(scope, "unexpected end of input, "@ + wanted)
    }
}

/// Whether `input` holds the punctuation `ch` at `pos`.
pub open spec fn is_punct(input: Seq<LexemeView>, pos: int, ch: char) -> bool {
    pos < input.len() && input[pos].kind is Punct && input[pos].kind->Punct_ch == ch
}

/// Whether `input` holds parentheses at `pos`.
pub open spec fn is_parens(input: Seq<LexemeView>, pos: int) -> bool {
    pos < input.len() && input[pos].kind is Group && input[pos].kind->delimiter
        == Delimiter::Parenthesis
}

/// Whether `input` holds an identifier at `pos`.
pub open spec fn is_ident(input: Seq<LexemeView>, pos: int) -> bool {
    pos < input.len() && input[pos].kind is Ident
}

/// The tag at `pos`, and what position it ends before.
pub open spec fn tag_at(input: Seq<LexemeView>, pos: int, scope: Span) -> Result<
    (TagSpecView, int),
    Seq<MessageView>,
> {
    if is_ident(input, pos) {
        let name = input[pos].kind->Ident_0;
        if is_punct(input, pos + 1, '=') {
            if pos + 2 < input.len() && input[pos + 2].kind is Str {
                Ok((TagSpecView { name, reason: Some(input[pos + 2].kind->Str_0) }, pos + 3))
            } else {
                Err(error_here(input, pos + 2, scope, "expected string literal"@))
            }
        } else {
            Ok((TagSpecView { name, reason: None }, pos + 1))
        }
    } else if pos < input.len() && input[pos].kind is Keyword {
        Err(
            error_at(
                input[pos].at,
                "expected identifier, found keyword `"@ + input[pos].kind->Keyword_0 + "`"@,
            ),
        )
    } else {
        Err(error_here(input, pos, scope, "expected identifier"@))
    }
}

/// The error for a tag without its reason string.
pub open spec fn missing_reason(name: IdentView, what: Seq<char>) -> Seq<MessageView> {
    error_at(
        name.span,
        "safety tag `"@ + name.text + "` is missing its reason string: write `"@ + name.text
            + " = \""@ + what + "\"`"@,
    )
}

fn wrong_here(input: &Vec<Lexeme>, pos: usize, scope: Span, wanted: &str) -> (error: Diagnostic)
    ensures
        error@ == error_here(lexemes_view(input@), pos as int, scope, wanted@),
{
    if pos < input.len() {
        Diagnostic::new(input[pos].at, wanted.to_owned())
    } else {
        let mut text = "unexpected end of input, ".to_owned();
        text.append(wanted);
        Diagnostic::new(scope, text)
    }
}

fn punct_at(input: &Vec<Lexeme>, pos: usize, ch: char) -> (r: bool)
    ensures
        r == is_punct(lexemes_view(input@), pos as int, ch),
{
    if pos >= input.len() {
        return false;
    }
    match &input[pos].kind {
        Kind::Punct { ch: found, .. } => *found == ch,
        _ => false,
    }
}

impl TagSpec {
    /// Reads the tag at `pos`, and says what position it ends before.
    pub fn parse(input: &Vec<Lexeme>, pos: usize, scope: Span) -> (r: Result<
        (TagSpec, usize),
        Diagnostic,
    >)
        ensures
            match (r, tag_at(lexemes_view(input@), pos as int, scope)) {
                (Ok((spec, end)), Ok((view, next))) => spec@ == view && end == next,
                (Err(error), Err(view)) => error@ == view,
                _ => false,
            },
    {
        if pos >= input.len() {
            return Err(wrong_here(input, pos, scope, "expected identifier"));
        }
        match &input[pos].kind {
            Kind::Ident(ident) => {
                let name = Ident { text: ident.text.clone(), span: ident.span };
                if punct_at(input, pos + 1, '=') {
                    if pos + 2 >= input.len() {
                        return Err(wrong_here(input, pos + 2, scope, "expected string literal"));
                    }
                    match &input[pos + 2].kind {
                        Kind::Str(value) => Ok(
                            (TagSpec { name, reason: Some(value.clone()) }, pos + 3),
                        ),
                        _ => Err(wrong_here(input, pos + 2, scope, "expected string literal")),
                    }
                } else {
                    Ok((TagSpec { name, reason: None }, pos + 1))
                }
            },
            Kind::Keyword(word) => {
                let mut text = "expected identifier, found keyword `".to_owned();
                text.append(word.as_str());
                text.append("`");
                Err(Diagnostic::new(input[pos].at, text))
            },
            _ => Err(wrong_here(input, pos, scope, "expected identifier")),
        }
    }

    /// The reason, or the error that says to write one.
    pub fn require_reason(&self, what: &str) -> (r: Result<&String, Diagnostic>)
        ensures
            match r {
                Ok(reason) => self@.reason == Some(reason@),
                Err(error) => self@.reason is None && error@ == missing_reason(self@.name, what@),
            },
    {
        match &self.reason {
            Some(reason) => Ok(reason),
            None => {
                let mut text = "safety tag `".to_owned();
                text.append(self.name.text.as_str());
                text.append("` is missing its reason string: write `");
                text.append(self.name.text.as_str());
                text.append(" = \"");
                text.append(what);
                text.append("\"`");
                Err(Diagnostic::new(self.name.span, text))
            },
        }
    }
}

/// Where the error for a missing comma points.
pub open spec fn comma_place(lexeme: LexemeView) -> Span {
    match lexeme.kind {
        KindView::Punct { ch, span } => if ch == '\'' {
            lexeme.at
        } else {
            span
        },
        _ => lexeme.at,
    }
}

/// The tags from `pos` to the end of `input`, with a comma behind each but
/// perhaps the last.
pub open spec fn tags_from(input: Seq<LexemeView>, pos: int, scope: Span) -> Result<
    Seq<TagSpecView>,
    Seq<MessageView>,
>
    decreases input.len() - pos,
{
    if pos >= input.len() {
        Ok(Seq::empty())
    } else {
        match tag_at(input, pos, scope) {
            Err(error) => Err(error),
            Ok((spec, next)) => if next >= input.len() {
                Ok(seq![spec])
            } else if is_punct(input, next, ',') {
                behind(seq![spec], tags_from(input, next + 1, scope))
            } else {
                Err(error_at(comma_place(input[next]), "expected `,`"@))
            },
        }
    }
}

/// The tags in `rest`, if it holds tags, behind those in `done`.
pub open spec fn behind(
    done: Seq<TagSpecView>,
    rest: Result<Seq<TagSpecView>, Seq<MessageView>>,
) -> Result<Seq<TagSpecView>, Seq<MessageView>> {
    match rest {
        Ok(tags) => Ok(done + tags),
        Err(error) => Err(error),
    }
}

/// Reads tags to the end of `input`, with a comma behind each but perhaps the
/// last.
fn parse_terminated(input: &Vec<Lexeme>, scope: Span) -> (r: Result<Vec<TagSpec>, Diagnostic>)
    ensures
        match (r, tags_from(lexemes_view(input@), 0, scope)) {
            (Ok(specs), Ok(view)) => specs_view(specs@) == view,
            (Err(error), Err(view)) => error@ == view,
            _ => false,
        },
{
    let ghost all = lexemes_view(input@);
    let mut specs: Vec<TagSpec> = Vec::new();
    let mut pos: usize = 0;
    proof {
        if let Ok(tags) = tags_from(all, 0, scope) {
            assert(specs_view(specs@) + tags =~= tags);
        }
    }
    while pos < input.len()
        invariant
            all == lexemes_view(input@),
            pos <= input@.len(),
            tags_from(all, 0, scope) == behind(
                specs_view(specs@),
                tags_from(all, pos as int, scope),
            ),
        decreases input@.len() - pos,
    {
        let ghost done = specs_view(specs@);
        let (spec, next) = match TagSpec::parse(input, pos, scope) {
            Ok(parsed) => parsed,
            Err(error) => return Err(error),
        };
        specs.push(spec);
        proof {
            assert(specs_view(specs@) =~= done + seq![spec@]);
            if let Ok(tags) = tags_from(all, next + 1, scope) {
                assert(done + (seq![spec@] + tags) =~= (done + seq![spec@]) + tags);
            }
        }
        if next >= input.len() {
            return Ok(specs);
        }
        if !punct_at(input, next, ',') {
            let place = match &input[next].kind {
                Kind::Punct { ch, span } => if *ch == '\'' {
                    input[next].at
                } else {
                    *span
                },
                _ => input[next].at,
            };
            return Err(Diagnostic::new(place, "expected `,`".to_owned()));
        }
        pos = next + 1;
    }
    proof {
        assert(specs_view(specs@) + Seq::<TagSpecView>::empty() =~= specs_view(specs@));
    }
    Ok(specs)
}

/// The tags that a function requires: one or more.
pub struct TagList(pub Vec<TagSpec>);

/// What `#[safety::requires(..)]` takes.
pub open spec fn tag_list(input: Seq<LexemeView>, scope: Span) -> Result<
    Seq<TagSpecView>,
    Seq<MessageView>,
> {
    match tags_from(input, 0, scope) {
        Ok(tags) => if tags.len() == 0 {
            Err(
                error_at(
                    scope,
                    "unexpected end of input, "@
                        + "expected at least one safety tag: #[safety::requires(Tag = \"reason\")]"@,
                ),
            )
        } else {
            Ok(tags)
        },
        Err(error) => Err(error),
    }
}

impl TagList {
    /// Reads the arguments of `#[safety::requires(..)]`.
    pub fn parse_lexemes(input: &Vec<Lexeme>, scope: Span) -> (r: Result<TagList, Diagnostic>)
        ensures
            match (r, tag_list(lexemes_view(input@), scope)) {
                (Ok(list), Ok(view)) => specs_view(list.0@) == view,
                (Err(error), Err(view)) => error@ == view,
                _ => false,
            },
    {
        match parse_terminated(input, scope) {
            Ok(tags) => {
                if tags.len() == 0 {
                    proof {
                        lemma_no_tags(lexemes_view(input@), scope);
                    }
                    return Err(
                        wrong_here(
                            input,
                            input.len(),
                            scope,
                            "expected at least one safety tag: #[safety::requires(Tag = \"reason\")]",
                        ),
                    );
                }
                Ok(TagList(tags))
            },
            Err(error) => Err(error),
        }
    }

    /// Reads the arguments of `#[safety::requires(..)]`. An error behind the
    /// last of them points at `scope`.
    pub fn parse(input: TokenStream, scope: Span) -> (r: Result<TagList, Diagnostic>)
        ensures
            match (r, tag_list(lexemes_of(trees_of(input)), scope)) {
                (Ok(list), Ok(view)) => specs_view(list.0@) == view,
                (Err(error), Err(view)) => error@ == view,
                _ => false,
            },
    {
        TagList::parse_lexemes(&lex_stream(input), scope)
    }
}

proof fn lemma_no_tags(input: Seq<LexemeView>, scope: Span)
    requires
        tags_from(input, 0, scope) == Ok::<_, Seq<MessageView>>(Seq::<TagSpecView>::empty()),
    ensures
        input.len() == 0,
{
}

/// The tags of a checked call: those whose conditions hold there, and those
/// that are passed on to the caller.
pub struct CheckedArgs {
    pub discharged: Vec<TagSpec>,
    pub delegated: Vec<TagSpec>,
}

pub struct CheckedArgsView {
    pub discharged: Seq<TagSpecView>,
    pub delegated: Seq<TagSpecView>,
}

impl View for CheckedArgs {
    type V = CheckedArgsView;

    open spec fn view(&self) -> CheckedArgsView {
        CheckedArgsView {
            discharged: specs_view(self.discharged@),
            delegated: specs_view(self.delegated@),
        }
    }
}

impl CheckedArgsView {
    /// All the tags, the discharged ones first.
    pub open spec fn union(self) -> Seq<TagSpecView> {
        self.discharged + self.delegated
    }
}

/// The error for the first of the tags that has no reason.
pub open spec fn first_missing(specs: Seq<TagSpecView>, what: Seq<char>) -> Option<
    Seq<MessageView>,
>
    decreases specs.len(),
{
    if specs.len() == 0 {
        None
    } else if specs[0].reason is None {
        Some(missing_reason(specs[0].name, what))
    } else {
        first_missing(specs.drop_first(), what)
    }
}

/// Tells the first of the tags that has no reason.
pub fn require_reasons(specs: &Vec<TagSpec>, what: &str) -> (r: Result<(), Diagnostic>)
    ensures
        match (r, first_missing(specs_view(specs@), what@)) {
            (Ok(()), None) => true,
            (Err(error), Some(view)) => error@ == view,
            _ => false,
        },
{
    let ghost all = specs_view(specs@);
    let mut i: usize = 0;
    proof {
        assert(all.skip(0) == all);
    }
    while i < specs.len()
        invariant
            i <= specs@.len(),
            all == specs_view(specs@),
            first_missing(all, what@) == first_missing(all.skip(i as int), what@),
        decreases specs@.len() - i,
    {
        proof {
            assert(all.skip(i as int).drop_first() == all.skip(i + 1));
            assert(all.skip(i as int)[0] == specs@[i as int]@);
        }
        if let Err(error) = specs[i].require_reason(what) {
            return Err(error);
        }
        i += 1;
    }
    Ok(())
}

/// The position behind a comma at `pos`, or `pos` where there is none.
pub open spec fn past_comma(input: Seq<LexemeView>, pos: int) -> int {
    if is_punct(input, pos, ',') {
        pos + 1
    } else {
        pos
    }
}

/// What `#[safety::checked(..)]` takes, from `pos` on, behind the tags in
/// `done`.
pub open spec fn checked_from(
    input: Seq<LexemeView>,
    pos: int,
    scope: Span,
    done: CheckedArgsView,
) -> Result<CheckedArgsView, Seq<MessageView>>
    decreases input.len() - pos,
{
    if pos >= input.len() {
        if done.union().len() == 0 {
            Err(error_at(scope, "unexpected end of input, "@ + "expected at least one tag"@))
        } else {
            Ok(done)
        }
    } else if is_ident(input, pos) && is_parens(input, pos + 1) {
        let word = input[pos].kind->Ident_0;
        if word.text != "delegate"@ {
            Err(
                error_at(
                    word.span,
                    "expected `Tag = \"reason\"` or `delegate(Tag = \"reason\", ...)`"@,
                ),
            )
        } else {
            let parens = input[pos + 1].kind;
            match tags_from(parens->lexemes, 0, parens->close) {
                Err(error) => Err(error),
                Ok(tags) => match first_missing(
                    tags,
                    "why passing this obligation to our own callers is sound"@,
                ) {
                    Some(error) => Err(error),
                    None => checked_from(
                        input,
                        past_comma(input, pos + 2),
                        scope,
                        CheckedArgsView { delegated: done.delegated + tags, ..done },
                    ),
                },
            }
        }
    } else {
        match tag_at(input, pos, scope) {
            Err(error) => Err(error),
            Ok((spec, next)) => if spec.reason is None {
                Err(missing_reason(spec.name, "why this invariant holds at this call site"@))
            } else {
                checked_from(
                    input,
                    past_comma(input, next),
                    scope,
                    CheckedArgsView { discharged: done.discharged.push(spec), ..done },
                )
            },
        }
    }
}

/// What `#[safety::checked(..)]` takes: tags with their reasons, and
/// `delegate(..)` with more of them, in any order, the commas between them
/// optional.
pub open spec fn checked_args(input: Seq<LexemeView>, scope: Span) -> Result<
    CheckedArgsView,
    Seq<MessageView>,
> {
    checked_from(
        input,
        0,
        scope,
        CheckedArgsView { discharged: Seq::empty(), delegated: Seq::empty() },
    )
}

impl CheckedArgs {
    /// Reads the arguments of `#[safety::checked(..)]`.
    pub fn parse_lexemes(input: &Vec<Lexeme>, scope: Span) -> (r: Result<CheckedArgs, Diagnostic>)
        ensures
            match (r, checked_args(lexemes_view(input@), scope)) {
                (Ok(args), Ok(view)) => args@ == view,
                (Err(error), Err(view)) => error@ == view,
                _ => false,
            },
    {
        let ghost all = lexemes_view(input@);
        let mut discharged: Vec<TagSpec> = Vec::new();
        let mut delegated: Vec<TagSpec> = Vec::new();
        let mut pos: usize = 0;
        proof {
            assert(specs_view(discharged@) =~= Seq::empty());
            assert(specs_view(delegated@) =~= Seq::empty());
        }
        while pos < input.len()
            invariant
                all == lexemes_view(input@),
                pos <= input@.len(),
                checked_args(all, scope) == checked_from(
                    all,
                    pos as int,
                    scope,
                    CheckedArgsView {
                        discharged: specs_view(discharged@),
                        delegated: specs_view(delegated@),
                    },
                ),
            decreases input@.len() - pos,
        {
            let mut next: usize = pos;
            let group = match &input[pos].kind {
                Kind::Ident(word) => if pos + 1 < input.len() {
                    match &input[pos + 1].kind {
                        Kind::Group { delimiter, lexemes, close } => if *delimiter
                            == Delimiter::Parenthesis {
                            Some((word, lexemes, *close))
                        } else {
                            None
                        },
                        _ => None,
                    }
                } else {
                    None
                },
                _ => None,
            };
            if let Some((word, lexemes, close)) = group {
                if !(word.text == "delegate".to_owned()) {
                    return Err(
                        Diagnostic::new(
                            word.span,
                            "expected `Tag = \"reason\"` or `delegate(Tag = \"reason\", ...)`".to_owned(),
                        ),
                    );
                }
                let mut specs = match parse_terminated(lexemes, close) {
                    Ok(specs) => specs,
                    Err(error) => return Err(error),
                };
                if let Err(error) = require_reasons(
                    &specs,
                    "why passing this obligation to our own callers is sound",
                ) {
                    return Err(error);
                }
                let ghost before = specs_view(delegated@);
                let ghost added = specs_view(specs@);
                delegated.append(&mut specs);
                proof {
                    assert(specs_view(delegated@) =~= before + added);
                }
                next = pos + 2;
            } else {
                let (spec, end) = match TagSpec::parse(input, pos, scope) {
                    Ok(parsed) => parsed,
                    Err(error) => return Err(error),
                };
                if let Err(error) = spec.require_reason("why this invariant holds at this call site") {
                    return Err(error);
                }
                let ghost before = specs_view(discharged@);
                discharged.push(spec);
                proof {
                    assert(specs_view(discharged@) =~= before.push(spec@));
                }
                next = end;
            }
            if punct_at(input, next, ',') {
                next += 1;
            }
            pos = next;
        }
        if discharged.len() == 0 && delegated.len() == 0 {
            return Err(wrong_here(input, pos, scope, "expected at least one tag"));
        }
        Ok(CheckedArgs { discharged, delegated })
    }

    /// Reads the arguments of `#[safety::checked(..)]`. An error behind the
    /// last of them points at `scope`.
    pub fn parse(input: TokenStream, scope: Span) -> (r: Result<CheckedArgs, Diagnostic>)
        ensures
            match (r, checked_args(lexemes_of(trees_of(input)), scope)) {
                (Ok(args), Ok(view)) => args@ == view,
                (Err(error), Err(view)) => error@ == view,
                _ => false,
            },
    {
        CheckedArgs::parse_lexemes(&lex_stream(input), scope)
    }
}

proof fn lemma_tags_say_why(input: Seq<LexemeView>, pos: int, scope: Span)
    ensures
        tags_from(input, pos, scope) matches Err(error) ==> error.len() > 0,
    decreases input.len() - pos,
{
    if pos < input.len() {
        if let Ok((spec, next)) = tag_at(input, pos, scope) {
            if next < input.len() {
                lemma_tags_say_why(input, next + 1, scope);
            }
        }
    }
}

proof fn lemma_missing_says_why(specs: Seq<TagSpecView>, what: Seq<char>)
    ensures
        first_missing(specs, what) matches Some(error) ==> error.len() > 0,
    decreases specs.len(),
{
    if specs.len() > 0 {
        lemma_missing_says_why(specs.drop_first(), what);
    }
}

/// Arguments that cannot be read give an error with a message.
pub(crate) proof fn lemma_checked_args_say_why(
    input: Seq<LexemeView>,
    pos: int,
    scope: Span,
    done: CheckedArgsView,
)
    ensures
        checked_from(input, pos, scope, done) matches Err(error) ==> error.len() > 0,
    decreases input.len() - pos,
{
    if pos < input.len() {
        if is_ident(input, pos) && is_parens(input, pos + 1) {
            let parens = input[pos + 1].kind;
            lemma_tags_say_why(parens->lexemes, 0, parens->close);
            if let Ok(tags) = tags_from(parens->lexemes, 0, parens->close) {
                lemma_missing_says_why(
                    tags,
                    "why passing this obligation to our own callers is sound"@,
                );
                lemma_checked_args_say_why(
                    input,
                    past_comma(input, pos + 2),
                    scope,
                    CheckedArgsView { delegated: done.delegated + tags, ..done },
                );
            }
        } else if let Ok((spec, next)) = tag_at(input, pos, scope) {
            lemma_checked_args_say_why(
                input,
                past_comma(input, next),
                scope,
                CheckedArgsView { discharged: done.discharged.push(spec), ..done },
            );
        }
    }
}

} // verus!
