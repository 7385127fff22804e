use proc_macro2::Delimiter as Outside;
use proc_macro2::Group;
use proc_macro2::Ident;
use proc_macro2::Literal;
use proc_macro2::Punct;
use proc_macro2::Spacing;
use proc_macro2::Span;
use proc_macro2::TokenStream;
use proc_macro2::TokenTree;
use safety::diagnostic::Diagnostic;
use safety::diagnostic::Message;
use safety::lexeme::lex_stream;
use safety::lexeme::Kind;
use safety::tags::require_reasons;
use safety::tags::CheckedArgs;
use safety::tags::TagList;
use safety::tags::TagSpec;
use safety::token::Delimiter;
use syn::parse::Parse;
use syn::parse::ParseStream;
use syn::parse::Parser;
use syn::punctuated::Punctuated;

fn stream(text: &str) -> TokenStream {
    text.parse().unwrap()
}

fn texts(error: &Diagnostic) -> Vec<String> {
    error
        .messages
        .iter()
        .map(|message| match message {
            Message::Text { text, .. } => text.clone(),
            Message::Syntax(error) => format!("syntax: {}", error),
        })
        .collect()
}

fn pairs(specs: &[TagSpec]) -> Vec<(String, Option<String>)> {
    specs.iter().map(|spec| (spec.name.text.clone(), spec.reason.clone())).collect()
}

fn pair(name: &str, reason: &str) -> (String, Option<String>) {
    (name.to_string(), Some(reason.to_string()))
}

fn list(text: &str) -> Result<Vec<(String, Option<String>)>, Vec<String>> {
    match TagList::parse(stream(text), Span::call_site()) {
        Ok(list) => Ok(pairs(&list.0)),
        Err(error) => Err(texts(&error)),
    }
}

fn checked(text: &str) -> Result<CheckedArgs, Vec<String>> {
    CheckedArgs::parse(stream(text), Span::call_site()).map_err(|error| texts(&error))
}

fn checked_error(text: &str) -> Vec<String> {
    match checked(text) {
        Ok(_) => panic!("the arguments were read"),
        Err(texts) => texts,
    }
}

#[test]
fn tags_are_read_with_their_reasons() {
    assert_eq!(
        list("ValidPtr = \"non-null\", Init = \"initialized\""),
        Ok(vec![pair("ValidPtr", "non-null"), pair("Init", "initialized")])
    );
}

#[test]
fn a_comma_may_stand_behind_the_last_tag() {
    assert_eq!(list("A = \"a\","), Ok(vec![pair("A", "a")]));
}

#[test]
fn a_reason_may_be_missing_when_a_tag_is_read() {
    assert_eq!(
        list("A, B = \"b\""),
        Ok(vec![("A".to_string(), None), pair("B", "b")])
    );
}

#[test]
fn escapes_in_reasons_are_undone() {
    assert_eq!(
        list("A = \"say \\\"why\\\"\\n\", B = r#\"raw \"b\"\"#"),
        Ok(vec![pair("A", "say \"why\"\n"), pair("B", "raw \"b\"")])
    );
}

#[test]
fn raw_identifiers_are_tags() {
    assert_eq!(list("r#type = \"t\""), Ok(vec![pair("r#type", "t")]));
}

#[test]
fn no_tag_at_all_is_an_error() {
    assert_eq!(
        list(""),
        Err(vec![
            "unexpected end of input, expected at least one safety tag: #[safety::requires(Tag = \"reason\")]"
                .to_string()
        ])
    );
}

#[test]
fn a_keyword_is_no_tag() {
    assert_eq!(
        list("fn = \"f\""),
        Err(vec!["expected identifier, found keyword `fn`".to_string()])
    );
}

#[test]
fn a_literal_is_no_tag() {
    assert_eq!(list("\"A\""), Err(vec!["expected identifier".to_string()]));
}

#[test]
fn a_number_is_no_reason() {
    assert_eq!(list("A = 1"), Err(vec!["expected string literal".to_string()]));
    assert_eq!(list("A = b\"a\""), Err(vec!["expected string literal".to_string()]));
}

#[test]
fn nothing_is_no_reason() {
    assert_eq!(
        list("A ="),
        Err(vec!["unexpected end of input, expected string literal".to_string()])
    );
}

#[test]
fn a_comma_must_stand_between_required_tags() {
    assert_eq!(list("A = \"a\" B = \"b\""), Err(vec!["expected `,`".to_string()]));
}

/// A tag, read by `syn` itself.
struct Reference {
    name: syn::Ident,
    reason: Option<syn::LitStr>,
}

impl Parse for Reference {
    fn parse(input: ParseStream) -> syn::Result<Self> {
        let name: syn::Ident = input.parse()?;
        let reason = if input.peek(syn::token::Eq) {
            input.parse::<syn::token::Eq>()?;
            Some(input.parse::<syn::LitStr>()?)
        } else {
            None
        };
        Ok(Reference { name, reason })
    }
}

fn reference(tokens: TokenStream) -> Result<Vec<(String, Option<String>)>, Vec<String>> {
    match Punctuated::<Reference, syn::token::Comma>::parse_terminated.parse2(tokens) {
        Ok(tags) => Ok(tags
            .into_iter()
            .map(|tag| (tag.name.to_string(), tag.reason.map(|reason| reason.value())))
            .collect()),
        Err(error) => Err(error.into_iter().map(|message| message.to_string()).collect()),
    }
}

fn list_of(tokens: TokenStream) -> Result<Vec<(String, Option<String>)>, Vec<String>> {
    match TagList::parse(tokens, Span::call_site()) {
        Ok(list) => Ok(pairs(&list.0)),
        Err(error) => Err(texts(&error)),
    }
}

#[test]
fn tags_are_read_as_syn_reads_them() {
    for text in [
        "A",
        "A,",
        "A, B",
        "A = \"a\"",
        "A = \"a\", B = \"b\",",
        "r#fn = \"f\"",
        "A = \"a\"suffix",
        "self",
        "Self = \"s\"",
        "crate",
        "super",
        "_ = \"s\"",
        "async = \"s\"",
        "union = \"s\"",
        "A = 'c'",
        "A = c\"c\"",
        "A == \"a\"",
        "A => \"a\"",
        "A = = \"a\"",
        "A = -1",
        "A B",
        "A (B)",
        "A, , B",
        ", A",
        "A; B",
        "A = B",
        "A = \"a\" \"b\"",
        "A = \"a\" 'b",
        "[A]",
        "A = (\"a\")",
        "#A",
    ] {
        assert_eq!(list_of(stream(text)), reference(stream(text)), "{}", text);
    }
}

fn invisible(inner: TokenStream) -> TokenTree {
    TokenTree::Group(Group::new(Outside::None, inner))
}

fn name(text: &str) -> TokenTree {
    TokenTree::Ident(Ident::new(text, Span::call_site()))
}

fn equals() -> TokenTree {
    TokenTree::Punct(Punct::new('=', Spacing::Alone))
}

fn string(text: &str) -> TokenTree {
    TokenTree::Literal(Literal::string(text))
}

#[test]
fn substituted_tokens_are_read_as_syn_reads_them() {
    let empty = invisible(TokenStream::new());
    let tag = invisible(vec![name("A")].into_iter().collect());
    let reason = invisible(vec![string("a")].into_iter().collect());
    let both = invisible(vec![name("A"), equals()].into_iter().collect());
    for trees in [
        vec![tag.clone(), equals(), reason.clone()],
        vec![tag.clone(), equals()],
        vec![name("A"), equals(), reason.clone()],
        vec![both.clone(), string("a")],
        vec![empty.clone(), name("A")],
        vec![name("A"), empty.clone()],
        vec![name("A"), equals(), string("a"), empty.clone()],
        vec![tag.clone(), name("B")],
        vec![invisible(vec![tag.clone(), equals()].into_iter().collect()), reason.clone()],
    ] {
        let tokens: TokenStream = trees.into_iter().collect();
        assert_eq!(list_of(tokens.clone()), reference(tokens.clone()), "{:?}", tokens);
    }
}

#[test]
fn checked_tags_are_discharged_or_delegated() {
    let args = checked("Init = \"u8\", delegate(ValidPtr = \"by the caller\"), Z = \"z\"").unwrap();
    assert_eq!(pairs(&args.discharged), vec![pair("Init", "u8"), pair("Z", "z")]);
    assert_eq!(pairs(&args.delegated), vec![pair("ValidPtr", "by the caller")]);
}

#[test]
fn all_tags_may_be_delegated() {
    let args = checked("delegate(A = \"a\", B = \"b\",)").unwrap();
    assert_eq!(pairs(&args.discharged), vec![]);
    assert_eq!(pairs(&args.delegated), vec![pair("A", "a"), pair("B", "b")]);
}

#[test]
fn delegate_may_be_written_more_than_once() {
    let args = checked("delegate(A = \"a\") delegate() delegate(B = \"b\")").unwrap();
    assert_eq!(pairs(&args.delegated), vec![pair("A", "a"), pair("B", "b")]);
}

#[test]
fn commas_between_checked_tags_are_optional() {
    let args = checked(
        "valid_ptr = \"`&()` is a reference\", init = \"always\" aligned = \"a reference\"",
    )
    .unwrap();
    assert_eq!(
        pairs(&args.discharged),
        vec![
            pair("valid_ptr", "`&()` is a reference"),
            pair("init", "always"),
            pair("aligned", "a reference"),
        ]
    );
}

#[test]
fn delegate_without_parentheses_is_a_tag() {
    let args = checked("delegate = \"d\"").unwrap();
    assert_eq!(pairs(&args.discharged), vec![pair("delegate", "d")]);
}

#[test]
fn no_checked_tag_at_all_is_an_error() {
    assert_eq!(checked_error(""), vec!["unexpected end of input, expected at least one tag"]);
    assert_eq!(
        checked_error("delegate()"),
        vec!["unexpected end of input, expected at least one tag"]
    );
}

#[test]
fn a_discharged_tag_needs_a_reason() {
    assert_eq!(
        checked_error("ValidPtr, Init = \"x is initialized\""),
        vec![
            "safety tag `ValidPtr` is missing its reason string: write `ValidPtr = \"why this invariant holds at this call site\"`"
        ]
    );
}

#[test]
fn a_delegated_tag_needs_a_reason() {
    assert_eq!(
        checked_error("Init = \"i\", delegate(ValidPtr)"),
        vec![
            "safety tag `ValidPtr` is missing its reason string: write `ValidPtr = \"why passing this obligation to our own callers is sound\"`"
        ]
    );
}

#[test]
fn only_delegate_takes_parentheses() {
    assert_eq!(
        checked_error("forward(A = \"a\")"),
        vec!["expected `Tag = \"reason\"` or `delegate(Tag = \"reason\", ...)`"]
    );
}

#[test]
fn an_error_in_delegate_is_reported() {
    assert_eq!(checked_error("delegate(A = \"a\" B = \"b\")"), vec!["expected `,`"]);
    assert_eq!(
        checked_error("delegate(A =)"),
        vec!["unexpected end of input, expected string literal"]
    );
}

#[test]
fn a_checked_argument_that_is_no_tag_is_an_error() {
    assert_eq!(checked_error("1"), vec!["expected identifier"]);
    assert_eq!(checked_error("A = \"a\",,"), vec!["expected identifier"]);
    assert_eq!(checked_error("fn(A = \"a\")"), vec!["expected identifier, found keyword `fn`"]);
    assert_eq!(
        checked_error("delegate[A = \"a\"]"),
        vec![
            "safety tag `delegate` is missing its reason string: write `delegate = \"why this invariant holds at this call site\"`"
        ]
    );
}

#[test]
fn the_first_missing_reason_is_told() {
    let tags = TagList::parse(stream("A = \"a\", B, C"), Span::call_site()).ok().unwrap().0;
    let error = require_reasons(&tags, "what callers must uphold").err().unwrap();
    assert_eq!(
        texts(&error),
        vec![
            "safety tag `B` is missing its reason string: write `B = \"what callers must uphold\"`"
        ]
    );
    assert!(tags[0].require_reason("").is_ok());
    assert!(require_reasons(&Vec::new(), "").is_ok());
}

#[test]
fn lexemes_show_the_trees_of_a_stream() {
    let lexemes = lex_stream(stream("fn a :: \"b\" 1 (c) [] {}"));
    assert_eq!(lexemes.len(), 9);
    assert!(matches!(&lexemes[0].kind, Kind::Keyword(word) if word == "fn"));
    assert!(matches!(&lexemes[1].kind, Kind::Ident(ident) if ident.text == "a"));
    assert!(matches!(&lexemes[2].kind, Kind::Punct { ch: ':', .. }));
    assert!(matches!(&lexemes[4].kind, Kind::Str(value) if value == "b"));
    assert!(matches!(&lexemes[5].kind, Kind::Other));
    match &lexemes[6].kind {
        Kind::Group { delimiter, lexemes, .. } => {
            assert_eq!(*delimiter, Delimiter::Parenthesis);
            assert_eq!(lexemes.len(), 1);
            assert!(matches!(&lexemes[0].kind, Kind::Ident(ident) if ident.text == "c"));
        }
        _ => panic!("no group"),
    }
    assert!(
        matches!(&lexemes[7].kind, Kind::Group { delimiter: Delimiter::Bracket, .. })
    );
    assert!(matches!(&lexemes[8].kind, Kind::Group { delimiter: Delimiter::Brace, .. }));
}

/// The arguments of a checked call, read by `syn` itself.
struct ReferenceArgs {
    discharged: Vec<(String, Option<String>)>,
    delegated: Vec<(String, Option<String>)>,
}

impl Parse for ReferenceArgs {
    fn parse(input: ParseStream) -> syn::Result<Self> {
        let mut args = ReferenceArgs { discharged: Vec::new(), delegated: Vec::new() };
        while !input.is_empty() {
            if input.peek(syn::Ident) && input.peek2(syn::token::Paren) {
                let word: syn::Ident = input.parse()?;
                if word != "delegate" {
                    return Err(syn::Error::new(
                        word.span(),
                        "expected `Tag = \"reason\"` or `delegate(Tag = \"reason\", ...)`",
                    ));
                }
                let group: Group = input.parse()?;
                let tags = Punctuated::<Reference, syn::token::Comma>::parse_terminated;
                for tag in tags.parse2(group.stream())? {
                    args.delegated.push((
                        tag.name.to_string(),
                        tag.reason.map(|reason| reason.value()),
                    ));
                }
            } else {
                let tag: Reference = input.parse()?;
                args.discharged.push((
                    tag.name.to_string(),
                    tag.reason.map(|reason| reason.value()),
                ));
            }
            if input.peek(syn::token::Comma) {
                input.parse::<syn::token::Comma>()?;
            }
        }
        Ok(args)
    }
}

#[test]
fn checked_arguments_are_read_as_syn_reads_them() {
    for text in [
        "A = \"a\"",
        "A = \"a\", B = \"b\"",
        "A = \"a\" B = \"b\" , delegate(C = \"c\")",
        "delegate(A = \"a\")",
        "delegate(A = \"a\",), B = \"b\"",
        "delegate(fn = \"a\")",
        "delegate(A = \"a\" B = \"b\")",
        "delegate(A = \"a\" => B)",
        "A = \"a\" 1",
        "A = \"a\" (B)",
        "A = \"a\" , , B = \"b\"",
        "A = 1",
        "A = delegate(B = \"b\")",
        "pass(A = \"a\")",
        "self(A = \"a\")",
        "(A = \"a\")",
        "A = \"a\" =",
    ] {
        let expected = match syn::parse2::<ReferenceArgs>(stream(text)) {
            Ok(args) => Ok((args.discharged, args.delegated)),
            Err(error) => Err(error
                .into_iter()
                .map(|message| message.to_string())
                .collect::<Vec<String>>()),
        };
        let found =
            checked(text).map(|args| (pairs(&args.discharged), pairs(&args.delegated)));
        assert_eq!(found, expected, "{}", text);
    }
}

/// Where a message points: line and column of its start and its end.
fn place(span: Span) -> (usize, usize, usize, usize) {
    (span.start().line, span.start().column, span.end().line, span.end().column)
}

#[test]
fn errors_point_where_those_of_syn_point() {
    for text in [
        "fn = \"f\"",
        "A = 1",
        "A = B",
        "A B",
        "A = \"a\" => B",
        "A = \"a\" 'b",
        "A = \"a\" :: B",
        "A = \"a\" [B]",
        "A, \"b\"",
        "A = \"a\", , B",
        "A = (\"a\")",
    ] {
        let tokens = stream(text);
        let expected =
            match Punctuated::<Reference, syn::token::Comma>::parse_terminated.parse2(tokens.clone())
            {
                Ok(_) => panic!("the tags were read"),
                Err(error) => place(error.span()),
            };
        let found = match TagList::parse(tokens, Span::call_site()) {
            Ok(_) => panic!("the tags were read"),
            Err(error) => match &error.messages[0] {
                Message::Text { extent, .. } => place(extent.first.join(extent.last).unwrap()),
                Message::Syntax(_) => panic!("no message of the library"),
            },
        };
        assert_eq!(found, expected, "{}", text);
    }
}
