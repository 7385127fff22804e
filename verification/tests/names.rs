use proc_macro2::Span;
use safety::names::hidden_ident;
use safety::names::hidden_name;
use safety::names::marker_ident;
use safety::names::poison_ident;
use safety::token::Ident;

fn ident(name: &str) -> Ident {
    Ident { text: name.to_string(), span: Span::call_site() }
}

#[test]
fn hidden_names_are_made_from_the_hash() {
    let tags = vec![ident("ValidPtr"), ident("Init")];
    assert_eq!(hidden_ident(&tags, Span::call_site()).text, "__safety_65a2bdcb8cce295d");
    assert_eq!(hidden_name("0123", Span::call_site()).text, "__safety_0123");
}

#[test]
fn marker_names_are_made_from_the_tag() {
    assert_eq!(marker_ident(&ident("ValidPtr")).text, "__safety_delegates_ValidPtr");
}

#[test]
fn raw_and_plain_tags_share_a_marker() {
    assert_eq!(marker_ident(&ident("r#type")).text, "__safety_delegates_type");
    assert_eq!(marker_ident(&ident("type")).text, "__safety_delegates_type");
    assert_eq!(marker_ident(&ident("r")).text, "__safety_delegates_r");
}

#[test]
fn different_tags_have_different_markers() {
    assert_ne!(marker_ident(&ident("A")).text, marker_ident(&ident("B")).text);
}

#[test]
fn symbols_name_the_crate_the_function_and_the_tag() {
    assert_eq!(
        poison_ident("unsafe_lib", &ident("read"), &ident("ValidPtr")).text,
        "SAFETY_VIOLATION__in_crate_unsafe_lib__unchecked_call_to_read__requires_tag_ValidPtr"
    );
    assert_eq!(
        poison_ident("", &ident("r#match"), &ident("r#type")).text,
        "SAFETY_VIOLATION__in_crate___unchecked_call_to_match__requires_tag_type"
    );
}

#[test]
fn different_tags_of_a_function_have_different_symbols() {
    let read = ident("read");
    assert_ne!(
        poison_ident("lib", &read, &ident("A")).text,
        poison_ident("lib", &read, &ident("B")).text
    );
}

#[test]
fn no_marker_is_an_entry_point() {
    let hidden = hidden_ident(&[ident("A")], Span::call_site()).text;
    assert_eq!(hidden.len(), "__safety_".len() + 16);
    assert_ne!(marker_ident(&ident(&hidden[9..])).text, hidden);
}
