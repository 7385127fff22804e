//! The names by which an expansion hangs together.
use proc_macro2::Span;
use vstd::prelude::*;
use vstd::string::StrSliceExecFns;
use vstd::string::StringExecFns;

use crate::hash::tag_names;
use crate::hash::tagset_digest;
use crate::hash::tagset_hash;
use crate::token::idents_view;
use crate::token::Ident;
use crate::token::IdentView;

verus! {

/// An identifier as a part of a longer one: without the `r#` of a raw
/// identifier.
pub open spec fn fragment(text: Seq<char>) -> Seq<char> {
    if text.len() >= 2 && text[0] == 'r' && text[1] == '#' {
        text.skip(2)
    } else {
        text
    }
}

/// The name of the hidden entry point for a digest of a set of tags.
pub open spec fn hidden_text(digest: Seq<char>) -> Seq<char> {
    "__safety_"@ + digest
}

/// The name of the hidden entry point of a function that requires `tags`.
pub open spec fn entry_point(tags: Seq<IdentView>) -> Seq<char> {
    hidden_text(tagset_digest(tag_names(tags)))
}

/// The name of the marker that a function bears for a tag that it requires.
pub open spec fn marker_text(tag: Seq<char>) -> Seq<char> {
    "__safety_delegates_"@ + fragment(tag)
}

/// The name of the symbol that an unchecked call leaves for the linker to
/// miss.
pub open spec fn poison_text(krate: Seq<char>, name: Seq<char>, tag: Seq<char>) -> Seq<char> {
    "SAFETY_VIOLATION__in_crate_"@ + krate + "__unchecked_call_to_"@ + fragment(name)
        + "__requires_tag_"@ + fragment(tag)
}

fn ident_fragment(text: &str) -> (r: &str)
    ensures
        r@ == fragment(text@),
{
    let n = text.unicode_len();
    if n >= 2 && text.get_char(0) == 'r' && text.get_char(1) == '#' {
        text.substring_char(2, n)
    } else {
        text
    }
}

/// The entry point's name from the digest of a set of tags.
pub fn hidden_name(digest: &str, span: Span) -> (ident: Ident)
    ensures
        ident@ == (IdentView { text: hidden_text(digest@), span }),
{
    let mut text = "__safety_".to_owned();
    text.append(digest);
    Ident { text, span }
}

/// Name of the hidden associated entry point, parameterized only by the tag
/// set. It lives in `impl <fn_name> { .. }` on an empty enum that shadows the
/// public fn in the *type* namespace, so `use lib::f;` (or `use lib::f as g;`)
/// brings both along and `f::__safety_<hash>(..)` resolves wherever `f(..)`
/// did.
pub fn hidden_ident(tags: &[Ident], call_site: Span) -> (ident: Ident)
    ensures
        ident@ == (IdentView { text: entry_point(idents_view(tags@)), span: call_site }),
{
    hidden_name(tagset_hash(tags).as_str(), call_site)
}

/// Name of the marker for a tag.
pub fn marker_ident(tag: &Ident) -> (ident: Ident)
    ensures
        ident@ == (IdentView { text: marker_text(tag@.text), span: tag@.span }),
{
    let mut text = "__safety_delegates_".to_owned();
    text.append(ident_fragment(tag.text.as_str()));
    Ident { text, span: tag.span }
}

/// Name of the symbol that stands for one required tag of the function `name`
/// of the crate `krate`.
pub fn poison_ident(krate: &str, name: &Ident, tag: &Ident) -> (ident: Ident)
    ensures
        ident@ == (IdentView {
            text: poison_text(krate@, name@.text, tag@.text),
            span: name@.span,
        }),
{
    let mut text = "SAFETY_VIOLATION__in_crate_".to_owned();
    text.append(krate);
    text.append("__unchecked_call_to_");
    text.append(ident_fragment(name.text.as_str()));
    text.append("__requires_tag_");
    text.append(ident_fragment(tag.text.as_str()));
    Ident { text, span: name.span }
}

} // verus!
