//! What holds of hashes and names.
use vstd::prelude::*;
use vstd::utf8::encode_utf8;

use crate::expand::crate_text;
use crate::hash::fnv1a_bytes;
use crate::hash::hex;
use crate::hash::hex_digit;
use crate::hash::joined;
use crate::hash::lemma_sorted_names;
use crate::hash::sorted;
use crate::hash::tag_names;
use crate::hash::tagset_digest;
use crate::names::entry_point;
use crate::names::fragment;
use crate::names::hidden_text;
use crate::names::marker_text;
use crate::names::poison_text;
use crate::tags::spec_names;
use crate::tags::TagSpecView;
use crate::token::IdentView;

verus! {

/// Whether a tag of that name is among `tags`.
pub open spec fn has_tag(tags: Seq<IdentView>, name: Seq<char>) -> bool {
    exists|i: int| 0 <= i < tags.len() && #[trigger] tags[i].text == name
}

pub(crate) proof fn lemma_has_tag(tags: Seq<IdentView>, name: Seq<char>)
    ensures
        tag_names(tags).contains(name) <==> has_tag(tags, name),
{
    let texts = tags.map_values(|tag: IdentView| tag.text);
    if tag_names(tags).contains(name) {
        let i = choose|i: int| 0 <= i < texts.len() && texts[i] == name;
        assert(tags[i].text == name);
    }
    if has_tag(tags, name) {
        let i = choose|i: int| 0 <= i < tags.len() && #[trigger] tags[i].text == name;
        assert(texts[i] == name);
    }
}

/// The entry point's name depends on which tags there are: not on their order,
/// nor on how often one is written.
pub proof fn law_order_and_repetition_do_not_matter(a: Seq<IdentView>, b: Seq<IdentView>)
    requires
        forall|name: Seq<char>| has_tag(a, name) <==> has_tag(b, name),
    ensures
        tag_names(a) == tag_names(b),
        tagset_digest(tag_names(a)) == tagset_digest(tag_names(b)),
        entry_point(a) == entry_point(b),
{
    assert forall|name: Seq<char>| tag_names(a).contains(name) <==> tag_names(b).contains(name) by {
        lemma_has_tag(a, name);
        lemma_has_tag(b, name);
    }
    assert(tag_names(a) =~= tag_names(b));
}

/// The entry point's name does not depend on the reasons: rewording them does
/// not break callers.
pub proof fn law_reasons_are_not_hashed(a: Seq<TagSpecView>, b: Seq<TagSpecView>)
    requires
        a.len() == b.len(),
        forall|i: int| 0 <= i < a.len() ==> (#[trigger] a[i]).name.text == b[i].name.text,
    ensures
        entry_point(spec_names(a)) == entry_point(spec_names(b)),
{
    let x = spec_names(a).map_values(|tag: IdentView| tag.text);
    let y = spec_names(b).map_values(|tag: IdentView| tag.text);
    assert forall|i: int| 0 <= i < x.len() implies x[i] == y[i] by {
        assert(a[i].name.text == b[i].name.text);
    }
    assert(x =~= y);
}

/// Whether `n` has at most that many hexadecimal digits.
spec fn fits(n: nat, digits: nat) -> bool
    decreases digits,
{
    if digits == 0 {
        n == 0
    } else {
        fits(n / 16, (digits - 1) as nat)
    }
}

proof fn lemma_hex_injective(n: nat, m: nat, digits: nat)
    requires
        fits(n, digits),
        fits(m, digits),
        hex(n, digits) == hex(m, digits),
    ensures
        n == m,
    decreases digits,
{
    if digits > 0 {
        let a = hex(n / 16, (digits - 1) as nat);
        let b = hex(m / 16, (digits - 1) as nat);
        assert(hex(n, digits).last() == hex_digit(n % 16));
        assert(hex(m, digits).last() == hex_digit(m % 16));
        assert(hex(n, digits).drop_last() =~= a);
        assert(hex(m, digits).drop_last() =~= b);
        lemma_hex_injective(n / 16, m / 16, (digits - 1) as nat);
    }
}

proof fn lemma_u64_fits(n: u64)
    ensures
        fits(n as nat, 16),
{
    reveal_with_fuel(fits, 17);
}

proof fn lemma_hex_digits(n: nat, digits: nat)
    ensures
        hex(n, digits).len() == digits,
        forall|i: int|
            0 <= i < digits ==> exists|d: nat| d < 16 && #[trigger] hex(n, digits)[i] == hex_digit(d),
    decreases digits,
{
    if digits > 0 {
        let front = hex(n / 16, (digits - 1) as nat);
        lemma_hex_digits(n / 16, (digits - 1) as nat);
        assert forall|i: int| 0 <= i < digits implies exists|d: nat|
            d < 16 && #[trigger] hex(n, digits)[i] == hex_digit(d) by {
            if i < digits - 1 {
                assert(hex(n, digits)[i] == front[i]);
                let d = choose|d: nat| d < 16 && front[i] == hex_digit(d);
                assert(d < 16 && hex(n, digits)[i] == hex_digit(d));
            } else {
                assert(n % 16 < 16 && hex(n, digits)[i] == hex_digit(n % 16));
            }
        }
    }
}

/// A hash is written with sixteen digits, each one of `0` to `9` or `a` to `f`.
pub proof fn law_digest_has_sixteen_digits(names: Set<Seq<char>>)
    ensures
        tagset_digest(names).len() == 16,
        forall|i: int|
            0 <= i < 16 ==> {
                ||| '0' <= #[trigger] tagset_digest(names)[i] <= '9'
                ||| 'a' <= tagset_digest(names)[i] <= 'f'
            },
{
    let n = fnv1a_bytes(encode_utf8(joined(sorted(names)))) as nat;
    lemma_hex_digits(n, 16);
    assert forall|i: int| 0 <= i < 16 implies {
        ||| '0' <= #[trigger] tagset_digest(names)[i] <= '9'
        ||| 'a' <= tagset_digest(names)[i] <= 'f'
    } by {
        let d = choose|d: nat| d < 16 && hex(n, 16)[i] == hex_digit(d);
        assert(tagset_digest(names)[i] == hex_digit(d));
    }
}

/// Two sets of tags share an entry point's name if and only if their names,
/// sorted and joined, have the same hash.
pub proof fn law_entry_points_match_by_hash(a: Seq<IdentView>, b: Seq<IdentView>)
    ensures
        entry_point(a) == entry_point(b) <==> fnv1a_bytes(
            encode_utf8(joined(sorted(tag_names(a)))),
        ) == fnv1a_bytes(encode_utf8(joined(sorted(tag_names(b))))),
{
    let n = fnv1a_bytes(encode_utf8(joined(sorted(tag_names(a)))));
    let m = fnv1a_bytes(encode_utf8(joined(sorted(tag_names(b)))));
    let x = tagset_digest(tag_names(a));
    let y = tagset_digest(tag_names(b));
    if entry_point(a) == entry_point(b) {
        assert(x =~= entry_point(a).skip("__safety_"@.len() as int));
        assert(y =~= entry_point(b).skip("__safety_"@.len() as int));
        lemma_u64_fits(n);
        lemma_u64_fits(m);
        lemma_hex_injective(n as nat, m as nat, 16);
    }
}

/// Whether a text can be an identifier as far as commas go: it is not empty,
/// and holds none.
pub open spec fn comma_free(name: Seq<char>) -> bool {
    name.len() > 0 && !name.contains(',')
}

proof fn lemma_joined_injective(s: Seq<Seq<char>>, t: Seq<Seq<char>>)
    requires
        forall|i: int| 0 <= i < s.len() ==> comma_free(#[trigger] s[i]),
        forall|i: int| 0 <= i < t.len() ==> comma_free(#[trigger] t[i]),
        joined(s) == joined(t),
    ensures
        s == t,
    decreases s.len(),
{
    let w = joined(s);
    if s.len() >= 2 {
        assert(comma_free(s.last()));
        assert(w[w.len() - s.last().len() - 1] == ',');
    }
    if t.len() >= 2 {
        assert(comma_free(t.last()));
        assert(w[w.len() - t.last().len() - 1] == ',');
    }
    if s.len() >= 2 && t.len() >= 2 {
        let p = w.len() - s.last().len() - 1;
        let q = w.len() - t.last().len() - 1;
        if p > q {
            assert(t.last()[p - q - 1] == ',');
            assert(t.last().contains(','));
        }
        if q > p {
            assert(s.last()[q - p - 1] == ',');
            assert(s.last().contains(','));
        }
        assert(s.last() =~= w.skip(p + 1));
        assert(t.last() =~= w.skip(q + 1));
        assert(joined(s.drop_last()) =~= w.take(p));
        assert(joined(t.drop_last()) =~= w.take(q));
        lemma_joined_injective(s.drop_last(), t.drop_last());
        assert(s =~= s.drop_last().push(s.last()));
        assert(t =~= t.drop_last().push(t.last()));
    } else if s.len() >= 2 {
        if t.len() == 1 {
            assert(comma_free(t[0]));
            assert(t[0].contains(','));
        }
    } else if t.len() >= 2 {
        if s.len() == 1 {
            assert(comma_free(s[0]));
            assert(s[0].contains(','));
        }
    } else {
        if s.len() == 1 {
            assert(comma_free(s[0]));
        }
        if t.len() == 1 {
            assert(comma_free(t[0]));
        }
        assert(s =~= t);
    }
}

/// Different sets of tags are hashed from different texts.
pub proof fn law_different_sets_are_hashed_from_different_texts(
    a: Seq<IdentView>,
    b: Seq<IdentView>,
)
    requires
        forall|i: int| 0 <= i < a.len() ==> comma_free((#[trigger] a[i]).text),
        forall|i: int| 0 <= i < b.len() ==> comma_free((#[trigger] b[i]).text),
        tag_names(a) != tag_names(b),
    ensures
        joined(sorted(tag_names(a))) != joined(sorted(tag_names(b))),
{
    lemma_sorted_names(a);
    lemma_sorted_names(b);
    let s = sorted(tag_names(a));
    let t = sorted(tag_names(b));
    if joined(s) == joined(t) {
        assert forall|i: int| 0 <= i < s.len() implies comma_free(#[trigger] s[i]) by {
            assert(s.to_set().contains(s[i]));
            lemma_has_tag(a, s[i]);
        }
        assert forall|i: int| 0 <= i < t.len() implies comma_free(#[trigger] t[i]) by {
            assert(t.to_set().contains(t[i]));
            lemma_has_tag(b, t[i]);
        }
        lemma_joined_injective(s, t);
    }
}

/// Two tags share a marker if and only if they are the same identifier, raw or
/// not.
pub proof fn law_markers_tell_tags_apart(a: Seq<char>, b: Seq<char>)
    ensures
        marker_text(a) == marker_text(b) <==> fragment(a) == fragment(b),
{
    let n = "__safety_delegates_"@.len() as int;
    assert(fragment(a) =~= marker_text(a).skip(n));
    assert(fragment(b) =~= marker_text(b).skip(n));
}

/// Two tags of a function share a symbol if and only if they are the same
/// identifier, raw or not.
pub proof fn law_symbols_tell_tags_apart(
    krate: Seq<char>,
    name: Seq<char>,
    a: Seq<char>,
    b: Seq<char>,
)
    ensures
        poison_text(krate, name, a) == poison_text(krate, name, b) <==> fragment(a) == fragment(b),
{
    let lead = "SAFETY_VIOLATION__in_crate_"@ + krate + "__unchecked_call_to_"@ + fragment(name)
        + "__requires_tag_"@;
    let n = lead.len() as int;
    assert(fragment(a) =~= poison_text(krate, name, a).skip(n));
    assert(fragment(b) =~= poison_text(krate, name, b).skip(n));
}

/// No marker has the name of an entry point.
pub proof fn law_markers_are_no_entry_points(tag: Seq<char>, tags: Seq<IdentView>)
    ensures
        marker_text(tag) != entry_point(tags),
{
    let digest = tagset_digest(tag_names(tags));
    law_digest_has_sixteen_digits(tag_names(tags));
    reveal_strlit("__safety_");
    reveal_strlit("__safety_delegates_");
    if marker_text(tag) == entry_point(tags) {
        assert(marker_text(tag)[11] == 'l');
        assert(entry_point(tags)[11] == digest[2]);
    }
}

/// The entry point of a function is `__safety_` and the hash of its tags.
pub proof fn law_entry_point_bears_the_hash(tags: Seq<IdentView>, digest: Seq<char>)
    ensures
        hidden_text(digest) == "__safety_"@ + digest,
        entry_point(tags) == "__safety_"@ + tagset_digest(tag_names(tags)),
{
}

/// A raw identifier and the plain one name the same thing: `r#` is left out
/// where a name is made a part of another, and nothing else is.
pub proof fn law_raw_names_are_plain_names(text: Seq<char>)
    ensures
        fragment("r#"@ + text) == text,
        !"r#"@.is_prefix_of(text) ==> fragment(text) == text,
{
    reveal_strlit("r#");
    assert(("r#"@ + text).skip(2) =~= text);
    if text.len() >= 2 && text[0] == 'r' && text[1] == '#' {
        assert("r#"@ =~= text.take(2));
        assert("r#"@.is_prefix_of(text));
    }
}

/// Markers and symbols say what they are for.
pub proof fn law_markers_and_symbols_name_their_tag(
    krate: Seq<char>,
    name: Seq<char>,
    tag: Seq<char>,
)
    ensures
        marker_text(tag) == "__safety_delegates_"@ + fragment(tag),
        poison_text(krate, name, tag) == "SAFETY_VIOLATION__in_crate_"@ + krate
            + "__unchecked_call_to_"@ + fragment(name) + "__requires_tag_"@ + fragment(tag),
{
}

/// A package's name keeps its length and its characters, but for hyphens and
/// full stops, which become underscores.
pub proof fn law_package_names_become_identifiers(package: Seq<char>, i: int)
    requires
        0 <= i < package.len(),
    ensures
        crate_text(package).len() == package.len(),
        package[i] == '-' || package[i] == '.' ==> crate_text(package)[i] == '_',
        package[i] != '-' && package[i] != '.' ==> crate_text(package)[i] == package[i],
{
}

} // verus!
