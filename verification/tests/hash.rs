use proc_macro2::Span;
use safety::hash::fnv1a;
use safety::hash::tagset_hash;
use safety::token::Ident;

fn tags(names: &[&str]) -> Vec<Ident> {
    names
        .iter()
        .map(|name| Ident { text: name.to_string(), span: Span::call_site() })
        .collect()
}

#[test]
fn fnv1a_of_the_empty_string_is_the_offset_basis() {
    assert_eq!(fnv1a(""), 0xcbf2_9ce4_8422_2325);
}

#[test]
fn fnv1a_of_known_strings() {
    assert_eq!(fnv1a("a"), 0xaf63_dc4c_8601_ec8c);
    assert_eq!(fnv1a("foobar"), 0x8594_4171_f739_67e8);
}

#[test]
fn fnv1a_goes_by_the_bytes_of_the_encoding() {
    assert_eq!(fnv1a("é"), 0x0ac2_1707_b718_1e01);
}

#[test]
fn hash_of_one_tag() {
    assert_eq!(tagset_hash(&tags(&["ValidPtr"])), "22e0527259f80595");
}

#[test]
fn hash_of_two_tags_is_that_of_their_sorted_names() {
    assert_eq!(tagset_hash(&tags(&["ValidPtr", "Init"])), "65a2bdcb8cce295d");
    assert_eq!(
        tagset_hash(&tags(&["ValidPtr", "Init"])),
        format!("{:016x}", fnv1a("Init,ValidPtr"))
    );
}

#[test]
fn hash_of_no_tag_is_that_of_the_empty_string() {
    assert_eq!(tagset_hash(&[]), "cbf29ce484222325");
}

#[test]
fn hash_keeps_its_leading_zeros() {
    assert_eq!(tagset_hash(&tags(&["T0"])), "09350007b5c731a9");
}

#[test]
fn order_of_tags_does_not_matter() {
    let expected = "14112bf9ab26d1c1";
    assert_eq!(tagset_hash(&tags(&["ValidPtr", "Init", "Aligned"])), expected);
    assert_eq!(tagset_hash(&tags(&["Aligned", "ValidPtr", "Init"])), expected);
    assert_eq!(tagset_hash(&tags(&["Init", "Aligned", "ValidPtr"])), expected);
}

#[test]
fn repetition_of_tags_does_not_matter() {
    assert_eq!(
        tagset_hash(&tags(&["Init", "ValidPtr", "Init", "Init"])),
        tagset_hash(&tags(&["ValidPtr", "Init"]))
    );
}

#[test]
fn different_sets_of_tags_have_different_hashes() {
    assert_ne!(tagset_hash(&tags(&["A", "B"])), tagset_hash(&tags(&["A"])));
    assert_ne!(tagset_hash(&tags(&["A"])), tagset_hash(&tags(&["B"])));
    assert_ne!(tagset_hash(&tags(&["A", "B"])), tagset_hash(&tags(&["AB"])));
}

#[test]
fn names_are_sorted_by_their_bytes() {
    assert_eq!(tagset_hash(&tags(&["a", "A"])), "fa6cb019a0a79c13");
}

#[test]
fn raw_identifiers_are_hashed_as_they_are_written() {
    assert_eq!(tagset_hash(&tags(&["r#type"])), "26fdf1302d57b9d2");
}
