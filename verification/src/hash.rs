//! The hash of a set of tag names.
//!
//! A set of tags is hashed by its names alone, in sorted order and without
//! repetition, so neither the order in which tags are written nor the wording
//! of their reasons reaches the hash.
use vstd::prelude::*;
use vstd::string::StringExecFns;
use vstd::utf8::encode_utf8;

use crate::token::idents_view;
use crate::token::Ident;
use crate::token::IdentView;

verus! {

/// The 64-bit FNV-1a hash of a byte sequence.
pub open spec fn fnv1a_bytes(bytes: Seq<u8>) -> u64
    decreases bytes.len(),
{
    if bytes.len() == 0 {
        0xcbf2_9ce4_8422_2325u64
    } else {
        (fnv1a_bytes(bytes.drop_last()) ^ (bytes.last() as u64)).wrapping_mul(
            0x0000_0100_0000_01b3u64,
        )
    }
}

/// The 64-bit FNV-1a hash of the UTF-8 bytes of `s`.
pub fn fnv1a(s: &str) -> (h: u64)
    ensures
        h == fnv1a_bytes(encode_utf8(s@)),
{
    let mut h: u64 = 0xcbf2_9ce4_8422_2325;
    let bytes = s.as_bytes();
    let mut i: usize = 0;
    while i < bytes.len()
        invariant
            i <= bytes@.len(),
            h == fnv1a_bytes(bytes@.take(i as int)),
        decreases bytes@.len() - i,
    {
        proof {
            let next = bytes@.take(i + 1);
            assert(next.drop_last() == bytes@.take(i as int));
            assert(next.last() == bytes@[i as int]);
        }
        h = (h ^ (bytes[i] as u64)).wrapping_mul(0x0000_0100_0000_01b3);
        i += 1;
    }
    proof {
        assert(bytes@.take(i as int) == bytes@);
    }
    h
}

/// The hexadecimal digit of a number below sixteen.
pub open spec fn hex_digit(n: nat) -> char {
    if n < 10 {
        ('0' as u32 + n) as char
    } else {
        ('a' as u32 + (n - 10)) as char
    }
}

/// The last `digits` hexadecimal digits of `n`, the most significant first.
pub open spec fn hex(n: nat, digits: nat) -> Seq<char>
    decreases digits,
{
    if digits == 0 {
        Seq::empty()
    } else {
        hex(n / 16, (digits - 1) as nat).push(hex_digit(n % 16))
    }
}

fn hex_digit_str(n: u64) -> (s: &'static str)
    requires
        n < 16,
    ensures
        s@ == seq![hex_digit(n as nat)],
{
    let s = match n {
        0 => "0",
        1 => "1",
        2 => "2",
        3 => "3",
        4 => "4",
        5 => "5",
        6 => "6",
        7 => "7",
        8 => "8",
        9 => "9",
        10 => "a",
        11 => "b",
        12 => "c",
        13 => "d",
        14 => "e",
        _ => "f",
    };
    proof {
        reveal_strlit("0");
        reveal_strlit("1");
        reveal_strlit("2");
        reveal_strlit("3");
        reveal_strlit("4");
        reveal_strlit("5");
        reveal_strlit("6");
        reveal_strlit("7");
        reveal_strlit("8");
        reveal_strlit("9");
        reveal_strlit("a");
        reveal_strlit("b");
        reveal_strlit("c");
        reveal_strlit("d");
        reveal_strlit("e");
        reveal_strlit("f");
        assert(s@ =~= seq![hex_digit(n as nat)]);
    }
    s
}

/// Writes the last `digits` hexadecimal digits of `n`.
fn to_hex(n: u64, digits: usize) -> (s: String)
    ensures
        s@ == hex(n as nat, digits as nat),
    decreases digits,
{
    if digits == 0 {
        String::new()
    } else {
        let mut s = to_hex(n / 16, digits - 1);
        s.append(hex_digit_str(n % 16));
        proof {
            assert(s@ =~= hex(n as nat, digits as nat));
        }
        s
    }
}

/// Whether `a` stands before `b` in the lexicographic order of bytes.
pub open spec fn bytes_before(a: Seq<u8>, b: Seq<u8>) -> bool
    decreases a.len(),
{
    if b.len() == 0 {
        false
    } else if a.len() == 0 {
        true
    } else if a[0] != b[0] {
        a[0] < b[0]
    } else {
        bytes_before(a.drop_first(), b.drop_first())
    }
}

/// Whether name `a` stands before name `b` in the order of strings.
pub open spec fn name_before(a: Seq<char>, b: Seq<char>) -> bool {
    bytes_before(encode_utf8(a), encode_utf8(b))
}

/// Whether the names stand in strictly ascending order.
pub open spec fn ascending(names: Seq<Seq<char>>) -> bool {
    forall|i: int, j: int|
        0 <= i < j < names.len() ==> name_before(#[trigger] names[i], #[trigger] names[j])
}

/// The members of a finite set of names in ascending order.
pub open spec fn sorted(names: Set<Seq<char>>) -> Seq<Seq<char>> {
    choose|s: Seq<Seq<char>>| #[trigger] ascending(s) && s.to_set() == names
}

/// The names with a comma between each two of them.
pub open spec fn joined(names: Seq<Seq<char>>) -> Seq<char>
    decreases names.len(),
{
    if names.len() == 0 {
        Seq::empty()
    } else if names.len() == 1 {
        names[0]
    } else {
        joined(names.drop_last()).push(',') + names.last()
    }
}

/// The set of the names of `tags`.
pub open spec fn tag_names(tags: Seq<IdentView>) -> Set<Seq<char>> {
    tags.map_values(|tag: IdentView| tag.text).to_set()
}

/// The hash of a set of tag names, as sixteen hexadecimal digits.
pub open spec fn tagset_digest(names: Set<Seq<char>>) -> Seq<char> {
    hex(fnv1a_bytes(encode_utf8(joined(sorted(names)))) as nat, 16)
}

proof fn lemma_before_irreflexive(a: Seq<u8>)
    ensures
        !bytes_before(a, a),
    decreases a.len(),
{
    if a.len() > 0 {
        lemma_before_irreflexive(a.drop_first());
    }
}

proof fn lemma_before_transitive(a: Seq<u8>, b: Seq<u8>, c: Seq<u8>)
    requires
        bytes_before(a, b),
        bytes_before(b, c),
    ensures
        bytes_before(a, c),
    decreases a.len(),
{
    if a.len() > 0 && a[0] == b[0] && b[0] == c[0] {
        lemma_before_transitive(a.drop_first(), b.drop_first(), c.drop_first());
    }
}

proof fn lemma_before_total(a: Seq<u8>, b: Seq<u8>)
    requires
        a != b,
    ensures
        bytes_before(a, b) || bytes_before(b, a),
    decreases a.len(),
{
    if a.len() == 0 {
        assert(b.len() != 0) by {
            if b.len() == 0 {
                assert(a =~= b);
            }
        }
    } else if b.len() > 0 && a[0] == b[0] {
        assert(a.drop_first() != b.drop_first()) by {
            if a.drop_first() == b.drop_first() {
                assert(a =~= seq![a[0]] + a.drop_first());
                assert(b =~= seq![b[0]] + b.drop_first());
            }
        }
        lemma_before_total(a.drop_first(), b.drop_first());
    }
}

/// Distinct names have distinct encodings, so one of them stands before the other.
proof fn lemma_names_total(a: Seq<char>, b: Seq<char>)
    requires
        a != b,
    ensures
        name_before(a, b) || name_before(b, a),
{
    vstd::utf8::encode_utf8_decode_utf8(a);
    vstd::utf8::encode_utf8_decode_utf8(b);
    assert(encode_utf8(a) != encode_utf8(b));
    lemma_before_total(encode_utf8(a), encode_utf8(b));
}

/// Two ascending sequences with the same members are the same sequence.
proof fn lemma_ascending_unique(s: Seq<Seq<char>>, t: Seq<Seq<char>>)
    requires
        ascending(s),
        ascending(t),
        s.to_set() == t.to_set(),
    ensures
        s == t,
    decreases s.len(),
{
    if s.len() == 0 {
        if t.len() > 0 {
            assert(t.to_set().contains(t[0]));
            assert(s.to_set().contains(t[0]));
        }
        assert(s =~= t);
    } else {
        assert(s.to_set().contains(s.last()));
        assert(t.to_set().contains(s.last()));
        let k = choose|k: int| 0 <= k < t.len() && t[k] == s.last();
        assert(t.to_set().contains(t.last()));
        assert(s.to_set().contains(t.last()));
        let m = choose|m: int| 0 <= m < s.len() && s[m] == t.last();
        assert(s.last() == t.last()) by {
            if s.last() != t.last() {
                assert(name_before(t[k], t[t.len() - 1]));
                assert(name_before(s[m], s[s.len() - 1]));
                lemma_before_transitive(
                    encode_utf8(s.last()),
                    encode_utf8(t.last()),
                    encode_utf8(s.last()),
                );
                lemma_before_irreflexive(encode_utf8(s.last()));
            }
        }
        lemma_ascending_without_last(s);
        lemma_ascending_without_last(t);
        assert(s.drop_last().to_set() == t.drop_last().to_set());
        lemma_ascending_unique(s.drop_last(), t.drop_last());
        assert(s =~= s.drop_last().push(s.last()));
        assert(t =~= t.drop_last().push(t.last()));
    }
}

proof fn lemma_ascending_without_last(s: Seq<Seq<char>>)
    requires
        ascending(s),
        s.len() > 0,
    ensures
        ascending(s.drop_last()),
        s.drop_last().to_set() == s.to_set().remove(s.last()),
{
    let r = s.drop_last();
    assert forall|x: Seq<char>| r.to_set().contains(x) <==> s.to_set().remove(s.last()).contains(
        x,
    ) by {
        if r.to_set().contains(x) {
            let i = choose|i: int| 0 <= i < r.len() && r[i] == x;
            assert(s[i] == x);
            assert(name_before(s[i], s[s.len() - 1]));
            lemma_before_irreflexive(encode_utf8(x));
        }
        if s.to_set().remove(s.last()).contains(x) {
            let i = choose|i: int| 0 <= i < s.len() && s[i] == x;
            assert(r[i] == x);
        }
    }
    assert(r.to_set() =~= s.to_set().remove(s.last()));
}

/// An ascending sequence is the sorted form of the set of its members.
pub proof fn lemma_sorted_is(s: Seq<Seq<char>>)
    requires
        ascending(s),
    ensures
        sorted(s.to_set()) == s,
{
    lemma_ascending_unique(sorted(s.to_set()), s);
}

/// A name put in its place among names in ascending order leaves them so.
proof fn lemma_inserted(before: Seq<Seq<char>>, i: int, name: Seq<char>)
    requires
        ascending(before),
        0 <= i <= before.len(),
        forall|k: int| 0 <= k < i ==> name_before(#[trigger] before[k], name),
        i < before.len() ==> name_before(name, before[i]),
    ensures
        ascending(before.insert(i, name)),
        before.insert(i, name).to_set() == before.to_set().insert(name),
{
    let after = before.insert(i, name);
    assert forall|k: int| i <= k < before.len() implies name_before(name, #[trigger] before[k]) by {
        if k > i {
            assert(name_before(before[i], before[k]));
            lemma_before_transitive(
                encode_utf8(name),
                encode_utf8(before[i]),
                encode_utf8(before[k]),
            );
        }
    }
    assert forall|x: Seq<char>|
        after.to_set().contains(x) <==> before.to_set().insert(name).contains(x) by {
        if after.to_set().contains(x) {
            let k = choose|k: int| 0 <= k < after.len() && after[k] == x;
            if k < i {
                assert(before[k] == x);
            } else if k > i {
                assert(before[k - 1] == x);
            }
        }
        if before.to_set().contains(x) {
            let k = choose|k: int| 0 <= k < before.len() && before[k] == x;
            if k < i {
                assert(after[k] == x);
            } else {
                assert(after[k + 1] == x);
            }
        }
        assert(after[i] == name);
    }
    assert(after.to_set() =~= before.to_set().insert(name));
}

/// The place of a name among names in ascending order.
proof fn lemma_place(names: Seq<Seq<char>>, name: Seq<char>) -> (i: int)
    requires
        ascending(names),
        !names.contains(name),
    ensures
        0 <= i <= names.len(),
        forall|k: int| 0 <= k < i ==> name_before(#[trigger] names[k], name),
        i < names.len() ==> name_before(name, names[i]),
    decreases names.len(),
{
    if names.len() == 0 {
        0
    } else {
        let rest = names.drop_last();
        lemma_names_total(names.last(), name);
        if name_before(names.last(), name) {
            assert forall|k: int| 0 <= k < names.len() implies name_before(
                #[trigger] names[k],
                name,
            ) by {
                if k < names.len() - 1 {
                    assert(name_before(names[k], names[names.len() - 1]));
                    lemma_before_transitive(
                        encode_utf8(names[k]),
                        encode_utf8(names.last()),
                        encode_utf8(name),
                    );
                }
            }
            names.len() as int
        } else {
            assert forall|k: int| 0 <= k < rest.len() implies rest[k] != name by {
                assert(names.contains(names[k]));
            }
            let i = lemma_place(rest, name);
            assert forall|k: int| 0 <= k < i implies name_before(#[trigger] names[k], name) by {
                assert(rest[k] == names[k]);
            }
            i
        }
    }
}

/// The names of tags, in ascending order and without repetition.
pub proof fn lemma_sorted_names(tags: Seq<IdentView>)
    ensures
        ascending(sorted(tag_names(tags))),
        sorted(tag_names(tags)).to_set() == tag_names(tags),
    decreases tags.len(),
{
    if tags.len() == 0 {
        let none = Seq::<Seq<char>>::empty();
        assert(ascending(none));
        assert(none.to_set() =~= tag_names(tags));
        lemma_sorted_is(none);
    } else {
        let rest = tags.drop_last();
        let name = tags.last().text;
        lemma_sorted_names(rest);
        lemma_tag_names_push(rest, tags.last());
        assert(rest.push(tags.last()) =~= tags);
        let names = sorted(tag_names(rest));
        if names.contains(name) {
            assert(names.to_set().insert(name) =~= names.to_set());
        } else {
            let i = lemma_place(names, name);
            lemma_inserted(names, i, name);
            lemma_sorted_is(names.insert(i, name));
        }
    }
}

/// The texts of the strings.
pub open spec fn texts(strings: Seq<String>) -> Seq<Seq<char>> {
    strings.map_values(|s: String| s@)
}

/// Whether the bytes `a` stand before the bytes `b`.
fn stands_before(a: &[u8], b: &[u8]) -> (r: bool)
    ensures
        r == bytes_before(a@, b@),
{
    let mut i: usize = 0;
    proof {
        assert(a@.skip(0) == a@);
        assert(b@.skip(0) == b@);
    }
    while i < a.len() && i < b.len()
        invariant
            i <= a@.len(),
            i <= b@.len(),
            bytes_before(a@, b@) == bytes_before(a@.skip(i as int), b@.skip(i as int)),
        decreases a@.len() - i,
    {
        if a[i] != b[i] {
            return a[i] < b[i];
        }
        proof {
            assert(a@.skip(i as int).drop_first() == a@.skip(i + 1));
            assert(b@.skip(i as int).drop_first() == b@.skip(i + 1));
        }
        i += 1;
    }
    i < b.len()
}

/// Puts a name in its place among names in ascending order, unless it is there.
fn insert_name(names: &mut Vec<String>, name: &String)
    requires
        ascending(texts(old(names)@)),
    ensures
        ascending(texts(final(names)@)),
        texts(final(names)@).to_set() == texts(old(names)@).to_set().insert(name@),
{
    let ghost before = texts(names@);
    let mut i: usize = 0;
    while i < names.len() && stands_before(names[i].as_str().as_bytes(), name.as_str().as_bytes())
        invariant
            i <= names@.len(),
            before == texts(names@),
            ascending(before),
            forall|k: int| 0 <= k < i ==> name_before(#[trigger] before[k], name@),
        decreases names@.len() - i,
    {
        proof {
            assert(before[i as int] == names@[i as int]@);
        }
        i += 1;
    }
    if i < names.len() && names[i] == *name {
        proof {
            assert(before[i as int] == name@);
            assert(before.to_set().contains(before[i as int]));
            assert(before.to_set().insert(name@) =~= before.to_set());
        }
        return;
    }
    proof {
        if i < before.len() {
            assert(before[i as int] == names@[i as int]@);
            lemma_names_total(before[i as int], name@);
        }
        lemma_inserted(before, i as int, name@);
    }
    names.insert(i, name.clone());
    proof {
        assert(texts(names@) =~= before.insert(i as int, name@));
    }
}

/// Writes the names with a comma between each two of them.
fn join(names: &Vec<String>) -> (s: String)
    ensures
        s@ == joined(texts(names@)),
{
    let mut s = String::new();
    let mut i: usize = 0;
    while i < names.len()
        invariant
            i <= names@.len(),
            s@ == joined(texts(names@).take(i as int)),
        decreases names@.len() - i,
    {
        proof {
            let next = texts(names@).take(i + 1);
            assert(next.drop_last() == texts(names@).take(i as int));
            assert(next.last() == names@[i as int]@);
            reveal_strlit(",");
            assert(","@ =~= seq![',']);
        }
        if i > 0 {
            s.append(",");
        }
        s.append(names[i].as_str());
        proof {
            assert(s@ =~= joined(texts(names@).take(i + 1)));
        }
        i += 1;
    }
    proof {
        assert(texts(names@).take(i as int) == texts(names@));
    }
    s
}

/// Hash of the *set* of tag names. Matching is purely textual: a tag is a
/// bare identifier on both sides.
pub fn tagset_hash(tags: &[Ident]) -> (digest: String)
    ensures
        digest@ == tagset_digest(tag_names(idents_view(tags@))),
{
    let mut names: Vec<String> = Vec::new();
    let mut i: usize = 0;
    let ghost all = idents_view(tags@);
    proof {
        assert(texts(names@).to_set() =~= tag_names(all.take(0)));
    }
    while i < tags.len()
        invariant
            i <= tags@.len(),
            all == idents_view(tags@),
            ascending(texts(names@)),
            texts(names@).to_set() == tag_names(all.take(i as int)),
        decreases tags@.len() - i,
    {
        insert_name(&mut names, &tags[i].text);
        proof {
            lemma_tag_names_push(all.take(i as int), all[i as int]);
            assert(all.take(i as int).push(all[i as int]) =~= all.take(i + 1));
        }
        i += 1;
    }
    proof {
        assert(all.take(i as int) == all);
        lemma_sorted_is(texts(names@));
    }
    to_hex(fnv1a(join(&names).as_str()), 16)
}

pub(crate) proof fn lemma_tag_names_push(tags: Seq<IdentView>, tag: IdentView)
    ensures
        tag_names(tags.push(tag)) == tag_names(tags).insert(tag.text),
{
    let text = |tag: IdentView| tag.text;
    let a = tags.map_values(text);
    let b = tags.push(tag).map_values(text);
    assert(b =~= a.push(tag.text));
    assert forall|x: Seq<char>| b.to_set().contains(x) <==> a.to_set().insert(tag.text).contains(
        x,
    ) by {
        if b.to_set().contains(x) {
            let k = choose|k: int| 0 <= k < b.len() && b[k] == x;
            if k < a.len() {
                assert(a[k] == x);
            }
        }
        if a.to_set().contains(x) {
            let k = choose|k: int| 0 <= k < a.len() && a[k] == x;
            assert(b[k] == x);
        }
        assert(b[a.len() as int] == tag.text);
    }
    assert(b.to_set() =~= a.to_set().insert(tag.text));
}

} // verus!
