//! What holds of the hash of a set of tags.
use vstd::arithmetic::div_mod::lemma_div_denominator;
use vstd::arithmetic::div_mod::lemma_mod_multiples_vanish;
use vstd::arithmetic::div_mod::lemma_mul_mod_noop_left;
use vstd::arithmetic::div_mod::lemma_small_mod;
use vstd::arithmetic::mul::lemma_mul_is_associative;
use vstd::arithmetic::power::lemma_pow_positive;
use vstd::arithmetic::power::pow;
use vstd::prelude::*;
use vstd::utf8::encode_utf8;

use crate::hash::ascending;
use crate::hash::bytes_before;
use crate::hash::fnv1a_bytes;
use crate::hash::hex;
use crate::hash::hex_digit;
use crate::hash::joined;
use crate::hash::lemma_sorted_is;
use crate::hash::name_before;
use crate::hash::tag_names;
use crate::hash::tagset_digest;
use crate::laws::naming::has_tag;
use crate::laws::naming::lemma_has_tag;
use crate::token::IdentView;

verus! {

/// The hash is a fold over every byte, however many there are: one more byte is
/// taken in by an exclusive or and a multiplication.
pub proof fn law_hash_takes_in_every_byte(bytes: Seq<u8>, byte: u8)
    ensures
        fnv1a_bytes(Seq::empty()) == 0xcbf2_9ce4_8422_2325u64,
        fnv1a_bytes(bytes.push(byte)) as int == ((fnv1a_bytes(bytes) ^ (byte as u64)) as int
            * 0x0000_0100_0000_01b3) % 0x1_0000_0000_0000_0000,
{
    assert(bytes.push(byte).drop_last() =~= bytes);
}

/// The multiplication can be undone, so that different numbers stay different.
proof fn lemma_times_prime_injective(x: u64, y: u64)
    requires
        (x as int * 0x0000_0100_0000_01b3) % 0x1_0000_0000_0000_0000 == (y as int
            * 0x0000_0100_0000_01b3) % 0x1_0000_0000_0000_0000,
    ensures
        x == y,
{
    lemma_times_prime_undone(x);
    lemma_times_prime_undone(y);
}

proof fn lemma_times_prime_undone(x: u64)
    ensures
        ((x as int * 0x0000_0100_0000_01b3) % 0x1_0000_0000_0000_0000 * 0xce96_5057_aff6_957b)
            % 0x1_0000_0000_0000_0000 == x,
{
    let p: int = 0x0000_0100_0000_01b3;
    let q: int = 0xce96_5057_aff6_957b;
    let m: int = 0x1_0000_0000_0000_0000;
    let k: int = (p * q - 1) / m;
    assert(p * q == m * k + 1);
    lemma_mul_mod_noop_left(x as int * p, q, m);
    lemma_mul_is_associative(x as int, p, q);
    assert(x as int * (m * k + 1) == m * (x as int * k) + x as int) by (nonlinear_arith);
    lemma_mod_multiples_vanish(x as int * k, x as int, m);
    lemma_small_mod(x as nat, m as nat);
}

/// Texts that differ in one byte never share a hash, wherever it stands.
pub proof fn law_one_changed_byte_changes_the_hash(
    front: Seq<u8>,
    a: u8,
    b: u8,
    back: Seq<u8>,
)
    requires
        a != b,
    ensures
        fnv1a_bytes(front.push(a) + back) != fnv1a_bytes(front.push(b) + back),
    decreases back.len(),
{
    if back.len() == 0 {
        assert(front.push(a) + back =~= front.push(a));
        assert(front.push(b) + back =~= front.push(b));
        law_hash_takes_in_every_byte(front, a);
        law_hash_takes_in_every_byte(front, b);
        let h = fnv1a_bytes(front);
        if fnv1a_bytes(front.push(a)) == fnv1a_bytes(front.push(b)) {
            lemma_times_prime_injective(h ^ (a as u64), h ^ (b as u64));
            assert(a == b) by (bit_vector)
                requires
                    h ^ (a as u64) == h ^ (b as u64),
            ;
        }
    } else {
        let rest = back.drop_last();
        let last = back.last();
        law_one_changed_byte_changes_the_hash(front, a, b, rest);
        let x = front.push(a) + rest;
        let y = front.push(b) + rest;
        assert(front.push(a) + back =~= x.push(last));
        assert(front.push(b) + back =~= y.push(last));
        law_hash_takes_in_every_byte(x, last);
        law_hash_takes_in_every_byte(y, last);
        let g = fnv1a_bytes(x);
        let h = fnv1a_bytes(y);
        if fnv1a_bytes(x.push(last)) == fnv1a_bytes(y.push(last)) {
            lemma_times_prime_injective(g ^ (last as u64), h ^ (last as u64));
            assert(g == h) by (bit_vector)
                requires
                    g ^ (last as u64) == h ^ (last as u64),
            ;
        }
    }
}

/// The digits of a number are those of its places in base sixteen, the most
/// significant first.
pub proof fn law_digits_are_those_of_the_number(n: nat, digits: nat, i: int)
    requires
        0 <= i < digits,
    ensures
        hex(n, digits).len() == digits,
        hex(n, digits)[i] == "0123456789abcdef"@[(n as int / pow(16, (digits - 1 - i) as nat))
            % 16],
    decreases digits,
{
    reveal_strlit("0123456789abcdef");
    reveal(pow);
    let rest = (digits - 1) as nat;
    if rest > 0 {
        law_digits_are_those_of_the_number(n / 16, rest, 0);
    }
    assert(hex(n / 16, rest).len() == rest);
    if i < rest {
        law_digits_are_those_of_the_number(n / 16, rest, i);
        let k = (rest - 1 - i) as nat;
        lemma_pow_positive(16, k);
        lemma_div_denominator(n as int, 16, pow(16, k));
        assert(pow(16, (k + 1) as nat) == 16 * pow(16, k));
    } else {
        assert(pow(16, 0) == 1);
        assert(hex_digit(n % 16) == "0123456789abcdef"@[(n % 16) as int]);
    }
}

/// Names are joined by a comma between each two of them.
pub proof fn law_names_are_joined_by_commas(
    name: Seq<char>,
    front: Seq<Seq<char>>,
    back: Seq<Seq<char>>,
)
    ensures
        joined(Seq::empty()) == Seq::<char>::empty(),
        joined(seq![name]) == name,
        front.len() > 0 && back.len() > 0 ==> joined(front + back) == joined(front) + seq![','] + joined(
            back,
        ),
    decreases back.len(),
{
    if front.len() > 0 && back.len() > 0 {
        let whole = front + back;
        assert(whole.drop_last() =~= front + back.drop_last());
        if back.len() == 1 {
            assert(whole.drop_last() =~= front);
            assert(joined(whole) =~= joined(front) + seq![','] + joined(back));
        } else {
            law_names_are_joined_by_commas(name, front, back.drop_last());
            assert(joined(whole) =~= joined(front) + seq![','] + joined(back));
        }
    }
}

/// Whether `a` comes before `b` in a dictionary of bytes: they agree up to a
/// place where `a` ends or holds the smaller byte.
pub open spec fn comes_before(a: Seq<u8>, b: Seq<u8>) -> bool {
    exists|k: int| #[trigger] agree_up_to(a, b, k) && (k == a.len() || a[k] < b[k])
}

/// Whether `a` and `b` hold the same first `k` bytes, and `b` holds more.
pub open spec fn agree_up_to(a: Seq<u8>, b: Seq<u8>, k: int) -> bool {
    0 <= k <= a.len() && k < b.len() && a.take(k) == b.take(k)
}

/// Names are sorted in the order of a dictionary of their bytes.
pub proof fn law_names_are_ordered_by_their_bytes(a: Seq<u8>, b: Seq<u8>)
    ensures
        bytes_before(a, b) <==> comes_before(a, b),
    decreases a.len(),
{
    if b.len() == 0 {
    } else if a.len() == 0 {
        assert(a.take(0) =~= b.take(0));
        assert(agree_up_to(a, b, 0));
    } else {
        let x = a.drop_first();
        let y = b.drop_first();
        law_names_are_ordered_by_their_bytes(x, y);
        if bytes_before(a, b) {
            if a[0] != b[0] {
                assert(a.take(0) =~= b.take(0));
                assert(agree_up_to(a, b, 0));
            } else {
                let k = choose|k: int| #[trigger] agree_up_to(x, y, k) && (k == x.len() || x[k] < y[k]);
                assert(a.take(k + 1) =~= seq![a[0]] + x.take(k));
                assert(b.take(k + 1) =~= seq![b[0]] + y.take(k));
                assert(agree_up_to(a, b, k + 1));
            }
        }
        if comes_before(a, b) {
            let k = choose|k: int| #[trigger] agree_up_to(a, b, k) && (k == a.len() || a[k] < b[k]);
            if k > 0 {
                assert(a.take(k)[0] == b.take(k)[0]);
                assert(x.take(k - 1) =~= a.take(k).drop_first());
                assert(y.take(k - 1) =~= b.take(k).drop_first());
                assert(agree_up_to(x, y, k - 1));
            }
        }
    }
}

/// The hash of tags is that of their names, each once, in the order of their
/// bytes, joined by commas, and written with sixteen digits.
pub proof fn law_hash_is_that_of_the_sorted_names(tags: Seq<IdentView>, names: Seq<Seq<char>>)
    requires
        forall|name: Seq<char>| names.contains(name) <==> has_tag(tags, name),
        forall|i: int, j: int|
            0 <= i < j < names.len() ==> comes_before(
                encode_utf8(#[trigger] names[i]),
                encode_utf8(#[trigger] names[j]),
            ),
    ensures
        tagset_digest(tag_names(tags)) == hex(
            fnv1a_bytes(encode_utf8(joined(names))) as nat,
            16,
        ),
{
    assert(ascending(names)) by {
        assert forall|i: int, j: int| 0 <= i < j < names.len() implies name_before(
            #[trigger] names[i],
            #[trigger] names[j],
        ) by {
            law_names_are_ordered_by_their_bytes(encode_utf8(names[i]), encode_utf8(names[j]));
        }
    }
    assert forall|name: Seq<char>| names.to_set().contains(name) <==> tag_names(tags).contains(
        name,
    ) by {
        lemma_has_tag(tags, name);
        assert(names.contains(name) <==> has_tag(tags, name));
    }
    assert(names.to_set() =~= tag_names(tags));
    lemma_sorted_is(names);
}

/// A name is among the names of tags if and only if a tag bears it.
pub proof fn law_names_are_those_of_the_tags(tags: Seq<IdentView>, name: Seq<char>)
    ensures
        tag_names(tags).contains(name) <==> exists|i: int|
            0 <= i < tags.len() && #[trigger] tags[i].text == name,
{
    lemma_has_tag(tags, name);
}

} // verus!
