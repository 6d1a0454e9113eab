//! Fingerprints: a digest over the names in a directory.
//!
//! The fingerprint of a directory is the SHA-256 digest, in lowercase hex, of
//! its child names sorted bytewise and written one after the other. It tells
//! a client that a directory has to be listed again; it says nothing of what
//! the files hold.

use sha2::{Digest, Sha256};
use vstd::prelude::*;
use vstd::relations::{sorted_by, total_ordering};
use vstd::seq_lib::{
    group_to_multiset_ensures, lemma_flatten_concat, lemma_sorted_unique, to_multiset_build,
    to_multiset_insert, to_multiset_remove,
};
use vstd::utf8::encode_utf8;
use crate::text::push_char;

verus! {

/// Bytewise lexicographic order: `a` comes no later than `b`.
pub open spec fn bytes_le(a: Seq<u8>, b: Seq<u8>) -> bool
    decreases a.len(),
{
    if a.len() == 0 {
        true
    } else if b.len() == 0 {
        false
    } else if a[0] != b[0] {
        a[0] < b[0]
    } else {
        bytes_le(a.drop_first(), b.drop_first())
    }
}

/// `bytes_le` as a relation.
pub open spec fn byte_order() -> spec_fn(Seq<u8>, Seq<u8>) -> bool {
    |a: Seq<u8>, b: Seq<u8>| bytes_le(a, b)
}

proof fn lemma_bytes_le_reflexive(a: Seq<u8>)
    ensures
        bytes_le(a, a),
    decreases a.len(),
{
    if a.len() > 0 {
        lemma_bytes_le_reflexive(a.drop_first());
    }
}

proof fn lemma_bytes_le_antisymmetric(a: Seq<u8>, b: Seq<u8>)
    requires
        bytes_le(a, b),
        bytes_le(b, a),
    ensures
        a == b,
    decreases a.len(),
{
    if a.len() == 0 || b.len() == 0 {
        assert(a =~= b);
    } else {
        lemma_bytes_le_antisymmetric(a.drop_first(), b.drop_first());
        assert(a =~= seq![a[0]] + a.drop_first());
        assert(b =~= seq![b[0]] + b.drop_first());
    }
}

proof fn lemma_bytes_le_transitive(a: Seq<u8>, b: Seq<u8>, c: Seq<u8>)
    requires
        bytes_le(a, b),
        bytes_le(b, c),
    ensures
        bytes_le(a, c),
    decreases a.len(),
{
    if a.len() > 0 && a[0] == b[0] && b[0] == c[0] {
        lemma_bytes_le_transitive(a.drop_first(), b.drop_first(), c.drop_first());
    }
}

proof fn lemma_bytes_le_connected(a: Seq<u8>, b: Seq<u8>)
    ensures
        bytes_le(a, b) || bytes_le(b, a),
    decreases a.len(),
{
    if a.len() > 0 && b.len() > 0 && a[0] == b[0] {
        lemma_bytes_le_connected(a.drop_first(), b.drop_first());
    }
}

/// The bytewise order is a total order.
pub proof fn lemma_byte_order_total()
    ensures
        total_ordering(byte_order()),
{
    let order = byte_order();
    assert forall|a: Seq<u8>| #[trigger] order(a, a) by {
        lemma_bytes_le_reflexive(a);
    }
    assert forall|a: Seq<u8>, b: Seq<u8>| #[trigger] order(a, b) && #[trigger] order(b, a) implies a
        == b by {
        lemma_bytes_le_antisymmetric(a, b);
    }
    assert forall|a: Seq<u8>, b: Seq<u8>, c: Seq<u8>| #[trigger]
        order(a, b) && #[trigger] order(b, c) implies order(a, c) by {
        lemma_bytes_le_transitive(a, b, c);
    }
    assert forall|a: Seq<u8>, b: Seq<u8>| #[trigger] order(a, b) || #[trigger] order(b, a) by {
        lemma_bytes_le_connected(a, b);
    }
}

/// Compares two byte strings in the bytewise order.
pub fn bytes_at_most(a: &Vec<u8>, b: &Vec<u8>) -> (r: bool)
    ensures
        r == bytes_le(a@, b@),
{
    let mut i: usize = 0;
    assert(a@.skip(0) =~= a@);
    assert(b@.skip(0) =~= b@);
    while i < a.len() && i < b.len()
        invariant
            i <= a.len(),
            i <= b.len(),
            bytes_le(a@, b@) == bytes_le(a@.skip(i as int), b@.skip(i as int)),
        decreases a.len() - i,
    {
        if a[i] != b[i] {
            return a[i] < b[i];
        }
        assert(a@.skip(i as int).drop_first() =~= a@.skip(i + 1));
        assert(b@.skip(i as int).drop_first() =~= b@.skip(i + 1));
        i += 1;
    }
    i >= a.len()
}

/// The byte strings held by a sequence of vectors.
pub open spec fn byte_views(v: Seq<Vec<u8>>) -> Seq<Seq<u8>> {
    Seq::new(v.len(), |i: int| v[i]@)
}

/// Puts `item` into a sorted vector at the place the order gives it.
fn insert_sorted(sorted: &mut Vec<Vec<u8>>, item: Vec<u8>)
    requires
        sorted_by(byte_views(old(sorted)@), byte_order()),
    ensures
        sorted_by(byte_views(final(sorted)@), byte_order()),
        byte_views(final(sorted)@).to_multiset() == byte_views(old(sorted)@).to_multiset().insert(
            item@,
        ),
{
    broadcast use group_to_multiset_ensures;

    let ghost before = byte_views(sorted@);
    let mut at: usize = 0;
    while at < sorted.len() && bytes_at_most(&sorted[at], &item)
        invariant
            at <= sorted.len(),
            before == byte_views(sorted@),
            forall|k: int| 0 <= k < at ==> bytes_le(#[trigger] before[k], item@),
        ensures
            at <= sorted.len(),
            before == byte_views(sorted@),
            forall|k: int| 0 <= k < at ==> bytes_le(#[trigger] before[k], item@),
            at < sorted.len() ==> !bytes_le(before[at as int], item@),
        decreases sorted.len() - at,
    {
        at += 1;
    }
    sorted.insert(at, item);
    let ghost after = byte_views(sorted@);
    assert(after =~= before.insert(at as int, item@));
    assert forall|i: int, j: int| 0 <= i < j < after.len() implies #[trigger] byte_order()(
        after[i],
        after[j],
    ) by {
        if j == at {
        } else if i == at {
            lemma_bytes_le_connected(before[at as int], item@);
            if j - 1 > at {
                assert(byte_order()(before[at as int], before[j - 1]));
            } else {
                lemma_bytes_le_reflexive(before[at as int]);
            }
            lemma_bytes_le_transitive(item@, before[at as int], before[j - 1]);
        } else {
            let bi = if i < at { i } else { i - 1 };
            let bj = if j < at { j } else { j - 1 };
            assert(byte_order()(before[bi], before[bj]));
        }
    }
}


/// The SHA-256 digest of a byte string, as `Sha256::digest` of the crate
/// `sha2` computes it.
pub uninterp spec fn sha256(data: Seq<u8>) -> Seq<u8>;

/// Computes a SHA-256 digest.
///
/// Calls `sha2::Sha256::digest`, the one-shot form of the `Digest` trait:
/// a fresh hasher is fed `data` once and finalized. The contract names the
/// result and states its length, 32 bytes, which is the fixed output size of
/// `Sha256`.
#[verifier::external_body]
fn sha256_digest(data: &Vec<u8>) -> (digest: Vec<u8>)
    ensures
        digest@ == sha256(data@),
        digest@.len() == 32,
{
    Sha256::digest(data.as_slice()).to_vec()
}

/// The lowercase hex digit for a value below sixteen.
pub open spec fn hex_digit(n: int) -> char {
    if n < 10 {
        (n + 48) as char
    } else {
        (n + 87) as char
    }
}

/// Whether `c` is one of `0`..`9`, `a`..`f`.
pub open spec fn is_lower_hex(c: char) -> bool {
    ('0' <= c && c <= '9') || ('a' <= c && c <= 'f')
}

/// Lowercase hex: two digits for each byte, the high half first.
pub open spec fn hex_of(bytes: Seq<u8>) -> Seq<char> {
    Seq::new(
        2 * bytes.len(),
        |i: int|
            if i % 2 == 0 {
                hex_digit(bytes[i / 2] as int / 16)
            } else {
                hex_digit(bytes[i / 2] as int % 16)
            },
    )
}

fn hex_char(n: u8) -> (c: char)
    requires
        n < 16,
    ensures
        c == hex_digit(n as int),
        is_lower_hex(c),
{
    if n < 10 {
        (n + 48) as char
    } else {
        (n + 87) as char
    }
}

/// Writes bytes as lowercase hex.
pub fn to_hex(bytes: &Vec<u8>) -> (hex: String)
    ensures
        hex@ == hex_of(bytes@),
        hex@.len() == 2 * bytes@.len(),
        forall|i: int| 0 <= i < hex@.len() ==> is_lower_hex(#[trigger] hex@[i]),
{
    let mut hex = String::new();
    let mut i: usize = 0;
    while i < bytes.len()
        invariant
            i <= bytes.len(),
            hex@ == hex_of(bytes@.take(i as int)),
            forall|k: int| 0 <= k < hex@.len() ==> is_lower_hex(#[trigger] hex@[k]),
        decreases bytes.len() - i,
    {
        let b: u8 = bytes[i];
        push_char(&mut hex, hex_char(b / 16));
        push_char(&mut hex, hex_char(b % 16));
        assert(hex@ =~= hex_of(bytes@.take(i + 1)));
        i += 1;
    }
    assert(bytes@.take(bytes@.len() as int) =~= bytes@);
    hex
}


/// The names that came as text, in the order read. A child whose name is not
/// text has no part in the fingerprint.
pub open spec fn text_names(names: Seq<Option<String>>) -> Seq<Seq<char>>
    decreases names.len(),
{
    if names.len() == 0 {
        Seq::empty()
    } else {
        let front = text_names(names.drop_last());
        match names.last() {
            Some(name) => front.push(name@),
            None => front,
        }
    }
}

/// Each name in UTF-8.
pub open spec fn encoded(names: Seq<Seq<char>>) -> Seq<Seq<u8>> {
    Seq::new(names.len(), |i: int| encode_utf8(names[i]))
}

/// What is hashed for a directory with these child names: the names in
/// UTF-8, sorted bytewise, one after the other.
pub open spec fn digest_input(names: Seq<Seq<char>>) -> Seq<u8> {
    encoded(names).sort_by(byte_order()).flatten()
}

/// The fingerprint of a directory with these child names.
pub open spec fn fingerprint_of(names: Seq<Seq<char>>) -> Seq<char> {
    hex_of(sha256(digest_input(names)))
}

/// The byte strings of `parts`, one after the other.
fn concat(parts: &Vec<Vec<u8>>) -> (all: Vec<u8>)
    ensures
        all@ == byte_views(parts@).flatten(),
{
    let mut all: Vec<u8> = Vec::new();
    let mut k: usize = 0;
    while k < parts.len()
        invariant
            k <= parts.len(),
            all@ == byte_views(parts@).take(k as int).flatten(),
        decreases parts.len() - k,
    {
        let part = &parts[k];
        let ghost before = all@;
        let mut i: usize = 0;
        while i < part.len()
            invariant
                i <= part.len(),
                all@ == before + part@.take(i as int),
            decreases part.len() - i,
        {
            all.push(part[i]);
            assert(part@.take(i + 1) =~= part@.take(i as int).push(part@[i as int]));
            i += 1;
        }
        assert(part@.take(part@.len() as int) =~= part@);
        proof {
            let done = byte_views(parts@).take(k as int);
            assert(byte_views(parts@).take(k + 1) =~= done.push(part@));
            done.lemma_flatten_push(part@);
        }
        k += 1;
    }
    assert(byte_views(parts@).take(parts@.len() as int) =~= byte_views(parts@));
    all
}

/// Computes the fingerprint of a directory from the names of its children as
/// they were read, in any order. `None` stands for a child whose name is not
/// text; it is left out.
pub fn calculate_folder_hash(names: &Vec<Option<String>>) -> (hash: String)
    ensures
        hash@ == fingerprint_of(text_names(names@)),
        hash@.len() == 64,
        forall|i: int| 0 <= i < hash@.len() ==> is_lower_hex(#[trigger] hash@[i]),
{
    let mut sorted: Vec<Vec<u8>> = Vec::new();
    let mut k: usize = 0;
    assert(byte_views(sorted@) =~= encoded(text_names(names@.take(0))));
    while k < names.len()
        invariant
            k <= names.len(),
            sorted_by(byte_views(sorted@), byte_order()),
            byte_views(sorted@).to_multiset() == encoded(
                text_names(names@.take(k as int)),
            ).to_multiset(),
        decreases names.len() - k,
    {
        let ghost seen = text_names(names@.take(k as int));
        assert(names@.take(k + 1).drop_last() =~= names@.take(k as int));
        assert(names@.take(k + 1).last() == names@[k as int]);
        match &names[k] {
            Some(name) => {
                insert_sorted(&mut sorted, name.as_str().as_bytes_vec());
                proof {
                    let item = encode_utf8(name@);
                    assert(text_names(names@.take(k + 1)) == seen.push(name@));
                    assert(encoded(seen.push(name@)) =~= encoded(seen).push(item));
                    to_multiset_build(encoded(seen), item);
                }
            },
            None => {
                assert(text_names(names@.take(k + 1)) == seen);
            },
        }
        k += 1;
    }
    assert(names@.take(names@.len() as int) =~= names@);
    proof {
        let target = encoded(text_names(names@));
        lemma_byte_order_total();
        target.lemma_sort_by_ensures(byte_order());
        lemma_sorted_unique(byte_views(sorted@), target.sort_by(byte_order()), byte_order());
    }
    let data = concat(&sorted);
    let digest = sha256_digest(&data);
    to_hex(&digest)
}


/// For two sequences with the same members, each as often, of which the
/// first is not empty: a place in the second that holds the last of the
/// first. Without that member the two still have the same members.
proof fn lemma_last_is_shared<T>(a: Seq<T>, b: Seq<T>) -> (i: int)
    requires
        a.to_multiset() == b.to_multiset(),
        a.len() > 0,
    ensures
        0 <= i < b.len(),
        b[i] == a.last(),
        a.drop_last().to_multiset() == b.remove(i).to_multiset(),
{
    broadcast use group_to_multiset_ensures;

    let x = a.last();
    let shorter = a.drop_last();
    assert(a =~= shorter.push(x));
    assert(a.to_multiset().count(x) > 0);
    assert(b.to_multiset().contains(x));
    assert(b.contains(x));
    let i = choose|i: int| 0 <= i < b.len() && b[i] == x;
    to_multiset_build(shorter, x);
    to_multiset_remove(b, i);
    assert(shorter.to_multiset() =~= a.to_multiset().remove(x));
    i
}

/// Sequences with the same members, each as often, are both empty or
/// neither.
proof fn lemma_same_members_same_length<T>(a: Seq<T>, b: Seq<T>)
    requires
        a.to_multiset() == b.to_multiset(),
    ensures
        a.len() == b.len(),
{
    broadcast use group_to_multiset_ensures;

    assert(a.to_multiset().len() == a.len());
    assert(b.to_multiset().len() == b.len());
}

/// Two sequences of names with the same members, each as often, have
/// encodings with the same members, each as often.
proof fn lemma_encoded_keeps_members(a: Seq<Seq<char>>, b: Seq<Seq<char>>)
    requires
        a.to_multiset() == b.to_multiset(),
    ensures
        encoded(a).to_multiset() == encoded(b).to_multiset(),
    decreases a.len(),
{
    lemma_same_members_same_length(a, b);
    if a.len() == 0 {
        assert(encoded(a) =~= encoded(b));
    } else {
        let i = lemma_last_is_shared(a, b);
        let shorter = a.drop_last();
        let rest = b.remove(i);
        lemma_encoded_keeps_members(shorter, rest);
        let item = encode_utf8(a.last());
        assert(encoded(a) =~= encoded(shorter).push(item));
        assert(encoded(b) =~= encoded(rest).insert(i, item));
        to_multiset_build(encoded(shorter), item);
        to_multiset_insert(encoded(rest), i, item);
    }
}

/// The fingerprint does not depend on the order in which the children were
/// read: two sequences of names with the same members, each as often, have
/// the same fingerprint.
pub proof fn lemma_fingerprint_ignores_order(a: Seq<Seq<char>>, b: Seq<Seq<char>>)
    requires
        a.to_multiset() == b.to_multiset(),
    ensures
        digest_input(a) == digest_input(b),
        fingerprint_of(a) == fingerprint_of(b),
{
    lemma_encoded_keeps_members(a, b);
    lemma_byte_order_total();
    encoded(a).lemma_sort_by_ensures(byte_order());
    encoded(b).lemma_sort_by_ensures(byte_order());
    lemma_sorted_unique(
        encoded(a).sort_by(byte_order()),
        encoded(b).sort_by(byte_order()),
        byte_order(),
    );
}

/// Distinct values below sixteen have distinct hex digits.
proof fn lemma_hex_digit_injective(m: int, n: int)
    requires
        0 <= m < 16,
        0 <= n < 16,
        hex_digit(m) == hex_digit(n),
    ensures
        m == n,
{
    let a: int = if m < 10 { m + 48 } else { m + 87 };
    let b: int = if n < 10 { n + 48 } else { n + 87 };
    assert(a as char as int == a);
    assert(b as char as int == b);
}

/// Hex writing loses nothing: byte strings with the same hex are the same.
pub proof fn lemma_hex_injective(a: Seq<u8>, b: Seq<u8>)
    requires
        hex_of(a) == hex_of(b),
    ensures
        a == b,
{
    assert(hex_of(a).len() == 2 * a.len());
    assert(hex_of(b).len() == 2 * b.len());
    assert forall|i: int| 0 <= i < a.len() implies a[i] == b[i] by {
        assert((2 * i) / 2 == i && (2 * i) % 2 == 0);
        assert((2 * i + 1) / 2 == i && (2 * i + 1) % 2 == 1);
        assert(hex_of(a)[2 * i] == hex_digit(a[i] as int / 16));
        assert(hex_of(b)[2 * i] == hex_digit(b[i] as int / 16));
        assert(hex_of(a)[2 * i + 1] == hex_digit(a[i] as int % 16));
        assert(hex_of(b)[2 * i + 1] == hex_digit(b[i] as int % 16));
        lemma_hex_digit_injective(a[i] as int / 16, b[i] as int / 16);
        lemma_hex_digit_injective(a[i] as int % 16, b[i] as int % 16);
    }
    assert(a =~= b);
}

/// Two directories have the same fingerprint exactly when the digests of what
/// is hashed for them are the same. Whether a change of names changes the
/// digest is a matter of SHA-256, and of the names being written without a
/// separator; nothing is claimed of either.
pub proof fn lemma_fingerprint_follows_digest(a: Seq<Seq<char>>, b: Seq<Seq<char>>)
    ensures
        fingerprint_of(a) == fingerprint_of(b) <==> sha256(digest_input(a)) == sha256(
            digest_input(b),
        ),
{
    if fingerprint_of(a) == fingerprint_of(b) {
        lemma_hex_injective(sha256(digest_input(a)), sha256(digest_input(b)));
    }
}


/// Byte strings with the same members, each as often, have the same length
/// when written one after the other.
proof fn lemma_flat_length_ignores_order(a: Seq<Seq<u8>>, b: Seq<Seq<u8>>)
    requires
        a.to_multiset() == b.to_multiset(),
    ensures
        a.flatten().len() == b.flatten().len(),
    decreases a.len(),
{
    lemma_same_members_same_length(a, b);
    if a.len() == 0 {
        assert(a =~= b);
    } else {
        let i = lemma_last_is_shared(a, b);
        let x = a.last();
        let shorter = a.drop_last();
        let rest = b.remove(i);
        lemma_flat_length_ignores_order(shorter, rest);
        assert(a =~= shorter.push(x));
        shorter.lemma_flatten_push(x);
        let front = b.take(i);
        let back = b.skip(i + 1);
        assert(rest =~= front + back);
        assert(b =~= front.push(x) + back);
        lemma_flatten_concat(front, back);
        lemma_flatten_concat(front.push(x), back);
        front.lemma_flatten_push(x);
    }
}

/// What is hashed for a directory is as long as the UTF-8 forms of its child
/// names together.
pub proof fn lemma_digest_input_length(names: Seq<Seq<char>>)
    ensures
        digest_input(names).len() == encoded(names).flatten().len(),
{
    lemma_byte_order_total();
    encoded(names).lemma_sort_by_ensures(byte_order());
    lemma_flat_length_ignores_order(encoded(names).sort_by(byte_order()), encoded(names));
}

/// A child more, under a name that is not empty, changes what is hashed: the
/// hashed bytes grow. Read from right to left, the same holds of a child
/// less. Whether the digest changes with them is a matter of SHA-256.
pub proof fn lemma_added_child_changes_digest_input(names: Seq<Seq<char>>, added: Seq<char>)
    requires
        added.len() > 0,
    ensures
        digest_input(names.push(added)).len() > digest_input(names).len(),
        digest_input(names.push(added)) != digest_input(names),
{
    lemma_digest_input_length(names);
    lemma_digest_input_length(names.push(added));
    let item = encode_utf8(added);
    assert(item.len() > 0) by {
        assert(item == vstd::utf8::encode_scalar(added[0] as u32) + encode_utf8(
            added.drop_first(),
        ));
    }
    assert(encoded(names.push(added)) =~= encoded(names).push(item));
    encoded(names).lemma_flatten_push(item);
}


/// Taking a child out and putting it back at the end leaves the members as
/// they were.
proof fn lemma_remove_then_push<T>(names: Seq<T>, i: int)
    requires
        0 <= i < names.len(),
    ensures
        names.remove(i).push(names[i]).to_multiset() == names.to_multiset(),
{
    broadcast use group_to_multiset_ensures;

    to_multiset_remove(names, i);
    to_multiset_build(names.remove(i), names[i]);
    assert(names.to_multiset().count(names[i]) > 0);
    assert(names.to_multiset().remove(names[i]).insert(names[i]) =~= names.to_multiset());
}

/// A child less, whose name was not empty, changes what is hashed: the
/// hashed bytes shrink. Whether the digest changes with them is a matter of
/// SHA-256.
pub proof fn lemma_removed_child_changes_digest_input(names: Seq<Seq<char>>, i: int)
    requires
        0 <= i < names.len(),
        names[i].len() > 0,
    ensures
        digest_input(names.remove(i)).len() < digest_input(names).len(),
        digest_input(names.remove(i)) != digest_input(names),
{
    let rest = names.remove(i);
    lemma_remove_then_push(names, i);
    lemma_fingerprint_ignores_order(rest.push(names[i]), names);
    lemma_added_child_changes_digest_input(rest, names[i]);
}

/// A child under a new name changes what is hashed where the new name is of
/// another length in UTF-8. A new name of the same length may leave the
/// hashed bytes as they were, since names are written without a separator.
pub proof fn lemma_renamed_child_changes_digest_input(
    names: Seq<Seq<char>>,
    i: int,
    renamed: Seq<char>,
)
    requires
        0 <= i < names.len(),
        encode_utf8(renamed).len() != encode_utf8(names[i]).len(),
    ensures
        digest_input(names.update(i, renamed)) != digest_input(names),
{
    let rest = names.remove(i);
    let after = names.update(i, renamed);
    assert(after.remove(i) =~= rest);
    lemma_remove_then_push(names, i);
    lemma_remove_then_push(after, i);
    lemma_fingerprint_ignores_order(rest.push(names[i]), names);
    lemma_fingerprint_ignores_order(rest.push(renamed), after);
    lemma_digest_input_length(rest.push(names[i]));
    lemma_digest_input_length(rest.push(renamed));
    assert(encoded(rest.push(names[i])) =~= encoded(rest).push(encode_utf8(names[i])));
    assert(encoded(rest.push(renamed)) =~= encoded(rest).push(encode_utf8(renamed)));
    encoded(rest).lemma_flatten_push(encode_utf8(names[i]));
    encoded(rest).lemma_flatten_push(encode_utf8(renamed));
}

} // verus!
