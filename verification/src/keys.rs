//! How records are keyed: one identifier, or two with a separator between them.

use crate::order::{begins_with, place, Place};
use vstd::prelude::*;
use vstd::slice::slice_subrange;
use vstd::utf8::{
    encode_utf8, encode_utf8_decode_utf8, encode_utf8_valid_utf8, pop_first_scalar, valid_utf8,
};

verus! {

/// The byte between the two fields of a key. UTF-8 never uses it.
pub const SEPARATOR: u8 = 0xFF;

/// The beginning that all keys with the first field `first` share.
pub open spec fn first_field(first: Seq<char>) -> Seq<u8> {
    encode_utf8(first).push(SEPARATOR)
}

/// The key of the two fields `first` and `second`.
pub open spec fn pair_key(first: Seq<char>, second: Seq<char>) -> Seq<u8> {
    first_field(first) + encode_utf8(second)
}

/// After `beginning`, `key` goes on with the bytes of a text.
pub open spec fn goes_on_as_text(key: Seq<u8>, beginning: Seq<u8>) -> bool {
    exists|text: Seq<char>| key == beginning + #[trigger] encode_utf8(text)
}

/// `key` is a key with the second field `second`.
pub open spec fn ends_in_field(key: Seq<u8>, second: Seq<char>) -> bool {
    exists|first: Seq<char>| key == #[trigger] pair_key(first, second)
}

/// The failure of `std::str::from_utf8`.
#[verifier::external_type_specification]
#[verifier::external_body]
pub struct ExUtf8Error(std::str::Utf8Error);

/// `std::str::from_utf8` succeeds exactly on valid UTF-8, and its result is the
/// text with those bytes.
pub assume_specification<'a>[ std::str::from_utf8 ](bytes: &'a [u8]) -> (r: Result<
    &'a str,
    std::str::Utf8Error,
>)
    ensures
        r is Ok <==> valid_utf8(bytes@),
        r matches Ok(text) ==> encode_utf8(text@) == bytes@,
;

/// Texts with the same bytes are the same text.
pub proof fn utf8_tells_texts_apart(a: Seq<char>, b: Seq<char>)
    requires
        encode_utf8(a) == encode_utf8(b),
    ensures
        a == b,
{
    encode_utf8_decode_utf8(a);
    encode_utf8_decode_utf8(b);
}

/// The separator never occurs in UTF-8.
pub proof fn utf8_has_no_separator(bytes: Seq<u8>)
    requires
        valid_utf8(bytes),
    ensures
        !bytes.contains(SEPARATOR),
    decreases bytes.len(),
{
    if bytes.len() > 0 {
        let rest = pop_first_scalar(bytes);
        utf8_has_no_separator(rest);
        let n = bytes.len() - rest.len();
        assert forall|i: int| 0 <= i < bytes.len() implies bytes[i] != SEPARATOR by {
            if i >= n {
                assert(rest[i - n] == bytes[i]);
                assert(rest.contains(rest[i - n]));
            }
        }
    }
}

/// A key with the first field `first` begins with the bytes of that field and the byte
/// `0xFF`.
pub proof fn first_field_is_followed_by_the_separator(first: Seq<char>)
    ensures
        first_field(first) == encode_utf8(first) + seq![0xFFu8],
{
}

/// The bytes before the separator tell where it is: two keys whose first fields
/// hold no separator begin with the same first field only if the fields are equal.
proof fn first_fields_differ(a: Seq<u8>, b: Seq<u8>, rest: Seq<u8>)
    requires
        !a.contains(SEPARATOR),
        !b.contains(SEPARATOR),
        begins_with(b.push(SEPARATOR) + rest, a.push(SEPARATOR)),
    ensures
        a == b,
{
    let key = b.push(SEPARATOR) + rest;
    let p = a.push(SEPARATOR);
    assert forall|i: int| 0 <= i < p.len() implies key[i] == p[i] by {
        assert(key.take(p.len() as int)[i] == p[i]);
    }
    if a.len() < b.len() {
        assert(key[a.len() as int] == p[a.len() as int]);
        assert(b[a.len() as int] == SEPARATOR);
        assert(b.contains(b[a.len() as int]));
    } else if b.len() < a.len() {
        assert(key[b.len() as int] == p[b.len() as int]);
        assert(a[b.len() as int] == SEPARATOR);
        assert(a.contains(a[b.len() as int]));
    } else {
        assert forall|i: int| 0 <= i < a.len() implies a[i] == b[i] by {
            assert(key[i] == p[i]);
        }
        assert(a =~= b);
    }
}

/// A key begins with a first field exactly if that is its own first field: a user
/// or room whose id merely starts with the same letters is another one.
pub proof fn first_field_is_exact(first: Seq<char>, second: Seq<char>, other: Seq<char>)
    ensures
        begins_with(pair_key(first, second), first_field(other)) <==> first == other,
{
    let a = encode_utf8(other);
    let b = encode_utf8(first);
    encode_utf8_valid_utf8(other);
    encode_utf8_valid_utf8(first);
    utf8_has_no_separator(a);
    utf8_has_no_separator(b);
    let key = pair_key(first, second);
    let p = first_field(other);
    if begins_with(key, p) {
        first_fields_differ(a, b, encode_utf8(second));
        utf8_tells_texts_apart(first, other);
    }
    if first == other {
        assert(key.take(p.len() as int) =~= p);
    }
}

/// Two fields are told apart from any other two by their key.
pub proof fn pair_key_is_injective(
    first: Seq<char>,
    second: Seq<char>,
    other_first: Seq<char>,
    other_second: Seq<char>,
)
    ensures
        pair_key(first, second) == pair_key(other_first, other_second) <==> first == other_first
            && second == other_second,
{
    if pair_key(first, second) == pair_key(other_first, other_second) {
        first_field_is_exact(other_first, other_second, other_first);
        first_field_is_exact(first, second, other_first);
        let n = first_field(first).len() as int;
        assert(pair_key(first, second).skip(n) =~= encode_utf8(second));
        assert(pair_key(other_first, other_second).skip(n) =~= encode_utf8(other_second));
        utf8_tells_texts_apart(second, other_second);
    }
}

/// Adds the bytes of `more` to the end of `bytes`.
fn append(bytes: &mut Vec<u8>, more: &[u8])
    ensures
        final(bytes)@ == old(bytes)@ + more@,
{
    let mut i: usize = 0;
    while i < more.len()
        invariant
            i <= more@.len(),
            bytes@ == old(bytes)@ + more@.take(i as int),
        decreases more@.len() - i,
    {
        bytes.push(more[i]);
        assert(more@.take(i + 1) =~= more@.take(i as int).push(more@[i as int]));
        i = i + 1;
    }
    assert(more@.take(more@.len() as int) =~= more@);
}

/// Writes a key of one field.
pub fn single_key_bytes(field: &str) -> (r: Vec<u8>)
    ensures
        r@ == encode_utf8(field@),
{
    let mut key: Vec<u8> = Vec::new();
    append(&mut key, field.as_bytes());
    assert(key@ =~= encode_utf8(field@));
    key
}

/// Writes the beginning that all keys with the first field `first` share.
pub fn first_field_bytes(first: &str) -> (r: Vec<u8>)
    ensures
        r@ == first_field(first@),
{
    let mut key: Vec<u8> = single_key_bytes(first);
    key.push(SEPARATOR);
    key
}

/// Writes the key of the two fields `first` and `second`.
pub fn pair_key_bytes(first: &str, second: &str) -> (r: Vec<u8>)
    ensures
        r@ == pair_key(first@, second@),
{
    let mut key: Vec<u8> = first_field_bytes(first);
    append(&mut key, second.as_bytes());
    key
}

/// Reads the second field of a key that begins with the first field `first`.
/// There is none if what follows the separator is not UTF-8.
pub fn second_field<'a>(key: &'a [u8], first: &[u8]) -> (r: Option<&'a str>)
    requires
        begins_with(key@, first@),
    ensures
        match r {
            Some(second) => key@ == first@ + encode_utf8(second@),
            None => forall|text: Seq<char>| key@ != first@ + #[trigger] encode_utf8(text),
        },
        r is Some <==> goes_on_as_text(key@, first@),
{
    let rest: &[u8] = slice_subrange(key, first.len(), key.len());
    assert(key@ =~= first@ + rest@) by {
        assert(key@.take(first@.len() as int) =~= first@);
    }
    match std::str::from_utf8(rest) {
        Ok(second) => Some(second),
        Err(_) => {
            assert forall|second: Seq<char>| key@ != first@ + #[trigger] encode_utf8(second) by {
                if key@ == first@ + encode_utf8(second) {
                    assert(key@.skip(first@.len() as int) =~= rest@);
                    assert((first@ + encode_utf8(second)).skip(first@.len() as int) =~= encode_utf8(
                        second,
                    ));
                    encode_utf8_valid_utf8(second);
                }
            }
            None
        },
    }
}

/// Reads the first field of a key whose second field is `second`. There is none if
/// the key does not end in that field, or if what precedes it is not UTF-8.
pub fn first_field_of<'a>(key: &'a [u8], second: &str) -> (r: Option<&'a str>)
    ensures
        match r {
            Some(first) => key@ == pair_key(first@, second@),
            None => forall|text: Seq<char>| key@ != #[trigger] pair_key(text, second@),
        },
        r is Some <==> ends_in_field(key@, second@),
{
    let end: &[u8] = second.as_bytes();
    if key.len() <= end.len() {
        return None;
    }
    let n: usize = key.len() - end.len() - 1;
    let before: &[u8] = slice_subrange(key, 0, n);
    let after: &[u8] = slice_subrange(key, n + 1, key.len());
    if key[n] != SEPARATOR || place(after, end) != Place::Same {
        assert forall|first: Seq<char>| key@ != #[trigger] pair_key(first, second@) by {
            if key@ == pair_key(first, second@) {
                assert(key@[n as int] == SEPARATOR);
                assert(after@ =~= encode_utf8(second@));
            }
        }
        return None;
    }
    match std::str::from_utf8(before) {
        Ok(first) => {
            assert(key@ =~= pair_key(first@, second@));
            Some(first)
        },
        Err(_) => {
            assert forall|first: Seq<char>| key@ != #[trigger] pair_key(first, second@) by {
                if key@ == pair_key(first, second@) {
                    assert(before@ =~= encode_utf8(first));
                    encode_utf8_valid_utf8(first);
                }
            }
            None
        },
    }
}

} // verus!
