//! Listing the identifiers that records share a first field with.

use crate::failure::Failure;
use crate::ids::Identifier;
use crate::keys::{
    first_field, first_field_bytes, first_field_is_exact, first_field_of, pair_key,
    pair_key_bytes, pair_key_is_injective, second_field,
};
use crate::ord_map::{in_order, OrdMap};
use crate::order::{before, before_is_one_way, before_past_a_shared_beginning, begins_with};
use vstd::prelude::*;
use vstd::utf8::encode_utf8;

verus! {

/// `a` comes strictly before `b` in the dictionary order of their bytes.
pub open spec fn text_before(a: Seq<char>, b: Seq<char>) -> bool {
    before(encode_utf8(a), encode_utf8(b))
}

/// The texts come one strictly before the next.
pub open spec fn in_text_order(list: Seq<Seq<char>>) -> bool {
    forall|i: int, j: int|
        0 <= i < j < list.len() ==> text_before(#[trigger] list[i], #[trigger] list[j])
}

/// `list` holds the texts that `belongs` is true of, each once and in order.
pub open spec fn is_listing(list: Seq<Seq<char>>, belongs: spec_fn(Seq<char>) -> bool) -> bool {
    &&& in_text_order(list)
    &&& forall|text: Seq<char>| #[trigger] list.contains(text) <==> belongs(text)
}

/// The texts of a sequence of identifiers.
pub open spec fn texts<T: View<V = Seq<char>>>(ids: Seq<T>) -> Seq<Seq<char>> {
    ids.map_values(|id: T| id@)
}

/// The texts of the identifiers in a sequence of pairs.
pub open spec fn first_texts<T: View<V = Seq<char>>, X>(rows: Seq<(T, X)>) -> Seq<Seq<char>> {
    rows.map_values(|row: (T, X)| row.0@)
}

/// `second` is an identifier, and a record is stored under `first` and it.
pub open spec fn recorded<T: Identifier, V>(
    table: Map<Seq<u8>, V>,
    first: Seq<char>,
    second: Seq<char>,
) -> bool {
    T::accepted(second) && table.contains_key(pair_key(first, second))
}

/// Each row holds what `table` stores under `first` and the identifier of the row.
pub open spec fn rows_are_stored<T: Identifier, V>(
    table: Map<Seq<u8>, V>,
    first: Seq<char>,
    rows: Seq<(T, &V)>,
) -> bool {
    forall|i: int| 0 <= i < rows.len() ==> *(#[trigger] rows[i]).1 == table[pair_key(first, rows[i].0@)]
}

/// An ordered list holds no text twice.
pub proof fn listing_has_no_repeats(list: Seq<Seq<char>>)
    requires
        in_text_order(list),
    ensures
        forall|i: int, j: int|
            0 <= i < list.len() && 0 <= j < list.len() && #[trigger] list[i]
                == #[trigger] list[j] ==> i == j,
{
    assert forall|i: int, j: int|
        0 <= i < list.len() && 0 <= j < list.len() && #[trigger] list[i]
            == #[trigger] list[j] implies i == j by {
        before_is_one_way(encode_utf8(list[i]), encode_utf8(list[i]));
        if i < j {
            assert(text_before(list[i], list[j]));
        } else if j < i {
            assert(text_before(list[j], list[i]));
        }
    }
}

/// What belongs in a listing decides the listing.
pub proof fn listing_is_unique(
    list: Seq<Seq<char>>,
    other: Seq<Seq<char>>,
    belongs: spec_fn(Seq<char>) -> bool,
)
    requires
        is_listing(list, belongs),
        is_listing(other, belongs),
    ensures
        list == other,
    decreases list.len(),
{
    if list.len() == 0 {
        if other.len() > 0 {
            assert(other.contains(other[0]));
            assert(list.contains(other[0]));
        }
        assert(list =~= other);
    } else {
        assert(list.contains(list.last()));
        assert(other.contains(list.last()));
        assert(other.contains(other.last()));
        assert(list.contains(other.last()));
        let i = choose|i: int| 0 <= i < other.len() && other[i] == list.last();
        let j = choose|j: int| 0 <= j < list.len() && list[j] == other.last();
        before_is_one_way(encode_utf8(list.last()), encode_utf8(other.last()));
        if i < other.len() - 1 && j < list.len() - 1 {
            assert(text_before(other[i], other[other.len() - 1]));
            assert(text_before(list[j], list[list.len() - 1]));
        }
        let last = list.last();
        assert(other.last() == last);
        let rest = |text: Seq<char>| belongs(text) && text != last;
        shorter_listing(list, belongs);
        shorter_listing(other, belongs);
        listing_is_unique(list.drop_last(), other.drop_last(), rest);
        assert(list =~= list.drop_last().push(last));
        assert(other =~= other.drop_last().push(last));
    }
}

proof fn shorter_listing(list: Seq<Seq<char>>, belongs: spec_fn(Seq<char>) -> bool)
    requires
        is_listing(list, belongs),
        list.len() > 0,
    ensures
        is_listing(
            list.drop_last(),
            |text: Seq<char>| belongs(text) && text != list.last(),
        ),
{
    let last = list.last();
    let short = list.drop_last();
    assert forall|text: Seq<char>| #[trigger] short.contains(text) <==> belongs(text) && text
        != last by {
        if short.contains(text) {
            let i = choose|i: int| 0 <= i < short.len() && short[i] == text;
            assert(list[i] == text);
            assert(list.contains(text));
            before_is_one_way(encode_utf8(text), encode_utf8(text));
            assert(text_before(list[i], list[list.len() - 1]));
        }
        if belongs(text) && text != last {
            assert(list.contains(text));
            let i = choose|i: int| 0 <= i < list.len() && list[i] == text;
            assert(short[i] == text);
        }
    }
    assert forall|i: int, j: int| 0 <= i < j < short.len() implies text_before(
        #[trigger] short[i],
        #[trigger] short[j],
    ) by {
        assert(text_before(list[i], list[j]));
    }
}

/// The successes among the items, in order.
pub open spec fn kept<T, E>(items: Seq<Result<T, E>>) -> Seq<T>
    decreases items.len(),
{
    if items.len() == 0 {
        Seq::empty()
    } else {
        match items.last() {
            Ok(item) => kept(items.drop_last()).push(item),
            Err(_) => kept(items.drop_last()),
        }
    }
}

/// Passes on the successes and drops the failures.
pub fn ignore_err<T, E>(items: Vec<Result<T, E>>) -> (r: Vec<T>)
    ensures
        r@ == kept(items@),
{
    let ghost all = items@;
    let mut items: Vec<Result<T, E>> = items;
    let mut back: Vec<T> = Vec::new();
    assert(all.take(all.len() as int) =~= all);
    while items.len() > 0
        invariant
            items@ == all.take(items@.len() as int),
            items@.len() <= all.len(),
            kept(all) == kept(items@) + back@.reverse(),
        decreases items@.len(),
    {
        let ghost n = items@.len() as int;
        assert(all.take(n).drop_last() =~= all.take(n - 1));
        assert(all.take(n).last() == all[n - 1]);
        if let Some(item) = items.pop() {
            match item {
                Ok(value) => {
                    let ghost was = back@;
                    back.push(value);
                    assert(back@.reverse() =~= seq![value] + was.reverse());
                    assert(kept(all) =~= kept(items@) + back@.reverse());
                },
                Err(_) => {},
            }
        }
    }
    let mut r: Vec<T> = Vec::new();
    let ghost total = back@.reverse();
    assert(kept(all) =~= total);
    while back.len() > 0
        invariant
            total == r@ + back@.reverse(),
        decreases back@.len(),
    {
        let ghost was = back@;
        if let Some(value) = back.pop() {
            r.push(value);
            assert(was.reverse() =~= seq![value] + back@.reverse());
            assert(total =~= r@ + back@.reverse());
        }
    }
    assert(total =~= r@);
    r
}

/// The positions of the successes.
proof fn kept_positions<T, E>(items: Seq<Result<T, E>>) -> (p: Seq<int>)
    ensures
        p.len() == kept(items).len(),
        forall|j: int|
            0 <= j < p.len() ==> 0 <= #[trigger] p[j] < items.len() && items[p[j]] == Ok::<T, E>(
                kept(items)[j],
            ),
        forall|j: int, k: int| 0 <= j < k < p.len() ==> #[trigger] p[j] < #[trigger] p[k],
        forall|i: int| 0 <= i < items.len() && items[i] is Ok ==> #[trigger] p.contains(i),
    decreases items.len(),
{
    if items.len() == 0 {
        Seq::empty()
    } else {
        let short = items.drop_last();
        let q = kept_positions(short);
        match items.last() {
            Ok(item) => {
                let p = q.push(items.len() - 1);
                assert forall|i: int| 0 <= i < items.len() && items[i] is Ok implies #[trigger] p.contains(i) by {
                    if i < short.len() {
                        assert(short[i] is Ok);
                        assert(q.contains(i));
                        let j = choose|j: int| 0 <= j < q.len() && q[j] == i;
                        assert(p[j] == i);
                    } else {
                        assert(p[p.len() - 1] == i);
                    }
                }
                p
            },
            Err(_) => {
                assert forall|i: int| 0 <= i < items.len() && items[i] is Ok implies #[trigger] q.contains(i) by {
                    assert(short[i] is Ok);
                }
                q
            },
        }
    }
}

/// Of the keys that begin with `first`, `items` holds the reading of each; the
/// readable ones make a listing.
proof fn readable_keys_are_a_listing<X>(
    keys: Seq<Seq<u8>>,
    first: Seq<char>,
    items: Seq<Result<X, Failure>>,
    text: spec_fn(X) -> Seq<char>,
    accepted: spec_fn(Seq<char>) -> bool,
)
    requires
        in_order(keys),
        keys.len() == items.len(),
        forall|i: int|
            0 <= i < items.len() ==> match #[trigger] items[i] {
                Ok(x) => keys[i] == pair_key(first, text(x)) && accepted(text(x)),
                Err(_) => forall|t: Seq<char>|
                    accepted(t) ==> keys[i] != #[trigger] pair_key(first, t),
            },
    ensures
        is_listing(
            kept(items).map_values(text),
            |t: Seq<char>| accepted(t) && keys.contains(pair_key(first, t)),
        ),
{
    let p = kept_positions(items);
    let list = kept(items).map_values(text);
    assert forall|j: int, k: int| 0 <= j < k < list.len() implies text_before(
        #[trigger] list[j],
        #[trigger] list[k],
    ) by {
        assert(p[j] < p[k]);
        assert(items[p[j]] is Ok && items[p[k]] is Ok);
        assert(before(keys[p[j]], keys[p[k]]));
        before_past_a_shared_beginning(
            first_field(first),
            encode_utf8(list[j]),
            encode_utf8(list[k]),
        );
    }
    assert forall|t: Seq<char>| #[trigger] list.contains(t) <==> accepted(t) && keys.contains(
        pair_key(first, t),
    ) by {
        if list.contains(t) {
            let j = choose|j: int| 0 <= j < list.len() && list[j] == t;
            assert(items[p[j]] is Ok);
            assert(keys[p[j]] == pair_key(first, t));
        }
        if accepted(t) && keys.contains(pair_key(first, t)) {
            let i = choose|i: int| 0 <= i < keys.len() && keys[i] == pair_key(first, t);
            assert(items[i] is Ok);
            assert(p.contains(i));
            let j = choose|j: int| 0 <= j < p.len() && p[j] == i;
            assert(items[p[j]] == Ok::<X, Failure>(kept(items)[j]));
            pair_key_is_injective(first, t, first, list[j]);
            assert(list[j] == t);
        }
    }
}

/// Going through a listing and keeping what some of its texts lead to leaves the
/// listing of those texts.
pub proof fn kept_of_listing<X, E>(
    list: Seq<Seq<char>>,
    belongs: spec_fn(Seq<char>) -> bool,
    items: Seq<Result<X, E>>,
    text: spec_fn(X) -> Seq<char>,
    good: spec_fn(Seq<char>) -> bool,
)
    requires
        is_listing(list, belongs),
        items.len() == list.len(),
        forall|i: int|
            0 <= i < items.len() ==> match #[trigger] items[i] {
                Ok(x) => text(x) == list[i] && good(list[i]),
                Err(_) => !good(list[i]),
            },
    ensures
        is_listing(kept(items).map_values(text), |t: Seq<char>| belongs(t) && good(t)),
        forall|j: int|
            0 <= j < kept(items).len() ==> exists|i: int|
                0 <= i < items.len() && #[trigger] items[i] == Ok::<X, E>(
                    #[trigger] kept(items)[j],
                ),
{
    let p = kept_positions(items);
    let out = kept(items).map_values(text);
    assert forall|j: int, k: int| 0 <= j < k < out.len() implies text_before(
        #[trigger] out[j],
        #[trigger] out[k],
    ) by {
        assert(p[j] < p[k]);
        assert(items[p[j]] is Ok && items[p[k]] is Ok);
        assert(text_before(list[p[j]], list[p[k]]));
    }
    assert forall|t: Seq<char>| #[trigger] out.contains(t) <==> belongs(t) && good(t) by {
        if out.contains(t) {
            let j = choose|j: int| 0 <= j < out.len() && out[j] == t;
            assert(items[p[j]] is Ok);
            assert(list[p[j]] == t);
            assert(list.contains(t));
        }
        if belongs(t) && good(t) {
            assert(list.contains(t));
            let i = choose|i: int| 0 <= i < list.len() && list[i] == t;
            assert(items[i] is Ok);
            assert(p.contains(i));
            let j = choose|j: int| 0 <= j < p.len() && p[j] == i;
            assert(items[p[j]] == Ok::<X, E>(kept(items)[j]));
            assert(out[j] == t);
        }
    }
    assert forall|j: int| 0 <= j < kept(items).len() implies exists|i: int|
        0 <= i < items.len() && #[trigger] items[i] == Ok::<X, E>(#[trigger] kept(items)[j]) by {
        assert(items[p[j]] == Ok::<X, E>(kept(items)[j]));
    }
}

/// Reads the second field of a key as an identifier.
fn read_second<T: Identifier>(key: &[u8], prefix: &[u8], Ghost(first): Ghost<Seq<char>>) -> (r:
    Result<T, Failure>)
    requires
        prefix@ == first_field(first),
        begins_with(key@, prefix@),
    ensures
        match r {
            Ok(id) => key@ == pair_key(first, id@) && T::accepted(id@),
            Err(_) => forall|t: Seq<char>| T::accepted(t) ==> key@ != #[trigger] pair_key(first, t),
        },
{
    match second_field(key, prefix) {
        Some(text) => {
            let r = T::parse(text);
            assert forall|t: Seq<char>| r is Err && T::accepted(t) implies key@ != #[trigger] pair_key(
                first,
                t,
            ) by {
                pair_key_is_injective(first, t, first, text@);
            }
            r
        },
        None => {
            assert forall|t: Seq<char>| key@ != #[trigger] pair_key(first, t) by {
                assert(key@ != first_field(first) + encode_utf8(t));
            }
            Err(Failure::NotText)
        },
    }
}

/// Lists the identifiers that a record is stored under, `first` being the other
/// field of its key. A key that cannot be read is passed over.
pub fn list_seconds<T: Identifier, V>(table: &OrdMap<V>, first: &str) -> (r: Vec<T>)
    ensures
        is_listing(texts(r@), |t: Seq<char>| recorded::<T, V>(table@, first@, t)),
{
    let prefix: Vec<u8> = first_field_bytes(first);
    let (start, end): (usize, usize) = table.range(prefix.as_slice());
    let ghost keys = table.keys();
    let mut items: Vec<Result<T, Failure>> = Vec::new();
    let mut i: usize = start;
    while i < end
        invariant
            start <= i <= end <= keys.len(),
            keys == table.keys(),
            prefix@ == first_field(first@),
            forall|j: int|
                0 <= j < keys.len() ==> (start <= j < end <==> begins_with(
                    #[trigger] keys[j],
                    prefix@,
                )),
            items@.len() == i - start,
            forall|j: int|
                0 <= j < items@.len() ==> match #[trigger] items@[j] {
                    Ok(id) => keys[start + j] == pair_key(first@, id@) && T::accepted(id@),
                    Err(_) => forall|t: Seq<char>|
                        T::accepted(t) ==> keys[start + j] != #[trigger] pair_key(first@, t),
                },
        decreases end - i,
    {
        assert(begins_with(keys[i as int], prefix@));
        let (key, _value) = table.entry(i);
        items.push(read_second::<T>(key.as_slice(), prefix.as_slice(), Ghost(first@)));
        i = i + 1;
    }
    let ghost read = items@;
    let r: Vec<T> = ignore_err(items);
    proof {
        let range = keys.subrange(start as int, end as int);
        let text = |id: T| id@;
        let accepted = |t: Seq<char>| T::accepted(t);
        readable_keys_are_a_listing(range, first@, read, text, accepted);
        assert(texts(r@) =~= kept(read).map_values(text));
        range_holds_the_keys(keys, range, start as int, end as int, table@, first@);
    }
    r
}

/// The range of keys that begin with a first field holds all keys with that field.
proof fn range_holds_the_keys<V>(
    keys: Seq<Seq<u8>>,
    range: Seq<Seq<u8>>,
    start: int,
    end: int,
    table: Map<Seq<u8>, V>,
    first: Seq<char>,
)
    requires
        0 <= start <= end <= keys.len(),
        range == keys.subrange(start, end),
        forall|j: int|
            0 <= j < keys.len() ==> (start <= j < end <==> begins_with(
                #[trigger] keys[j],
                first_field(first),
            )),
        forall|key: Seq<u8>| keys.contains(key) <==> table.contains_key(key),
    ensures
        forall|t: Seq<char>|
            range.contains(#[trigger] pair_key(first, t)) <==> table.contains_key(
                pair_key(first, t),
            ),
{
    assert forall|t: Seq<char>|
        range.contains(#[trigger] pair_key(first, t)) <==> table.contains_key(
            pair_key(first, t),
        ) by {
        let key = pair_key(first, t);
        first_field_is_exact(first, t, first);
        if range.contains(key) {
            let j = choose|j: int| 0 <= j < range.len() && range[j] == key;
            assert(keys[start + j] == key);
            assert(keys.contains(key));
        }
        if table.contains_key(key) {
            assert(keys.contains(key));
            let j = choose|j: int| 0 <= j < keys.len() && keys[j] == key;
            assert(range[j - start] == key);
        }
    }
}

/// Lists the identifiers that a record is stored under, `first` being the other
/// field of its key, each with what is stored. A key that cannot be read is passed
/// over.
pub fn list_rows<'a, T: Identifier, V>(table: &'a OrdMap<V>, first: &str) -> (r: Vec<(T, &'a V)>)
    ensures
        is_listing(first_texts(r@), |t: Seq<char>| recorded::<T, V>(table@, first@, t)),
        forall|i: int|
            0 <= i < r@.len() ==> *(#[trigger] r@[i]).1 == table@[pair_key(first@, r@[i].0@)],
        rows_are_stored(table@, first@, r@),
{
    let prefix: Vec<u8> = first_field_bytes(first);
    let (start, end): (usize, usize) = table.range(prefix.as_slice());
    let ghost keys = table.keys();
    let mut items: Vec<Result<(T, &'a V), Failure>> = Vec::new();
    let mut i: usize = start;
    while i < end
        invariant
            start <= i <= end <= keys.len(),
            keys == table.keys(),
            prefix@ == first_field(first@),
            forall|j: int|
                0 <= j < keys.len() ==> (start <= j < end <==> begins_with(
                    #[trigger] keys[j],
                    prefix@,
                )),
            items@.len() == i - start,
            forall|j: int|
                0 <= j < items@.len() ==> match #[trigger] items@[j] {
                    Ok(row) => keys[start + j] == pair_key(first@, row.0@) && T::accepted(row.0@)
                        && *row.1 == table@[pair_key(first@, row.0@)],
                    Err(_) => forall|t: Seq<char>|
                        T::accepted(t) ==> keys[start + j] != #[trigger] pair_key(first@, t),
                },
        decreases end - i,
    {
        assert(begins_with(keys[i as int], prefix@));
        let (key, value) = table.entry(i);
        match read_second::<T>(key.as_slice(), prefix.as_slice(), Ghost(first@)) {
            Ok(id) => items.push(Ok((id, value))),
            Err(e) => items.push(Err(e)),
        }
        i = i + 1;
    }
    let ghost read = items@;
    let r: Vec<(T, &'a V)> = ignore_err(items);
    proof {
        let range = keys.subrange(start as int, end as int);
        let text = |row: (T, &'a V)| row.0@;
        let accepted = |t: Seq<char>| T::accepted(t);
        readable_keys_are_a_listing(range, first@, read, text, accepted);
        assert(first_texts(r@) =~= kept(read).map_values(text));
        range_holds_the_keys(keys, range, start as int, end as int, table@, first@);
        let p = kept_positions(read);
        assert forall|i: int| 0 <= i < r@.len() implies *(#[trigger] r@[i]).1 == table@[pair_key(
            first@,
            r@[i].0@,
        )] by {
            assert(read[p[i]] == Ok::<(T, &'a V), Failure>(r@[i]));
        }
    }
    r
}

/// The keys whose second field is `second`, with their two fields exchanged.
fn turned<V>(table: &OrdMap<V>, second: &str) -> (r: OrdMap<()>)
    ensures
        forall|first: Seq<char>|
            r@.contains_key(#[trigger] pair_key(second@, first)) <==> table@.contains_key(
                pair_key(first, second@),
            ),
{
    let no_prefix: Vec<u8> = Vec::new();
    let (start, end): (usize, usize) = table.range(no_prefix.as_slice());
    let ghost keys = table.keys();
    assert(start == 0 && end == keys.len()) by {
        if keys.len() > 0 {
            assert(keys[0].take(0) =~= no_prefix@);
            assert(keys.last().take(0) =~= no_prefix@);
            assert(begins_with(keys[0], no_prefix@));
            assert(begins_with(keys[keys.len() - 1], no_prefix@));
        }
    }
    let mut r: OrdMap<()> = OrdMap::new();
    let mut i: usize = start;
    while i < end
        invariant
            start <= i <= end,
            end == keys.len(),
            keys == table.keys(),
            forall|first: Seq<char>|
                r@.contains_key(#[trigger] pair_key(second@, first)) <==> keys.take(
                    i as int,
                ).contains(pair_key(first, second@)),
        decreases end - i,
    {
        let ghost key_read = keys[i as int];
        let (key, _value) = table.entry(i);
        let field: Option<&str> = first_field_of(key.as_slice(), second);
        if let Some(first) = field {
            r.insert(pair_key_bytes(second, first), ());
        }
        proof {
            assert(keys.take(i + 1) =~= keys.take(i as int).push(key_read));
            assert forall|first: Seq<char>|
                r@.contains_key(#[trigger] pair_key(second@, first)) <==> keys.take(
                    i + 1,
                ).contains(pair_key(first, second@)) by {
                let sought = pair_key(first, second@);
                assert(keys.take(i + 1).contains(sought) <==> keys.take(i as int).contains(sought)
                    || sought == key_read) by {
                    let short = keys.take(i as int);
                    let long = keys.take(i + 1);
                    if short.contains(sought) {
                        let j = choose|j: int| 0 <= j < short.len() && short[j] == sought;
                        assert(long[j] == sought);
                    }
                    if sought == key_read {
                        assert(long[i as int] == sought);
                    }
                }
                match field {
                    Some(found) => {
                        pair_key_is_injective(first, second@, found@, second@);
                        pair_key_is_injective(second@, first, second@, found@);
                    },
                    None => {},
                }
            }
        }
        i = i + 1;
    }
    proof {
        assert(keys.take(end as int) =~= keys);
        assert forall|first: Seq<char>|
            r@.contains_key(#[trigger] pair_key(second@, first)) <==> table@.contains_key(
                pair_key(first, second@),
            ) by {
            assert(keys.contains(pair_key(first, second@)) <==> table@.contains_key(
                pair_key(first, second@),
            ));
        }
    }
    r
}

/// Lists the identifiers that a record is stored under, `second` being the other
/// field of its key. The keys are not in the order of the list: an identifier that
/// another one begins with has the later key.
pub fn list_firsts<T: Identifier, V>(table: &OrdMap<V>, second: &str) -> (r: Vec<T>)
    ensures
        is_listing(
            texts(r@),
            |t: Seq<char>| T::accepted(t) && table@.contains_key(pair_key(t, second@)),
        ),
{
    let keys: OrdMap<()> = turned(table, second);
    let r: Vec<T> = list_seconds::<T, ()>(&keys, second);
    assert forall|t: Seq<char>| #[trigger] texts(r@).contains(t) <==> T::accepted(t)
        && table@.contains_key(pair_key(t, second@)) by {
        assert(texts(r@).contains(t) <==> recorded::<T, ()>(keys@, second@, t));
    }
    r
}

} // verus!
