//! Byte strings in dictionary order.

use vstd::prelude::*;

verus! {

/// `a` and `b` agree on their first `i` bytes, and there `a` either ends or has
/// the smaller byte.
pub open spec fn parts_at(a: Seq<u8>, b: Seq<u8>, i: int) -> bool {
    &&& 0 <= i <= a.len()
    &&& i < b.len()
    &&& forall|j: int| 0 <= j < i ==> a[j] == b[j]
    &&& i < a.len() ==> a[i] < b[i]
}

/// `a` comes strictly before `b` in the dictionary order of byte strings.
pub open spec fn before(a: Seq<u8>, b: Seq<u8>) -> bool {
    exists|i: int| parts_at(a, b, i)
}

/// Where one byte string stands relative to another.
#[derive(Clone, Copy, PartialEq, Eq, Debug, Structural)]
pub enum Place {
    Before,
    Same,
    After,
}

/// No byte string comes before itself, and no two come before each other.
pub proof fn before_is_one_way(a: Seq<u8>, b: Seq<u8>)
    ensures
        !(before(a, b) && before(b, a)),
        !before(a, a),
{
    if before(a, b) && before(b, a) {
        let i = choose|i: int| parts_at(a, b, i);
        let j = choose|j: int| parts_at(b, a, j);
        assert(i < j || j < i || i == j);
        if i < j {
            assert(b[i] == a[i]);
        }
    }
    if before(a, a) {
        let i = choose|i: int| parts_at(a, a, i);
        assert(false);
    }
}

/// The order is transitive.
pub proof fn before_is_transitive(a: Seq<u8>, b: Seq<u8>, c: Seq<u8>)
    requires
        before(a, b),
        before(b, c),
    ensures
        before(a, c),
{
    let i = choose|i: int| parts_at(a, b, i);
    let j = choose|j: int| parts_at(b, c, j);
    let k = if i < j { i } else { j };
    assert forall|m: int| 0 <= m < k implies a[m] == c[m] by {
        assert(a[m] == b[m]);
        assert(b[m] == c[m]);
    }
    if i < j {
        assert(b[i] == c[i]);
    } else if j < i {
        assert(a[j] == b[j]);
    }
    assert(parts_at(a, c, k));
}

/// A shared beginning does not change the order of what follows it.
pub proof fn before_past_a_shared_beginning(p: Seq<u8>, a: Seq<u8>, b: Seq<u8>)
    ensures
        before(p + a, p + b) <==> before(a, b),
{
    if before(a, b) {
        let i = choose|i: int| parts_at(a, b, i);
        let k = p.len() + i;
        assert forall|m: int| 0 <= m < k implies (p + a)[m] == (p + b)[m] by {
            if m >= p.len() {
                assert(a[m - p.len()] == b[m - p.len()]);
            }
        }
        assert(parts_at(p + a, p + b, k));
    }
    if before(p + a, p + b) {
        let k = choose|k: int| parts_at(p + a, p + b, k);
        assert(k >= p.len()) by {
            if k < p.len() {
                assert((p + a)[k] == p[k]);
                assert((p + b)[k] == p[k]);
            }
        }
        let i = k - p.len();
        assert forall|m: int| 0 <= m < i implies a[m] == b[m] by {
            assert((p + a)[m + p.len()] == (p + b)[m + p.len()]);
            assert((p + a)[m + p.len()] == a[m]);
            assert((p + b)[m + p.len()] == b[m]);
        }
        if i < a.len() {
            assert((p + a)[k] == a[i]);
            assert((p + b)[k] == b[i]);
        }
        assert(parts_at(a, b, i));
    }
}

/// `key` begins with `p`.
pub open spec fn begins_with(key: Seq<u8>, p: Seq<u8>) -> bool {
    p.len() <= key.len() && key.take(p.len() as int) == p
}

/// A byte string never comes before its own beginning.
pub proof fn beginning_is_not_after(key: Seq<u8>, p: Seq<u8>)
    requires
        begins_with(key, p),
    ensures
        !before(key, p),
{
    if before(key, p) {
        let i = choose|i: int| parts_at(key, p, i);
        assert(key.take(p.len() as int)[i] == key[i]);
    }
}

/// Once the order has gone past every byte string that begins with `p`, it never
/// comes back to one.
pub proof fn beginnings_stay_together(p: Seq<u8>, k: Seq<u8>, l: Seq<u8>)
    requires
        !before(k, p),
        !begins_with(k, p),
        before(k, l),
    ensures
        !begins_with(l, p),
{
    place_is_decided(k, p);
    if k == p {
        assert(k.take(p.len() as int) =~= p);
    }
    let d = choose|d: int| parts_at(p, k, d);
    if d == p.len() {
        assert(k.take(p.len() as int) =~= p);
    }
    if begins_with(l, p) {
        let e = choose|e: int| parts_at(k, l, e);
        assert(l.take(p.len() as int) == p);
        assert forall|m: int| 0 <= m < p.len() implies l[m] == p[m] by {
            assert(l.take(p.len() as int)[m] == p[m]);
        }
        if e < d {
            assert(p[e] == k[e]);
            assert(l[e] == p[e]);
        } else if e == d {
            assert(l[d] == p[d]);
        } else {
            assert(k[d] == l[d]);
        }
        assert(false);
    }
}

/// Two byte strings are the same, or one of them comes before the other.
pub proof fn place_is_decided(a: Seq<u8>, b: Seq<u8>)
    ensures
        a == b || before(a, b) || before(b, a),
    decreases a.len(),
{
    if a.len() == 0 {
        if b.len() == 0 {
            assert(a =~= b);
        } else {
            assert(parts_at(a, b, 0));
        }
    } else if b.len() == 0 {
        assert(parts_at(b, a, 0));
    } else if a[0] < b[0] {
        assert(parts_at(a, b, 0));
    } else if b[0] < a[0] {
        assert(parts_at(b, a, 0));
    } else {
        let p = seq![a[0]];
        let x = a.drop_first();
        let y = b.drop_first();
        place_is_decided(x, y);
        assert(a =~= p + x);
        assert(b =~= p + y);
        before_past_a_shared_beginning(p, x, y);
        before_past_a_shared_beginning(p, y, x);
    }
}

/// Finds where `a` stands relative to `b`.
pub fn place(a: &[u8], b: &[u8]) -> (r: Place)
    ensures
        r == Place::Before <==> before(a@, b@),
        r == Place::Same <==> a@ == b@,
        r == Place::After <==> before(b@, a@),
{
    proof {
        before_is_one_way(a@, b@);
    }
    let mut i: usize = 0;
    while i < a.len() && i < b.len()
        invariant
            i <= a@.len(),
            i <= b@.len(),
            forall|j: int| 0 <= j < i ==> a@[j] == b@[j],
            !(before(a@, b@) && before(b@, a@)),
            !before(a@, a@),
        decreases a@.len() - i,
    {
        if a[i] < b[i] {
            assert(parts_at(a@, b@, i as int));
            return Place::Before;
        }
        if b[i] < a[i] {
            assert(parts_at(b@, a@, i as int));
            return Place::After;
        }
        i = i + 1;
    }
    if i < b.len() {
        assert(parts_at(a@, b@, i as int));
        Place::Before
    } else if i < a.len() {
        assert(parts_at(b@, a@, i as int));
        Place::After
    } else {
        assert(a@ =~= b@);
        Place::Same
    }
}

/// Tells whether `key` begins with `p`.
pub fn starts_with(key: &[u8], p: &[u8]) -> (r: bool)
    ensures
        r == begins_with(key@, p@),
{
    if key.len() < p.len() {
        return false;
    }
    let mut i: usize = 0;
    while i < p.len()
        invariant
            i <= p@.len() <= key@.len(),
            forall|j: int| 0 <= j < i ==> key@[j] == p@[j],
        decreases p@.len() - i,
    {
        if key[i] != p[i] {
            assert(key@.take(p@.len() as int)[i as int] == key@[i as int]);
            return false;
        }
        i = i + 1;
    }
    assert(key@.take(p@.len() as int) =~= p@);
    true
}

} // verus!
