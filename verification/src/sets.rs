//! Set operations on ordered lists of rooms.

use crate::ids::RoomId;
use crate::keys::utf8_tells_texts_apart;
use crate::listing::{in_text_order, is_listing, text_before, texts};
use crate::order::{before_is_one_way, before_is_transitive, place, Place};
use vstd::prelude::*;
use vstd::utf8::encode_utf8;

verus! {

/// The rooms that two ordered lists have in common.
pub fn intersection_sorted(a: &Vec<RoomId>, b: &Vec<RoomId>) -> (r: Vec<RoomId>)
    requires
        in_text_order(texts(a@)),
        in_text_order(texts(b@)),
    ensures
        is_listing(
            texts(r@),
            |room: Seq<char>| texts(a@).contains(room) && texts(b@).contains(room),
        ),
{
    let ghost at = texts(a@);
    let ghost bt = texts(b@);
    let mut r: Vec<RoomId> = Vec::new();
    let mut i: usize = 0;
    let mut j: usize = 0;
    while i < a.len() && j < b.len()
        invariant
            i <= a@.len(),
            j <= b@.len(),
            at == texts(a@),
            bt == texts(b@),
            in_text_order(at),
            in_text_order(bt),
            forall|x: int, y: int|
                0 <= x < i && j <= y < bt.len() ==> text_before(#[trigger] at[x], #[trigger] bt[y]),
            forall|x: int, y: int|
                i <= x < at.len() && 0 <= y < j ==> text_before(#[trigger] bt[y], #[trigger] at[x]),
            in_text_order(texts(r@)),
            forall|k: int, x: int|
                0 <= k < r@.len() && i <= x < at.len() ==> text_before(
                    #[trigger] texts(r@)[k],
                    #[trigger] at[x],
                ),
            forall|t: Seq<char>| #[trigger] texts(r@).contains(t) ==> at.contains(t) && bt.contains(t),
            forall|x: int, y: int|
                0 <= x < i && 0 <= y < j && #[trigger] at[x] == #[trigger] bt[y] ==> texts(
                    r@,
                ).contains(at[x]),
        decreases a@.len() - i + b@.len() - j,
    {
        let ghost x0 = at[i as int];
        let ghost y0 = bt[j as int];
        assert(x0 == a@[i as int]@ && y0 == b@[j as int]@);
        match place(a[i].as_str().as_bytes(), b[j].as_str().as_bytes()) {
            Place::Before => {
                assert forall|y: int| j <= y < bt.len() implies text_before(x0, #[trigger] bt[y]) by {
                    if y > j {
                        assert(text_before(bt[j as int], bt[y]));
                        before_is_transitive(encode_utf8(x0), encode_utf8(y0), encode_utf8(bt[y]));
                    }
                }
                proof {
                    before_is_one_way(encode_utf8(x0), encode_utf8(x0));
                }
                i = i + 1;
            },
            Place::After => {
                assert forall|x: int| i <= x < at.len() implies text_before(y0, #[trigger] at[x]) by {
                    if x > i {
                        assert(text_before(at[i as int], at[x]));
                        before_is_transitive(encode_utf8(y0), encode_utf8(x0), encode_utf8(at[x]));
                    }
                }
                proof {
                    before_is_one_way(encode_utf8(y0), encode_utf8(y0));
                }
                j = j + 1;
            },
            Place::Same => {
                proof {
                    utf8_tells_texts_apart(x0, y0);
                }
                let ghost was = texts(r@);
                let room: RoomId = a[i].clone();
                r.push(room);
                proof {
                    let now = texts(r@);
                    assert(now =~= was.push(x0));
                    assert forall|t: Seq<char>| #[trigger] now.contains(t) implies at.contains(t)
                        && bt.contains(t) by {
                        let k = choose|k: int| 0 <= k < now.len() && now[k] == t;
                        if k < was.len() {
                            assert(was[k] == t);
                            assert(was.contains(t));
                        } else {
                            assert(at[i as int] == t && bt[j as int] == t);
                        }
                    }
                    assert forall|x: int, y: int|
                        0 <= x < i + 1 && 0 <= y < j + 1 && #[trigger] at[x]
                            == #[trigger] bt[y] implies now.contains(at[x]) by {
                        if x < i && y < j {
                            assert(was.contains(at[x]));
                            let k = choose|k: int| 0 <= k < was.len() && was[k] == at[x];
                            assert(now[k] == at[x]);
                        } else {
                            before_is_one_way(encode_utf8(at[x]), encode_utf8(at[x]));
                            assert(now[now.len() - 1] == x0);
                            if x < i {
                                assert(text_before(at[x], bt[j as int]));
                            } else if y < j {
                                assert(text_before(bt[y], at[i as int]));
                            }
                        }
                    }
                    assert forall|k: int, x: int|
                        0 <= k < now.len() && i + 1 <= x < at.len() implies text_before(
                        #[trigger] now[k],
                        #[trigger] at[x],
                    ) by {
                        if k < was.len() {
                            assert(now[k] == was[k]);
                        } else {
                            assert(text_before(at[i as int], at[x]));
                        }
                    }
                    assert forall|k: int, l: int| 0 <= k < l < now.len() implies text_before(
                        #[trigger] now[k],
                        #[trigger] now[l],
                    ) by {
                        assert(now[k] == was[k]);
                        if l < was.len() {
                            assert(now[l] == was[l]);
                        } else {
                            assert(text_before(was[k], at[i as int]));
                        }
                    }
                    assert forall|y: int| j + 1 <= y < bt.len() implies text_before(
                        x0,
                        #[trigger] bt[y],
                    ) by {
                        assert(text_before(bt[j as int], bt[y]));
                    }
                    assert forall|x: int| i + 1 <= x < at.len() implies text_before(
                        y0,
                        #[trigger] at[x],
                    ) by {
                        assert(text_before(at[i as int], at[x]));
                    }
                }
                i = i + 1;
                j = j + 1;
            },
        }
    }
    proof {
        let list = texts(r@);
        assert forall|t: Seq<char>| #[trigger] list.contains(t) <==> at.contains(t)
            && bt.contains(t) by {
            if at.contains(t) && bt.contains(t) {
                let x = choose|x: int| 0 <= x < at.len() && at[x] == t;
                let y = choose|y: int| 0 <= y < bt.len() && bt[y] == t;
                before_is_one_way(encode_utf8(t), encode_utf8(t));
                if x < i && y >= j {
                    assert(text_before(at[x], bt[y]));
                } else if x >= i && y < j {
                    assert(text_before(bt[y], at[x]));
                }
                assert(x < i && y < j);
                assert(at[x] == bt[y]);
            }
        }
    }
    r
}

} // verus!
