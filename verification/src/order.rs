//! Stable ordering: the positions of a list, arranged by key and, among equal keys, by where
//! they stood.
use vstd::prelude::*;

use crate::text::{chars_of, lex_less, lex_lt, lex_lt_asymmetric, lex_lt_irreflexive, lex_lt_total, lex_lt_transitive, texts_of};

verus! {

broadcast use vstd::seq_lib::group_seq_properties;

/// Whether position `a` comes before position `b` when ordered stably by key.
pub open spec fn precedes(keys: Seq<i64>, a: int, b: int) -> bool {
    keys[a] < keys[b] || (keys[a] == keys[b] && a < b)
}

/// Whether `order` lists positions in stable key order.
pub open spec fn arranged(keys: Seq<i64>, order: Seq<usize>) -> bool {
    forall|i: int, j: int|
        0 <= i < j < order.len() ==> precedes(keys, order[i] as int, #[trigger] order[j] as int)
            && #[trigger] order[i] != order[j]
}

/// Whether `order` is the stable ordering of all the positions of `keys`.
pub open spec fn is_stable_order(keys: Seq<i64>, order: Seq<usize>) -> bool {
    &&& order.len() == keys.len()
    &&& forall|i: int| 0 <= i < order.len() ==> (#[trigger] order[i]) < keys.len()
    &&& forall|p: usize| p < keys.len() ==> #[trigger] order.contains(p)
    &&& arranged(keys, order)
}

proof fn lemma_inserted(keys: Seq<i64>, order: Seq<usize>, at: int)
    requires
        0 < keys.len() <= usize::MAX,
        is_stable_order(keys.drop_last(), order),
        0 <= at <= order.len(),
        forall|i: int| 0 <= i < at ==> keys[(#[trigger] order[i]) as int] <= keys.last(),
        forall|i: int| at <= i < order.len() ==> keys[(#[trigger] order[i]) as int] > keys.last(),
    ensures
        is_stable_order(keys, order.insert(at, (keys.len() - 1) as usize)),
{
    let new = (keys.len() - 1) as usize;
    let all = order.insert(at, new);
    assert forall|i: int| 0 <= i < all.len() implies (#[trigger] all[i]) < keys.len() by {
        if i < at {
            assert(all[i] == order[i]);
        } else if i > at {
            assert(all[i] == order[i - 1]);
        }
    }
    assert forall|p: usize| p < keys.len() implies #[trigger] all.contains(p) by {
        if p == new {
            assert(all[at] == new);
        } else {
            assert(order.contains(p));
            let k = order.index_of(p);
            assert(all[if k < at {
                k
            } else {
                k + 1
            }] == p);
        }
    }
    assert forall|i: int, j: int| 0 <= i < j < all.len() implies precedes(
        keys,
        (#[trigger] all[i]) as int,
        (#[trigger] all[j]) as int,
    ) by {
        let a = if i < at {
            i
        } else {
            i - 1
        };
        let b = if j < at {
            j
        } else {
            j - 1
        };
        if i != at {
            assert(all[i] == order[a]);
        }
        if j != at {
            assert(all[j] == order[b]);
        }
        if i != at && j != at {
            assert(precedes(keys.drop_last(), order[a] as int, order[b] as int));
        }
    }
}

/// There is a stable order of any keys.
pub proof fn a_stable_order_exists(keys: Seq<i64>)
    requires
        keys.len() <= usize::MAX,
    ensures
        exists|order: Seq<usize>| is_stable_order(keys, order),
    decreases keys.len(),
{
    if keys.len() == 0 {
        assert(is_stable_order(keys, Seq::<usize>::empty()));
    } else {
        let front = keys.drop_last();
        a_stable_order_exists(front);
        let order = choose|order: Seq<usize>| is_stable_order(front, order);
        let at = lemma_where_it_goes(keys, order, order.len() as int);
        lemma_inserted(keys, order, at);
    }
}

proof fn lemma_where_it_goes(keys: Seq<i64>, order: Seq<usize>, n: int) -> (at: int)
    requires
        keys.len() > 0,
        is_stable_order(keys.drop_last(), order),
        0 <= n <= order.len(),
        forall|i: int| n <= i < order.len() ==> keys[(#[trigger] order[i]) as int] > keys.last(),
    ensures
        0 <= at <= order.len(),
        forall|i: int| 0 <= i < at ==> keys[(#[trigger] order[i]) as int] <= keys.last(),
        forall|i: int| at <= i < order.len() ==> keys[(#[trigger] order[i]) as int] > keys.last(),
    decreases n,
{
    if n == 0 || keys[order[n - 1] as int] <= keys.last() {
        assert forall|i: int| 0 <= i < n implies keys[(#[trigger] order[i]) as int]
            <= keys.last() by {
            if i < n - 1 {
                assert(precedes(keys.drop_last(), order[i] as int, order[n - 1] as int));
            }
        }
        n
    } else {
        lemma_where_it_goes(keys, order, n - 1)
    }
}

/// `items` picked in the given order.
pub open spec fn picked<T>(items: Seq<T>, order: Seq<usize>) -> Seq<T> {
    order.map_values(|p: usize| items[p as int])
}

fn merge(keys: &Vec<i64>, left: &Vec<usize>, right: &Vec<usize>) -> (out: Vec<usize>)
    requires
        left@.len() + right@.len() <= usize::MAX,
        arranged(keys@, left@),
        arranged(keys@, right@),
        forall|i: int| 0 <= i < left@.len() ==> (#[trigger] left@[i]) < keys@.len(),
        forall|i: int| 0 <= i < right@.len() ==> (#[trigger] right@[i]) < keys@.len(),
        forall|i: int, j: int|
            0 <= i < left@.len() && 0 <= j < right@.len() ==> (#[trigger] left@[i]) < (
            #[trigger] right@[j]),
    ensures
        out@.len() == left@.len() + right@.len(),
        arranged(keys@, out@),
        forall|k: int|
            0 <= k < out@.len() ==> left@.contains(#[trigger] out@[k]) || right@.contains(out@[k]),
        forall|p: usize| left@.contains(p) || right@.contains(p) ==> #[trigger] out@.contains(p),
{
    let mut out: Vec<usize> = Vec::new();
    let mut i: usize = 0;
    let mut j: usize = 0;
    while i < left.len() || j < right.len()
        invariant
            i <= left@.len(),
            j <= right@.len(),
            left@.len() + right@.len() <= usize::MAX,
            out@.len() == i + j,
            arranged(keys@, left@),
            arranged(keys@, right@),
            arranged(keys@, out@),
            forall|i: int| 0 <= i < left@.len() ==> (#[trigger] left@[i]) < keys@.len(),
            forall|i: int| 0 <= i < right@.len() ==> (#[trigger] right@[i]) < keys@.len(),
            forall|a: int, b: int|
                0 <= a < left@.len() && 0 <= b < right@.len() ==> (#[trigger] left@[a]) < (
                #[trigger] right@[b]),
            forall|k: int, a: int|
                0 <= k < out@.len() && i <= a < left@.len() ==> precedes(
                    keys@,
                    #[trigger] out@[k] as int,
                    #[trigger] left@[a] as int,
                ) && out@[k] != left@[a],
            forall|k: int, b: int|
                0 <= k < out@.len() && j <= b < right@.len() ==> precedes(
                    keys@,
                    #[trigger] out@[k] as int,
                    #[trigger] right@[b] as int,
                ) && out@[k] != right@[b],
            forall|k: int|
                0 <= k < out@.len() ==> left@.contains(#[trigger] out@[k]) || right@.contains(
                    out@[k],
                ),
            forall|a: int| 0 <= a < i ==> out@.contains(#[trigger] left@[a]),
            forall|b: int| 0 <= b < j ==> out@.contains(#[trigger] right@[b]),
        decreases left@.len() - i + right@.len() - j,
    {
        let take_left = if i >= left.len() {
            false
        } else if j >= right.len() {
            true
        } else {
            keys[left[i]] <= keys[right[j]]
        };
        let ghost before = out@;
        if take_left {
            let p: usize = left[i];
            out.push(p);
            proof {
                assert(left@.contains(p));
                assert(out@[before.len() as int] == p);
                assert forall|b: int| j <= b < right@.len() implies precedes(
                    keys@,
                    p as int,
                    #[trigger] right@[b] as int,
                ) && p != right@[b] by {
                    if b > j {
                        assert(precedes(keys@, right@[j as int] as int, right@[b] as int));
                    }
                }
                assert forall|q: usize| before.contains(q) implies out@.contains(q) by {
                    let k = before.index_of(q);
                    assert(out@[k] == q);
                }
            }
            i += 1;
        } else {
            let p: usize = right[j];
            out.push(p);
            proof {
                assert(right@.contains(p));
                assert(out@[before.len() as int] == p);
                assert forall|a: int| i <= a < left@.len() implies precedes(
                    keys@,
                    p as int,
                    #[trigger] left@[a] as int,
                ) && p != left@[a] by {
                    if a > i {
                        assert(precedes(keys@, left@[i as int] as int, left@[a] as int));
                    }
                }
                assert forall|q: usize| before.contains(q) implies out@.contains(q) by {
                    let k = before.index_of(q);
                    assert(out@[k] == q);
                }
            }
            j += 1;
        }
    }
    proof {
        assert forall|p: usize| left@.contains(p) || right@.contains(p) implies #[trigger] out@.contains(p) by {
            if left@.contains(p) {
                let a = left@.index_of(p);
                assert(left@[a] == p);
            } else {
                let b = right@.index_of(p);
                assert(right@[b] == p);
            }
        }
    }
    out
}

fn order_span(keys: &Vec<i64>, from: usize, to: usize) -> (out: Vec<usize>)
    requires
        from <= to <= keys@.len(),
    ensures
        out@.len() == to - from,
        arranged(keys@, out@),
        forall|k: int| 0 <= k < out@.len() ==> from <= (#[trigger] out@[k]) < to,
        forall|p: usize| from <= p < to ==> #[trigger] out@.contains(p),
    decreases to - from,
{
    if to - from == 0 {
        return Vec::new();
    }
    if to - from == 1 {
        let mut out: Vec<usize> = Vec::new();
        out.push(from);
        assert(out@[0] == from);
        return out;
    }
    let mid: usize = from + (to - from) / 2;
    let left = order_span(keys, from, mid);
    let right = order_span(keys, mid, to);
    let out = merge(keys, &left, &right);
    proof {
        assert forall|k: int| 0 <= k < out@.len() implies from <= (#[trigger] out@[k]) < to by {
            if left@.contains(out@[k]) {
                let a = left@.index_of(out@[k]);
                assert(left@[a] == out@[k]);
            } else {
                let b = right@.index_of(out@[k]);
                assert(right@[b] == out@[k]);
            }
        }
        assert forall|p: usize| from <= p < to implies #[trigger] out@.contains(p) by {
            if p < mid {
                assert(left@.contains(p));
            } else {
                assert(right@.contains(p));
            }
        }
    }
    out
}

/// The stable ordering of a list's positions by their keys.
pub fn stable_order(keys: &Vec<i64>) -> (order: Vec<usize>)
    ensures
        is_stable_order(keys@, order@),
{
    order_span(keys, 0, keys.len())
}

/// There is one stable ordering of a list.
pub proof fn stable_order_is_unique(keys: Seq<i64>, a: Seq<usize>, b: Seq<usize>)
    requires
        is_stable_order(keys, a),
        is_stable_order(keys, b),
    ensures
        a == b,
{
    assert forall|n: int| 0 <= n <= a.len() implies a.take(n) == b.take(n) by {
        lemma_same_front(keys, a, b, n);
    }
    assert(a.take(a.len() as int) == a);
    assert(b.take(b.len() as int) == b);
}

proof fn lemma_same_front(keys: Seq<i64>, a: Seq<usize>, b: Seq<usize>, n: int)
    requires
        is_stable_order(keys, a),
        is_stable_order(keys, b),
        0 <= n <= a.len(),
    ensures
        a.take(n) == b.take(n),
    decreases n,
{
    if n > 0 {
        lemma_same_front(keys, a, b, n - 1);
        let x = a[n - 1];
        let y = b[n - 1];
        // Where each list's n-th position stands in the other: not before, so at or after.
        assert(b.contains(x));
        let ix = b.index_of(x);
        assert(b[ix] == x);
        assert(a.contains(y));
        let iy = a.index_of(y);
        assert(a[iy] == y);
        if ix < n - 1 {
            assert(a.take(n - 1)[ix] == b.take(n - 1)[ix]);
            assert(a[ix] == x);
            assert(a[ix] != a[n - 1]);
        }
        if iy < n - 1 {
            assert(a.take(n - 1)[iy] == b.take(n - 1)[iy]);
            assert(b[iy] == y);
            assert(b[iy] != b[n - 1]);
        }
        if ix > n - 1 && iy > n - 1 {
            assert(precedes(keys, b[n - 1] as int, b[ix] as int));
            assert(precedes(keys, a[n - 1] as int, a[iy] as int));
        }
        assert(x == y);
        assert(a.take(n) =~= a.take(n - 1).push(x));
        assert(b.take(n) =~= b.take(n - 1).push(y));
    }
}

/// A list already in key order stays as it is.
pub proof fn stable_order_keeps_a_sorted_list(keys: Seq<i64>, order: Seq<usize>)
    requires
        is_stable_order(keys, order),
        keys.len() <= usize::MAX,
        forall|i: int, j: int| 0 <= i <= j < keys.len() ==> keys[i] <= keys[j],
    ensures
        forall|i: int| 0 <= i < order.len() ==> #[trigger] order[i] == i,
{
    let id = Seq::new(keys.len(), |i: int| i as usize);
    assert forall|p: usize| p < keys.len() implies #[trigger] id.contains(p) by {
        assert(id[p as int] == p);
    }
    stable_order_is_unique(keys, order, id);
}

/// Whether position `a` comes before position `b` when ordered stably by text.
pub open spec fn text_precedes(texts: Seq<Seq<char>>, a: int, b: int) -> bool {
    lex_lt(texts[a], texts[b]) || (texts[a] == texts[b] && a < b)
}

/// Whether `order` lists positions in stable text order.
pub open spec fn text_arranged(texts: Seq<Seq<char>>, order: Seq<usize>) -> bool {
    forall|i: int, j: int|
        0 <= i < j < order.len() ==> text_precedes(
            texts,
            #[trigger] order[i] as int,
            #[trigger] order[j] as int,
        )
}

/// Whether `order` is the stable ordering of all the positions of `texts`.
pub open spec fn is_text_order(texts: Seq<Seq<char>>, order: Seq<usize>) -> bool {
    &&& order.len() == texts.len()
    &&& forall|i: int| 0 <= i < order.len() ==> (#[trigger] order[i]) < texts.len()
    &&& forall|p: usize| p < texts.len() ==> #[trigger] order.contains(p)
    &&& text_arranged(texts, order)
}

/// The stable ordering of a list's positions by their texts.
pub fn text_order(names: &Vec<String>) -> (order: Vec<usize>)
    ensures
        is_text_order(texts_of(names@), order@),
{
    let mut chars: Vec<Vec<char>> = Vec::new();
    let mut i: usize = 0;
    while i < names.len()
        invariant
            i <= names@.len(),
            chars@.len() == i,
            forall|k: int| 0 <= k < i ==> (#[trigger] chars@[k])@ == names@[k]@,
        decreases names@.len() - i,
    {
        chars.push(chars_of(names[i].as_str()));
        i += 1;
    }
    let ghost texts = texts_of(names@);
    let mut order: Vec<usize> = Vec::new();
    let mut p: usize = 0;
    while p < names.len()
        invariant
            p <= names@.len() == chars@.len() == texts.len(),
            texts == texts_of(names@),
            forall|k: int| 0 <= k < chars@.len() ==> (#[trigger] chars@[k])@ == texts[k],
            order@.len() == p,
            forall|k: int| 0 <= k < p ==> (#[trigger] order@[k]) < p,
            forall|q: usize| q < p ==> #[trigger] order@.contains(q),
            text_arranged(texts, order@),
        decreases names@.len() - p,
    {
        // The place behind everything that is not after the new text: scanned from the end,
        // where a list that is already in order has it.
        let mut at: usize = p;
        while at > 0 && lex_less(&chars[p], &chars[order[at - 1]])
            invariant
                at <= p < names@.len() == chars@.len() == texts.len(),
                forall|k: int| 0 <= k < chars@.len() ==> (#[trigger] chars@[k])@ == texts[k],
                order@.len() == p,
                forall|k: int| 0 <= k < p ==> (#[trigger] order@[k]) < p,
                forall|k: int|
                    at <= k < p ==> lex_lt(texts[p as int], texts[#[trigger] order@[k] as int]),
            decreases at,
        {
            at -= 1;
        }
        let ghost before = order@;
        order.insert(at, p);
        proof {
            assert(order@[at as int] == p);
            assert forall|k: int| 0 <= k < at implies text_precedes(
                texts,
                #[trigger] before[k] as int,
                p as int,
            ) by {
                let last = before[at - 1] as int;
                assert(!lex_lt(texts[p as int], texts[last]));
                lex_lt_total(texts[last], texts[p as int]);
                if k < at - 1 {
                    assert(text_precedes(texts, before[k] as int, last));
                    if lex_lt(texts[before[k] as int], texts[last]) && lex_lt(
                        texts[last],
                        texts[p as int],
                    ) {
                        lex_lt_transitive(
                            texts[before[k] as int],
                            texts[last],
                            texts[p as int],
                        );
                    }
                }
            }
            assert forall|i: int, j: int| 0 <= i < j < order@.len() implies text_precedes(
                texts,
                #[trigger] order@[i] as int,
                #[trigger] order@[j] as int,
            ) by {
                if j < at {
                    assert(order@[i] == before[i] && order@[j] == before[j]);
                } else if j == at {
                    assert(order@[i] == before[i]);
                } else if i < at {
                    assert(order@[i] == before[i] && order@[j] == before[j - 1]);
                } else if i == at {
                    assert(order@[j] == before[j - 1]);
                } else {
                    assert(order@[i] == before[i - 1] && order@[j] == before[j - 1]);
                }
            }
            assert forall|q: usize| q < p + 1 implies #[trigger] order@.contains(q) by {
                if q < p {
                    assert(before.contains(q));
                    let k = before.index_of(q);
                    assert(before[k] == q);
                    assert(order@[if k < at { k } else { k + 1 }] == q);
                }
            }
            assert forall|k: int| 0 <= k < order@.len() implies (#[trigger] order@[k]) < p + 1 by {
                if k < at {
                    assert(order@[k] == before[k]);
                } else if k > at {
                    assert(order@[k] == before[k - 1]);
                }
            }
        }
        p += 1;
    }
    order
}

/// There is one stable ordering of a list by text.
pub proof fn text_order_is_unique(texts: Seq<Seq<char>>, a: Seq<usize>, b: Seq<usize>)
    requires
        is_text_order(texts, a),
        is_text_order(texts, b),
    ensures
        a == b,
{
    assert forall|n: int| 0 <= n <= a.len() implies a.take(n) == b.take(n) by {
        lemma_same_text_front(texts, a, b, n);
    }
    assert(a.take(a.len() as int) == a);
    assert(b.take(b.len() as int) == b);
}

proof fn lemma_text_precedes_one_way(texts: Seq<Seq<char>>, a: int, b: int)
    requires
        text_precedes(texts, a, b),
    ensures
        !text_precedes(texts, b, a),
        a != b,
{
    lex_lt_irreflexive(texts[a]);
    if lex_lt(texts[a], texts[b]) {
        lex_lt_asymmetric(texts[a], texts[b]);
    }
}

proof fn lemma_same_text_front(texts: Seq<Seq<char>>, a: Seq<usize>, b: Seq<usize>, n: int)
    requires
        is_text_order(texts, a),
        is_text_order(texts, b),
        0 <= n <= a.len(),
    ensures
        a.take(n) == b.take(n),
    decreases n,
{
    if n > 0 {
        lemma_same_text_front(texts, a, b, n - 1);
        let x = a[n - 1];
        let y = b[n - 1];
        assert(b.contains(x));
        let ix = b.index_of(x);
        assert(b[ix] == x);
        assert(a.contains(y));
        let iy = a.index_of(y);
        assert(a[iy] == y);
        if ix < n - 1 {
            assert(a.take(n - 1)[ix] == b.take(n - 1)[ix]);
            assert(a[ix] == x);
            lemma_text_precedes_one_way(texts, a[ix] as int, a[n - 1] as int);
        }
        if iy < n - 1 {
            assert(a.take(n - 1)[iy] == b.take(n - 1)[iy]);
            assert(b[iy] == y);
            lemma_text_precedes_one_way(texts, b[iy] as int, b[n - 1] as int);
        }
        if ix > n - 1 && iy > n - 1 {
            lemma_text_precedes_one_way(texts, b[n - 1] as int, b[ix] as int);
            lemma_text_precedes_one_way(texts, a[n - 1] as int, a[iy] as int);
        }
        assert(x == y);
        assert(a.take(n) =~= a.take(n - 1).push(x));
        assert(b.take(n) =~= b.take(n - 1).push(y));
    }
}

} // verus!
