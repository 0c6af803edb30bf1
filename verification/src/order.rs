//! The order of texts, and sorting by it.

use vstd::prelude::*;
use vstd::utf8;

verus! {

/// Whether one byte string comes no later than another in the lexicographic order.
pub open spec fn bytes_le(a: Seq<u8>, b: Seq<u8>) -> bool
    decreases a.len(),
{
    if a.len() == 0 {
        true
    } else if b.len() == 0 {
        false
    } else if a[0] != b[0] {
        a[0] < b[0]
    } else {
        bytes_le(a.skip(1), b.skip(1))
    }
}

/// Whether one text comes no later than another: texts are ordered by their UTF-8 bytes.
pub open spec fn text_le(a: Seq<char>, b: Seq<char>) -> bool {
    bytes_le(utf8::encode_utf8(a), utf8::encode_utf8(b))
}

/// Whether one text comes before another.
pub open spec fn text_lt(a: Seq<char>, b: Seq<char>) -> bool {
    text_le(a, b) && a != b
}

proof fn lemma_bytes_total(a: Seq<u8>, b: Seq<u8>)
    ensures
        bytes_le(a, b) || bytes_le(b, a),
        bytes_le(a, b) && bytes_le(b, a) ==> a == b,
        a == b ==> bytes_le(a, b),
    decreases a.len(),
{
    if a.len() == 0 || b.len() == 0 {
        if a.len() == b.len() {
            assert(a =~= b);
        }
    } else if a[0] == b[0] {
        lemma_bytes_total(a.skip(1), b.skip(1));
        if a.skip(1) == b.skip(1) {
            assert(a =~= seq![a[0]] + a.skip(1));
            assert(b =~= seq![b[0]] + b.skip(1));
        }
    }
}

proof fn lemma_bytes_transitive(a: Seq<u8>, b: Seq<u8>, c: Seq<u8>)
    requires
        bytes_le(a, b),
        bytes_le(b, c),
    ensures
        bytes_le(a, c),
    decreases a.len(),
{
    if a.len() > 0 && a[0] == b[0] && b[0] == c[0] {
        lemma_bytes_transitive(a.skip(1), b.skip(1), c.skip(1));
    }
}

/// The order of texts is total and antisymmetric.
pub proof fn law_text_order_is_total(a: Seq<char>, b: Seq<char>)
    ensures
        text_le(a, b) || text_le(b, a),
        text_le(a, b) && text_le(b, a) ==> a == b,
        text_le(a, a),
{
    lemma_bytes_total(utf8::encode_utf8(a), utf8::encode_utf8(b));
    lemma_bytes_total(utf8::encode_utf8(a), utf8::encode_utf8(a));
    utf8::encode_utf8_decode_utf8(a);
    utf8::encode_utf8_decode_utf8(b);
}

/// The order of texts is transitive.
pub proof fn law_text_order_is_transitive(a: Seq<char>, b: Seq<char>, c: Seq<char>)
    requires
        text_le(a, b),
        text_le(b, c),
    ensures
        text_le(a, c),
{
    lemma_bytes_transitive(utf8::encode_utf8(a), utf8::encode_utf8(b), utf8::encode_utf8(c));
}

/// Whether one text comes no later than another.
pub fn in_order(a: &str, b: &str) -> (r: bool)
    ensures
        r == text_le(a@, b@),
{
    let left = a.as_bytes();
    let right = b.as_bytes();
    let mut i: usize = 0;
    assert(left@.skip(0) =~= left@);
    assert(right@.skip(0) =~= right@);
    while i < left.len()
        invariant
            i <= left.len(),
            i <= right.len(),
            left@ == utf8::encode_utf8(a@),
            right@ == utf8::encode_utf8(b@),
            text_le(a@, b@) == bytes_le(left@.skip(i as int), right@.skip(i as int)),
        decreases left.len() - i,
    {
        if i == right.len() {
            return false;
        }
        let ghost rest = (left@.skip(i as int), right@.skip(i as int));
        assert(rest.0[0] == left@[i as int] && rest.1[0] == right@[i as int]);
        if left[i] != right[i] {
            return left[i] < right[i];
        }
        assert(rest.0.skip(1) =~= left@.skip(i + 1));
        assert(rest.1.skip(1) =~= right@.skip(i + 1));
        i = i + 1;
    }
    true
}

/// What is sorted by a text.
pub trait Keyed: Sized {
    /// The text to sort by.
    spec fn key(&self) -> Seq<char>;

    /// The text to sort by.
    fn key_text(&self) -> (r: &str)
        ensures
            r@ == self.key(),
    ;
}

impl Keyed for String {
    open spec fn key(&self) -> Seq<char> {
        self@
    }

    fn key_text(&self) -> (r: &str) {
        self.as_str()
    }
}

/// The items with a given key, in the order in which they stand.
pub open spec fn with_key<T: Keyed>(items: Seq<T>, key: Seq<char>) -> Seq<T> {
    items.filter(having(key))
}

/// The test for a given key.
pub open spec fn having<T: Keyed>(key: Seq<char>) -> spec_fn(T) -> bool {
    |item: T| item.key() == key
}

/// Whether the items stand in the order of their keys.
pub open spec fn is_sorted<T: Keyed>(items: Seq<T>) -> bool {
    forall|i: int, j: int|
        0 <= i < j < items.len() ==> text_le((#[trigger] items[i]).key(), (#[trigger] items[j]).key())
}

/// Whether `after` is `before` in the order of the keys, where items with the same key keep their
/// order.
pub open spec fn is_stable_sort<T: Keyed>(before: Seq<T>, after: Seq<T>) -> bool {
    &&& is_sorted(after)
    &&& after.to_multiset() == before.to_multiset()
    &&& forall|key: Seq<char>| #[trigger] with_key(after, key) == with_key(before, key)
}

/// Inserting an item before all those that do not come before it puts it first among those with
/// its key.
proof fn lemma_inserted<T: Keyed>(items: Seq<T>, at: int, item: T, key: Seq<char>)
    requires
        0 <= at <= items.len(),
        forall|i: int| 0 <= i < at ==> (#[trigger] items[i]).key() != item.key(),
    ensures
        with_key(items.insert(at, item), key) == with_key(seq![item], key) + with_key(items, key),
{
    let pred = having::<T>(key);
    let front = items.take(at);
    let back = items.skip(at);
    assert(items.insert(at, item) =~= front + seq![item] + back);
    assert(items =~= front + back);
    Seq::filter_distributes_over_add(front + seq![item], back, pred);
    Seq::filter_distributes_over_add(front, seq![item], pred);
    Seq::filter_distributes_over_add(front, back, pred);
    let one = with_key(seq![item], key);
    if key == item.key() {
        lemma_none(front, pred);
        assert(Seq::<T>::empty() + one + with_key(back, key) =~= one + (Seq::<T>::empty()
            + with_key(back, key)));
    } else {
        lemma_none(seq![item], pred);
        assert(with_key(front, key) + Seq::<T>::empty() + with_key(back, key) =~= Seq::<T>::empty()
            + (with_key(front, key) + with_key(back, key)));
    }
}

/// Filtering by what no item meets leaves nothing.
proof fn lemma_none<T>(items: Seq<T>, pred: spec_fn(T) -> bool)
    requires
        forall|i: int| 0 <= i < items.len() ==> !pred(#[trigger] items[i]),
    ensures
        items.filter(pred) == Seq::<T>::empty(),
    decreases items.len(),
{
    reveal(Seq::filter);
    if items.len() > 0 {
        assert(!pred(items[items.len() - 1]));
        assert forall|i: int| 0 <= i < items.drop_last().len() implies !pred(
            #[trigger] items.drop_last()[i],
        ) by {
            assert(items.drop_last()[i] == items[i]);
        }
        lemma_none(items.drop_last(), pred);
    }
}

/// Sorts items by their keys; items with the same key keep their order.
pub fn sort_by_key<T: Keyed>(items: Vec<T>) -> (r: Vec<T>)
    ensures
        is_stable_sort(items@, r@),
{
    let ghost before: Seq<T> = items@;
    let mut items = items;
    let mut sorted: Vec<T> = Vec::new();
    proof {
        assert(items@ + sorted@ =~= before);
        assert forall|key: Seq<char>| #[trigger] with_key(before, key) == with_key(items@, key)
            + with_key(sorted@, key) by {
            Seq::filter_distributes_over_add(items@, sorted@, having(key));
        }
    }
    while items.len() > 0
        invariant
            is_sorted(sorted@),
            (items@ + sorted@).to_multiset() == before.to_multiset(),
            forall|key: Seq<char>| #[trigger]
                with_key(before, key) == with_key(items@, key) + with_key(sorted@, key),
        decreases items.len(),
    {
        let ghost left: Seq<T> = items@;
        let ghost done: Seq<T> = sorted@;
        if let Some(item) = items.pop() {
            let mut at: usize = 0;
            while at < sorted.len() && !in_order(item.key_text(), sorted[at].key_text())
                invariant
                    at <= sorted.len(),
                    sorted@ == done,
                    is_sorted(done),
                    forall|i: int| 0 <= i < at ==> !text_le(item.key(), (#[trigger] done[i]).key()),
                decreases sorted.len() - at,
            {
                at = at + 1;
            }
            sorted.insert(at, item);
            proof {
                lemma_sorted_insert(done, at as int, item);
                assert(left =~= items@.push(item));
                assert forall|key: Seq<char>| #[trigger] with_key(before, key) == with_key(
                    items@,
                    key,
                ) + with_key(sorted@, key) by {
                    let pred = having::<T>(key);
                    assert forall|i: int| 0 <= i < at implies (#[trigger] done[i]).key()
                        != item.key() by {
                        law_text_order_is_total(item.key(), done[i].key());
                    }
                    lemma_inserted(done, at as int, item, key);
                    assert(left =~= items@ + seq![item]);
                    Seq::filter_distributes_over_add(items@, seq![item], pred);
                    assert(with_key(items@, key) + (with_key(seq![item], key) + with_key(
                        done,
                        key,
                    )) =~= (with_key(items@, key) + with_key(seq![item], key)) + with_key(
                        done,
                        key,
                    ));
                }
                lemma_moved(left, done, items@, at as int, item);
            }
        }
    }
    proof {
        assert(items@ + sorted@ =~= sorted@);
        assert forall|key: Seq<char>| #[trigger] with_key(sorted@, key) == with_key(before, key) by {
            lemma_none(items@, having(key));
            assert(with_key(before, key) =~= with_key(sorted@, key));
        }
    }
    sorted
}

proof fn lemma_sorted_insert<T: Keyed>(items: Seq<T>, at: int, item: T)
    requires
        is_sorted(items),
        0 <= at <= items.len(),
        forall|i: int| 0 <= i < at ==> !text_le(item.key(), (#[trigger] items[i]).key()),
        at < items.len() ==> text_le(item.key(), items[at].key()),
    ensures
        is_sorted(items.insert(at, item)),
{
    let after = items.insert(at, item);
    assert forall|i: int, j: int| 0 <= i < j < after.len() implies text_le(
        (#[trigger] after[i]).key(),
        (#[trigger] after[j]).key(),
    ) by {
        if i < at && j == at {
            law_text_order_is_total(item.key(), items[i].key());
        } else if i == at {
            if j - 1 > at {
                law_text_order_is_transitive(item.key(), items[at].key(), items[j - 1].key());
            }
        }
    }
}

/// Moving an item from one sequence into the other keeps the items of both together.
proof fn lemma_moved<T>(left: Seq<T>, done: Seq<T>, rest: Seq<T>, at: int, item: T)
    requires
        left == rest.push(item),
        0 <= at <= done.len(),
    ensures
        (rest + done.insert(at, item)).to_multiset() == (left + done).to_multiset(),
{
    broadcast use vstd::seq_lib::group_to_multiset_ensures;

    assert(left + done =~= (rest + done).insert(rest.len() as int, item));
    assert(rest + done.insert(at, item) =~= (rest + done).insert(rest.len() + at, item));
}

/// There is only one way to sort items so that those with the same key keep their order.
pub proof fn law_stable_sorts_are_unique<T: Keyed>(before: Seq<T>, a: Seq<T>, b: Seq<T>)
    requires
        is_stable_sort(before, a),
        is_stable_sort(before, b),
    ensures
        a == b,
{
    assert forall|key: Seq<char>| #[trigger] with_key(a, key) == with_key(b, key) by {
        assert(with_key(a, key) == with_key(before, key));
        assert(with_key(b, key) == with_key(before, key));
    }
    lemma_sorted_same(a, b);
}

proof fn lemma_sorted_same<T: Keyed>(a: Seq<T>, b: Seq<T>)
    requires
        is_sorted(a),
        is_sorted(b),
        a.to_multiset() == b.to_multiset(),
        forall|key: Seq<char>| #[trigger] with_key(a, key) == with_key(b, key),
    ensures
        a == b,
    decreases a.len(),
{
    broadcast use vstd::seq_lib::group_to_multiset_ensures;

    assert(a.len() == a.to_multiset().len());
    assert(b.len() == b.to_multiset().len());
    if a.len() == 0 {
        assert(a =~= b);
    } else {
        let n = a.len() - 1;
        lemma_last_key(a, b);
        lemma_last_key(b, a);
        law_text_order_is_total(a[n].key(), b[n].key());
        let key = a[n].key();
        reveal(Seq::filter);
        assert(with_key(a, key) =~= with_key(a.drop_last(), key).push(a[n]));
        assert(with_key(b, key) =~= with_key(b.drop_last(), key).push(b[n]));
        assert(with_key(a, key).last() == with_key(b, key).last());
        assert(a[n] == b[n]);
        assert forall|other: Seq<char>| #[trigger] with_key(a.drop_last(), other) == with_key(
            b.drop_last(),
            other,
        ) by {
            assert(with_key(a, other) == with_key(b, other));
            if other == key {
                assert(with_key(a.drop_last(), key) =~= with_key(a, key).drop_last());
                assert(with_key(b.drop_last(), key) =~= with_key(b, key).drop_last());
            }
        }
        assert(a =~= a.drop_last().push(a[n]));
        assert(b =~= b.drop_last().push(b[n]));
        assert(a.drop_last().to_multiset() =~= a.to_multiset().remove(a[n]));
        assert(b.drop_last().to_multiset() =~= b.to_multiset().remove(b[n]));
        lemma_sorted_same(a.drop_last(), b.drop_last());
    }
}

/// The last of sorted items comes no earlier than the last of any arrangement of them.
proof fn lemma_last_key<T: Keyed>(a: Seq<T>, b: Seq<T>)
    requires
        is_sorted(a),
        a.to_multiset() == b.to_multiset(),
        a.len() > 0,
        b.len() > 0,
    ensures
        text_le(b.last().key(), a.last().key()),
{
    broadcast use vstd::seq_lib::group_to_multiset_ensures;

    assert(b.contains(b[b.len() - 1]));
    assert(b.to_multiset().count(b.last()) > 0);
    assert(a.contains(b.last()));
    let i = choose|i: int| 0 <= i < a.len() && a[i] == b.last();
    if i < a.len() - 1 {
        assert(text_le(a[i].key(), a[a.len() - 1].key()));
    } else {
        law_text_order_is_total(a[i].key(), a[i].key());
    }
}

/// Sorting puts the keys in ascending order, keeps every item as often as it was there, and keeps
/// the order of items with the same key: of two of them the first one was before the second.
pub proof fn law_equals_keep_their_order<T: Keyed>(before: Seq<T>, after: Seq<T>, i: int, j: int)
    requires
        is_stable_sort(before, after),
        0 <= i < j < after.len(),
    ensures
        text_le(after[i].key(), after[j].key()),
        after.len() == before.len(),
        after.to_multiset() == before.to_multiset(),
        after[i].key() == after[j].key() ==> exists|a: int, b: int|
            0 <= a < b < before.len() && #[trigger] before[a] == after[i] && #[trigger] before[b]
                == after[j],
{
    broadcast use vstd::seq_lib::group_to_multiset_ensures;

    assert(after.len() == after.to_multiset().len());
    assert(before.len() == before.to_multiset().len());
    if after[i].key() == after[j].key() {
        let key = after[i].key();
        let pred = having::<T>(key);
        lemma_filter_keeps_order(after, pred, i, j);
        let kept = with_key(after, key);
        let (x, y) = choose|x: int, y: int|
            0 <= x < y < kept.len() && #[trigger] kept[x] == after[i] && #[trigger] kept[y]
                == after[j];
        assert(with_key(before, key) == kept);
        lemma_filter_comes_in_order(before, pred, x, y);
    }
}

/// What is sorted already stays as it is.
pub proof fn law_sorted_items_stay<T: Keyed>(before: Seq<T>, after: Seq<T>)
    requires
        is_stable_sort(before, after),
        forall|i: int, j: int|
            0 <= i < j < before.len() ==> text_le(
                (#[trigger] before[i]).key(),
                (#[trigger] before[j]).key(),
            ),
    ensures
        after == before,
{
    assert(is_stable_sort(before, before));
    law_stable_sorts_are_unique(before, before, after);
}

proof fn lemma_filter_keeps_order<T>(s: Seq<T>, pred: spec_fn(T) -> bool, i: int, j: int)
    requires
        0 <= i < j < s.len(),
        pred(s[i]),
        pred(s[j]),
    ensures
        exists|x: int, y: int|
            0 <= x < y < s.filter(pred).len() && #[trigger] s.filter(pred)[x] == s[i]
                && #[trigger] s.filter(pred)[y] == s[j],
    decreases s.len(),
{
    reveal(Seq::filter);
    let rest = s.drop_last();
    let kept = s.filter(pred);
    let before = rest.filter(pred);
    if j < s.len() - 1 {
        lemma_filter_keeps_order(rest, pred, i, j);
        let (x, y) = choose|x: int, y: int|
            0 <= x < y < before.len() && #[trigger] before[x] == rest[i] && #[trigger] before[y]
                == rest[j];
        assert(kept[x] == s[i] && kept[y] == s[j]);
    } else {
        lemma_filter_keeps(rest, pred, i);
        let x = choose|x: int| 0 <= x < before.len() && #[trigger] before[x] == rest[i];
        assert(kept[x] == s[i]);
        assert(kept[before.len() as int] == s[j]);
    }
}

proof fn lemma_filter_keeps<T>(s: Seq<T>, pred: spec_fn(T) -> bool, i: int)
    requires
        0 <= i < s.len(),
        pred(s[i]),
    ensures
        exists|x: int| 0 <= x < s.filter(pred).len() && #[trigger] s.filter(pred)[x] == s[i],
    decreases s.len(),
{
    reveal(Seq::filter);
    let rest = s.drop_last();
    let before = rest.filter(pred);
    if i < s.len() - 1 {
        lemma_filter_keeps(rest, pred, i);
        let x = choose|x: int| 0 <= x < before.len() && #[trigger] before[x] == rest[i];
        assert(s.filter(pred)[x] == s[i]);
    } else {
        assert(s.filter(pred)[before.len() as int] == s[i]);
    }
}

proof fn lemma_filter_comes_of<T>(s: Seq<T>, pred: spec_fn(T) -> bool, x: int)
    requires
        0 <= x < s.filter(pred).len(),
    ensures
        exists|a: int| 0 <= a < s.len() && #[trigger] s[a] == s.filter(pred)[x],
    decreases s.len(),
{
    reveal(Seq::filter);
    if s.len() > 0 {
        let rest = s.drop_last();
        let before = rest.filter(pred);
        if x < before.len() {
            lemma_filter_comes_of(rest, pred, x);
            let a = choose|a: int| 0 <= a < rest.len() && #[trigger] rest[a] == before[x];
            assert(s[a] == s.filter(pred)[x]);
        } else {
            assert(s[s.len() - 1] == s.filter(pred)[x]);
        }
    }
}

proof fn lemma_filter_comes_in_order<T>(s: Seq<T>, pred: spec_fn(T) -> bool, x: int, y: int)
    requires
        0 <= x < y < s.filter(pred).len(),
    ensures
        exists|a: int, b: int|
            0 <= a < b < s.len() && #[trigger] s[a] == s.filter(pred)[x] && #[trigger] s[b]
                == s.filter(pred)[y],
    decreases s.len(),
{
    reveal(Seq::filter);
    if s.len() > 0 {
        let rest = s.drop_last();
        let before = rest.filter(pred);
        if y < before.len() {
            lemma_filter_comes_in_order(rest, pred, x, y);
            let (a, b) = choose|a: int, b: int|
                0 <= a < b < rest.len() && #[trigger] rest[a] == before[x] && #[trigger] rest[b]
                    == before[y];
            assert(s[a] == s.filter(pred)[x] && s[b] == s.filter(pred)[y]);
        } else {
            lemma_filter_comes_of(rest, pred, x);
            let a = choose|a: int| 0 <= a < rest.len() && #[trigger] rest[a] == before[x];
            assert(s[a] == s.filter(pred)[x]);
            assert(s[s.len() - 1] == s.filter(pred)[y]);
        }
    }
}

/// The order of texts is that of their UTF-8 bytes: the first byte in which two texts differ
/// decides, and a text comes before those that it begins.
pub proof fn law_the_first_difference_decides(a: Seq<char>, b: Seq<char>, k: int)
    requires
        0 <= k <= utf8::encode_utf8(a).len(),
        k <= utf8::encode_utf8(b).len(),
        forall|i: int|
            0 <= i < k ==> #[trigger] utf8::encode_utf8(a)[i] == #[trigger] utf8::encode_utf8(b)[i],
    ensures
        k == utf8::encode_utf8(a).len() ==> text_le(a, b),
        k < utf8::encode_utf8(a).len() && k == utf8::encode_utf8(b).len() ==> !text_le(a, b),
        k < utf8::encode_utf8(a).len() && k < utf8::encode_utf8(b).len() && utf8::encode_utf8(a)[k]
            != utf8::encode_utf8(b)[k] ==> (text_le(a, b) <==> utf8::encode_utf8(a)[k]
            < utf8::encode_utf8(b)[k]),
{
    let x = utf8::encode_utf8(a);
    let y = utf8::encode_utf8(b);
    assert forall|i: int| 0 <= i < k implies x[i] == y[i] by {
        assert(utf8::encode_utf8(a)[i] == utf8::encode_utf8(b)[i]);
    }
    lemma_common_start(x, y, k);
}

proof fn lemma_common_start(a: Seq<u8>, b: Seq<u8>, k: int)
    requires
        0 <= k <= a.len(),
        k <= b.len(),
        forall|i: int| 0 <= i < k ==> a[i] == b[i],
    ensures
        bytes_le(a, b) == bytes_le(a.skip(k), b.skip(k)),
        k < a.len() ==> a.skip(k)[0] == a[k],
        k < b.len() ==> b.skip(k)[0] == b[k],
    decreases k,
{
    if k == 0 {
        assert(a.skip(0) =~= a);
        assert(b.skip(0) =~= b);
    } else {
        assert(a[0] == b[0]);
        lemma_common_start(a.skip(1), b.skip(1), k - 1);
        assert(a.skip(1).skip(k - 1) =~= a.skip(k));
        assert(b.skip(1).skip(k - 1) =~= b.skip(k));
    }
}

} // verus!
