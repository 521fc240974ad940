//! Stable sorting by a key of a number and a text, the way `sort_by` orders boards,
//! lists and cards: by the number, then by the text, and by where they stood last.
use vstd::prelude::*;

verus! {

broadcast use crate::views::lemma_chars_deep_view;

/// `a < b` for texts, comparing characters in order (`String`'s order: UTF-8 bytes
/// compare as their code points do, and `char`s compare by code point).
pub open spec fn chars_lt(a: Seq<char>, b: Seq<char>) -> bool
    decreases a.len(),
{
    if a.len() == 0 {
        b.len() > 0
    } else if b.len() == 0 {
        false
    } else if a[0] != b[0] {
        a[0] < b[0]
    } else {
        chars_lt(a.drop_first(), b.drop_first())
    }
}

/// The order of sort keys: by number, then by text.
pub open spec fn key_lt(a: (i64, Seq<char>), b: (i64, Seq<char>)) -> bool {
    a.0 < b.0 || (a.0 == b.0 && chars_lt(a.1, b.1))
}

/// The order of the entries `i` and `j` of `keys` in a stable sort: by key, then by
/// index.
pub open spec fn entry_lt(keys: Seq<(i64, Seq<char>)>, i: int, j: int) -> bool {
    key_lt(keys[i], keys[j]) || (keys[i] == keys[j] && i < j)
}

proof fn lemma_chars_lt_irreflexive(a: Seq<char>)
    ensures
        !chars_lt(a, a),
    decreases a.len(),
{
    if a.len() > 0 {
        lemma_chars_lt_irreflexive(a.drop_first());
    }
}

proof fn lemma_chars_lt_transitive(a: Seq<char>, b: Seq<char>, c: Seq<char>)
    requires
        chars_lt(a, b),
        chars_lt(b, c),
    ensures
        chars_lt(a, c),
    decreases a.len(),
{
    if a.len() > 0 && b.len() > 0 && c.len() > 0 {
        if a[0] == b[0] && b[0] == c[0] {
            lemma_chars_lt_transitive(a.drop_first(), b.drop_first(), c.drop_first());
        }
    }
}

proof fn lemma_chars_lt_total(a: Seq<char>, b: Seq<char>)
    ensures
        a == b || chars_lt(a, b) || chars_lt(b, a),
    decreases a.len(),
{
    if a.len() > 0 && b.len() > 0 {
        if a[0] == b[0] {
            lemma_chars_lt_total(a.drop_first(), b.drop_first());
            if a.drop_first() == b.drop_first() {
                assert(a =~= seq![a[0]] + a.drop_first());
                assert(b =~= seq![b[0]] + b.drop_first());
            }
        } else {
            assert(a[0] < b[0] || b[0] < a[0]);
        }
    } else if a.len() == 0 && b.len() == 0 {
        assert(a =~= b);
    }
}

proof fn lemma_chars_lt_asymmetric(a: Seq<char>, b: Seq<char>)
    requires
        chars_lt(a, b),
    ensures
        !chars_lt(b, a),
{
    if chars_lt(b, a) {
        lemma_chars_lt_transitive(a, b, a);
        lemma_chars_lt_irreflexive(a);
    }
}

proof fn lemma_entry_lt_transitive(keys: Seq<(i64, Seq<char>)>, i: int, j: int, k: int)
    requires
        entry_lt(keys, i, j),
        entry_lt(keys, j, k),
    ensures
        entry_lt(keys, i, k),
{
    if keys[i].0 == keys[j].0 && keys[j].0 == keys[k].0 {
        if chars_lt(keys[i].1, keys[j].1) && chars_lt(keys[j].1, keys[k].1) {
            lemma_chars_lt_transitive(keys[i].1, keys[j].1, keys[k].1);
        }
    }
}

proof fn lemma_entry_lt_total(keys: Seq<(i64, Seq<char>)>, i: int, j: int)
    requires
        i != j,
    ensures
        entry_lt(keys, i, j) || entry_lt(keys, j, i),
{
    lemma_chars_lt_total(keys[i].1, keys[j].1);
}

proof fn lemma_entry_lt_asymmetric(keys: Seq<(i64, Seq<char>)>, i: int, j: int)
    requires
        entry_lt(keys, i, j),
    ensures
        !entry_lt(keys, j, i),
{
    if keys[i].0 == keys[j].0 && chars_lt(keys[i].1, keys[j].1) {
        lemma_chars_lt_asymmetric(keys[i].1, keys[j].1);
    }
    if keys[i] == keys[j] {
        lemma_chars_lt_irreflexive(keys[i].1);
    }
}

/// `a < b` for texts.
pub fn chars_less(a: &Vec<char>, b: &Vec<char>) -> (r: bool)
    ensures
        r == chars_lt(a@, b@),
{
    let mut i: usize = 0;
    assert(a@.skip(0) =~= a@);
    assert(b@.skip(0) =~= b@);
    while i < a.len() && i < b.len()
        invariant
            i <= a.len(),
            i <= b.len(),
            chars_lt(a@.skip(i as int), b@.skip(i as int)) == chars_lt(a@, b@),
        decreases a.len() - i,
    {
        assert(a@.skip(i as int)[0] == a@[i as int]);
        assert(b@.skip(i as int)[0] == b@[i as int]);
        if a[i] != b[i] {
            return a[i] < b[i];
        }
        assert(a@.skip(i as int).drop_first() =~= a@.skip(i + 1));
        assert(b@.skip(i as int).drop_first() =~= b@.skip(i + 1));
        i += 1;
    }
    b.len() > i
}

/// `a < b` for sort keys.
pub fn key_less(a: &(i64, Vec<char>), b: &(i64, Vec<char>)) -> (r: bool)
    ensures
        r == key_lt((a.0, a.1@), (b.0, b.1@)),
{
    a.0 < b.0 || (a.0 == b.0 && chars_less(&a.1, &b.1))
}

/// The sort keys as values.
pub open spec fn keys_view(keys: Seq<(i64, Vec<char>)>) -> Seq<(i64, Seq<char>)> {
    keys.map_values(|k: (i64, Vec<char>)| (k.0, k.1@))
}

/// Whether `order` lists each index of `0..n` once, in the order of a stable sort by
/// `keys`.
pub open spec fn is_sort_order(order: Seq<usize>, keys: Seq<(i64, Seq<char>)>) -> bool {
    &&& order.len() == keys.len()
    &&& forall|i: int| 0 <= i < order.len() ==> #[trigger] order[i] < keys.len()
    &&& forall|i: int, j: int|
        0 <= i < j < order.len() ==> entry_lt(keys, #[trigger] order[i] as int, #[trigger] order[j] as int)
}

pub proof fn lemma_sort_order_distinct(order: Seq<usize>, keys: Seq<(i64, Seq<char>)>)
    requires
        is_sort_order(order, keys),
    ensures
        forall|i: int, j: int| 0 <= i < j < order.len() ==> order[i] != order[j],
{
    assert forall|i: int, j: int| 0 <= i < j < order.len() implies order[i] != order[j] by {
        assert(entry_lt(keys, order[i] as int, order[j] as int));
        if order[i] == order[j] {
            lemma_entry_lt_asymmetric(keys, order[i] as int, order[j] as int);
        }
    }
}

/// The order in which a stable sort by `keys` puts the entries: by number, then by
/// text, and equal keys in the order they came.
pub fn sort_order(keys: &Vec<(i64, Vec<char>)>) -> (r: Vec<usize>)
    ensures
        is_sort_order(r@, keys_view(keys@)),
{
    let ghost kv = keys_view(keys@);
    let mut order: Vec<usize> = Vec::new();
    let mut i: usize = 0;
    while i < keys.len()
        invariant
            i <= keys.len(),
            kv == keys_view(keys@),
            order@.len() == i,
            forall|j: int| 0 <= j < order@.len() ==> #[trigger] order@[j] < i,
            forall|a: int, b: int|
                0 <= a < b < order@.len() ==> entry_lt(kv, #[trigger] order@[a] as int, #[trigger] order@[b] as int),
        decreases keys.len() - i,
    {
        // The first position whose entry comes after entry i.
        let mut p: usize = 0;
        while p < order.len() && !key_less(&keys[i], &keys[order[p]])
            invariant
                p <= order@.len(),
                i < keys.len(),
                kv == keys_view(keys@),
                forall|j: int| 0 <= j < order@.len() ==> #[trigger] order@[j] < i,
                forall|q: int| 0 <= q < p ==> entry_lt(kv, #[trigger] order@[q] as int, i as int),
            decreases order@.len() - p,
        {
            proof {
                let o = order@[p as int] as int;
                assert(kv[i as int] == (keys@[i as int].0, keys@[i as int].1@));
                assert(kv[o] == (keys@[o].0, keys@[o].1@));
                lemma_entry_lt_total(kv, o, i as int);
                if entry_lt(kv, i as int, o) {
                    // i comes after o unless its key is smaller, which it is not.
                    assert(!key_lt(kv[i as int], kv[o]));
                    assert(false);
                }
            }
            p += 1;
        }
        proof {
            if p < order@.len() {
                let o = order@[p as int] as int;
                assert(kv[i as int] == (keys@[i as int].0, keys@[i as int].1@));
                assert(kv[o] == (keys@[o].0, keys@[o].1@));
                assert(entry_lt(kv, i as int, o));
            }
        }
        let ghost before = order@;
        order.insert(p, i);
        proof {
            assert forall|a: int, b: int|
                0 <= a < b < order@.len() implies entry_lt(kv, #[trigger] order@[a] as int, #[trigger] order@[b] as int) by {
                if b < p {
                    assert(order@[a] == before[a] && order@[b] == before[b]);
                } else if b == p {
                    assert(order@[a] == before[a]);
                } else if a == p {
                    assert(order@[b] == before[b - 1]);
                    if b - 1 > p {
                        assert(entry_lt(kv, before[p as int] as int, before[b - 1] as int));
                        lemma_entry_lt_transitive(kv, i as int, before[p as int] as int, before[b - 1] as int);
                    }
                } else if a < p {
                    assert(order@[a] == before[a] && order@[b] == before[b - 1]);
                } else {
                    assert(order@[a] == before[a - 1] && order@[b] == before[b - 1]);
                }
            }
            assert forall|j: int| 0 <= j < order@.len() implies #[trigger] order@[j] < i + 1 by {
                if j < p {
                    assert(order@[j] == before[j]);
                } else if j > p {
                    assert(order@[j] == before[j - 1]);
                }
            }
        }
        i += 1;
    }
    order
}


/// The items of `items` in the order that `order` gives: the `i`-th item of the
/// result is `items[order[i]]`. Each item is moved, none is copied.
pub fn permute<T>(items: Vec<T>, order: &Vec<usize>) -> (r: Vec<T>)
    requires
        order@.len() == items@.len(),
        forall|i: int| 0 <= i < order@.len() ==> #[trigger] order@[i] < items@.len(),
        forall|i: int, j: int| 0 <= i < j < order@.len() ==> order@[i] != order@[j],
    ensures
        r@ == Seq::new(order@.len(), |i: int| items@[order@[i] as int]),
{
    let ghost iv = items@;
    let n = items.len();
    let mut items = items;
    let mut slots: Vec<Option<T>> = Vec::new();
    while items.len() > 0
        invariant
            items@.len() + slots@.len() == n,
            n == iv.len(),
            forall|k: int| 0 <= k < items@.len() ==> items@[k] == iv[k],
            forall|k: int| 0 <= k < slots@.len() ==> #[trigger] slots@[k] == Some(iv[n - 1 - k]),
        decreases items.len(),
    {
        let x = items.pop().unwrap();
        slots.push(Some(x));
    }
    let mut r: Vec<T> = Vec::new();
    let mut q: usize = 0;
    while q < n
        invariant
            q <= n,
            n == iv.len(),
            slots@.len() == n,
            order@.len() == n,
            forall|i: int| 0 <= i < order@.len() ==> #[trigger] order@[i] < n,
            forall|i: int, j: int| 0 <= i < j < order@.len() ==> order@[i] != order@[j],
            r@ == Seq::new(q as nat, |i: int| iv[order@[i] as int]),
            forall|k: int| 0 <= k < n ==> (#[trigger] slots@[k] is Some ==> slots@[k] == Some(iv[n - 1 - k])),
            forall|k: int|
                0 <= k < n ==> (#[trigger] slots@[k] is None ==> exists|p: int| 0 <= p < q && order@[p] == n - 1 - k),
        decreases n - q,
    {
        let k = n - 1 - order[q];
        assert(slots@[k as int] is Some) by {
            if slots@[k as int] is None {
                let p = choose|p: int| 0 <= p < q && order@[p] == n - 1 - k;
                assert(order@[p] == order@[q as int]);
            }
        }
        let ghost before = slots@;
        slots.push(None);
        let taken = slots.swap_remove(k);
        assert forall|j: int| 0 <= j < n && j != k implies slots@[j] == before[j] by {}
        assert(slots@[k as int] is None);
        if let Some(x) = taken {
            r.push(x);
        }
        assert(r@ =~= Seq::new((q + 1) as nat, |i: int| iv[order@[i] as int]));
        assert forall|j: int| 0 <= j < n && #[trigger] slots@[j] is None implies exists|p: int|
            0 <= p < q + 1 && order@[p] == n - 1 - j by {
            if j != k {
                assert(before[j] is None);
            } else {
                assert(order@[q as int] == n - 1 - j);
            }
        }
        q += 1;
    }
    r
}

/// Whether `order` lists the index `k`.
pub open spec fn lists_index(order: Seq<usize>, k: int) -> bool {
    exists|p: int| 0 <= p < order.len() && order[p] == k
}

/// An order that lists distinct indices of `0..n`, `n` of them, lists each index.
pub(crate) proof fn lemma_order_onto(order: Seq<usize>, n: int)
    requires
        order.len() == n,
        forall|i: int| 0 <= i < n ==> #[trigger] order[i] < n,
        forall|i: int, j: int| 0 <= i < j < n ==> order[i] != order[j],
    ensures
        forall|k: int| 0 <= k < n ==> #[trigger] lists_index(order, k),
{
    let ints = order.map_values(|v: usize| v as int);
    assert(ints.no_duplicates()) by {
        assert forall|i: int, j: int| 0 <= i < ints.len() && 0 <= j < ints.len() && i != j implies ints[i]
            != ints[j] by {
            if i < j {
                assert(order[i] != order[j]);
            } else {
                assert(order[j] != order[i]);
            }
        }
    }
    ints.unique_seq_to_set();
    let s = ints.to_set();
    let range = vstd::set_lib::set_int_range(0, n);
    vstd::set_lib::lemma_int_range(0, n);
    assert(s.subset_of(range)) by {
        assert forall|k: int| s.contains(k) implies range.contains(k) by {
            assert(ints.contains(k));
            let p = choose|p: int| 0 <= p < ints.len() && ints[p] == k;
            assert(order[p] < n);
        }
    }
    vstd::seq_lib::seq_to_set_is_finite(ints);
    vstd::set_lib::lemma_subset_equality(s, range);
    assert forall|k: int| 0 <= k < n implies #[trigger] lists_index(order, k) by {
        assert(range.contains(k));
        assert(s.contains(k));
        assert(ints.contains(k));
        let p = choose|p: int| 0 <= p < ints.len() && ints[p] == k;
        assert(order[p] == k);
    }
}

proof fn lemma_same_prefix(o1: Seq<usize>, o2: Seq<usize>, keys: Seq<(i64, Seq<char>)>, i: int)
    requires
        is_sort_order(o1, keys),
        is_sort_order(o2, keys),
        0 <= i < keys.len(),
        forall|k: int| 0 <= k < keys.len() ==> #[trigger] lists_index(o1, k),
        forall|k: int| 0 <= k < keys.len() ==> #[trigger] lists_index(o2, k),
        forall|a: int, b: int| 0 <= a < b < o1.len() ==> o1[a] != o1[b],
        forall|a: int, b: int| 0 <= a < b < o2.len() ==> o2[a] != o2[b],
    ensures
        forall|t: int| 0 <= t <= i ==> o1[t] == o2[t],
    decreases i,
{
    if i > 0 {
        lemma_same_prefix(o1, o2, keys, i - 1);
    }
    let a = o1[i];
    let b = o2[i];
    if a != b {
        assert(o1[i] < keys.len());
        assert(o2[i] < keys.len());
        assert(lists_index(o2, a as int));
        assert(lists_index(o1, b as int));
        let j = choose|p: int| 0 <= p < o2.len() && o2[p] == a as int;
        let m = choose|p: int| 0 <= p < o1.len() && o1[p] == b as int;
        if j < i {
            assert(o1[j] == o2[j]);
            assert(o1[j] != o1[i]);
        }
        if m < i {
            assert(o1[m] == o2[m]);
            assert(o2[m] != o2[i]);
        }
        assert(entry_lt(keys, o1[i] as int, o1[m] as int));
        assert(entry_lt(keys, o2[i] as int, o2[j] as int));
        lemma_entry_lt_asymmetric(keys, a as int, b as int);
    }
}

/// A sort of items by their keys is unique: two orders that both sort `keys` (stably)
/// are the same order.
pub proof fn law_sort_order_unique(o1: Seq<usize>, o2: Seq<usize>, keys: Seq<(i64, Seq<char>)>)
    requires
        is_sort_order(o1, keys),
        is_sort_order(o2, keys),
    ensures
        o1 == o2,
{
    lemma_sort_order_distinct(o1, keys);
    lemma_sort_order_distinct(o2, keys);
    lemma_order_onto(o1, keys.len() as int);
    lemma_order_onto(o2, keys.len() as int);
    if keys.len() > 0 {
        lemma_same_prefix(o1, o2, keys, keys.len() - 1);
    }
    assert(o1 =~= o2);
}

} // verus!
