//! Bringing the board metadata up to date a second time changes nothing.
use vstd::prelude::*;

use crate::filesystem::{
    apply_order, is_synced_metadata, lemma_meta_index_of, list_keys, merge_lists, meta_index_of,
    name_keys, recorded_lists, start_position, BoardMetaView, ListMetaView,
};
use crate::sorting::{
    entry_lt, is_sort_order, law_sort_order_unique, lemma_order_onto, lemma_sort_order_distinct,
    lists_index,
};

verus! {

/// Whether no two texts of `s` are the same.
pub open spec fn distinct_texts(s: Seq<Seq<char>>) -> bool {
    forall|i: int, j: int| 0 <= i < j < s.len() ==> s[i] != s[j]
}

/// Whether some entry of `ls` has the id `id`.
pub open spec fn has_entry(ls: Seq<ListMetaView>, id: Seq<char>) -> bool {
    exists|p: int| 0 <= p < ls.len() && ls[p].id == id
}

/// The merged lists have one entry per directory, with the directory's name as id.
proof fn lemma_merge_ids(rec: Seq<ListMetaView>, ids: Seq<Seq<char>>, start: int)
    ensures
        merge_lists(rec, ids, start).0.len() == ids.len(),
        forall|k: int| 0 <= k < ids.len() ==> (#[trigger] merge_lists(rec, ids, start).0[k]).id == ids[k],
    decreases ids.len(),
{
    if ids.len() > 0 {
        lemma_merge_ids(rec, ids.drop_last(), start);
        lemma_meta_index_of(rec, ids.last());
        let prev = merge_lists(rec, ids.drop_last(), start);
        let r = merge_lists(rec, ids, start).0;
        assert forall|k: int| 0 <= k < ids.len() implies (#[trigger] r[k]).id == ids[k] by {
            if k < ids.len() - 1 {
                assert(r[k] == prev.0[k]);
                assert(ids.drop_last()[k] == ids[k]);
            }
        }
    }
}

/// With an id that occurs once in `ls`, at `p`, the first entry with that id is `p`.
proof fn lemma_meta_index_found(ls: Seq<ListMetaView>, p: int)
    requires
        0 <= p < ls.len(),
        forall|i: int, j: int| 0 <= i < j < ls.len() ==> ls[i].id != ls[j].id,
    ensures
        meta_index_of(ls, ls[p].id) == Some(p),
    decreases ls.len(),
{
    let id = ls[p].id;
    if p < ls.len() - 1 {
        lemma_meta_index_found(ls.drop_last(), p);
    } else {
        let init = ls.drop_last();
        lemma_meta_index_of(init, id);
        if meta_index_of(init, id) is Some {
            let q = meta_index_of(init, id)->0;
            assert(init[q] == ls[q]);
        }
    }
}

/// When every directory has an entry, merging takes the recorded entries and numbers
/// none.
proof fn lemma_merge_found(rec: Seq<ListMetaView>, ids: Seq<Seq<char>>, start: int)
    requires
        forall|k: int| 0 <= k < ids.len() ==> #[trigger] meta_index_of(rec, ids[k]) is Some,
    ensures
        merge_lists(rec, ids, start).0.len() == ids.len(),
        forall|k: int|
            0 <= k < ids.len() ==> #[trigger] merge_lists(rec, ids, start).0[k] == rec[meta_index_of(
                rec,
                ids[k],
            )->0],
    decreases ids.len(),
{
    if ids.len() > 0 {
        let init = ids.drop_last();
        assert forall|k: int| 0 <= k < init.len() implies #[trigger] meta_index_of(rec, init[k]) is Some by {
            assert(init[k] == ids[k]);
        }
        lemma_merge_found(rec, init, start);
        assert(meta_index_of(rec, ids[ids.len() - 1]) is Some);
        let prev = merge_lists(rec, init, start);
        let r = merge_lists(rec, ids, start).0;
        assert forall|k: int| 0 <= k < ids.len() implies #[trigger] r[k] == rec[meta_index_of(
            rec,
            ids[k],
        )->0] by {
            if k < ids.len() - 1 {
                assert(r[k] == prev.0[k]);
                assert(init[k] == ids[k]);
            }
        }
    }
}

/// The directories in name order are the directories, each once.
proof fn lemma_ordered_dirs(dirs: Seq<Seq<char>>, order: Seq<usize>)
    requires
        is_sort_order(order, name_keys(dirs)),
        distinct_texts(dirs),
    ensures
        apply_order(order, dirs).len() == dirs.len(),
        distinct_texts(apply_order(order, dirs)),
        forall|k: int| 0 <= k < dirs.len() ==> #[trigger] lists_index(order, k),
{
    lemma_sort_order_distinct(order, name_keys(dirs));
    lemma_order_onto(order, dirs.len() as int);
    let d = apply_order(order, dirs);
    assert forall|i: int, j: int| 0 <= i < j < d.len() implies d[i] != d[j] by {
        assert(order[i] != order[j]);
        if order[i] < order[j] {
            assert(dirs[order[i] as int] != dirs[order[j] as int]);
        } else {
            assert(dirs[order[j] as int] != dirs[order[i] as int]);
        }
    }
}

/// Synced lists: one entry per directory, no id twice, and their keys strictly
/// increasing.
proof fn lemma_synced_lists(r: BoardMetaView, existing: Option<BoardMetaView>, dirs: Seq<Seq<char>>, fallback: Seq<char>)
    requires
        is_synced_metadata(r, existing, dirs, fallback),
        distinct_texts(dirs),
    ensures
        r.lists.len() == dirs.len(),
        forall|i: int, j: int| 0 <= i < j < r.lists.len() ==> r.lists[i].id != r.lists[j].id,
        forall|i: int, j: int|
            0 <= i < j < r.lists.len() ==> #[trigger] entry_lt(list_keys(r.lists), i, j),
        forall|k: int| 0 <= k < dirs.len() ==> #[trigger] has_entry(r.lists, dirs[k]),
{
    let (dord, lord) = choose|dord: Seq<usize>, lord: Seq<usize>|
        {
            &&& is_sort_order(dord, name_keys(dirs))
            &&& #[trigger] is_sort_order(
                lord,
                list_keys(
                    merge_lists(
                        recorded_lists(existing),
                        apply_order(dord, dirs),
                        start_position(existing),
                    ).0,
                ),
            )
            &&& r.lists == apply_order(
                lord,
                merge_lists(
                    recorded_lists(existing),
                    apply_order(dord, dirs),
                    start_position(existing),
                ).0,
            )
        };
    let d = apply_order(dord, dirs);
    let m = merge_lists(recorded_lists(existing), d, start_position(existing)).0;
    lemma_ordered_dirs(dirs, dord);
    lemma_merge_ids(recorded_lists(existing), d, start_position(existing));
    let keys = list_keys(m);
    lemma_sort_order_distinct(lord, keys);
    lemma_order_onto(lord, m.len() as int);
    assert forall|i: int, j: int| 0 <= i < j < r.lists.len() implies r.lists[i].id != r.lists[j].id by {
        assert(r.lists[i] == m[lord[i] as int]);
        assert(r.lists[j] == m[lord[j] as int]);
        assert(lord[i] != lord[j]);
        if lord[i] < lord[j] {
            assert(d[lord[i] as int] != d[lord[j] as int]);
        } else {
            assert(d[lord[j] as int] != d[lord[i] as int]);
        }
    }
    assert forall|i: int, j: int| 0 <= i < j < r.lists.len() implies #[trigger] entry_lt(list_keys(r.lists), i, j) by {
        assert(entry_lt(keys, lord[i] as int, lord[j] as int));
        assert(list_keys(r.lists)[i] == keys[lord[i] as int]);
        assert(list_keys(r.lists)[j] == keys[lord[j] as int]);
        assert(r.lists[i].id != r.lists[j].id);
    }
    assert forall|k: int| 0 <= k < dirs.len() implies #[trigger] has_entry(r.lists, dirs[k]) by {
        assert(lists_index(dord, k));
        let a = choose|a: int| 0 <= a < dord.len() && dord[a] == k;
        assert(d[a] == dirs[k]);
        assert(lists_index(lord, a));
        let p = choose|p: int| 0 <= p < lord.len() && lord[p] == a;
        assert(r.lists[p] == m[a]);
        assert(r.lists[p].id == dirs[k]);
    }
}

/// Bringing the metadata up to date a second time, with the same list directories,
/// gives it back unchanged (directory names are distinct, as a file system has them).
pub proof fn law_sync_twice_changes_nothing(
    r1: BoardMetaView,
    r2: BoardMetaView,
    existing: Option<BoardMetaView>,
    dirs: Seq<Seq<char>>,
    fallback: Seq<char>,
)
    requires
        distinct_texts(dirs),
        dirs.len() <= usize::MAX,
        is_synced_metadata(r1, existing, dirs, fallback),
        is_synced_metadata(r2, Some(r1), dirs, fallback),
    ensures
        r2 == r1,
{
    lemma_synced_lists(r1, existing, dirs, fallback);
    lemma_synced_lists(r2, Some(r1), dirs, fallback);
    let (dord, lord) = choose|dord: Seq<usize>, lord: Seq<usize>|
        {
            &&& is_sort_order(dord, name_keys(dirs))
            &&& #[trigger] is_sort_order(
                lord,
                list_keys(merge_lists(r1.lists, apply_order(dord, dirs), start_position(Some(r1))).0),
            )
            &&& r2.lists == apply_order(
                lord,
                merge_lists(r1.lists, apply_order(dord, dirs), start_position(Some(r1))).0,
            )
        };
    let d = apply_order(dord, dirs);
    lemma_ordered_dirs(dirs, dord);
    let n = r1.lists.len();
    // Every directory has its entry in `r1`, found where it is.
    assert forall|k: int| 0 <= k < d.len() implies #[trigger] meta_index_of(r1.lists, d[k]) is Some by {
        assert(d[k] == dirs[dord[k] as int]);
        assert(has_entry(r1.lists, dirs[dord[k] as int]));
        let p = choose|p: int| 0 <= p < r1.lists.len() && r1.lists[p].id == dirs[dord[k] as int];
        lemma_meta_index_found(r1.lists, p);
    }
    lemma_merge_found(r1.lists, d, start_position(Some(r1)));
    let m = merge_lists(r1.lists, d, start_position(Some(r1))).0;
    // The entry of `r2` at `p` is the entry of `r1` at `sigma[p]`.
    let sigma = Seq::new(
        n,
        |p: int| meta_index_of(r1.lists, d[lord[p] as int])->0 as usize,
    );
    lemma_sort_order_distinct(lord, list_keys(m));
    assert forall|p: int| 0 <= p < n implies (#[trigger] sigma[p]) < n && r2.lists[p]
        == r1.lists[sigma[p] as int] by {
        assert(lord[p] < m.len());
        let k = lord[p] as int;
        assert(meta_index_of(r1.lists, d[k]) is Some);
        lemma_meta_index_of(r1.lists, d[k]);
        assert(m[k] == r1.lists[meta_index_of(r1.lists, d[k])->0]);
        assert(r2.lists[p] == m[k]);
    }
    let keys = list_keys(r1.lists);
    // `sigma` sorts the keys of `r1`, and so does the identity.
    assert(is_sort_order(sigma, keys)) by {
        assert forall|i: int, j: int| 0 <= i < j < sigma.len() implies entry_lt(
            keys,
            #[trigger] sigma[i] as int,
            #[trigger] sigma[j] as int,
        ) by {
            assert(entry_lt(list_keys(r2.lists), i, j));
            assert(list_keys(r2.lists)[i] == keys[sigma[i] as int]);
            assert(list_keys(r2.lists)[j] == keys[sigma[j] as int]);
            assert(r2.lists[i].id != r2.lists[j].id);
        }
    }
    let ident = Seq::new(n, |p: int| p as usize);
    assert(is_sort_order(ident, keys)) by {
        assert forall|i: int, j: int| 0 <= i < j < ident.len() implies entry_lt(
            keys,
            #[trigger] ident[i] as int,
            #[trigger] ident[j] as int,
        ) by {
            assert(entry_lt(keys, i, j));
        }
    }
    law_sort_order_unique(sigma, ident, keys);
    assert forall|p: int| 0 <= p < n implies r2.lists[p] == r1.lists[p] by {
        assert(sigma[p] == ident[p]);
    }
    assert(r2.lists =~= r1.lists);
}

} // verus!
