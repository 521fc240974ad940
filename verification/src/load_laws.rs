//! What a loaded board keeps of its metadata.
use vstd::prelude::*;

use crate::board::{AppConfig, Board, List};
use crate::filesystem::{
    apply_order, board_list_keys, dir_ids, is_assembled_board, is_list_of, meta_index_of, opt_view,
    BoardMetaView, ListDir, ListMetaView,
};
use crate::sorting::is_sort_order;

verus! {

/// `e` is the first entry of `ls` with the id `id`.
pub open spec fn first_entry(ls: Seq<ListMetaView>, id: Seq<char>, e: int) -> bool {
    &&& 0 <= e < ls.len()
    &&& ls[e].id == id
    &&& forall|j: int| 0 <= j < e ==> ls[j].id != id
}

/// No entry of `ls` has the id `id`.
pub open spec fn unrecorded(ls: Seq<ListMetaView>, id: Seq<char>) -> bool {
    forall|j: int| 0 <= j < ls.len() ==> ls[j].id != id
}

/// The list `l` shows the directory `d` as the metadata `m` records it: titled and
/// colored as the first entry with the directory's id, or, with no such entry, titled
/// by the id and with no border color.
pub open spec fn shows_recorded(l: List, d: ListDir, m: BoardMetaView) -> bool {
    &&& l.path == d.path
    &&& forall|e: int|
        #[trigger] first_entry(m.lists, d.id@, e) ==> l.name@ == m.lists[e].title && opt_view(
            l.border_color,
        ) == m.lists[e].border_color
    &&& unrecorded(m.lists, d.id@) ==> l.name@ == d.id@ && l.border_color is None
}

proof fn lemma_first_entry(ls: Seq<ListMetaView>, id: Seq<char>)
    ensures
        forall|e: int| #[trigger] first_entry(ls, id, e) ==> meta_index_of(ls, id) == Some(e),
        unrecorded(ls, id) ==> meta_index_of(ls, id) is None,
    decreases ls.len(),
{
    if ls.len() > 0 {
        let init = ls.drop_last();
        lemma_first_entry(init, id);
        assert forall|e: int| #[trigger] first_entry(ls, id, e) implies meta_index_of(ls, id) == Some(
            e,
        ) by {
            if e < ls.len() - 1 {
                assert(first_entry(init, id, e));
            } else {
                assert(unrecorded(init, id));
            }
        }
        if unrecorded(ls, id) {
            assert(unrecorded(init, id));
        }
    }
}

/// Every list of a loaded board shows one of the list directories, titled and colored
/// as the board's metadata records that directory's id: a recorded border color is
/// kept on every load.
pub proof fn law_loaded_lists_keep_recorded_title_and_color(
    b: Board,
    path: String,
    fallback_name: Seq<char>,
    m: BoardMetaView,
    dirs: Seq<ListDir>,
    config: AppConfig,
    k: int,
)
    requires
        is_assembled_board(b, path, fallback_name, Some(m), dirs, config),
        0 <= k < b.lists@.len(),
    ensures
        exists|i: int| 0 <= i < dirs.len() && #[trigger] shows_recorded(b.lists@[k], dirs[i], m),
{
    let (built, order) = choose|built: Seq<List>, order: Seq<usize>|
        {
            &&& built.len() == dirs.len()
            &&& forall|i: int| 0 <= i < dirs.len() ==> #[trigger] is_list_of(built[i], dirs[i], Some(m))
            &&& #[trigger] is_sort_order(order, board_list_keys(built, dir_ids(dirs), Some(m)))
            &&& b.lists@ == apply_order(order, built)
        };
    let i = order[k] as int;
    assert(0 <= i < dirs.len());
    assert(b.lists@[k] == built[i]);
    assert(is_list_of(built[i], dirs[i], Some(m)));
    lemma_first_entry(m.lists, dirs[i].id@);
    assert(shows_recorded(b.lists@[k], dirs[i], m));
}

} // verus!
