//! The board metadata file (`.niffler.yaml`) and the rules that turn directories and
//! card files into a board: reading and writing the metadata, merging it with the
//! list directories found, ordering lists and cards, and positions for moved cards.
//! Reading and writing the files is left to the caller.
use vstd::prelude::*;

use crate::text::{
    append_chars, chars_eq_ignore_ascii_case, chars_of, decimal_i64, decimal_int, eq_ignore_ascii_case,
    has_prefix, lines, lines_of, parse_i64, parse_i64_chars, starts_with, string_of, trim, trimmed,
    copy_range, decimal_nat, decimal_u64,
};
use crate::board::{AppConfig, Board, List, Project};
use crate::card::{unquoted, Card};
use crate::text::{lowercase_str, str_to_lowercase};
use crate::sorting::{is_sort_order, keys_view, lemma_sort_order_distinct, permute, sort_order};

verus! {

broadcast use crate::views::lemma_chars_deep_view;

/// The name of the board metadata file.
pub const BOARD_METADATA_FILE: &'static str = ".niffler.yaml";

/// The distance between the positions given to consecutive lists and cards.
pub const POSITION_STEP: i64 = 1000;

/// What the metadata file records of a board.
#[derive(Clone, Debug, PartialEq, Eq)]
pub struct BoardMetadata {
    pub name: String,
    pub show_preview: bool,
    pub lists: Vec<ListMetadata>,
}

/// What the metadata file records of a list.
#[derive(Clone, Debug, PartialEq, Eq)]
pub struct ListMetadata {
    pub id: String,
    pub title: String,
    pub position: i64,
    pub border_color: Option<String>,
}

/// A list's metadata as values.
pub struct ListMetaView {
    pub id: Seq<char>,
    pub title: Seq<char>,
    pub position: i64,
    pub border_color: Option<Seq<char>>,
}

/// A board's metadata as values.
pub struct BoardMetaView {
    pub name: Seq<char>,
    pub show_preview: bool,
    pub lists: Seq<ListMetaView>,
}

/// The value of an optional text.
pub open spec fn opt_view(s: Option<String>) -> Option<Seq<char>> {
    match s {
        Some(v) => Some(v@),
        None => None,
    }
}

/// A list's metadata as values.
pub open spec fn list_meta_view(m: ListMetadata) -> ListMetaView {
    ListMetaView { id: m.id@, title: m.title@, position: m.position, border_color: opt_view(m.border_color) }
}

/// The lists' metadata as values.
pub open spec fn lists_view(v: Seq<ListMetadata>) -> Seq<ListMetaView> {
    Seq::new(v.len(), |i: int| list_meta_view(v[i]))
}

/// A board's metadata as values.
pub open spec fn board_meta_view(m: BoardMetadata) -> BoardMetaView {
    BoardMetaView { name: m.name@, show_preview: m.show_preview, lists: lists_view(m.lists@) }
}

/// A board's optional metadata as values.
pub open spec fn opt_meta_view(m: Option<BoardMetadata>) -> Option<BoardMetaView> {
    match m {
        Some(v) => Some(board_meta_view(v)),
        None => None,
    }
}

// ---------------------------------------------------------------------------
// Reading the metadata file
// ---------------------------------------------------------------------------

/// What has been read of the metadata file so far.
pub struct ParseState {
    pub name: Option<Seq<char>>,
    pub show_preview: bool,
    pub lists: Seq<ListMetaView>,
    pub current: Option<ListMetaView>,
}

/// The lists read, the one being read included.
pub open spec fn all_lists(st: ParseState) -> Seq<ListMetaView> {
    match st.current {
        Some(c) => st.lists.push(c),
        None => st.lists,
    }
}

/// `t` after the prefix `p`, trimmed.
pub open spec fn value_after(t: Seq<char>, p: Seq<char>) -> Seq<char> {
    trim(t.skip(p.len() as int))
}

/// One line of the metadata file read: `name:`, `show_preview:` and `- id:` lines
/// anywhere, and `title:`, `position:` and `border_color:` lines of the list being
/// read; other lines, and positions that do not parse, change nothing.
pub open spec fn parse_step(st: ParseState, line: Seq<char>) -> ParseState {
    let t = trim(line);
    if starts_with(t, "name:"@) {
        ParseState { name: Some(value_after(t, "name:"@)), ..st }
    } else if starts_with(t, "show_preview:"@) {
        ParseState {
            show_preview: eq_ignore_ascii_case(value_after(t, "show_preview:"@), "true"@),
            ..st
        }
    } else if starts_with(t, "- id:"@) {
        let id = value_after(t, "- id:"@);
        ParseState {
            lists: all_lists(st),
            current: Some(ListMetaView { id, title: id, position: i64::MAX, border_color: None }),
            ..st
        }
    } else {
        match st.current {
            Some(c) => if starts_with(t, "title:"@) {
                ParseState {
                    current: Some(ListMetaView { title: value_after(t, "title:"@), ..c }),
                    ..st
                }
            } else if starts_with(t, "position:"@) {
                match parse_i64(value_after(t, "position:"@)) {
                    Some(p) => ParseState { current: Some(ListMetaView { position: p, ..c }), ..st },
                    None => st,
                }
            } else if starts_with(t, "border_color:"@) {
                let v = unquoted(value_after(t, "border_color:"@));
                ParseState {
                    current: Some(
                        ListMetaView { border_color: if v.len() > 0 { Some(v) } else { None }, ..c },
                    ),
                    ..st
                }
            } else {
                st
            },
            None => st,
        }
    }
}

/// Nothing read yet.
pub open spec fn parse_start() -> ParseState {
    ParseState { name: None, show_preview: false, lists: Seq::empty(), current: None }
}

/// The lines `ls` read in order.
pub open spec fn parse_lines(ls: Seq<Seq<char>>) -> ParseState
    decreases ls.len(),
{
    if ls.len() == 0 {
        parse_start()
    } else {
        parse_step(parse_lines(ls.drop_last()), ls.last())
    }
}

/// What `parse_board_metadata` reads from `content`: nothing unless a `name:` line
/// is present; a list whose `position` is absent or does not parse gets `i64::MAX`.
pub open spec fn spec_parse_board_metadata(content: Seq<char>) -> Option<BoardMetaView> {
    let st = parse_lines(lines_of(content));
    match st.name {
        Some(n) => Some(BoardMetaView { name: n, show_preview: st.show_preview, lists: all_lists(st) }),
        None => None,
    }
}

/// The metadata that `content` records (see `spec_parse_board_metadata`).
pub fn parse_board_metadata(content: &str) -> (r: Option<BoardMetadata>)
    ensures
        opt_meta_view(r) == spec_parse_board_metadata(content@),
{
    let c = chars_of(content);
    let ls = lines(&c);
    let p_name = chars_of("name:");
    let p_show = chars_of("show_preview:");
    let p_id = chars_of("- id:");
    let p_title = chars_of("title:");
    let p_position = chars_of("position:");
    let p_border = chars_of("border_color:");
    let true_chars = chars_of("true");
    let mut name: Option<String> = None;
    let mut show_preview = false;
    let mut done: Vec<ListMetadata> = Vec::new();
    let mut current: Option<ListMetadata> = None;
    let mut i: usize = 0;
    assert(ls.deep_view().take(0) =~= Seq::<Seq<char>>::empty());
    while i < ls.len()
        invariant
            i <= ls.len(),
            p_name@ == "name:"@,
            p_show@ == "show_preview:"@,
            p_id@ == "- id:"@,
            p_title@ == "title:"@,
            p_position@ == "position:"@,
            p_border@ == "border_color:"@,
            true_chars@ == "true"@,
            ({
                let st = parse_lines(ls.deep_view().take(i as int));
                &&& opt_view(name) == st.name
                &&& show_preview == st.show_preview
                &&& lists_view(done@) == st.lists
                &&& (match current {
                    Some(m) => st.current == Some(list_meta_view(m)),
                    None => st.current is None,
                })
            }),
        decreases ls.len() - i,
    {
        let ghost prev = parse_lines(ls.deep_view().take(i as int));
        assert(ls.deep_view().take(i + 1).drop_last() =~= ls.deep_view().take(i as int));
        assert(ls.deep_view().take(i + 1).last() == ls@[i as int]@);
        let t = trimmed(&ls[i]);
        if has_prefix(&t, &p_name) {
            let v = trimmed(&copy_range(&t, p_name.len(), t.len()));
            assert(t@.subrange(p_name@.len() as int, t@.len() as int) =~= t@.skip(p_name@.len() as int));
            name = Some(string_of(&v));
        } else if has_prefix(&t, &p_show) {
            let v = trimmed(&copy_range(&t, p_show.len(), t.len()));
            assert(t@.subrange(p_show@.len() as int, t@.len() as int) =~= t@.skip(p_show@.len() as int));
            show_preview = chars_eq_ignore_ascii_case(&v, &true_chars);
        } else if has_prefix(&t, &p_id) {
            let v = trimmed(&copy_range(&t, p_id.len(), t.len()));
            assert(t@.subrange(p_id@.len() as int, t@.len() as int) =~= t@.skip(p_id@.len() as int));
            let ghost dv = done@;
            match current {
                Some(m) => {
                    done.push(m);
                    assert(lists_view(done@) =~= lists_view(dv).push(list_meta_view(m)));
                },
                None => {},
            }
            current = Some(ListMetadata {
                id: string_of(&v),
                title: string_of(&v),
                position: i64::MAX,
                border_color: None,
            });
        } else {
            match current {
                Some(m) => {
                    if has_prefix(&t, &p_title) {
                        let v = trimmed(&copy_range(&t, p_title.len(), t.len()));
                        assert(t@.subrange(p_title@.len() as int, t@.len() as int) =~= t@.skip(
                            p_title@.len() as int,
                        ));
                        current = Some(ListMetadata { title: string_of(&v), ..m });
                    } else if has_prefix(&t, &p_position) {
                        let v = trimmed(&copy_range(&t, p_position.len(), t.len()));
                        assert(t@.subrange(p_position@.len() as int, t@.len() as int) =~= t@.skip(
                            p_position@.len() as int,
                        ));
                        match parse_i64_chars(&v) {
                            Some(p) => {
                                current = Some(ListMetadata { position: p, ..m });
                            },
                            None => {
                                current = Some(m);
                            },
                        }
                    } else if has_prefix(&t, &p_border) {
                        let v = trimmed(&copy_range(&t, p_border.len(), t.len()));
                        assert(t@.subrange(p_border@.len() as int, t@.len() as int) =~= t@.skip(
                            p_border@.len() as int,
                        ));
                        let u = if v.len() >= 2 && v[0] == '"' && v[v.len() - 1] == '"' {
                            copy_range(&v, 1, v.len() - 1)
                        } else {
                            v
                        };
                        let color = if u.len() > 0 {
                            Some(string_of(&u))
                        } else {
                            None
                        };
                        current = Some(ListMetadata { border_color: color, ..m });
                    } else {
                        current = Some(m);
                    }
                },
                None => {},
            }
        }
        i += 1;
    }
    assert(ls.deep_view().take(i as int) =~= ls.deep_view());
    let ghost dv = done@;
    match current {
        Some(m) => {
            done.push(m);
            assert(lists_view(done@) =~= lists_view(dv).push(list_meta_view(m)));
        },
        None => {},
    }
    match name {
        Some(n) => Some(BoardMetadata { name: n, show_preview, lists: done }),
        None => None,
    }
}


// ---------------------------------------------------------------------------
// Writing the metadata file
// ---------------------------------------------------------------------------

/// The entry of one list in the metadata file.
pub open spec fn list_entry(l: ListMetaView) -> Seq<char> {
    "  - id: "@ + l.id + "\n    title: "@ + l.title + "\n    position: "@ + decimal_int(
        l.position as int,
    ) + "\n"@ + (match l.border_color {
        Some(c) => "    border_color: \""@ + c + "\"\n"@,
        None => Seq::empty(),
    }) + "\n"@
}

/// The entries of the lists `ls`, in order.
pub open spec fn list_entries(ls: Seq<ListMetaView>) -> Seq<char>
    decreases ls.len(),
{
    if ls.len() == 0 {
        Seq::empty()
    } else {
        list_entries(ls.drop_last()) + list_entry(ls.last())
    }
}

/// The text of the metadata file for `m`.
pub open spec fn spec_render_board_metadata(m: BoardMetaView) -> Seq<char> {
    "name: "@ + m.name + "\nshow_preview: "@ + (if m.show_preview {
        "true"@
    } else {
        "false"@
    }) + "\n\nlists:\n"@ + list_entries(m.lists)
}

fn list_entry_chars(l: &ListMetadata) -> (r: Vec<char>)
    ensures
        r@ == list_entry(list_meta_view(*l)),
{
    let mut v = chars_of("  - id: ");
    append_chars(&mut v, &chars_of(l.id.as_str()));
    append_chars(&mut v, &chars_of("\n    title: "));
    append_chars(&mut v, &chars_of(l.title.as_str()));
    append_chars(&mut v, &chars_of("\n    position: "));
    append_chars(&mut v, &decimal_i64(l.position));
    append_chars(&mut v, &chars_of("\n"));
    match &l.border_color {
        Some(c) => {
            append_chars(&mut v, &chars_of("    border_color: \""));
            append_chars(&mut v, &chars_of(c.as_str()));
            append_chars(&mut v, &chars_of("\"\n"));
        },
        None => {},
    }
    append_chars(&mut v, &chars_of("\n"));
    proof {
        let lv = list_meta_view(*l);
        assert(v@ =~= list_entry(lv));
    }
    v
}

/// The text of the metadata file for `metadata`.
pub fn render_board_metadata(metadata: &BoardMetadata) -> (r: String)
    ensures
        r@ == spec_render_board_metadata(board_meta_view(*metadata)),
{
    let mut v = chars_of("name: ");
    append_chars(&mut v, &chars_of(metadata.name.as_str()));
    append_chars(&mut v, &chars_of("\nshow_preview: "));
    append_chars(&mut v, &chars_of(if metadata.show_preview { "true" } else { "false" }));
    append_chars(&mut v, &chars_of("\n\nlists:\n"));
    let ghost head = v@;
    let mut i: usize = 0;
    while i < metadata.lists.len()
        invariant
            i <= metadata.lists.len(),
            v@ == head + list_entries(lists_view(metadata.lists@).take(i as int)),
        decreases metadata.lists.len() - i,
    {
        let e = list_entry_chars(&metadata.lists[i]);
        let ghost t = lists_view(metadata.lists@).take(i + 1);
        assert(t.drop_last() =~= lists_view(metadata.lists@).take(i as int));
        append_chars(&mut v, &e);
        i += 1;
    }
    assert(lists_view(metadata.lists@).take(i as int) =~= lists_view(metadata.lists@));
    string_of(&v)
}


// ---------------------------------------------------------------------------
// Merging the metadata with the list directories
// ---------------------------------------------------------------------------

/// The items at the indexes `order`, in that order.
pub open spec fn apply_order<T>(order: Seq<usize>, items: Seq<T>) -> Seq<T> {
    Seq::new(order.len(), |i: int| items[order[i] as int])
}

/// The largest position among `ls` (which is not empty).
pub open spec fn max_position_of(ls: Seq<ListMetaView>) -> int
    decreases ls.len(),
{
    if ls.len() <= 1 {
        if ls.len() == 1 {
            ls[0].position as int
        } else {
            0
        }
    } else {
        let m = max_position_of(ls.drop_last());
        if ls.last().position > m {
            ls.last().position as int
        } else {
            m
        }
    }
}

/// The position from which new lists are numbered: the largest recorded one, or 0.
pub open spec fn start_position(existing: Option<BoardMetaView>) -> int {
    match existing {
        Some(m) => if m.lists.len() > 0 {
            max_position_of(m.lists)
        } else {
            0
        },
        None => 0,
    }
}

/// The recorded lists of `existing`.
pub open spec fn recorded_lists(existing: Option<BoardMetaView>) -> Seq<ListMetaView> {
    match existing {
        Some(m) => m.lists,
        None => Seq::empty(),
    }
}

/// The index of the first list of `ls` with the id `id`.
pub open spec fn meta_index_of(ls: Seq<ListMetaView>, id: Seq<char>) -> Option<int>
    decreases ls.len(),
{
    if ls.len() == 0 {
        None
    } else {
        match meta_index_of(ls.drop_last(), id) {
            Some(i) => Some(i),
            None => if ls.last().id == id {
                Some(ls.len() - 1)
            } else {
                None
            },
        }
    }
}

/// The lists for the directories `ids`, in order: the recorded entry of a known id,
/// else a new entry titled by its id at the next position; and the last position given.
pub open spec fn merge_lists(recorded: Seq<ListMetaView>, ids: Seq<Seq<char>>, start: int) -> (
    Seq<ListMetaView>,
    int,
)
    decreases ids.len(),
{
    if ids.len() == 0 {
        (Seq::empty(), start)
    } else {
        let prev = merge_lists(recorded, ids.drop_last(), start);
        let id = ids.last();
        match meta_index_of(recorded, id) {
            Some(i) => (prev.0.push(recorded[i]), prev.1),
            None => (
                prev.0.push(
                    ListMetaView {
                        id,
                        title: id,
                        position: (prev.1 + POSITION_STEP) as i64,
                        border_color: None,
                    },
                ),
                prev.1 + POSITION_STEP,
            ),
        }
    }
}

/// The sort keys of directory names: the name alone.
pub open spec fn name_keys(names: Seq<Seq<char>>) -> Seq<(i64, Seq<char>)> {
    Seq::new(names.len(), |i: int| (0i64, names[i]))
}

/// The sort keys of lists: position, then id.
pub open spec fn list_keys(ls: Seq<ListMetaView>) -> Seq<(i64, Seq<char>)> {
    Seq::new(ls.len(), |i: int| (ls[i].position, ls[i].id))
}

/// The texts `v` as values.
pub open spec fn strings_view(v: Seq<String>) -> Seq<Seq<char>> {
    Seq::new(v.len(), |i: int| v[i]@)
}

/// Whether `r` is the metadata `existing` brought up to date with the list
/// directories `dirs`: named as recorded (else `fallback_name`), the preview setting
/// kept (else off), and one entry per directory, taken in name order and merged by
/// `merge_lists`, then ordered by position and id.
pub open spec fn is_synced_metadata(
    r: BoardMetaView,
    existing: Option<BoardMetaView>,
    dirs: Seq<Seq<char>>,
    fallback_name: Seq<char>,
) -> bool {
    &&& r.name == (match existing {
        Some(m) => m.name,
        None => fallback_name,
    })
    &&& r.show_preview == (match existing {
        Some(m) => m.show_preview,
        None => false,
    })
    &&& exists|dir_order: Seq<usize>, list_order: Seq<usize>|
        {
            &&& is_sort_order(dir_order, name_keys(dirs))
            &&& #[trigger] is_sort_order(
                list_order,
                list_keys(
                    merge_lists(
                        recorded_lists(existing),
                        apply_order(dir_order, dirs),
                        start_position(existing),
                    ).0,
                ),
            )
            &&& r.lists == apply_order(
                list_order,
                merge_lists(
                    recorded_lists(existing),
                    apply_order(dir_order, dirs),
                    start_position(existing),
                ).0,
            )
        }
}

/// The largest recorded position, or 0.
fn start_position_of(existing: &Option<BoardMetadata>) -> (r: i64)
    ensures
        r == start_position(opt_meta_view(*existing)),
{
    match existing {
        Some(m) => {
            if m.lists.len() == 0 {
                return 0;
            }
            let ghost lv = lists_view(m.lists@);
            let mut best = m.lists[0].position;
            let mut i: usize = 1;
            assert(lv.take(1).drop_last() =~= Seq::<ListMetaView>::empty());
            while i < m.lists.len()
                invariant
                    1 <= i <= m.lists.len(),
                    lv == lists_view(m.lists@),
                    best == max_position_of(lv.take(i as int)),
                decreases m.lists.len() - i,
            {
                assert(lv.take(i + 1).drop_last() =~= lv.take(i as int));
                if m.lists[i].position > best {
                    best = m.lists[i].position;
                }
                i += 1;
            }
            assert(lv.take(i as int) =~= lv);
            best
        },
        None => 0,
    }
}

/// The index of the first recorded list with the id `id`.
fn find_meta(ls: &Vec<ListMetadata>, id: &String) -> (r: Option<usize>)
    ensures
        r matches Some(i) ==> i < ls@.len() && meta_index_of(lists_view(ls@), id@) == Some(i as int),
        r is None ==> meta_index_of(lists_view(ls@), id@) is None,
{
    let ghost lv = lists_view(ls@);
    let mut i: usize = 0;
    while i < ls.len()
        invariant
            i <= ls.len(),
            lv == lists_view(ls@),
            meta_index_of(lv.take(i as int), id@) is None,
        decreases ls.len() - i,
    {
        assert(lv.take(i + 1).drop_last() =~= lv.take(i as int));
        if ls[i].id == *id {
            proof {
                lemma_meta_index_prefix(lv, id@, i + 1, i as int);
            }
            return Some(i);
        }
        i += 1;
    }
    assert(lv.take(i as int) =~= lv);
    None
}

proof fn lemma_meta_index_prefix(ls: Seq<ListMetaView>, id: Seq<char>, k: int, j: int)
    requires
        0 < k <= ls.len(),
        meta_index_of(ls.take(k), id) == Some(j),
    ensures
        meta_index_of(ls, id) == Some(j),
    decreases ls.len() - k,
{
    if k < ls.len() {
        assert(ls.take(k + 1).drop_last() =~= ls.take(k));
        lemma_meta_index_prefix(ls, id, k + 1, j);
    } else {
        assert(ls.take(k) =~= ls);
    }
}

pub(crate) proof fn lemma_meta_index_of(ls: Seq<ListMetaView>, id: Seq<char>)
    ensures
        meta_index_of(ls, id) matches Some(i) ==> 0 <= i < ls.len() && ls[i].id == id,
    decreases ls.len(),
{
    if ls.len() > 0 {
        lemma_meta_index_of(ls.drop_last(), id);
    }
}

/// A copy of the list metadata `m`.
fn copy_list_meta(m: &ListMetadata) -> (r: ListMetadata)
    ensures
        list_meta_view(r) == list_meta_view(*m),
{
    ListMetadata {
        id: m.id.clone(),
        title: m.title.clone(),
        position: m.position,
        border_color: match &m.border_color {
            Some(c) => Some(c.clone()),
            None => None,
        },
    }
}

/// The metadata `existing` brought up to date with the list directories `dirs` (see
/// `is_synced_metadata`). `None` when numbering a new list would go past `i64::MAX`.
pub fn sync_board_metadata(
    existing: &Option<BoardMetadata>,
    dirs: &Vec<String>,
    fallback_name: &String,
) -> (r: Option<BoardMetadata>)
    ensures
        r is None ==> exists|dir_order: Seq<usize>|
            #[trigger] is_sort_order(dir_order, name_keys(strings_view(dirs@))) && merge_lists(
                recorded_lists(opt_meta_view(*existing)),
                apply_order(dir_order, strings_view(dirs@)),
                start_position(opt_meta_view(*existing)),
            ).1 > i64::MAX,
        r matches Some(m) ==> is_synced_metadata(
            board_meta_view(m),
            opt_meta_view(*existing),
            strings_view(dirs@),
            fallback_name@,
        ),
{
    let ghost ev = opt_meta_view(*existing);
    let ghost dv = strings_view(dirs@);
    // Directory names in name order.
    let mut name_key_vec: Vec<(i64, Vec<char>)> = Vec::new();
    let mut i: usize = 0;
    while i < dirs.len()
        invariant
            i <= dirs.len(),
            dv == strings_view(dirs@),
            name_key_vec@.len() == i,
            keys_view(name_key_vec@) == name_keys(dv).take(i as int),
        decreases dirs.len() - i,
    {
        let ghost before = name_key_vec@;
        name_key_vec.push((0i64, chars_of(dirs[i].as_str())));
        assert forall|t: int| 0 <= t < i + 1 implies keys_view(name_key_vec@)[t] == name_keys(dv).take(i + 1)[t] by {
            if t < i {
                assert(name_key_vec@[t] == before[t]);
                assert(keys_view(before)[t] == name_keys(dv).take(i as int)[t]);
            }
        }
        assert(keys_view(name_key_vec@) =~= name_keys(dv).take(i + 1));
        i += 1;
    }
    assert(name_keys(dv).take(i as int) =~= name_keys(dv));
    let dir_order = sort_order(&name_key_vec);
    let ghost ids = apply_order(dir_order@, dv);
    let recorded: Vec<ListMetadata> = match existing {
        Some(m) => {
            let mut v: Vec<ListMetadata> = Vec::new();
            let mut j: usize = 0;
            while j < m.lists.len()
                invariant
                    j <= m.lists.len(),
                    v@.len() == j,
                    lists_view(v@) == lists_view(m.lists@).take(j as int),
                decreases m.lists.len() - j,
            {
                let ghost before = v@;
                v.push(copy_list_meta(&m.lists[j]));
                assert forall|t: int| 0 <= t < j + 1 implies lists_view(v@)[t] == lists_view(m.lists@).take(j + 1)[t] by {
                    if t < j {
                        assert(v@[t] == before[t]);
                        assert(lists_view(before)[t] == lists_view(m.lists@).take(j as int)[t]);
                    }
                }
                assert(lists_view(v@) =~= lists_view(m.lists@).take(j + 1));
                j += 1;
            }
            assert(lists_view(m.lists@).take(j as int) =~= lists_view(m.lists@));
            v
        },
        None => Vec::new(),
    };
    assert(lists_view(recorded@) =~= recorded_lists(ev));
    let start = start_position_of(existing);
    let mut last: i64 = start;
    let mut merged: Vec<ListMetadata> = Vec::new();
    let mut k: usize = 0;
    while k < dir_order.len()
        invariant
            k <= dir_order.len(),
            is_sort_order(dir_order@, name_keys(dv)),
            dv == strings_view(dirs@),
            ids == apply_order(dir_order@, dv),
            ev == opt_meta_view(*existing),
            start as int == start_position(ev),
            lists_view(recorded@) == recorded_lists(ev),
            lists_view(merged@) == merge_lists(recorded_lists(ev), ids.take(k as int), start as int).0,
            last as int == merge_lists(recorded_lists(ev), ids.take(k as int), start as int).1,
        decreases dir_order.len() - k,
    {
        let d = dir_order[k];
        assert(d < dirs.len());
        let id = &dirs[d];
        assert(ids.take(k + 1).drop_last() =~= ids.take(k as int));
        assert(ids.take(k + 1).last() == id@);
        match find_meta(&recorded, id) {
            Some(idx) => {
                merged.push(copy_list_meta(&recorded[idx]));
                assert(lists_view(merged@) =~= merge_lists(recorded_lists(ev), ids.take(k + 1), start as int).0);
            },
            None => {
                if last > i64::MAX - POSITION_STEP {
                    proof {
                        assert(merge_lists(recorded_lists(ev), ids.take(k + 1), start as int).1 == last + POSITION_STEP);
                        lemma_merge_grows(recorded_lists(ev), ids, start as int, k + 1);
                        assert(is_sort_order(dir_order@, name_keys(dv)));
                    }
                    return None;
                }
                last = last + POSITION_STEP;
                merged.push(ListMetadata {
                    id: id.clone(),
                    title: id.clone(),
                    position: last,
                    border_color: None,
                });
                assert(lists_view(merged@) =~= merge_lists(recorded_lists(ev), ids.take(k + 1), start as int).0);
            },
        }
        k += 1;
    }
    assert(ids.take(k as int) =~= ids);
    // Ordered by position, then id.
    let mut list_key_vec: Vec<(i64, Vec<char>)> = Vec::new();
    let mut j: usize = 0;
    while j < merged.len()
        invariant
            j <= merged.len(),
            list_key_vec@.len() == j,
            keys_view(list_key_vec@) == list_keys(lists_view(merged@)).take(j as int),
        decreases merged.len() - j,
    {
        let ghost before = list_key_vec@;
        list_key_vec.push((merged[j].position, chars_of(merged[j].id.as_str())));
        assert forall|t: int| 0 <= t < j + 1 implies keys_view(list_key_vec@)[t] == list_keys(lists_view(merged@)).take(j + 1)[t] by {
            if t < j {
                assert(list_key_vec@[t] == before[t]);
                assert(keys_view(before)[t] == list_keys(lists_view(merged@)).take(j as int)[t]);
            }
        }
        assert(keys_view(list_key_vec@) =~= list_keys(lists_view(merged@)).take(j + 1));
        j += 1;
    }
    assert(list_keys(lists_view(merged@)).take(j as int) =~= list_keys(lists_view(merged@)));
    let list_order = sort_order(&list_key_vec);
    let mut lists: Vec<ListMetadata> = Vec::new();
    let mut q: usize = 0;
    while q < list_order.len()
        invariant
            q <= list_order.len(),
            lists@.len() == q,
            is_sort_order(list_order@, list_keys(lists_view(merged@))),
            lists_view(lists@) == apply_order(list_order@, lists_view(merged@)).take(q as int),
        decreases list_order.len() - q,
    {
        let idx = list_order[q];
        let ghost before = lists@;
        lists.push(copy_list_meta(&merged[idx]));
        assert forall|t: int| 0 <= t < q + 1 implies lists_view(lists@)[t] == apply_order(list_order@, lists_view(merged@)).take(q + 1)[t] by {
            if t < q {
                assert(lists@[t] == before[t]);
                assert(lists_view(before)[t] == apply_order(list_order@, lists_view(merged@)).take(q as int)[t]);
            }
        }
        assert(lists_view(lists@) =~= apply_order(list_order@, lists_view(merged@)).take(q + 1));
        q += 1;
    }
    assert(apply_order(list_order@, lists_view(merged@)).take(q as int) =~= apply_order(
        list_order@,
        lists_view(merged@),
    ));
    let (name, show_preview) = match existing {
        Some(m) => (m.name.clone(), m.show_preview),
        None => (fallback_name.clone(), false),
    };
    let r = BoardMetadata { name, show_preview, lists };
    assert(is_synced_metadata(board_meta_view(r), ev, dv, fallback_name@)) by {
        assert(is_sort_order(dir_order@, name_keys(dv)));
    }
    Some(r)
}

proof fn lemma_merge_grows(recorded: Seq<ListMetaView>, ids: Seq<Seq<char>>, start: int, k: int)
    requires
        0 <= k <= ids.len(),
    ensures
        merge_lists(recorded, ids.take(k), start).1 <= merge_lists(recorded, ids, start).1,
    decreases ids.len() - k,
{
    if k < ids.len() {
        assert(ids.take(k + 1).drop_last() =~= ids.take(k));
        lemma_merge_grows(recorded, ids, start, k + 1);
    } else {
        assert(ids.take(k) =~= ids);
    }
}


// ---------------------------------------------------------------------------
// Ordering boards, lists and cards
// ---------------------------------------------------------------------------

/// The sort keys of texts by their lowercase form.
pub open spec fn lowercase_keys(names: Seq<Seq<char>>) -> Seq<(i64, Seq<char>)> {
    Seq::new(names.len(), |i: int| (0i64, lowercase_str(names[i])))
}

/// The stable sort order of `names` by their lowercase form.
pub fn lowercase_order(names: &Vec<String>) -> (r: Vec<usize>)
    ensures
        is_sort_order(r@, lowercase_keys(strings_view(names@))),
{
    let ghost nv = strings_view(names@);
    let mut keys: Vec<(i64, Vec<char>)> = Vec::new();
    let mut i: usize = 0;
    while i < names.len()
        invariant
            i <= names.len(),
            nv == strings_view(names@),
            keys@.len() == i,
            keys_view(keys@) == lowercase_keys(nv).take(i as int),
        decreases names.len() - i,
    {
        let ghost before = keys@;
        let low = str_to_lowercase(names[i].as_str());
        keys.push((0i64, chars_of(low.as_str())));
        assert forall|t: int| 0 <= t < i + 1 implies keys_view(keys@)[t] == lowercase_keys(nv).take(i + 1)[t] by {
            if t < i {
                assert(keys@[t] == before[t]);
                assert(keys_view(before)[t] == lowercase_keys(nv).take(i as int)[t]);
            }
        }
        assert(keys_view(keys@) =~= lowercase_keys(nv).take(i + 1));
        i += 1;
    }
    assert(lowercase_keys(nv).take(i as int) =~= lowercase_keys(nv));
    sort_order(&keys)
}

/// The names of the projects.
pub open spec fn project_names(ps: Seq<Project>) -> Seq<Seq<char>> {
    Seq::new(ps.len(), |i: int| ps[i].name@)
}

/// The boards in the order of their lowercase names (a stable sort).
pub fn sort_projects(projects: Vec<Project>) -> (r: Vec<Project>)
    ensures
        exists|order: Seq<usize>|
            #[trigger] is_sort_order(order, lowercase_keys(project_names(projects@)))
                && r@ == apply_order(order, projects@),
{
    let mut names: Vec<String> = Vec::new();
    let mut i: usize = 0;
    while i < projects.len()
        invariant
            i <= projects.len(),
            names@.len() == i,
            strings_view(names@) == project_names(projects@).take(i as int),
        decreases projects.len() - i,
    {
        let ghost before = names@;
        names.push(projects[i].name.clone());
        assert forall|t: int| 0 <= t < i + 1 implies strings_view(names@)[t] == project_names(
            projects@,
        ).take(i + 1)[t] by {
            if t < i {
                assert(names@[t] == before[t]);
                assert(strings_view(before)[t] == project_names(projects@).take(i as int)[t]);
            }
        }
        assert(strings_view(names@) =~= project_names(projects@).take(i + 1));
        i += 1;
    }
    assert(project_names(projects@).take(i as int) =~= project_names(projects@));
    let order = lowercase_order(&names);
    proof {
        lemma_sort_order_distinct(order@, lowercase_keys(project_names(projects@)));
    }
    permute(projects, &order)
}

/// The sort keys of cards: position, then lowercase file name.
pub open spec fn card_keys(cards: Seq<Card>) -> Seq<(i64, Seq<char>)> {
    Seq::new(cards.len(), |i: int| (cards[i].position, lowercase_str(cards[i].filename@)))
}

/// The cards of a list in display order: by position, then lowercase file name (a
/// stable sort).
pub fn sort_cards(cards: Vec<Card>) -> (r: Vec<Card>)
    ensures
        exists|order: Seq<usize>|
            #[trigger] is_sort_order(order, card_keys(cards@)) && r@ == apply_order(order, cards@),
{
    let mut keys: Vec<(i64, Vec<char>)> = Vec::new();
    let mut i: usize = 0;
    while i < cards.len()
        invariant
            i <= cards.len(),
            keys@.len() == i,
            keys_view(keys@) == card_keys(cards@).take(i as int),
        decreases cards.len() - i,
    {
        let ghost before = keys@;
        let low = str_to_lowercase(cards[i].filename.as_str());
        keys.push((cards[i].position, chars_of(low.as_str())));
        assert forall|t: int| 0 <= t < i + 1 implies keys_view(keys@)[t] == card_keys(cards@).take(i + 1)[t] by {
            if t < i {
                assert(keys@[t] == before[t]);
                assert(keys_view(before)[t] == card_keys(cards@).take(i as int)[t]);
            }
        }
        assert(keys_view(keys@) =~= card_keys(cards@).take(i + 1));
        i += 1;
    }
    assert(card_keys(cards@).take(i as int) =~= card_keys(cards@));
    let order = sort_order(&keys);
    proof {
        lemma_sort_order_distinct(order@, card_keys(cards@));
    }
    permute(cards, &order)
}

/// The position that a list with the id `id` sorts by: the recorded one, else last.
pub open spec fn spec_list_sort_position(metadata: Option<BoardMetaView>, id: Seq<char>) -> i64 {
    match metadata {
        Some(m) => match meta_index_of(m.lists, id) {
            Some(i) => m.lists[i].position,
            None => i64::MAX,
        },
        None => i64::MAX,
    }
}

/// The position that a list with the id `id` sorts by.
pub fn list_sort_position(metadata: &Option<BoardMetadata>, id: &String) -> (r: i64)
    ensures
        r == spec_list_sort_position(opt_meta_view(*metadata), id@),
{
    match metadata {
        Some(m) => match find_meta(&m.lists, id) {
            Some(i) => m.lists[i].position,
            None => i64::MAX,
        },
        None => i64::MAX,
    }
}

/// A list directory read from disk: its name, its path and its cards.
pub struct ListDir {
    pub id: String,
    pub path: String,
    pub cards: Vec<Card>,
}

/// The list built from a directory: titled and colored as its metadata records
/// (else titled by its id), with its cards in display order.
pub open spec fn is_list_of(l: List, d: ListDir, metadata: Option<BoardMetaView>) -> bool {
    let rec = match metadata {
        Some(m) => match meta_index_of(m.lists, d.id@) {
            Some(i) => Some(m.lists[i]),
            None => None,
        },
        None => None,
    };
    &&& l.name@ == (match rec {
        Some(x) => x.title,
        None => d.id@,
    })
    &&& opt_view(l.border_color) == (match rec {
        Some(x) => x.border_color,
        None => None,
    })
    &&& l.path == d.path
    &&& exists|order: Seq<usize>|
        #[trigger] is_sort_order(order, card_keys(d.cards@)) && l.cards@ == apply_order(
            order,
            d.cards@,
        )
}

/// The sort keys of lists on a board: the metadata position, then lowercase title.
pub open spec fn board_list_keys(ls: Seq<List>, ids: Seq<Seq<char>>, metadata: Option<BoardMetaView>) -> Seq<
    (i64, Seq<char>),
> {
    Seq::new(ls.len(), |i: int| (spec_list_sort_position(metadata, ids[i]), lowercase_str(ls[i].name@)))
}

/// The ids of the list directories.
pub open spec fn dir_ids(dirs: Seq<ListDir>) -> Seq<Seq<char>> {
    Seq::new(dirs.len(), |i: int| dirs[i].id@)
}

fn list_from_dir(d: ListDir, metadata: &Option<BoardMetadata>) -> (r: List)
    ensures
        is_list_of(r, d, opt_meta_view(*metadata)),
{
    let ghost dd = d;
    let rec_index = match metadata {
        Some(m) => find_meta(&m.lists, &d.id),
        None => None,
    };
    let (name, border_color) = match metadata {
        Some(m) => match rec_index {
            Some(i) => (
                m.lists[i].title.clone(),
                match &m.lists[i].border_color {
                    Some(c) => Some(c.clone()),
                    None => None,
                },
            ),
            None => (d.id.clone(), None),
        },
        None => (d.id.clone(), None),
    };
    let cards = sort_cards(d.cards);
    List { name, path: d.path, cards, border_color }
}

/// Whether `b` is the board built from the list directories `dirs` and the metadata:
/// named as recorded (else `fallback_name`), colored by `config`, with one list per
/// directory ordered by metadata position and then lowercase title (a stable sort).
pub open spec fn is_assembled_board(
    b: Board,
    path: String,
    fallback_name: Seq<char>,
    metadata: Option<BoardMetaView>,
    dirs: Seq<ListDir>,
    config: AppConfig,
) -> bool {
    &&& b.name@ == (match metadata {
        Some(m) => m.name,
        None => fallback_name,
    })
    &&& b.path == path
    &&& b.theme == config.theme
    &&& b.colors == config.colors
    &&& exists|built: Seq<List>, order: Seq<usize>|
        {
            &&& built.len() == dirs.len()
            &&& forall|i: int| 0 <= i < dirs.len() ==> #[trigger] is_list_of(built[i], dirs[i], metadata)
            &&& #[trigger] is_sort_order(order, board_list_keys(built, dir_ids(dirs), metadata))
            &&& b.lists@ == apply_order(order, built)
        }
}

/// The board built from its list directories and metadata (see `is_assembled_board`).
pub fn assemble_board(
    path: String,
    fallback_name: &String,
    metadata: &Option<BoardMetadata>,
    dirs: Vec<ListDir>,
    config: AppConfig,
) -> (r: Board)
    ensures
        is_assembled_board(r, path, fallback_name@, opt_meta_view(*metadata), dirs@, config),
{
    let ghost dv = dirs@;
    let ghost mv = opt_meta_view(*metadata);
    let n = dirs.len();
    // Reverse the directories, so that popping takes them in their order.
    let mut dirs = dirs;
    let mut rest: Vec<ListDir> = Vec::new();
    while dirs.len() > 0
        invariant
            dirs@.len() + rest@.len() == n,
            n == dv.len(),
            forall|k: int| 0 <= k < dirs@.len() ==> dirs@[k] == dv[k],
            forall|k: int| 0 <= k < rest@.len() ==> #[trigger] rest@[k] == dv[n - 1 - k],
        decreases dirs.len(),
    {
        let d = dirs.pop().unwrap();
        rest.push(d);
    }
    let mut built: Vec<List> = Vec::new();
    let mut ids: Vec<String> = Vec::new();
    while rest.len() > 0
        invariant
            rest@.len() + built@.len() == n,
            n == dv.len(),
            ids@.len() == built@.len(),
            forall|k: int| 0 <= k < rest@.len() ==> #[trigger] rest@[k] == dv[n - 1 - k],
            forall|k: int| 0 <= k < built@.len() ==> #[trigger] is_list_of(built@[k], dv[k], mv),
            forall|k: int| 0 <= k < ids@.len() ==> #[trigger] ids@[k]@ == dv[k].id@,
            mv == opt_meta_view(*metadata),
        decreases rest.len(),
    {
        let ghost m = built@.len();
        let d = rest.pop().unwrap();
        assert(d == dv[m as int]);
        ids.push(d.id.clone());
        let l = list_from_dir(d, metadata);
        built.push(l);
    }
    let mut keys: Vec<(i64, Vec<char>)> = Vec::new();
    let mut i: usize = 0;
    while i < built.len()
        invariant
            i <= built@.len(),
            n == dv.len(),
            built@.len() == n,
            ids@.len() == n,
            keys@.len() == i,
            forall|k: int| 0 <= k < ids@.len() ==> #[trigger] ids@[k]@ == dv[k].id@,
            mv == opt_meta_view(*metadata),
            keys_view(keys@) == board_list_keys(built@, dir_ids(dv), mv).take(i as int),
        decreases built.len() - i,
    {
        let ghost before = keys@;
        let position = list_sort_position(metadata, &ids[i]);
        let low = str_to_lowercase(built[i].name.as_str());
        keys.push((position, chars_of(low.as_str())));
        assert forall|t: int| 0 <= t < i + 1 implies keys_view(keys@)[t] == board_list_keys(
            built@,
            dir_ids(dv),
            mv,
        ).take(i + 1)[t] by {
            if t < i {
                assert(keys@[t] == before[t]);
                assert(keys_view(before)[t] == board_list_keys(built@, dir_ids(dv), mv).take(
                    i as int,
                )[t]);
            }
        }
        assert(keys_view(keys@) =~= board_list_keys(built@, dir_ids(dv), mv).take(i + 1));
        i += 1;
    }
    assert(board_list_keys(built@, dir_ids(dv), mv).take(i as int) =~= board_list_keys(
        built@,
        dir_ids(dv),
        mv,
    ));
    let order = sort_order(&keys);
    proof {
        lemma_sort_order_distinct(order@, board_list_keys(built@, dir_ids(dv), mv));
    }
    let ghost bv = built@;
    let lists = permute(built, &order);
    let name = match metadata {
        Some(m) => m.name.clone(),
        None => fallback_name.clone(),
    };
    let b = Board {
        name,
        path,
        theme: config.theme,
        colors: config.colors,
        lists,
    };
    assert(b.lists@ == apply_order(order@, bv));
    b
}

// ---------------------------------------------------------------------------
// Editing the metadata
// ---------------------------------------------------------------------------

/// The metadata of a new board named `name` (trimmed): no preview, no lists.
pub fn new_board_metadata(name: &str) -> (r: BoardMetadata)
    ensures
        board_meta_view(r) == (BoardMetaView { name: trim(name@), show_preview: false, lists: Seq::empty() }),
{
    let r = BoardMetadata {
        name: string_of(&trimmed(&chars_of(name))),
        show_preview: false,
        lists: Vec::new(),
    };
    assert(lists_view(r.lists@) =~= Seq::empty());
    r
}

/// Names the board `name`, trimmed.
pub fn set_board_name(metadata: &mut BoardMetadata, name: &str)
    ensures
        board_meta_view(*final(metadata)) == (BoardMetaView { name: trim(name@), ..board_meta_view(*old(metadata)) }),
{
    metadata.name = string_of(&trimmed(&chars_of(name)));
}

/// Whether the board shows the card preview: as its metadata records, else not.
pub fn board_preview_setting(metadata: &Option<BoardMetadata>) -> (r: bool)
    ensures
        r == (match metadata {
            Some(m) => m.show_preview,
            None => false,
        }),
{
    match metadata {
        Some(m) => m.show_preview,
        None => false,
    }
}

/// Whether a board opens with the card preview shown, given its metadata as it was
/// before being brought up to date: as recorded, and shown for a board that had none.
pub fn opening_preview(before: &Option<BoardMetadata>) -> (r: bool)
    ensures
        r == (match before {
            Some(m) => m.show_preview,
            None => true,
        }),
{
    match before {
        Some(m) => m.show_preview,
        None => true,
    }
}

/// Records whether the board shows the card preview.
pub fn set_board_preview(metadata: &mut BoardMetadata, show_preview: bool)
    ensures
        board_meta_view(*final(metadata)) == (BoardMetaView { show_preview, ..board_meta_view(*old(metadata)) }),
{
    metadata.show_preview = show_preview;
}

/// `ls` with the entry at `i` replaced by `l`.
proof fn lemma_lists_view_update(ls: Seq<ListMetadata>, i: int, l: ListMetadata)
    requires
        0 <= i < ls.len(),
    ensures
        lists_view(ls.update(i, l)) == lists_view(ls).update(i, list_meta_view(l)),
{
    assert(lists_view(ls.update(i, l)) =~= lists_view(ls).update(i, list_meta_view(l)));
}

/// The lists `ls` with the first one whose id is `id` changed by `f`, if there is one.
pub open spec fn edit_first(
    ls: Seq<ListMetaView>,
    id: Seq<char>,
    f: spec_fn(ListMetaView) -> ListMetaView,
) -> Seq<ListMetaView> {
    match meta_index_of(ls, id) {
        Some(i) => ls.update(i, f(ls[i])),
        None => ls,
    }
}

/// Titles the list whose id is `id` `name`, trimmed (the first such list; none
/// changes when no list has that id).
pub fn set_list_title(metadata: &mut BoardMetadata, id: &String, name: &str)
    ensures
        board_meta_view(*final(metadata)) == (BoardMetaView {
            lists: edit_first(
                board_meta_view(*old(metadata)).lists,
                id@,
                |l: ListMetaView| ListMetaView { title: trim(name@), ..l },
            ),
            ..board_meta_view(*old(metadata))
        }),
{
    let ghost old_lists = metadata.lists@;
    match find_meta(&metadata.lists, id) {
        Some(i) => {
            let mut l = copy_list_meta(&metadata.lists[i]);
            l.title = string_of(&trimmed(&chars_of(name)));
            metadata.lists.set(i, l);
            proof {
                lemma_lists_view_update(old_lists, i as int, l);
            }
        },
        None => {},
    }
}

/// Gives the list whose id is `old_id` the id `new_id` and the title `name`, trimmed
/// (the first such list; none changes when no list has that id).
pub fn rename_list_entry(metadata: &mut BoardMetadata, old_id: &String, new_id: &String, name: &str)
    ensures
        board_meta_view(*final(metadata)) == (BoardMetaView {
            lists: edit_first(
                board_meta_view(*old(metadata)).lists,
                old_id@,
                |l: ListMetaView| ListMetaView { id: new_id@, title: trim(name@), ..l },
            ),
            ..board_meta_view(*old(metadata))
        }),
{
    let ghost old_lists = metadata.lists@;
    match find_meta(&metadata.lists, old_id) {
        Some(i) => {
            let mut l = copy_list_meta(&metadata.lists[i]);
            l.id = new_id.clone();
            l.title = string_of(&trimmed(&chars_of(name)));
            metadata.lists.set(i, l);
            proof {
                lemma_lists_view_update(old_lists, i as int, l);
            }
        },
        None => {},
    }
}

/// Records `color` as the border color of the list whose id is `id` (the first such
/// list; none changes when no list has that id).
pub fn set_list_border_color(metadata: &mut BoardMetadata, id: &String, color: &str)
    ensures
        board_meta_view(*final(metadata)) == (BoardMetaView {
            lists: edit_first(
                board_meta_view(*old(metadata)).lists,
                id@,
                |l: ListMetaView| ListMetaView { border_color: Some(color@), ..l },
            ),
            ..board_meta_view(*old(metadata))
        }),
{
    let ghost old_lists = metadata.lists@;
    match find_meta(&metadata.lists, id) {
        Some(i) => {
            let mut l = copy_list_meta(&metadata.lists[i]);
            l.border_color = Some(String::from_str(color));
            metadata.lists.set(i, l);
            proof {
                lemma_lists_view_update(old_lists, i as int, l);
            }
        },
        None => {},
    }
}

/// `ls` with each list's position made `(index + 1) * 1000`.
pub open spec fn renumbered(ls: Seq<ListMetaView>) -> Seq<ListMetaView> {
    Seq::new(
        ls.len(),
        |i: int| ListMetaView { position: ((i + 1) * POSITION_STEP) as i64, ..ls[i] },
    )
}

/// `ls` with the entry at `from` taken out and put back at index `to` (at most the
/// last index).
pub open spec fn moved_entry(ls: Seq<ListMetaView>, from: int, to: int) -> Seq<ListMetaView> {
    let rest = ls.remove(from);
    let t = if to < rest.len() {
        to
    } else {
        rest.len() as int
    };
    rest.insert(t, ls[from])
}

/// Moves the list whose id is `list_id` to index `target_index` (or last, past the
/// end) and numbers all lists again in steps of 1000. Returns whether there was such a
/// list; without one, nothing changes.
pub fn move_list_to_index(metadata: &mut BoardMetadata, list_id: &String, target_index: usize) -> (moved: bool)
    requires
        old(metadata).lists@.len() * POSITION_STEP <= i64::MAX,
    ensures
        moved == meta_index_of(board_meta_view(*old(metadata)).lists, list_id@) is Some,
        board_meta_view(*final(metadata)) == (BoardMetaView {
            lists: match meta_index_of(board_meta_view(*old(metadata)).lists, list_id@) {
                Some(s) => renumbered(moved_entry(board_meta_view(*old(metadata)).lists, s, target_index as int)),
                None => board_meta_view(*old(metadata)).lists,
            },
            ..board_meta_view(*old(metadata))
        }),
{
    let ghost ov = board_meta_view(*metadata).lists;
    let source = match find_meta(&metadata.lists, list_id) {
        Some(i) => i,
        None => {
            return false;
        },
    };
    let ghost old_lists = metadata.lists@;
    let entry = metadata.lists.remove(source);
    let n = metadata.lists.len();
    let t = if target_index < n {
        target_index
    } else {
        n
    };
    metadata.lists.insert(t, entry);
    assert(lists_view(metadata.lists@) =~= moved_entry(ov, source as int, target_index as int));
    let ghost mid = lists_view(metadata.lists@);
    let ghost name = metadata.name;
    let ghost show = metadata.show_preview;
    let mut i: usize = 0;
    while i < metadata.lists.len()
        invariant
            metadata.name == name,
            metadata.show_preview == show,
            i <= metadata.lists@.len(),
            metadata.lists@.len() == mid.len(),
            mid.len() * POSITION_STEP <= i64::MAX,
            forall|k: int|
                0 <= k < mid.len() ==> #[trigger] lists_view(metadata.lists@)[k] == (if k < i {
                    renumbered(mid)[k]
                } else {
                    mid[k]
                }),
        decreases metadata.lists.len() - i,
    {
        assert((i + 1) * POSITION_STEP <= mid.len() * POSITION_STEP) by (nonlinear_arith)
            requires
                i < mid.len(),
                POSITION_STEP == 1000,
        ;
        let ghost before = metadata.lists@;
        let mut l = copy_list_meta(&metadata.lists[i]);
        l.position = (i as i64 + 1) * POSITION_STEP;
        metadata.lists.set(i, l);
        proof {
            lemma_lists_view_update(before, i as int, l);
            assert forall|k: int| 0 <= k < mid.len() implies #[trigger] lists_view(metadata.lists@)[k] == (if k < i + 1 {
                renumbered(mid)[k]
            } else {
                mid[k]
            }) by {
                if k != i {
                    assert(lists_view(metadata.lists@)[k] == lists_view(before)[k]);
                } else {
                    assert(lists_view(before)[k] == mid[k]);
                }
            }
        }
        i += 1;
    }
    assert(lists_view(metadata.lists@) =~= renumbered(mid));
    true
}

/// The file name tried for the `suffix`-th candidate of `slug`: `slug` itself for
/// the first (suffix 0 or 1), else `slug-suffix`; then `.extension` if one is given.
pub open spec fn spec_candidate_name(slug: Seq<char>, suffix: u64, extension: Option<Seq<char>>) -> Seq<char> {
    let base = if suffix <= 1 {
        slug
    } else {
        slug + seq!['-'] + decimal_nat(suffix as nat)
    };
    match extension {
        Some(e) => base + seq!['.'] + e,
        None => base,
    }
}

/// The name of the `suffix`-th candidate file or directory for `slug` (see
/// `spec_candidate_name`); callers try suffixes in turn until a name is free.
pub fn candidate_name(slug: &str, suffix: u64, extension: Option<&str>) -> (r: String)
    ensures
        r@ == spec_candidate_name(slug@, suffix, match extension {
            Some(e) => Some(e@),
            None => None,
        }),
{
    let mut v = chars_of(slug);
    if suffix > 1 {
        v.push('-');
        append_chars(&mut v, &decimal_u64(suffix));
    }
    match extension {
        Some(e) => {
            v.push('.');
            append_chars(&mut v, &chars_of(e));
        },
        None => {},
    }
    string_of(&v)
}

} // verus!
