//! The columns of a board: how many lists show side by side, which ones, and the rows,
//! styles and titles each column shows. Drawing them is left to the caller.
use vstd::prelude::*;

use crate::app::App;
use crate::card::Card;
use crate::mode::Mode;
use crate::tui::{
    card_row_style, empty_list_rows, is_row_selected, list_block_style, list_preview_order,
    list_title, row_label, rows_view, selected_row_index, spec_block_style, spec_list_preview_order,
    spec_list_title, spec_row_selected, spec_row_style, spec_selected_row_index,
    spec_visible_list_window, visible_list_window, BlockStyle, BoardRow, RowStyle, RowView,
};

verus! {

/// The card rows of `cards`, leaving out the one at index `skip` (none when `skip` is
/// negative).
pub open spec fn card_rows_except(cards: Seq<Card>, skip: int) -> Seq<RowView>
    decreases cards.len(),
{
    if cards.len() == 0 {
        Seq::empty()
    } else {
        let r = card_rows_except(cards.drop_last(), skip);
        if cards.len() - 1 == skip {
            r
        } else {
            r.push(RowView::Card(cards.last().title@))
        }
    }
}

/// The title of the card being moved: the selected card, while a card moves.
pub open spec fn spec_moving_card_title(app: App) -> Option<Seq<char>> {
    if app.mode is Move && app.has_selected_card() {
        Some(app.selected_card_spec().title@)
    } else {
        None
    }
}

/// The rows of list `li`: its cards; while a card moves, without the moving card and,
/// in the target list, with a marker for it at the target slot (after the last card
/// at most), titled `moving` or else `card`.
pub open spec fn spec_preview_rows(app: App, li: int, moving: Option<Seq<char>>) -> Seq<RowView> {
    match app.board {
        None => Seq::empty(),
        Some(b) => if 0 <= li < b.lists@.len() {
            let cards = b.lists@[li].cards@;
            match app.mode {
                Mode::Move { target_list, target_position } => {
                    let skip = if li == app.selected_list {
                        app.selected_card_index()
                    } else {
                        -1
                    };
                    let kept = card_rows_except(cards, skip);
                    if li == target_list {
                        let t = if target_position < kept.len() {
                            target_position as int
                        } else {
                            kept.len() as int
                        };
                        kept.insert(
                            t,
                            RowView::MoveMarker(
                                match moving {
                                    Some(m) => m,
                                    None => "card"@,
                                },
                            ),
                        )
                    } else {
                        kept
                    }
                },
                _ => card_rows_except(cards, -1),
            }
        } else {
            Seq::empty()
        },
    }
}

/// The title of the card being moved, while one moves.
pub fn moving_card_title(app: &App) -> (r: Option<&str>)
    ensures
        match r {
            Some(t) => spec_moving_card_title(*app) == Some(t@),
            None => spec_moving_card_title(*app) is None,
        },
{
    if !matches!(app.mode, Mode::Move { .. }) {
        return None;
    }
    let board = match &app.board {
        Some(b) => b,
        None => return None,
    };
    if app.selected_list >= board.lists.len() {
        return None;
    }
    let list = &board.lists[app.selected_list];
    let card_index = app.selected_card();
    if card_index >= list.cards.len() {
        return None;
    }
    Some(list.cards[card_index].title.as_str())
}

/// The rows of list `list_index` (see `spec_preview_rows`).
pub fn move_preview_rows<'a>(app: &'a App, list_index: usize, moving_card_title: Option<&str>) -> (r:
    Vec<BoardRow<'a>>)
    ensures
        rows_view(r@) == spec_preview_rows(
            *app,
            list_index as int,
            match moving_card_title {
                Some(t) => Some(t@),
                None => None,
            },
        ),
{
    let board = match &app.board {
        Some(b) => b,
        None => {
            let r: Vec<BoardRow<'a>> = Vec::new();
            assert(rows_view(r@) =~= Seq::empty());
            return r;
        },
    };
    if list_index >= board.lists.len() {
        let r: Vec<BoardRow<'a>> = Vec::new();
        assert(rows_view(r@) =~= Seq::empty());
        return r;
    }
    let cards = &board.lists[list_index].cards;
    let (skip, target) = match app.mode {
        Mode::Move { target_list, target_position } => {
            let skip: Option<usize> = if list_index == app.selected_list {
                Some(app.selected_card())
            } else {
                None
            };
            let target: Option<usize> = if list_index == target_list {
                Some(target_position)
            } else {
                None
            };
            (skip, target)
        },
        _ => (None, None),
    };
    let ghost skip_int: int = match skip {
        Some(s) => s as int,
        None => -1,
    };
    let mut rows: Vec<BoardRow<'a>> = Vec::new();
    let mut i: usize = 0;
    while i < cards.len()
        invariant
            i <= cards@.len(),
            rows_view(rows@) == card_rows_except(cards@.take(i as int), skip_int),
            skip_int == (match skip {
                Some(s) => s as int,
                None => -1,
            }),
        decreases cards.len() - i,
    {
        let ghost before = rows@;
        assert(cards@.take(i + 1).drop_last() =~= cards@.take(i as int));
        assert(card_rows_except(cards@.take(i + 1), skip_int) == (if i == skip_int {
            card_rows_except(cards@.take(i as int), skip_int)
        } else {
            card_rows_except(cards@.take(i as int), skip_int).push(RowView::Card(cards@[i as int].title@))
        }));
        let keep = match skip {
            Some(s) => s != i,
            None => true,
        };
        if keep {
            rows.push(BoardRow::Card(cards[i].title.as_str()));
            assert(rows_view(rows@) =~= rows_view(before).push(RowView::Card(cards@[i as int].title@)));
        }
        i += 1;
    }
    assert(cards@.take(i as int) =~= cards@);
    match target {
        Some(tp) => {
            let title = match moving_card_title {
                Some(t) => String::from_str(t),
                None => String::from_str("card"),
            };
            let n = rows.len();
            let t = if tp < n {
                tp
            } else {
                n
            };
            let ghost before = rows@;
            rows.insert(t, BoardRow::MoveMarker(title));
            assert(rows_view(rows@) =~= rows_view(before).insert(
                t as int,
                RowView::MoveMarker(
                    match moving_card_title {
                        Some(m) => m@,
                        None => "card"@,
                    },
                ),
            ));
        },
        None => {},
    }
    rows
}

/// The rows a column shows before scrolling: an empty list shows placeholders, except
/// while a card moves.
pub open spec fn column_rows(app: App, li: int) -> Seq<RowView> {
    let rows = spec_preview_rows(app, li, spec_moving_card_title(app));
    if rows.len() == 0 && !(app.mode is Move) {
        seq![RowView::Placeholder("No cards"@), RowView::Placeholder("Press n to create a card"@)]
    } else {
        rows
    }
}

/// The first row shown when `height` rows fit and row `sel` must show at the bottom at
/// most.
pub open spec fn window_start(sel: int, height: int) -> int {
    let h1 = if height >= 1 {
        height - 1
    } else {
        0
    };
    if sel >= h1 {
        sel - h1
    } else {
        0
    }
}

/// A row as a column shows it.
pub struct RowLine {
    pub label: String,
    pub style: RowStyle,
}

/// A list column as it shows: its title, border and the rows that fit.
pub struct ColumnView {
    pub list_index: usize,
    pub title: String,
    pub border: BlockStyle,
    pub rows: Vec<RowLine>,
}

/// Whether `c` is the column of list `li` of `app`'s board in a column `height` cells
/// high: the rows that fit (two cells go to the border), scrolled so that the row to
/// keep in view shows, each with its text and style.
pub open spec fn is_column_view(c: ColumnView, app: App, li: int, height: int) -> bool {
    let list = app.board->0.lists@[li];
    let sc: int = if li < app.selected_cards@.len() {
        app.selected_cards@[li] as int
    } else {
        0
    };
    let is_sel = li == app.selected_list;
    let is_mt = app.mode matches Mode::Move { target_list, .. } && target_list == li;
    let is_lmt = app.mode is MoveList && is_sel;
    let rows = column_rows(app, li);
    let sel = spec_selected_row_index(app.mode, rows, sc);
    let vh = if height >= 2 {
        height - 2
    } else {
        0
    };
    let start = window_start(sel, vh);
    let end = if start + vh < rows.len() {
        start + vh
    } else {
        rows.len() as int
    };
    &&& c.list_index == li
    &&& c.title@ == spec_list_title(list.name@, list.cards@.len(), is_mt || is_lmt)
    &&& c.border == spec_block_style(is_sel, is_mt, is_lmt)
    &&& 0 <= start <= end
    &&& c.rows@.len() == end - start
    &&& forall|k: int|
        0 <= k < c.rows@.len() ==> {
            let row = rows[start + k];
            &&& (#[trigger] c.rows@[k]).label@ == row_label(row)
            &&& c.rows@[k].style == spec_row_style(
                row,
                spec_row_selected(app.mode, row, is_sel, start + k, sc),
                is_sel,
                is_mt || is_lmt,
            )
        }
}

proof fn lemma_selected_row_bound(mode: Mode, rows: Seq<RowView>, sc: int)
    requires
        0 <= sc,
    ensures
        0 <= spec_selected_row_index(mode, rows, sc),
        rows.len() > 0 ==> spec_selected_row_index(mode, rows, sc) < rows.len(),
        rows.len() == 0 ==> spec_selected_row_index(mode, rows, sc) == 0,
{
    lemma_marker_bound(rows, 0);
}

proof fn lemma_marker_bound(rows: Seq<RowView>, k: int)
    requires
        0 <= k,
    ensures
        crate::tui::marker_index_from(rows, k) matches Some(i) ==> k <= i < rows.len(),
    decreases rows.len() - k,
{
    if k < rows.len() {
        lemma_marker_bound(rows, k + 1);
    }
}

/// The column of list `list_index` in a column `height` cells high (see
/// `is_column_view`).
pub fn column_view(app: &App, list_index: usize, height: u16) -> (r: ColumnView)
    requires
        app.board is Some,
        list_index < app.board->0.lists@.len(),
    ensures
        is_column_view(r, *app, list_index as int, height as int),
{
    let board = match &app.board {
        Some(b) => b,
        None => {
            return ColumnView {
                list_index,
                title: String::new(),
                border: BlockStyle::Unfocused,
                rows: Vec::new(),
            };
        },
    };
    let list = &board.lists[list_index];
    let selected_card: usize = if list_index < app.selected_cards.len() {
        app.selected_cards[list_index]
    } else {
        0
    };
    let is_selected_list = list_index == app.selected_list;
    let is_move_target = match app.mode {
        Mode::Move { target_list, .. } => target_list == list_index,
        _ => false,
    };
    let is_list_move_target = matches!(app.mode, Mode::MoveList { .. }) && is_selected_list;
    let border = list_block_style(is_selected_list, is_move_target, is_list_move_target);
    let title = list_title(
        list.name.as_str(),
        list.cards.len(),
        is_move_target || is_list_move_target,
    );
    let moving = moving_card_title(app);
    let mut rows = move_preview_rows(app, list_index, moving);
    if rows.len() == 0 && !matches!(app.mode, Mode::Move { .. }) {
        rows = empty_list_rows();
        assert(rows_view(rows@) =~= seq![
            RowView::Placeholder("No cards"@),
            RowView::Placeholder("Press n to create a card"@),
        ]);
    }
    let ghost rv = rows_view(rows@);
    assert(rv == column_rows(*app, list_index as int));
    let selected_row = selected_row_index(&app.mode, rows.as_slice(), selected_card);
    proof {
        lemma_selected_row_bound(app.mode, rv, selected_card as int);
    }
    let visible_height: usize = if height >= 2 {
        (height - 2) as usize
    } else {
        0
    };
    let back: usize = if visible_height >= 1 {
        visible_height - 1
    } else {
        0
    };
    let start: usize = if selected_row >= back {
        selected_row - back
    } else {
        0
    };
    let end: usize = if start + visible_height < rows.len() {
        start + visible_height
    } else {
        rows.len()
    };
    let mut lines: Vec<RowLine> = Vec::new();
    let mut k: usize = start;
    while k < end
        invariant
            start <= k <= end,
            end <= rows@.len(),
            rv == rows_view(rows@),
            lines@.len() == k - start,
            forall|j: int|
                0 <= j < lines@.len() ==> {
                    let row = rv[start + j];
                    &&& (#[trigger] lines@[j]).label@ == row_label(row)
                    &&& lines@[j].style == spec_row_style(
                        row,
                        spec_row_selected(app.mode, row, is_selected_list, start + j, selected_card as int),
                        is_selected_list,
                        is_move_target || is_list_move_target,
                    )
                },
        decreases end - k,
    {
        let row = &rows[k];
        let selected = is_row_selected(&app.mode, row, is_selected_list, k, selected_card);
        let style = card_row_style(row, selected, is_selected_list, is_move_target || is_list_move_target);
        lines.push(RowLine { label: row.label(), style });
        k += 1;
    }
    ColumnView { list_index, title, border, rows: lines }
}

/// How many list columns fit in `width` cells: one per 20 cells past the first 24, at
/// least one and at most three, and no more than there are lists.
pub open spec fn spec_column_count(width: int, list_count: int) -> int {
    let room = if width >= 24 {
        (width - 24) / 20
    } else {
        0
    };
    let room = if room < 1 {
        1
    } else {
        room
    };
    let c = if room < 3 {
        room
    } else {
        3
    };
    if c < list_count {
        c
    } else {
        list_count
    }
}

/// The number of list columns that fit (see `spec_column_count`).
pub fn column_count(width: u16, list_count: usize) -> (r: usize)
    ensures
        r == spec_column_count(width as int, list_count as int),
{
    let w = width as usize;
    let room: usize = if w >= 24 {
        (w - 24) / 20
    } else {
        0
    };
    let room = if room < 1 {
        1
    } else {
        room
    };
    let c = if room < 3 {
        room
    } else {
        3
    };
    if c < list_count {
        c
    } else {
        list_count
    }
}

/// The first position of `x` in `order`, from `k` on.
pub open spec fn position_from(order: Seq<usize>, x: usize, k: int) -> Option<int>
    decreases order.len() - k,
{
    if k < 0 || k >= order.len() {
        None
    } else if order[k] == x {
        Some(k)
    } else {
        position_from(order, x, k + 1)
    }
}

/// The position in the display order `order` of the list to keep in view: the target
/// of a card move, the slot of a list move, else the selected list (the first position
/// when it is not there).
pub open spec fn spec_focus_position(mode: Mode, selected_list: usize, order: Seq<usize>) -> int {
    match mode {
        Mode::Move { target_list, .. } => match position_from(order, target_list, 0) {
            Some(i) => i,
            None => 0,
        },
        Mode::MoveList { target_position } => {
            let last = if order.len() >= 1 {
                order.len() - 1
            } else {
                0
            };
            if target_position < last {
                target_position as int
            } else {
                last
            }
        },
        _ => match position_from(order, selected_list, 0) {
            Some(i) => i,
            None => 0,
        },
    }
}

fn find_position(order: &Vec<usize>, x: usize) -> (r: usize)
    ensures
        r == (match position_from(order@, x, 0) {
            Some(i) => i,
            None => 0,
        }),
{
    let mut i: usize = 0;
    while i < order.len()
        invariant
            i <= order@.len(),
            position_from(order@, x, i as int) == position_from(order@, x, 0),
        decreases order.len() - i,
    {
        if order[i] == x {
            return i;
        }
        i += 1;
    }
    0
}

/// The position of the list to keep in view (see `spec_focus_position`).
pub fn focus_position(mode: &Mode, selected_list: usize, order: &Vec<usize>) -> (r: usize)
    ensures
        r == spec_focus_position(*mode, selected_list, order@),
{
    match mode {
        Mode::Move { target_list, .. } => find_position(order, *target_list),
        Mode::MoveList { target_position } => {
            let last = if order.len() >= 1 {
                order.len() - 1
            } else {
                0
            };
            if *target_position < last {
                *target_position
            } else {
                last
            }
        },
        _ => find_position(order, selected_list),
    }
}

/// Whether `r` are the columns of `app`'s board in an area `width` by `height` cells:
/// the lists in display order, as many as fit, the window keeping the focused list in
/// view, each column as `is_column_view` says. No board or no lists: no columns.
pub open spec fn are_board_columns(r: Seq<ColumnView>, app: App, width: int, height: int) -> bool {
    if app.board is None || app.board->0.lists@.len() == 0 {
        r.len() == 0
    } else {
        let n = app.board->0.lists@.len() as int;
        let order = spec_list_preview_order(app);
        let window = spec_visible_list_window(
            spec_focus_position(app.mode, app.selected_list, order),
            spec_column_count(width, n),
            n,
        );
        &&& r.len() == window.1 - window.0
        &&& forall|k: int|
            0 <= k < r.len() ==> is_column_view(#[trigger] r[k], app, order[window.0 + k] as int, height)
    }
}

/// The columns of the board in an area `width` by `height` cells (see
/// `are_board_columns`).
pub fn board_columns(app: &App, width: u16, height: u16) -> (r: Vec<ColumnView>)
    ensures
        are_board_columns(r@, *app, width as int, height as int),
{
    let n = match &app.board {
        Some(b) => b.lists.len(),
        None => return Vec::new(),
    };
    if n == 0 {
        return Vec::new();
    }
    let order = list_preview_order(app);
    proof {
        lemma_preview_order(*app);
    }
    let focus = focus_position(&app.mode, app.selected_list, &order);
    let count = column_count(width, n);
    let window = visible_list_window(focus, count, n);
    let start = window.start;
    let end = window.end;
    let mut columns: Vec<ColumnView> = Vec::new();
    let mut k: usize = start;
    while k < end
        invariant
            start <= k <= end <= n,
            order@.len() == n,
            app.board is Some,
            n == app.board->0.lists@.len(),
            forall|i: int| 0 <= i < n ==> #[trigger] order@[i] < n,
            columns@.len() == k - start,
            forall|j: int|
                0 <= j < columns@.len() ==> is_column_view(
                    #[trigger] columns@[j],
                    *app,
                    order@[start + j] as int,
                    height as int,
                ),
        decreases end - k,
    {
        let c = column_view(app, order[k], height);
        columns.push(c);
        k += 1;
    }
    columns
}

/// The display order holds each list index once.
proof fn lemma_preview_order(app: App)
    requires
        app.board is Some,
    ensures
        spec_list_preview_order(app).len() == app.board->0.lists@.len(),
        forall|i: int|
            0 <= i < app.board->0.lists@.len() ==> #[trigger] spec_list_preview_order(app)[i]
                < app.board->0.lists@.len(),
{
    let n = app.board->0.lists@.len();
    let order = Seq::new(n, |i: int| i as usize);
    match app.mode {
        Mode::MoveList { target_position } => {
            if app.selected_list < n {
                let rest = order.remove(app.selected_list as int);
                assert forall|i: int| 0 <= i < rest.len() implies rest[i] < n by {
                    if i < app.selected_list {
                        assert(rest[i] == order[i]);
                    } else {
                        assert(rest[i] == order[i + 1]);
                    }
                }
            }
        },
        _ => {},
    }
}

} // verus!
