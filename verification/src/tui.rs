//! What the interface shows: texts, labels, rows and the geometry of its panels,
//! computed from the state. Drawing them is left to the caller.
use vstd::prelude::*;

use crate::app::App;
use crate::board::Board;
use crate::mode::{DeleteTarget, Mode, RenameTarget, Screen};
use crate::text::{
    append_chars, chars_of, concat, decimal_nat, decimal_usize, lines, lines_of, split_words, string_of,
    to_uppercase, trim, trim_bounds, uppercase_chars, words,
};

verus! {

/// The help line that closes the help popup.
pub const HELP_CLOSE_LINE: &'static str = "? / Esc / q  Close help";

/// Whether a mode shows a popup over a dimmed background.
pub fn has_modal(mode: &Mode) -> (r: bool)
    ensures
        r == (mode is CreateProject || mode is CreateList || mode is Add || mode is Rename
            || mode is ConfirmDelete || mode is Help),
{
    match mode {
        Mode::CreateProject { .. } | Mode::CreateList { .. } | Mode::Add { .. } | Mode::Rename {
            ..
        } | Mode::ConfirmDelete { .. } | Mode::Help => true,
        _ => false,
    }
}

/// `{count} {singular}`, with an `s` unless `count` is one.
pub open spec fn spec_count_label(count: nat, singular: Seq<char>) -> Seq<char> {
    if count == 1 {
        decimal_nat(count) + " "@ + singular
    } else {
        decimal_nat(count) + " "@ + singular + "s"@
    }
}

/// `{count} {singular}`, with an `s` unless `count` is one: `2 lists`, `1 card`.
pub fn count_label(count: usize, singular: &str) -> (r: String)
    ensures
        r@ == spec_count_label(count as nat, singular@),
{
    let mut v = decimal_usize(count);
    append_chars(&mut v, &chars_of(" "));
    append_chars(&mut v, &chars_of(singular));
    if count != 1 {
        append_chars(&mut v, &chars_of("s"));
    }
    string_of(&v)
}

/// The number of cards of the first `k` lists of `b`.
pub open spec fn cards_in(b: Board, k: int) -> nat
    decreases k,
{
    if k <= 0 || k > b.lists@.len() {
        0
    } else {
        cards_in(b, k - 1) + b.lists@[k - 1].cards@.len()
    }
}

/// The number of cards of the board.
pub open spec fn card_total(b: Board) -> nat {
    cards_in(b, b.lists@.len() as int)
}

/// The number of cards of the board.
pub fn card_count(board: &Board) -> (r: usize)
    requires
        card_total(*board) <= usize::MAX,
    ensures
        r == card_total(*board),
{
    let mut total: usize = 0;
    let mut i: usize = 0;
    while i < board.lists.len()
        invariant
            i <= board.lists.len(),
            total == cards_in(*board, i as int),
            card_total(*board) <= usize::MAX,
        decreases board.lists.len() - i,
    {
        proof {
            lemma_cards_in_grows(*board, i + 1);
        }
        total = total + board.lists[i].cards.len();
        i += 1;
    }
    total
}

/// The number of cards of the board, when it fits in a `usize`.
pub fn checked_card_count(board: &Board) -> (r: Option<usize>)
    ensures
        card_total(*board) <= usize::MAX ==> r == Some(card_total(*board) as usize),
        card_total(*board) > usize::MAX ==> r is None,
{
    let mut total: usize = 0;
    let mut i: usize = 0;
    while i < board.lists.len()
        invariant
            i <= board.lists.len(),
            total == cards_in(*board, i as int),
        decreases board.lists.len() - i,
    {
        let n = board.lists[i].cards.len();
        if total > usize::MAX - n {
            proof {
                lemma_cards_in_grows(*board, i + 1);
            }
            return None;
        }
        total = total + n;
        i += 1;
    }
    Some(total)
}

proof fn lemma_cards_in_grows(b: Board, k: int)
    requires
        0 <= k <= b.lists@.len(),
    ensures
        cards_in(b, k) <= card_total(b),
    decreases b.lists@.len() - k,
{
    if k < b.lists@.len() {
        lemma_cards_in_grows(b, k + 1);
    }
}

/// `\u{2726} {name}   \u{b7}  {lists}   \u{b7}  {cards}      {MODE}`: the board header.
pub open spec fn spec_board_header_text(b: Board, mode_label: Seq<char>) -> Seq<char> {
    "\u{2726} "@ + b.name@ + "   \u{b7}  "@ + spec_count_label(b.lists@.len(), "list"@)
        + "   \u{b7}  "@ + spec_count_label(card_total(b), "card"@) + "      "@ + uppercase_chars(
        mode_label,
    )
}

/// The board header: name, list and card counts, and the mode in uppercase.
pub fn board_header_text(board: &Board, mode_label: &str) -> (r: String)
    requires
        card_total(*board) <= usize::MAX,
    ensures
        r@ == spec_board_header_text(*board, mode_label@),
{
    let mut v = chars_of("\u{2726} ");
    append_chars(&mut v, &chars_of(board.name.as_str()));
    append_chars(&mut v, &chars_of("   \u{b7}  "));
    append_chars(&mut v, &chars_of(count_label(board.lists.len(), "list").as_str()));
    append_chars(&mut v, &chars_of("   \u{b7}  "));
    append_chars(&mut v, &chars_of(count_label(card_count(board), "card").as_str()));
    append_chars(&mut v, &chars_of("      "));
    append_chars(&mut v, &to_uppercase(&chars_of(mode_label)));
    string_of(&v)
}

/// The range of list positions shown: `column_count` columns (at most the number of
/// lists), scrolled just enough to show the focused one.
pub open spec fn spec_visible_list_window(focus_position: int, column_count: int, list_count: int) -> (
    int,
    int,
) {
    if column_count == 0 || list_count == 0 {
        (0, 0)
    } else {
        let visible = if column_count < list_count {
            column_count
        } else {
            list_count
        };
        let focus = if focus_position < list_count - 1 {
            focus_position
        } else {
            list_count - 1
        };
        let back = if focus > visible - 1 {
            focus - (visible - 1)
        } else {
            0
        };
        let start = if back < list_count - visible {
            back
        } else {
            list_count - visible
        };
        (start, start + visible)
    }
}

/// The positions of the lists shown in columns.
pub fn visible_list_window(focus_position: usize, column_count: usize, list_count: usize) -> (r:
    core::ops::Range<usize>)
    ensures
        (r.start as int, r.end as int) == spec_visible_list_window(
            focus_position as int,
            column_count as int,
            list_count as int,
        ),
{
    if column_count == 0 || list_count == 0 {
        return 0..0;
    }
    let visible = if column_count < list_count {
        column_count
    } else {
        list_count
    };
    let focus = if focus_position < list_count - 1 {
        focus_position
    } else {
        list_count - 1
    };
    let back = if focus > visible - 1 {
        focus - (visible - 1)
    } else {
        0
    };
    let start = if back < list_count - visible {
        back
    } else {
        list_count - visible
    };
    start..start + visible
}

/// The order in which the lists show: while a list is being moved, it shows at its
/// target position.
pub open spec fn spec_list_preview_order(app: App) -> Seq<usize> {
    match app.board {
        None => Seq::empty(),
        Some(b) => {
            let n = b.lists@.len();
            let order = Seq::new(n, |i: int| i as usize);
            match app.mode {
                Mode::MoveList { target_position } => if app.selected_list < n {
                    let rest = order.remove(app.selected_list as int);
                    let t = if target_position < rest.len() {
                        target_position as int
                    } else {
                        rest.len() as int
                    };
                    rest.insert(t, app.selected_list)
                } else {
                    order
                },
                _ => order,
            }
        },
    }
}

/// The order in which the lists show.
pub fn list_preview_order(app: &App) -> (r: Vec<usize>)
    ensures
        r@ == spec_list_preview_order(*app),
{
    let n = match &app.board {
        Some(b) => b.lists.len(),
        None => return Vec::new(),
    };
    let mut order: Vec<usize> = Vec::new();
    let mut i: usize = 0;
    while i < n
        invariant
            i <= n,
            order@ == Seq::new(i as nat, |j: int| j as usize),
        decreases n - i,
    {
        order.push(i);
        assert(order@ =~= Seq::new((i + 1) as nat, |j: int| j as usize));
        i += 1;
    }
    let target_position = match app.mode {
        Mode::MoveList { target_position } => target_position,
        _ => return order,
    };
    if app.selected_list >= n {
        return order;
    }
    let list = order.remove(app.selected_list);
    let t = if target_position < order.len() {
        target_position
    } else {
        order.len()
    };
    order.insert(t, list);
    order
}

/// A row of a list column.
#[derive(Debug, PartialEq)]
pub enum BoardRow<'a> {
    Card(&'a str),
    MoveMarker(String),
    Placeholder(&'a str),
}

/// What a row shows, and of which kind it is.
pub enum RowView {
    Card(Seq<char>),
    MoveMarker(Seq<char>),
    Placeholder(Seq<char>),
}

impl<'a> BoardRow<'a> {
    /// The kind and text of the row.
    pub open spec fn row_view(&self) -> RowView {
        match self {
            BoardRow::Card(t) => RowView::Card(t@),
            BoardRow::MoveMarker(t) => RowView::MoveMarker(t@),
            BoardRow::Placeholder(t) => RowView::Placeholder(t@),
        }
    }

    /// The text of the row: a move marker shows `-> ` before the moving card's title.
    pub fn label(&self) -> (r: String)
        ensures
            r@ == row_label(self.row_view()),
    {
        match self {
            BoardRow::Card(title) => String::from_str(title),
            BoardRow::MoveMarker(title) => concat("-> ", title.as_str()),
            BoardRow::Placeholder(title) => String::from_str(title),
        }
    }

    /// Whether the row can be selected: every row but a placeholder.
    pub fn is_selectable(&self) -> (r: bool)
        ensures
            r == !(self is Placeholder),
    {
        match self {
            BoardRow::Placeholder(_) => false,
            _ => true,
        }
    }
}

/// ` {NAME} [{count}] `, with ` -> ` in front for a move target.
pub open spec fn spec_list_title(name: Seq<char>, card_count: nat, is_target: bool) -> Seq<char> {
    (if is_target {
        " -> "@
    } else {
        " "@
    }) + uppercase_chars(name) + " ["@ + decimal_nat(card_count) + "] "@
}

/// The title of a list column.
pub fn list_title(name: &str, card_count: usize, is_target: bool) -> (r: String)
    ensures
        r@ == spec_list_title(name@, card_count as nat, is_target),
{
    let mut v = if is_target {
        chars_of(" -> ")
    } else {
        chars_of(" ")
    };
    append_chars(&mut v, &to_uppercase(&chars_of(name)));
    append_chars(&mut v, &chars_of(" ["));
    append_chars(&mut v, &decimal_usize(card_count));
    append_chars(&mut v, &chars_of("] "));
    string_of(&v)
}

/// The kinds and texts of `rows`.
pub open spec fn rows_view(rows: Seq<BoardRow<'_>>) -> Seq<RowView> {
    Seq::new(rows.len(), |i: int| rows[i].row_view())
}

/// The text a row shows: a move marker shows `-> ` before the moving card's title.
pub open spec fn row_label(row: RowView) -> Seq<char> {
    match row {
        RowView::Card(t) => t,
        RowView::MoveMarker(t) => "-> "@ + t,
        RowView::Placeholder(t) => t,
    }
}

/// How a list column's border is drawn.
#[derive(Clone, Copy, Debug, PartialEq, Eq)]
pub enum BlockStyle {
    MoveTarget,
    Selected,
    Unfocused,
}

/// The border of a list column: a move target stands out first, then the
/// selected list.
pub open spec fn spec_block_style(is_selected_list: bool, is_move_target: bool, is_list_move_target: bool) -> BlockStyle {
    if is_move_target || is_list_move_target {
        BlockStyle::MoveTarget
    } else if is_selected_list {
        BlockStyle::Selected
    } else {
        BlockStyle::Unfocused
    }
}

/// The border of a list column (see `spec_block_style`).
pub fn list_block_style(is_selected_list: bool, is_move_target: bool, is_list_move_target: bool) -> (r:
    BlockStyle)
    ensures
        r == spec_block_style(is_selected_list, is_move_target, is_list_move_target),
{
    if is_move_target || is_list_move_target {
        BlockStyle::MoveTarget
    } else if is_selected_list {
        BlockStyle::Selected
    } else {
        BlockStyle::Unfocused
    }
}

/// How a row is drawn.
#[derive(Clone, Copy, Debug, PartialEq, Eq)]
pub enum RowStyle {
    /// Highlighted; on the move-target color when the list is a move target.
    Selected { move_target: bool },
    Placeholder,
    InSelectedList,
    Muted,
}

/// The style of a row: a selected row is highlighted, a placeholder dimmed, and the
/// cards of the selected list stand out from those of other lists.
pub open spec fn spec_row_style(row: RowView, selected: bool, is_selected_list: bool, is_move_target_or_list: bool) -> RowStyle {
    if selected {
        RowStyle::Selected { move_target: is_move_target_or_list }
    } else if row is Placeholder {
        RowStyle::Placeholder
    } else if is_selected_list {
        RowStyle::InSelectedList
    } else {
        RowStyle::Muted
    }
}

/// The style of a row (see `spec_row_style`).
pub fn card_row_style(
    row: &BoardRow<'_>,
    selected: bool,
    is_selected_list: bool,
    is_move_target_or_list: bool,
) -> (r: RowStyle)
    ensures
        r == spec_row_style(row.row_view(), selected, is_selected_list, is_move_target_or_list),
{
    if selected {
        RowStyle::Selected { move_target: is_move_target_or_list }
    } else if !row.is_selectable() {
        RowStyle::Placeholder
    } else if is_selected_list {
        RowStyle::InSelectedList
    } else {
        RowStyle::Muted
    }
}

/// The index of the first move marker among `rows`.
pub open spec fn marker_index_from(rows: Seq<RowView>, k: int) -> Option<int>
    decreases rows.len() - k,
{
    if k < 0 || k >= rows.len() {
        None
    } else if rows[k] is MoveMarker {
        Some(k)
    } else {
        marker_index_from(rows, k + 1)
    }
}

/// The row to keep in view: the move marker, else the top row while a list moves,
/// else the selected card (at most the last row).
pub open spec fn spec_selected_row_index(mode: Mode, rows: Seq<RowView>, selected_card: int) -> int {
    match marker_index_from(rows, 0) {
        Some(i) => i,
        None => match mode {
            Mode::MoveList { .. } => 0,
            _ => if selected_card < rows.len() - 1 {
                selected_card
            } else if rows.len() == 0 {
                0
            } else {
                rows.len() - 1
            },
        },
    }
}

/// The row to keep in view.
pub fn selected_row_index(mode: &Mode, rows: &[BoardRow<'_>], selected_card: usize) -> (r: usize)
    ensures
        r == spec_selected_row_index(*mode, rows_view(rows@), selected_card as int),
{
    let mut i: usize = 0;
    while i < rows.len()
        invariant
            i <= rows.len(),
            marker_index_from(rows_view(rows@), i as int) == marker_index_from(rows_view(rows@), 0),
        decreases rows.len() - i,
    {
        if let BoardRow::MoveMarker(_) = &rows[i] {
            return i;
        }
        i += 1;
    }
    match mode {
        Mode::MoveList { .. } => 0,
        _ => {
            let last = if rows.len() == 0 {
                0
            } else {
                rows.len() - 1
            };
            if selected_card < last {
                selected_card
            } else {
                last
            }
        },
    }
}

/// Whether a row shows selected: while a card moves, its marker; while a list moves,
/// none; else the selected card of the selected list.
pub open spec fn spec_row_selected(mode: Mode, row: RowView, is_selected_list: bool, row_index: int, selected_card: int) -> bool {
    match mode {
        Mode::Move { .. } => row is MoveMarker,
        Mode::MoveList { .. } => false,
        _ => !(row is Placeholder) && is_selected_list && row_index == selected_card,
    }
}

/// Whether a row shows selected (see `spec_row_selected`).
pub fn is_row_selected(
    mode: &Mode,
    row: &BoardRow<'_>,
    is_selected_list: bool,
    row_index: usize,
    selected_card: usize,
) -> (r: bool)
    ensures
        r == spec_row_selected(*mode, row.row_view(), is_selected_list, row_index as int, selected_card as int),
{
    match mode {
        Mode::Move { .. } => {
            match row {
                BoardRow::MoveMarker(_) => true,
                _ => false,
            }
        },
        Mode::MoveList { .. } => false,
        _ => row.is_selectable() && is_selected_list && row_index == selected_card,
    }
}

/// The texts that an empty list shows.
pub fn empty_list_labels() -> (r: Vec<&'static str>)
    ensures
        r@.len() == 2,
        r@[0]@ == "No cards"@,
        r@[1]@ == "Press n to create a card"@,
{
    let mut r: Vec<&'static str> = Vec::new();
    r.push("No cards");
    r.push("Press n to create a card");
    r
}

/// The rows that an empty list shows: placeholders, which cannot be selected.
pub fn empty_list_rows() -> (r: Vec<BoardRow<'static>>)
    ensures
        r@.len() == 2,
        r@[0].row_view() == RowView::Placeholder("No cards"@),
        r@[1].row_view() == RowView::Placeholder("Press n to create a card"@),
{
    let labels = empty_list_labels();
    let mut r: Vec<BoardRow<'static>> = Vec::new();
    r.push(BoardRow::Placeholder(labels[0]));
    r.push(BoardRow::Placeholder(labels[1]));
    r
}

// ---------------------------------------------------------------------------
// Footers, help and popups
// ---------------------------------------------------------------------------

/// The key hints of a popup or move mode.
pub open spec fn spec_instruction_line_for_modal(mode: Mode) -> Seq<char> {
    match mode {
        Mode::CreateProject { .. } | Mode::CreateList { .. } | Mode::Add { .. } =>
            "[CREATE] [Enter] Create [Esc] Cancel"@,
        Mode::Rename { .. } => "[RENAME] [Enter] Rename [Esc] Cancel"@,
        Mode::ConfirmDelete { .. } => "[CONFIRM] [y/Enter] Confirm [n/Esc] Cancel"@,
        Mode::Move { .. } => "[MOVE CARD] [h/l] List [j/k] Position [Enter] Move [Esc] Cancel"@,
        Mode::MoveList { .. } => "[MOVE LIST] [h/l] Position [Enter] Move [Esc] Cancel"@,
        Mode::Picker(_) => "[PICK] [j/k] Move [Enter] Choose [Esc/q] Cancel"@,
        _ => Seq::empty(),
    }
}

/// The key hints of a popup or move mode.
pub fn instruction_line_for_modal(mode: &Mode) -> (r: String)
    requires
        !(mode is Normal || mode is Help),
    ensures
        r@ == spec_instruction_line_for_modal(*mode),
{
    match mode {
        Mode::CreateProject { .. } | Mode::CreateList { .. } | Mode::Add { .. } => String::from_str(
            "[CREATE] [Enter] Create [Esc] Cancel",
        ),
        Mode::Rename { .. } => String::from_str("[RENAME] [Enter] Rename [Esc] Cancel"),
        Mode::ConfirmDelete { .. } => String::from_str(
            "[CONFIRM] [y/Enter] Confirm [n/Esc] Cancel",
        ),
        Mode::Move { .. } => String::from_str(
            "[MOVE CARD] [h/l] List [j/k] Position [Enter] Move [Esc] Cancel",
        ),
        Mode::MoveList { .. } => String::from_str(
            "[MOVE LIST] [h/l] Position [Enter] Move [Esc] Cancel",
        ),
        Mode::Picker(_) => String::from_str("[PICK] [j/k] Move [Enter] Choose [Esc/q] Cancel"),
        Mode::Normal | Mode::Help => String::new(),
    }
}

/// The key hints of the board list.
pub open spec fn spec_home_footer_text(mode: Mode) -> Seq<char> {
    match mode {
        Mode::Normal =>
            "[NORMAL] [Tab] Switch [j/k] Move [Enter] Open [n] New [r] Rename [?] Help [q] Quit"@,
        Mode::Help => "[HELP] [?/Esc/q] Close"@,
        _ => spec_instruction_line_for_modal(mode),
    }
}

/// The key hints of the board list.
pub fn home_footer_text(mode: &Mode) -> (r: String)
    ensures
        r@ == spec_home_footer_text(*mode),
{
    match mode {
        Mode::Normal => String::from_str(
            "[NORMAL] [Tab] Switch [j/k] Move [Enter] Open [n] New [r] Rename [?] Help [q] Quit",
        ),
        Mode::Help => String::from_str("[HELP] [?/Esc/q] Close"),
        _ => instruction_line_for_modal(mode),
    }
}

/// The key hints of a board: the preview hint says what `p` does next.
pub open spec fn spec_board_footer_text(mode: Mode, show_preview: bool) -> Seq<char> {
    match mode {
        Mode::Normal => "[NORMAL] [Tab] List [j/k] Move [n] New [m] Move [p] "@ + (if show_preview {
            "Hide Preview"@
        } else {
            "Preview"@
        }) + " [?] Help [q] Quit"@,
        Mode::Help => "[HELP] [?/Esc/q] Close"@,
        _ => spec_instruction_line_for_modal(mode),
    }
}

/// The key hints of a board.
pub fn board_footer_text(mode: &Mode, show_preview: bool) -> (r: String)
    ensures
        r@ == spec_board_footer_text(*mode, show_preview),
{
    match mode {
        Mode::Normal => {
            let preview = if show_preview {
                "Hide Preview"
            } else {
                "Preview"
            };
            let mut v = chars_of("[NORMAL] [Tab] List [j/k] Move [n] New [m] Move [p] ");
            append_chars(&mut v, &chars_of(preview));
            append_chars(&mut v, &chars_of(" [?] Help [q] Quit"));
            string_of(&v)
        },
        Mode::Help => String::from_str("[HELP] [?/Esc/q] Close"),
        _ => instruction_line_for_modal(mode),
    }
}

/// The key hints of the current screen.
pub fn instruction_line(app: &App) -> (r: String)
    ensures
        r@ == (match app.screen {
            Screen::Projects => spec_home_footer_text(app.mode),
            Screen::Board => spec_board_footer_text(app.mode, app.show_preview),
        }),
{
    match app.screen {
        Screen::Projects => home_footer_text(&app.mode),
        Screen::Board => board_footer_text(&app.mode, app.show_preview),
    }
}

/// The help of the board list.
pub open spec fn projects_help() -> Seq<char> {
    "Keyboard Shortcuts\nNavigation        Boards\nj/k Up/Down       Enter Open\nTab Switch        n New Board\n                  r Rename\n                  d Delete\nHelp\n? / Esc / q  Close help"@
}

/// The help of a board.
pub open spec fn board_help() -> Seq<char> {
    "Keyboard Shortcuts\n? / Esc / q  Close help\n\nNavigation          Cards               Lists\n\nj/k Move            n New Card          N New List\nUp/Down Move        e Edit              M Move List\nTab/h/l List        m Move              R Rename\nLeft/Right List     r Rename            D Delete\nq Boards            d Delete\np Preview\n\nHelp\n\n? / Esc / q  Close help"@
}

/// The keyboard help of a screen.
pub fn help_text(screen: Screen) -> (r: String)
    ensures
        r@ == (match screen {
            Screen::Projects => projects_help(),
            Screen::Board => board_help(),
        }),
{
    match screen {
        Screen::Projects => String::from_str(
            "Keyboard Shortcuts\nNavigation        Boards\nj/k Up/Down       Enter Open\nTab Switch        n New Board\n                  r Rename\n                  d Delete\nHelp\n? / Esc / q  Close help",
        ),
        Screen::Board => String::from_str(
            "Keyboard Shortcuts\n? / Esc / q  Close help\n\nNavigation          Cards               Lists\n\nj/k Move            n New Card          N New List\nUp/Down Move        e Edit              M Move List\nTab/h/l List        m Move              R Rename\nLeft/Right List     r Rename            D Delete\nq Boards            d Delete\np Preview\n\nHelp\n\n? / Esc / q  Close help",
        ),
    }
}

/// What a rename popup names its target.
pub open spec fn spec_rename_label(target: RenameTarget) -> Seq<char> {
    match target {
        RenameTarget::Board => "Board"@,
        RenameTarget::List => "List"@,
        RenameTarget::Card => "Card"@,
    }
}

/// What a rename popup names its target.
pub fn rename_label(target: RenameTarget) -> (r: &'static str)
    ensures
        r@ == spec_rename_label(target),
{
    match target {
        RenameTarget::Board => "Board",
        RenameTarget::List => "List",
        RenameTarget::Card => "Card",
    }
}

/// The text of an input popup: `{label}\n\n{input}\n\nEnter {action}  Esc Cancel`.
pub fn input_popup_text(label: &str, input: &str, action: &str) -> (r: String)
    ensures
        r@ == label@ + "\n\n"@ + input@ + "\n\nEnter "@ + action@ + "  Esc Cancel"@,
{
    let mut v = chars_of(label);
    append_chars(&mut v, &chars_of("\n\n"));
    append_chars(&mut v, &chars_of(input));
    append_chars(&mut v, &chars_of("\n\nEnter "));
    append_chars(&mut v, &chars_of(action));
    append_chars(&mut v, &chars_of("  Esc Cancel"));
    string_of(&v)
}

/// The text of a rename popup: `Rename {target}\n\n{input}\n\nEnter Rename  Esc Cancel`.
pub fn rename_popup_text(target: RenameTarget, input: &str) -> (r: String)
    ensures
        r@ == "Rename "@ + spec_rename_label(target) + "\n\n"@ + input@
            + "\n\nEnter Rename  Esc Cancel"@,
{
    let mut v = chars_of("Rename ");
    append_chars(&mut v, &chars_of(rename_label(target)));
    append_chars(&mut v, &chars_of("\n\n"));
    append_chars(&mut v, &chars_of(input));
    append_chars(&mut v, &chars_of("\n\nEnter Rename  Esc Cancel"));
    string_of(&v)
}

/// The name of what a delete confirmation deletes: the selected board, list or card,
/// or a generic name when there is none.
pub open spec fn spec_delete_target_name(app: App, target: DeleteTarget) -> Seq<char> {
    match target {
        DeleteTarget::Board => if app.selected_project < app.projects@.len() {
            app.projects@[app.selected_project as int].name@
        } else {
            "selected board"@
        },
        DeleteTarget::List => if app.has_selected_list() {
            app.selected_list_spec().name@
        } else {
            "selected list"@
        },
        DeleteTarget::Card => if app.has_selected_card() {
            app.selected_card_spec().title@
        } else {
            "selected card"@
        },
    }
}

/// The name of what a delete confirmation deletes.
pub fn delete_target_name(app: &App, target: DeleteTarget) -> (r: String)
    ensures
        r@ == spec_delete_target_name(*app, target),
{
    match target {
        DeleteTarget::Board => if app.selected_project < app.projects.len() {
            app.projects[app.selected_project].name.clone()
        } else {
            String::from_str("selected board")
        },
        DeleteTarget::List => match &app.board {
            Some(b) => if app.selected_list < b.lists.len() {
                b.lists[app.selected_list].name.clone()
            } else {
                String::from_str("selected list")
            },
            None => String::from_str("selected list"),
        },
        DeleteTarget::Card => match &app.board {
            Some(b) => {
                let card_index = app.selected_card();
                if app.selected_list < b.lists.len() && card_index
                    < b.lists[app.selected_list].cards.len() {
                    b.lists[app.selected_list].cards[card_index].title.clone()
                } else {
                    String::from_str("selected card")
                }
            },
            None => String::from_str("selected card"),
        },
    }
}

/// The question of a delete confirmation.
pub fn delete_confirmation_text(app: &App, target: DeleteTarget) -> (r: String)
    ensures
        r@ == (match target {
            DeleteTarget::Board => "Delete board \""@ + spec_delete_target_name(*app, target)
                + "\"?\n\nThis removes all lists and cards."@,
            DeleteTarget::List => "Delete list \""@ + spec_delete_target_name(*app, target)
                + "\"?\n\nThis removes all cards in the list."@,
            DeleteTarget::Card => "Delete card \""@ + spec_delete_target_name(*app, target)
                + "\"?"@,
        }),
{
    let name = delete_target_name(app, target);
    let (head, tail) = match target {
        DeleteTarget::Board => ("Delete board \"", "\"?\n\nThis removes all lists and cards."),
        DeleteTarget::List => ("Delete list \"", "\"?\n\nThis removes all cards in the list."),
        DeleteTarget::Card => ("Delete card \"", "\"?"),
    };
    let mut v = chars_of(head);
    append_chars(&mut v, &chars_of(name.as_str()));
    append_chars(&mut v, &chars_of(tail));
    string_of(&v)
}


// ---------------------------------------------------------------------------
// Text wrapping
// ---------------------------------------------------------------------------

/// The number of UTF-8 bytes of `c`.
pub open spec fn utf8_width(c: char) -> nat {
    if (c as u32) < 0x80 {
        1
    } else if (c as u32) < 0x800 {
        2
    } else if (c as u32) < 0x10000 {
        3
    } else {
        4
    }
}

/// The number of UTF-8 bytes of `s` (`str::len`).
pub open spec fn utf8_len(s: Seq<char>) -> nat
    decreases s.len(),
{
    if s.len() == 0 {
        0
    } else {
        utf8_len(s.drop_last()) + utf8_width(s.last())
    }
}

/// The rows filled and the width used on the current row after placing the words
/// `ws` on rows `max` bytes wide: a word goes on the current row after a space when
/// it fits, else it starts a row; a word wider than a row fills rows of its own.
pub open spec fn wrap_words(ws: Seq<Seq<char>>, max: int) -> (int, int)
    decreases ws.len(),
{
    if ws.len() == 0 {
        (0, 0)
    } else {
        let prev = wrap_words(ws.drop_last(), max);
        let w = utf8_len(ws.last()) as int;
        if w > max {
            (prev.0 + (if prev.1 > 0 { 1int } else { 0int }) + w / max, w % max)
        } else if prev.1 == 0 {
            (prev.0, w)
        } else if prev.1 + 1 + w <= max {
            (prev.0, prev.1 + 1 + w)
        } else {
            (prev.0 + 1, w)
        }
    }
}

/// The rows one line takes: one for a blank line.
pub open spec fn line_rows(line: Seq<char>, max: int) -> int {
    if trim(line).len() == 0 {
        1
    } else {
        let st = wrap_words(words(line), max);
        st.0 + (if st.1 > 0 { 1int } else { 0int })
    }
}

/// The rows that the lines `ls` take.
pub open spec fn rows_of(ls: Seq<Seq<char>>, max: int) -> int
    decreases ls.len(),
{
    if ls.len() == 0 {
        0
    } else {
        rows_of(ls.drop_last(), max) + line_rows(ls.last(), max)
    }
}

/// The rows that `text` takes at `inner_width` bytes a row (at least one byte), one
/// for an empty text.
pub open spec fn spec_wrapped_rows(text: Seq<char>, inner_width: int) -> int {
    let max = if inner_width < 1 {
        1
    } else {
        inner_width
    };
    if text.len() == 0 {
        1
    } else {
        rows_of(lines_of(text), max)
    }
}

/// The number of UTF-8 bytes of `s`.
fn utf8_length(s: &Vec<char>) -> (r: u128)
    ensures
        r == utf8_len(s@),
        r <= 4 * s@.len(),
{
    let mut total: u128 = 0;
    let mut i: usize = 0;
    while i < s.len()
        invariant
            i <= s.len(),
            total == utf8_len(s@.take(i as int)),
            total <= 4 * i,
        decreases s.len() - i,
    {
        assert(s@.take(i + 1).drop_last() =~= s@.take(i as int));
        let c = s[i] as u32;
        let w: u128 = if c < 0x80 {
            1
        } else if c < 0x800 {
            2
        } else if c < 0x10000 {
            3
        } else {
            4
        };
        total = total + w;
        i += 1;
    }
    assert(s@.take(s.len() as int) =~= s@);
    total
}

proof fn lemma_mod_add(a: int, b: int, m: int)
    requires
        m > 0,
    ensures
        (a % m + b) % m == (a + b) % m,
{
    vstd::arithmetic::div_mod::lemma_add_mod_noop(a, b, m);
    vstd::arithmetic::div_mod::lemma_mod_twice(a, m);
    vstd::arithmetic::div_mod::lemma_add_mod_noop(a % m, b, m);
}

/// The rows one line takes, modulo 2^16.
fn line_rows_mod(line: &Vec<char>, max: u16) -> (r: u32)
    requires
        max >= 1,
    ensures
        r < 0x10000,
        r == line_rows(line@, max as int) % 0x10000,
{
    let (a, b) = trim_bounds(line);
    if a == b {
        return 1;
    }
    let ws = split_words(line);
    let m: u128 = max as u128;
    let mut rows: u32 = 0;
    let mut current: u128 = 0;
    let mut i: usize = 0;
    while i < ws.len()
        invariant
            i <= ws.len(),
            m == max as int,
            m >= 1,
            rows < 0x10000,
            current <= m,
            rows == wrap_words(ws.deep_view().take(i as int), m as int).0 % 0x10000,
            current == wrap_words(ws.deep_view().take(i as int), m as int).1,
        decreases ws.len() - i,
    {
        let ghost prev = wrap_words(ws.deep_view().take(i as int), m as int);
        let ghost next = ws.deep_view().take(i + 1);
        assert(next.drop_last() =~= ws.deep_view().take(i as int));
        assert(next.last() == ws@[i as int]@);
        let w = utf8_length(&ws[i]);
        let wl = ws[i].len();
        assert(w <= 4 * (wl as int));
        assert(w / m <= w) by (nonlinear_arith)
            requires
                m >= 1,
                w >= 0,
        ;
        let inc: u128;
        if w > m {
            inc = (if current > 0 { 1 } else { 0 }) + w / m;
            current = w % m;
        } else if current == 0 {
            inc = 0;
            current = w;
        } else if current + 1 + w <= m {
            inc = 0;
            current = current + 1 + w;
        } else {
            inc = 1;
            current = w;
        }
        assert(inc <= w + 1);
        proof {
            lemma_mod_add(prev.0, inc as int, 0x10000);
            vstd::arithmetic::div_mod::lemma_mod_bound(w as int, m as int);
        }
        rows = ((rows as u128 + inc) % 0x10000) as u32;
        i += 1;
    }
    assert(ws.deep_view().take(i as int) =~= ws.deep_view());
    proof {
        let st = wrap_words(ws.deep_view(), m as int);
        assert(trim(line@).len() > 0);
        lemma_mod_add(st.0, if st.1 > 0 { 1int } else { 0int }, 0x10000);
    }
    if current > 0 {
        (rows + 1) % 0x10000
    } else {
        rows
    }
}

/// The number of rows `text` takes when wrapped at `inner_width` bytes (at least
/// one): the result is that number modulo 2^16, as `u16` keeps it.
pub fn wrapped_text_lines(text: &str, inner_width: u16) -> (r: u16)
    ensures
        r as int == spec_wrapped_rows(text@, inner_width as int) % 0x10000,
{
    let max: u16 = if inner_width < 1 {
        1
    } else {
        inner_width
    };
    let t = chars_of(text);
    if t.len() == 0 {
        return 1;
    }
    let ls = lines(&t);
    let mut total: u32 = 0;
    let mut i: usize = 0;
    while i < ls.len()
        invariant
            i <= ls.len(),
            max >= 1,
            total < 0x10000,
            total == rows_of(ls.deep_view().take(i as int), max as int) % 0x10000,
        decreases ls.len() - i,
    {
        let ghost next = ls.deep_view().take(i + 1);
        assert(next.drop_last() =~= ls.deep_view().take(i as int));
        assert(next.last() == ls@[i as int]@);
        let r = line_rows_mod(&ls[i], max);
        proof {
            let prev = rows_of(ls.deep_view().take(i as int), max as int);
            let lr = line_rows(ls@[i as int]@, max as int);
            lemma_mod_add(prev, r as int, 0x10000);
            lemma_mod_add(lr, prev, 0x10000);
            assert((prev % 0x10000 + lr % 0x10000) % 0x10000 == (prev + lr) % 0x10000);
        }
        total = (total + r) % 0x10000;
        i += 1;
    }
    assert(ls.deep_view().take(i as int) =~= ls.deep_view());
    total as u16
}

} // verus!
