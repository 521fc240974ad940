//! Which rows of the board's columns show highlighted.
use vstd::prelude::*;

use crate::app::App;
use crate::columns::{is_column_view, ColumnView};
use crate::mode::Mode;
use crate::tui::{spec_row_selected, RowStyle, RowView};

verus! {

/// Unless a card or a list is being moved, a row shows selected only in the selected
/// list, and there exactly when it is not a placeholder and stands at the selected
/// index.
pub proof fn law_row_selected_only_in_selected_list(
    mode: Mode,
    row: RowView,
    row_index: int,
    selected_card: int,
)
    requires
        !(mode is Move),
        !(mode is MoveList),
    ensures
        !spec_row_selected(mode, row, false, row_index, selected_card),
        spec_row_selected(mode, row, true, row_index, selected_card) <==> (!(row is Placeholder)
            && row_index == selected_card),
{
}

/// Unless a card is being moved, the column of a list other than the selected one
/// highlights none of its rows: each shows muted, or dimmed as a placeholder.
pub proof fn law_other_columns_not_highlighted(c: ColumnView, app: App, li: int, height: int)
    requires
        app.board is Some,
        0 <= li < app.board->0.lists@.len(),
        li != app.selected_list,
        !(app.mode is Move),
        is_column_view(c, app, li, height),
    ensures
        forall|k: int|
            0 <= k < c.rows@.len() ==> (#[trigger] c.rows@[k]).style == RowStyle::Muted
                || c.rows@[k].style == RowStyle::Placeholder,
{
    assert forall|k: int| 0 <= k < c.rows@.len() implies (#[trigger] c.rows@[k]).style
        == RowStyle::Muted || c.rows@[k].style == RowStyle::Placeholder by {
        assert(c.rows@[k] == c.rows@[k]);
    }
}

} // verus!
