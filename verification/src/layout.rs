//! The geometry of the board panels and of the help popup, in terminal cells.
use vstd::prelude::*;

use crate::text::{chars_of, lines, lines_of};
use crate::tui::{spec_wrapped_rows, wrapped_text_lines};

verus! {

broadcast use crate::views::lemma_chars_deep_view;

/// A rectangle of terminal cells: its top-left corner and its size.
#[derive(Clone, Copy, Debug, PartialEq, Eq)]
pub struct Rect {
    pub x: u16,
    pub y: u16,
    pub width: u16,
    pub height: u16,
}

impl Rect {
    /// The rectangle at `x`, `y` of `width` by `height` cells.
    pub fn new(x: u16, y: u16, width: u16, height: u16) -> (r: Rect)
        ensures
            r == (Rect { x, y, width, height }),
    {
        Rect { x, y, width, height }
    }
}

/// `a + b`, at most `u16::MAX`.
pub open spec fn sat_add(a: int, b: int) -> int {
    if a + b > u16::MAX {
        u16::MAX as int
    } else {
        a + b
    }
}

/// `a - b`, at least 0.
pub open spec fn sat_sub(a: int, b: int) -> int {
    if a >= b {
        a - b
    } else {
        0
    }
}

/// The lists area and the preview area of a board: with the preview shown (and at
/// least four cells of width), the right half goes to the preview and the rest to the
/// lists; otherwise the lists take all of `area`.
pub open spec fn spec_board_content_layout(area: Rect, show_preview: bool) -> (Rect, Option<Rect>) {
    if !show_preview || area.width < 4 {
        (area, None)
    } else {
        let preview_width = area.width / 2;
        let list_width = area.width - preview_width;
        (
            Rect { width: list_width as u16, ..area },
            Some(
                Rect {
                    x: sat_add(area.x as int, list_width) as u16,
                    width: preview_width as u16,
                    ..area
                },
            ),
        )
    }
}

/// The lists area and the preview area of a board (see `spec_board_content_layout`).
pub fn board_content_layout(area: Rect, show_preview: bool) -> (r: (Rect, Option<Rect>))
    ensures
        r == spec_board_content_layout(area, show_preview),
{
    if !show_preview || area.width < 4 {
        return (area, None);
    }
    let preview_width = area.width / 2;
    let list_width = area.width - preview_width;
    let x: u16 = if area.x as u32 + list_width as u32 > 65535 {
        65535
    } else {
        area.x + list_width
    };
    (
        Rect { x: area.x, y: area.y, width: list_width, height: area.height },
        Some(Rect { x, y: area.y, width: preview_width, height: area.height }),
    )
}

/// The widest of the lines `ls`, each counted in characters modulo 2^16 (as `u16`
/// keeps a count), and 0 for no lines.
pub open spec fn widest_line(ls: Seq<Seq<char>>) -> int
    decreases ls.len(),
{
    if ls.len() == 0 {
        0
    } else {
        let w = widest_line(ls.drop_last());
        let l = (ls.last().len() % 0x10000) as int;
        if l > w {
            l
        } else {
            w
        }
    }
}

/// The width of the help popup's title, ` Keyboard Shortcuts `.
pub const HELP_TITLE_WIDTH: u16 = 20;

/// The area of the help popup holding `text` in `area`: wide enough for its widest
/// line (at least 10 cells) and for the title, plus 6 cells of border and padding, but
/// 2 cells narrower than `area` at most; high enough for the wrapped text plus 4, but
/// no higher than `area`; centered. An area under 2 cells either way is used whole.
pub open spec fn spec_help_popup_area(area: Rect, text: Seq<char>) -> Rect {
    if area.width < 2 || area.height < 2 {
        area
    } else {
        let content = widest_line(lines_of(text));
        let content = if content < 10 {
            10
        } else {
            content
        };
        let wide = if content < HELP_TITLE_WIDTH {
            HELP_TITLE_WIDTH as int
        } else {
            content
        };
        let width = sat_add(wide, 6);
        let width = if width < area.width - 2 {
            width
        } else {
            area.width - 2
        };
        let inner = sat_sub(width, 6);
        let inner = if inner < 1 {
            1
        } else {
            inner
        };
        let rows = spec_wrapped_rows(text, inner) % 0x10000;
        let height = sat_add(rows, 4);
        let height = if height < area.height {
            height
        } else {
            area.height as int
        };
        Rect {
            x: (area.x + (area.width - width) / 2) as u16,
            y: (area.y + (area.height - height) / 2) as u16,
            width: width as u16,
            height: height as u16,
        }
    }
}

/// The area of the help popup (see `spec_help_popup_area`).
pub fn help_popup_area(area: Rect, text: &str) -> (r: Rect)
    requires
        area.x + area.width <= u16::MAX,
        area.y + area.height <= u16::MAX,
    ensures
        r == spec_help_popup_area(area, text@),
{
    if area.width < 2 || area.height < 2 {
        return area;
    }
    let t = chars_of(text);
    let ls = lines(&t);
    let mut content: u16 = 0;
    let mut i: usize = 0;
    while i < ls.len()
        invariant
            i <= ls@.len(),
            content == widest_line(ls.deep_view().take(i as int)),
        decreases ls.len() - i,
    {
        let ghost next = ls.deep_view().take(i + 1);
        assert(next.drop_last() =~= ls.deep_view().take(i as int));
        assert(next.last() == ls@[i as int]@);
        let l = (ls[i].len() % 0x10000) as u16;
        if l > content {
            content = l;
        }
        i += 1;
    }
    assert(ls.deep_view().take(i as int) =~= ls.deep_view());
    let content = if content < 10 {
        10
    } else {
        content
    };
    let wide = if content < HELP_TITLE_WIDTH {
        HELP_TITLE_WIDTH
    } else {
        content
    };
    let width: u16 = if wide > 65535 - 6 {
        65535
    } else {
        wide + 6
    };
    let width = if width < area.width - 2 {
        width
    } else {
        area.width - 2
    };
    let inner: u16 = if width >= 6 {
        width - 6
    } else {
        0
    };
    let inner = if inner < 1 {
        1
    } else {
        inner
    };
    let rows = wrapped_text_lines(text, inner);
    let height: u16 = if rows > 65535 - 4 {
        65535
    } else {
        rows + 4
    };
    let height = if height < area.height {
        height
    } else {
        area.height
    };
    Rect {
        x: area.x + (area.width - width) / 2,
        y: area.y + (area.height - height) / 2,
        width,
        height,
    }
}

// ---------------------------------------------------------------------------
// Centered popups
// ---------------------------------------------------------------------------

/// Whether `inner` lies inside `outer`.
pub open spec fn rect_inside(inner: Rect, outer: Rect) -> bool {
    &&& outer.x <= inner.x
    &&& inner.x + inner.width <= sat_add(outer.x as int, outer.width as int)
    &&& outer.y <= inner.y
    &&& inner.y + inner.height <= sat_add(outer.y as int, outer.height as int)
}

/// Where ratatui's `Layout::split` puts the middle one of three parts along an axis
/// that starts at `start` and is `length` cells long, for the constraints
/// `Percentage(before)`, `Percentage(middle)` and `Percentage(after)` that make up the
/// whole (they add up to 100): the part's start and length.
pub uninterp spec fn percent_middle(start: u16, length: u16, before: u16, middle: u16, after: u16) -> (u16, u16);

/// ratatui's `Layout::split` with three percentage constraints (default margin, flex
/// and spacing), its middle part kept, on an area whose right and bottom edges fit in
/// a `u16`. What its source shows of every outcome: the part lies inside `area` (the
/// solver is given, as required constraints, that the first boundary is at the area's
/// start and the last at its end, that every boundary lies between them and that each
/// part's start is at most its end; the boundaries are rounded to whole cells), and a
/// vertical split keeps the area's `x` and `width`, a horizontal one its `y` and
/// `height`. Where the three percentages add up to 100 the solver's optimum is unique,
/// so the part along the split is a function of the axis and the percentages, named
/// `percent_middle`; otherwise which of several equal solutions comes out is not
/// stated. The required constraints are met by putting every inner boundary at the
/// area's start, so adding them does not fail.
#[verifier::external_body]
fn split_middle(area: Rect, vertical: bool, before: u16, middle: u16, after: u16) -> (r: Rect)
    requires
        area.x + area.width <= u16::MAX,
        area.y + area.height <= u16::MAX,
    ensures
        rect_inside(r, area),
        vertical ==> r.x == area.x && r.width == area.width,
        !vertical ==> r.y == area.y && r.height == area.height,
        vertical && before + middle + after == 100 ==> (r.y, r.height) == percent_middle(
            area.y,
            area.height,
            before,
            middle,
            after,
        ),
        !vertical && before + middle + after == 100 ==> (r.x, r.width) == percent_middle(
            area.x,
            area.width,
            before,
            middle,
            after,
        ),
{
    let direction = if vertical {
        ratatui::layout::Direction::Vertical
    } else {
        ratatui::layout::Direction::Horizontal
    };
    let parts = ratatui::layout::Layout::default().direction(direction).constraints([
        ratatui::layout::Constraint::Percentage(before),
        ratatui::layout::Constraint::Percentage(middle),
        ratatui::layout::Constraint::Percentage(after),
    ]).split(ratatui::layout::Rect { x: area.x, y: area.y, width: area.width, height: area.height });
    Rect { x: parts[1].x, y: parts[1].y, width: parts[1].width, height: parts[1].height }
}

/// The margin on each side of a centered part of `percent` percent.
pub open spec fn side_percent(percent: u16) -> u16 {
    ((100 - percent) / 2) as u16
}

/// The margin on each side of a centered part of `percent` percent: half of the rest.
pub fn popup_margin(percent: u16) -> (r: u16)
    requires
        percent <= 100,
    ensures
        r == side_percent(percent),
{
    (100 - percent) / 2
}

/// A rectangle centered in `area` that takes `percent_x` percent of its width and
/// `percent_y` percent of its height: ratatui lays out the middle row of three (margins
/// of `popup_margin(percent_y)` percent), then the middle column of three in that row.
/// It lies inside `area`; along an axis whose percentage is even (so the margins and the
/// middle make up the whole) it is where ratatui's split puts the middle part.
pub fn centered_rect(percent_x: u16, percent_y: u16, area: Rect) -> (r: Rect)
    requires
        percent_x <= 100,
        percent_y <= 100,
        area.x + area.width <= u16::MAX,
        area.y + area.height <= u16::MAX,
    ensures
        rect_inside(r, area),
        percent_y % 2 == 0 ==> (r.y, r.height) == percent_middle(
            area.y,
            area.height,
            side_percent(percent_y),
            percent_y,
            side_percent(percent_y),
        ),
        percent_x % 2 == 0 ==> (r.x, r.width) == percent_middle(
            area.x,
            area.width,
            side_percent(percent_x),
            percent_x,
            side_percent(percent_x),
        ),
{
    let side_y = popup_margin(percent_y);
    let row = split_middle(area, true, side_y, percent_y, side_y);
    let side_x = popup_margin(percent_x);
    let r = split_middle(row, false, side_x, percent_x, side_x);
    assert(percent_y % 2 == 0 ==> side_y + percent_y + side_y == 100);
    assert(percent_x % 2 == 0 ==> side_x + percent_x + side_x == 100);
    r
}

} // verus!
