use niffler::app::App;
use niffler::board::{default_app_config, default_color_options, default_theme_colors, Board, List};
use niffler::card::Card;
use niffler::columns::{board_columns, column_count, column_view, focus_position, move_preview_rows};
use niffler::details::{board_details_lines, board_details_plain_text, status_bar_segments, DetailLine};
use niffler::layout::{board_content_layout, centered_rect, help_popup_area, popup_margin, Rect};
use niffler::mode::{Mode, Screen};
use niffler::tui::{
    board_header_text, card_row_style, help_text, list_block_style, BlockStyle, BoardRow, RowStyle,
};

fn card(title: &str, filename: &str) -> Card {
    Card {
        title: title.to_string(),
        filename: filename.to_string(),
        path: filename.to_string(),
        content: String::new(),
        position: 0,
        color: None,
    }
}

fn list(name: &str, path: &str, cards: Vec<Card>) -> List {
    List {
        name: name.to_string(),
        path: path.to_string(),
        cards,
        border_color: None,
    }
}

fn board(name: &str, lists: Vec<List>) -> Board {
    Board {
        name: name.to_string(),
        path: name.to_string(),
        theme: default_theme_colors(),
        colors: default_color_options(),
        lists,
    }
}

fn board_app(b: Board, mode: Mode) -> App {
    let n = b.lists.len();
    App {
        root: "/tmp".to_string(),
        config: default_app_config(),
        screen: Screen::Board,
        mode,
        show_preview: false,
        projects: Vec::new(),
        board: Some(b),
        project_preview: None,
        selected_project: 0,
        selected_list: 0,
        selected_cards: vec![0; n],
        status: String::new(),
        should_quit: false,
    }
}

#[test]
fn board_header_text_is_compact() {
    let b = board(
        "strike",
        vec![
            list("TODO", "todo", vec![card("task", "task.md")]),
            list("DONE", "done", Vec::new()),
        ],
    );

    assert_eq!(
        board_header_text(&b, Mode::Normal.name()),
        "✦ strike   ·  2 lists   ·  1 card      NORMAL"
    );
}

#[test]
fn board_header_text_handles_singular_counts() {
    let b = board("solo", vec![list("TODO", "todo", vec![card("task", "task.md")])]);

    assert_eq!(
        board_header_text(&b, Mode::Normal.name()),
        "✦ solo   ·  1 list   ·  1 card      NORMAL"
    );
}

#[test]
fn list_block_style_marks_selected_and_move_targets() {
    assert_eq!(list_block_style(true, false, false), BlockStyle::Selected);
    assert_eq!(list_block_style(false, true, false), BlockStyle::MoveTarget);
    assert_eq!(list_block_style(false, false, false), BlockStyle::Unfocused);
}

#[test]
fn card_row_style_for_placeholder_is_dimmed_and_non_selected_cards_get_list_colors() {
    let style = card_row_style(&BoardRow::Placeholder("No cards"), false, true, false);
    assert_eq!(style, RowStyle::Placeholder);

    assert_eq!(
        card_row_style(&BoardRow::Card("card"), false, true, false),
        RowStyle::InSelectedList
    );
    assert_eq!(
        card_row_style(&BoardRow::Card("card"), false, false, false),
        RowStyle::Muted
    );
}

#[test]
fn selected_card_row_is_highlighted_with_bold_background() {
    let selected_style = card_row_style(&BoardRow::Card("card"), true, true, false);
    assert_eq!(selected_style, RowStyle::Selected { move_target: false });

    let selected_move_style = card_row_style(&BoardRow::Card("card"), true, true, true);
    assert_eq!(selected_move_style, RowStyle::Selected { move_target: true });
}

#[test]
fn board_content_layout_without_preview_uses_full_area() {
    let area = Rect::new(2, 4, 80, 20);
    assert_eq!(board_content_layout(area, false), (area, None));
}

#[test]
fn board_content_layout_with_preview_splits_area_horizontally() {
    let area = Rect::new(3, 5, 80, 20);
    let (lists_area, preview_area) = board_content_layout(area, true);

    let preview_area = preview_area.expect("preview should be shown");
    assert_eq!(lists_area.x, area.x);
    assert_eq!(lists_area.y, area.y);
    assert_eq!(preview_area.y, area.y);
    assert_eq!(lists_area.height, area.height);
    assert_eq!(preview_area.height, area.height);
    assert_eq!(preview_area.x, lists_area.x + lists_area.width);
    assert_eq!(lists_area.width, 40);
    assert_eq!(preview_area.width, 40);
    assert_eq!(lists_area.width + preview_area.width, area.width);
}

#[test]
fn board_content_layout_small_widths_with_preview_are_safe() {
    for width in 0u16..=4 {
        let area = Rect::new(7, 9, width, 12);
        let (lists_area, preview_area) = board_content_layout(area, true);

        assert_eq!(lists_area.x, area.x);
        assert_eq!(lists_area.y, area.y);
        assert_eq!(lists_area.height, area.height);
        assert!(lists_area.width <= area.width);

        match width {
            0..=3 => assert_eq!(preview_area, None),
            4 => {
                let preview_area =
                    preview_area.expect("width 4 should still allocate a preview slot");
                assert_eq!(preview_area.x, lists_area.x + lists_area.width);
                assert_eq!(preview_area.y, area.y);
                assert_eq!(preview_area.height, area.height);
                assert_eq!(lists_area.width + preview_area.width, area.width);
            }
            _ => unreachable!("test only iterates widths 0 through 4"),
        }
    }
}

#[test]
fn board_content_layout_odd_width_gives_lists_the_extra_cell() {
    let (lists_area, preview_area) = board_content_layout(Rect::new(0, 0, 81, 10), true);
    assert_eq!(lists_area.width, 41);
    assert_eq!(preview_area, Some(Rect::new(41, 0, 40, 10)));
}

#[test]
fn board_content_layout_preview_start_saturates() {
    let (_, preview_area) = board_content_layout(Rect::new(65530, 0, 20, 3), true);
    assert_eq!(preview_area.map(|p| p.x), Some(65535));
}

#[test]
fn board_details_text_shows_board_summary_and_lists() {
    let b = Board {
        name: "Work Board".to_string(),
        path: "work".to_string(),
        theme: default_theme_colors(),
        colors: default_color_options(),
        lists: vec![
            list("Todo", "work/todo", vec![card("Card A", "a.md"), card("Card B", "b.md")]),
            list("Done", "work/done", Vec::new()),
        ],
    };

    assert_eq!(
        board_details_plain_text(&b),
        "Work Board\n2 lists / 2 cards\n\nTodo  2 cards\n  - Card A\n  - Card B\n\nDone  0 cards\n  No cards"
    );
}

#[test]
fn board_details_of_board_without_lists_says_so() {
    let b = board("Empty", Vec::new());
    assert_eq!(board_details_plain_text(&b), "Empty\n0 lists / 0 cards\n\nNo lists yet");
    let lines = board_details_lines(&b);
    assert_eq!(lines.len(), 4);
    assert_eq!(lines[3], DetailLine::NoLists);
}

#[test]
fn board_details_lines_tell_kinds_apart() {
    let b = board("W", vec![list("Todo", "t", vec![card("A", "a.md")])]);
    let lines = board_details_lines(&b);
    assert_eq!(
        lines,
        vec![
            DetailLine::Name("W".to_string()),
            DetailLine::Summary("1 list / 1 card".to_string()),
            DetailLine::Blank,
            DetailLine::ListHeading {
                name: "Todo".to_string(),
                count: "1 card".to_string()
            },
            DetailLine::CardTitle("A".to_string()),
        ]
    );
}

#[test]
fn status_bar_segments_split_keys_from_text() {
    let segments = status_bar_segments("[NORMAL] [q] Quit");
    let parts: Vec<(String, bool)> = segments
        .iter()
        .map(|s| (s.text.clone(), s.is_key))
        .collect();
    assert_eq!(
        parts,
        vec![
            ("[NORMAL]".to_string(), true),
            (" ".to_string(), false),
            ("[q]".to_string(), true),
            (" Quit".to_string(), false),
        ]
    );
}

#[test]
fn status_bar_segments_keep_an_unclosed_key() {
    let segments = status_bar_segments("go [x");
    assert_eq!(segments.len(), 2);
    assert_eq!(segments[0].text, "go ");
    assert!(!segments[0].is_key);
    assert_eq!(segments[1].text, "[x");
    assert!(segments[1].is_key);
    assert!(status_bar_segments("").is_empty());
}

#[test]
fn help_popup_fits_the_longest_line_and_centers() {
    let area = Rect::new(0, 0, 80, 24);
    let text = help_text(Screen::Projects);
    let popup = help_popup_area(area, &text);
    assert_eq!(popup.width, 35);
    assert_eq!(popup.height, 12);
    assert_eq!(popup.x, 22);
    assert_eq!(popup.y, 6);
}

#[test]
fn help_popup_in_tiny_area_uses_it_whole() {
    let area = Rect::new(3, 4, 1, 10);
    assert_eq!(help_popup_area(area, "text"), area);
}

#[test]
fn help_popup_is_narrower_than_a_small_area() {
    let area = Rect::new(0, 0, 22, 24);
    let popup = help_popup_area(area, &help_text(Screen::Board));
    assert_eq!(popup.width, 20);
    assert!(popup.height <= 24);
}

#[test]
fn column_count_fits_width() {
    assert_eq!(column_count(80, 5), 2);
    assert_eq!(column_count(20, 5), 1);
    assert_eq!(column_count(200, 5), 3);
    assert_eq!(column_count(200, 2), 2);
    assert_eq!(column_count(200, 0), 0);
}

#[test]
fn focus_position_follows_mode() {
    let order = vec![2, 0, 1];
    assert_eq!(focus_position(&Mode::Normal, 1, &order), 2);
    assert_eq!(
        focus_position(&Mode::Move { target_list: 2, target_position: 0 }, 1, &order),
        0
    );
    assert_eq!(focus_position(&Mode::MoveList { target_position: 9 }, 1, &order), 2);
    assert_eq!(focus_position(&Mode::Normal, 7, &order), 0);
}

#[test]
fn move_preview_rows_show_marker_at_target_without_moving_card() {
    let b = board(
        "b",
        vec![
            list("TODO", "todo", vec![card("first", "1.md"), card("second", "2.md")]),
            list("DONE", "done", vec![card("old", "3.md")]),
        ],
    );
    let app = board_app(b, Mode::Move { target_list: 1, target_position: 0 });
    let source = move_preview_rows(&app, 0, Some("first"));
    assert_eq!(source, vec![BoardRow::Card("second")]);
    let target = move_preview_rows(&app, 1, Some("first"));
    assert_eq!(
        target,
        vec![BoardRow::MoveMarker("first".to_string()), BoardRow::Card("old")]
    );
    let past_end = board_app(
        board("c", vec![list("TODO", "todo", vec![card("a", "a.md")])]),
        Mode::Move { target_list: 0, target_position: 5 },
    );
    assert_eq!(
        move_preview_rows(&past_end, 0, None),
        vec![BoardRow::MoveMarker("card".to_string())]
    );
}

#[test]
fn empty_target_list_in_move_mode_shows_only_the_marker() {
    let b = board(
        "b",
        vec![
            list("TODO", "todo", vec![card("first task", "1.md")]),
            list("EMPTY", "empty", Vec::new()),
        ],
    );
    let app = board_app(b, Mode::Move { target_list: 1, target_position: 0 });
    let column = column_view(&app, 1, 10);
    let labels: Vec<String> = column.rows.iter().map(|r| r.label.clone()).collect();
    assert_eq!(labels, vec!["-> first task".to_string()]);
    assert_eq!(column.border, BlockStyle::MoveTarget);
    assert_eq!(column.title, " -> EMPTY [0] ");
    assert_eq!(column.rows[0].style, RowStyle::Selected { move_target: true });
}

#[test]
fn empty_list_in_normal_mode_shows_placeholders() {
    let app = board_app(board("b", vec![list("TODO", "todo", Vec::new())]), Mode::Normal);
    let column = column_view(&app, 0, 14);
    let labels: Vec<String> = column.rows.iter().map(|r| r.label.clone()).collect();
    assert_eq!(labels, vec!["No cards".to_string(), "Press n to create a card".to_string()]);
    assert!(column.rows.iter().all(|r| r.style == RowStyle::Placeholder));
    assert_eq!(column.border, BlockStyle::Selected);
}

#[test]
fn deep_selected_card_scrolls_into_view() {
    let cards: Vec<Card> = (0..10).map(|i| card(&format!("card {i}"), &format!("{i}.md"))).collect();
    let mut app = board_app(board("b", vec![list("TODO", "todo", cards)]), Mode::Normal);
    app.selected_cards = vec![8];
    let column = column_view(&app, 0, 6);
    let labels: Vec<String> = column.rows.iter().map(|r| r.label.clone()).collect();
    assert_eq!(labels, vec!["card 5", "card 6", "card 7", "card 8"]);
    assert_eq!(column.rows[3].style, RowStyle::Selected { move_target: false });
    assert_eq!(column.rows[0].style, RowStyle::InSelectedList);
}

#[test]
fn move_list_mode_keeps_anchor_at_top() {
    let cards: Vec<Card> = (0..10).map(|i| card(&format!("card {i}"), &format!("{i}.md"))).collect();
    let mut app = board_app(board("b", vec![list("TODO", "todo", cards)]), Mode::MoveList { target_position: 0 });
    app.selected_cards = vec![9];
    let column = column_view(&app, 0, 5);
    let labels: Vec<String> = column.rows.iter().map(|r| r.label.clone()).collect();
    assert_eq!(labels, vec!["card 0", "card 1", "card 2"]);
    assert!(column.rows.iter().all(|r| r.style == RowStyle::InSelectedList));
    assert_eq!(column.border, BlockStyle::MoveTarget);
}

#[test]
fn board_columns_window_follows_selected_list() {
    let lists: Vec<List> = (0..5).map(|i| list(&format!("L{i}"), &format!("l{i}"), Vec::new())).collect();
    let mut app = board_app(board("b", lists), Mode::Normal);
    app.selected_list = 4;
    let columns = board_columns(&app, 80, 10);
    let shown: Vec<usize> = columns.iter().map(|c| c.list_index).collect();
    assert_eq!(shown, vec![3, 4]);
    assert!(board_columns(&board_app(board("e", Vec::new()), Mode::Normal), 80, 10).is_empty());
}

#[test]
fn board_columns_show_a_moving_list_at_its_target() {
    let lists: Vec<List> = (0..3).map(|i| list(&format!("L{i}"), &format!("l{i}"), Vec::new())).collect();
    let app = board_app(board("b", lists), Mode::MoveList { target_position: 2 });
    let columns = board_columns(&app, 200, 10);
    let shown: Vec<usize> = columns.iter().map(|c| c.list_index).collect();
    assert_eq!(shown, vec![1, 2, 0]);
}

#[test]
fn centered_rect_takes_the_middle_share_of_each_direction() {
    let area = Rect::new(0, 0, 100, 50);
    assert_eq!(centered_rect(60, 20, area), Rect::new(20, 20, 60, 10));
    let shifted = Rect::new(10, 4, 100, 50);
    assert_eq!(centered_rect(60, 20, shifted), Rect::new(30, 24, 60, 10));
    assert_eq!(centered_rect(100, 100, area), area);
    assert_eq!(popup_margin(64), 18);
    assert_eq!(popup_margin(100), 0);
    assert_eq!(popup_margin(0), 50);
}
