use niffler::app::App;
use niffler::board::{default_app_config, default_color_options, default_theme_colors, Board, List, Project};
use niffler::card::Card;
use niffler::filesystem::{opening_preview, BoardMetadata};
use niffler::mode::{PickerTarget, Screen};
use niffler::settings::parse_app_config;

fn card(filename: &str, content: &str) -> Card {
    Card::from_markdown(
        filename.to_string(),
        format!("/root/work/todo/{filename}"),
        content.to_string(),
    )
}

fn list(name: &str, cards: Vec<Card>, border_color: Option<&str>) -> List {
    List {
        name: name.to_uppercase(),
        path: format!("/root/work/{name}"),
        cards,
        border_color: border_color.map(|c| c.to_string()),
    }
}

fn board(lists: Vec<List>) -> Board {
    Board {
        name: "work".to_string(),
        path: "/root/work".to_string(),
        theme: default_theme_colors(),
        colors: default_color_options(),
        lists,
    }
}

fn opened(config_text: Option<&str>, b: Board) -> App {
    let config = match config_text {
        Some(text) => parse_app_config(text),
        None => default_app_config(),
    };
    let projects = vec![Project {
        name: "work".to_string(),
        path: "/root/work".to_string(),
    }];
    let mut app = App::new("/root".to_string(), config, projects, None);
    assert_eq!(app.open_selected_project().as_deref(), Some("/root/work"));
    app.open_board(b, true);
    app
}

fn three_lists() -> Board {
    board(vec![
        list("todo", Vec::new(), None),
        list("doing", Vec::new(), None),
        list("done", Vec::new(), None),
    ])
}

#[test]
fn selected_card_content_drops_the_frontmatter() {
    let app = opened(
        None,
        board(vec![list(
            "todo",
            vec![card(
                "task.md",
                "---\nposition: 1000\ncreated_at: 123\nupdated_at: 124\n---\n\n# Task\nBody\n",
            )],
            None,
        )]),
    );
    assert_eq!(app.selected_card_content().as_deref(), Some("# Task\nBody\n"));
    assert_eq!(app.selected_card_path().as_deref(), Some("/root/work/todo/task.md"));
}

#[test]
fn list_focus_wraps_both_ways() {
    let mut app = opened(None, three_lists());
    app.selected_list = 2;
    app.focus_next_list();
    assert_eq!(app.selected_list, 0);
    app.focus_previous_list();
    assert_eq!(app.selected_list, 2);
    app.move_list_selection(1);
    assert_eq!(app.selected_list, 0);
    app.move_list_selection(-1);
    assert_eq!(app.selected_list, 2);
}

#[test]
fn tabs_switch_between_the_board_list_and_the_board() {
    let projects = vec![Project {
        name: "work".to_string(),
        path: "/root/work".to_string(),
    }];
    let mut app = App::new("/root".to_string(), default_app_config(), projects, None);
    assert!(app.switch_tab());
    assert_eq!(app.screen, Screen::Projects);
    app.open_board(three_lists(), true);
    assert_eq!(app.screen, Screen::Board);
    assert!(!app.switch_tab());
    assert_eq!(app.screen, Screen::Projects);
    assert!(app.board.is_some());
    assert!(!app.switch_tab());
    assert_eq!(app.screen, Screen::Board);
}

#[test]
fn move_targets_stay_inside_the_target_list() {
    let app = opened(
        None,
        board(vec![list(
            "todo",
            vec![card("a.md", "# A\n"), card("b.md", "# B\n")],
            None,
        )]),
    );
    assert_eq!(app.move_target_position(0, 0, -1), 0);
    assert_eq!(app.move_target_position(0, 0, 1), 1);
    assert_eq!(app.move_target_position(0, 2, 1), 2);
}

#[test]
fn preview_toggles_and_names_the_board_to_save() {
    let mut app = opened(None, three_lists());
    assert!(app.show_preview);
    assert_eq!(app.toggle_preview().as_deref(), Some("/root/work"));
    assert!(!app.show_preview);
    app.toggle_preview();
    assert!(app.show_preview);
}

const RED_BLUE: &str = "theme:\n  active_selection: \"#daad52\"\n\ncolors:\n  - label: Red\n    value: \"#ef4444\"\n  - label: Blue\n    value: \"#3b82f6\"\n";

#[test]
fn list_border_picker_offers_the_configured_colors() {
    let app = opened(
        Some(RED_BLUE),
        board(vec![list("todo", Vec::new(), Some("#3b82f6"))]),
    );
    let picker = app.list_border_color_picker().unwrap();
    assert_eq!(picker.title, "List Border Color");
    assert_eq!(picker.options[0].label, "Red");
    assert_eq!(picker.options[0].value, "#ef4444");
    assert_eq!(picker.options[1].label, "Blue");
    assert_eq!(picker.options[1].value, "#3b82f6");
    assert_eq!(picker.selected, 1);
    assert_eq!(picker.target, PickerTarget::ListBorderColor { list_index: 0 });
}

#[test]
fn card_picker_offers_the_configured_colors() {
    let app = opened(
        Some(RED_BLUE),
        board(vec![list(
            "todo",
            vec![card("task.md", "---\ncolor: \"#3b82f6\"\n---\n\n# Task\n")],
            None,
        )]),
    );
    let picker = app.card_color_picker().unwrap();
    assert_eq!(picker.title, "Card Color");
    assert_eq!(picker.options[0].label, "Red");
    assert_eq!(picker.options[1].value, "#3b82f6");
    assert_eq!(picker.selected, 1);
    assert_eq!(
        picker.target,
        PickerTarget::CardColor {
            list_index: 0,
            card_index: 0,
        }
    );
}

#[test]
fn moved_card_is_focused_in_its_new_list() {
    let mut app = opened(
        None,
        board(vec![
            list("source", vec![card("task.md", "# Task\n")], None),
            list("target", vec![card("aaa.md", "# Existing\n")], None),
        ]),
    );
    let (from, to) = app.card_move_target(1).unwrap();
    assert_eq!(from, "/root/work/todo/task.md");
    assert_eq!(to, "/root/work/target");
    let moved = "/root/work/target/task.md".to_string();
    let mut task = card("task.md", "---\nposition: 500\n---\n# Task\n");
    task.path = moved.clone();
    let mut existing = card("aaa.md", "# Existing\n");
    existing.path = "/root/work/target/aaa.md".to_string();
    let after = board(vec![
        list("source", Vec::new(), None),
        list("target", vec![task, existing], None),
    ]);
    app.move_selected_card_to(1, &moved, after);
    assert_eq!(app.selected_list, 1);
    assert_eq!(app.selected_cards[1], 0);
    assert_eq!(app.status, "Moved card");
}

#[test]
fn reloading_a_smaller_board_pulls_the_selection_inside() {
    let mut app = opened(
        None,
        board(vec![
            list("todo", vec![card("a.md", "# A\n"), card("b.md", "# B\n")], None),
            list("doing", Vec::new(), None),
            list("done", vec![card("c.md", "# C\n")], None),
        ]),
    );
    app.selected_list = 2;
    app.selected_cards = vec![1, 0, 0];
    app.reload_board(board(vec![list("todo", vec![card("a.md", "# A\n")], None)]));
    assert_eq!(app.selected_list, 0);
    assert_eq!(app.selected_cards, vec![0]);
    app.reload_board(board(Vec::new()));
    assert_eq!(app.selected_list, 0);
    assert!(app.selected_cards.is_empty());
}

#[test]
fn next_then_previous_list_comes_back() {
    let mut app = opened(None, three_lists());
    for start in 0..3 {
        app.selected_list = start;
        app.focus_next_list();
        app.focus_previous_list();
        assert_eq!(app.selected_list, start);
        app.focus_previous_list();
        app.focus_next_list();
        assert_eq!(app.selected_list, start);
    }
}

#[test]
fn preview_panel_is_visible_by_default_and_can_toggle() {
    let projects = vec![Project {
        name: "work".to_string(),
        path: "/root/work".to_string(),
    }];
    let mut app = App::new("/root".to_string(), default_app_config(), projects, None);
    assert_eq!(app.open_selected_project().as_deref(), Some("/root/work"));
    // The board had no metadata file before it was opened.
    app.open_board(three_lists(), opening_preview(&None));
    assert!(app.show_preview);
    app.toggle_preview();
    assert!(!app.show_preview);
    app.toggle_preview();
    assert!(app.show_preview);
}

#[test]
fn opening_follows_recorded_preview_setting() {
    let recorded = |show_preview: bool| {
        Some(BoardMetadata {
            name: "Work".to_string(),
            show_preview,
            lists: Vec::new(),
        })
    };
    assert!(opening_preview(&recorded(true)));
    assert!(!opening_preview(&recorded(false)));
    assert!(opening_preview(&None));
}
