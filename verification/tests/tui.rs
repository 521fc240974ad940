use niffler::app::App;
use niffler::board::{default_app_config, default_color_options, default_theme_colors, Board, List, Project};
use niffler::card::Card;
use niffler::mode::{DeleteTarget, Mode, RenameTarget, Screen};
use niffler::tui::{
    empty_list_rows, has_modal, help_text, input_popup_text, instruction_line, is_row_selected,
    list_title, rename_popup_text, visible_list_window, wrapped_text_lines, BoardRow,
    HELP_CLOSE_LINE,
};

fn card(title: &str, filename: &str) -> Card {
    Card {
        title: title.to_string(),
        filename: filename.to_string(),
        path: filename.to_string(),
        content: String::new(),
        position: 0,
        color: None,
    }
}

fn sample_board() -> Board {
    Board {
        name: "strike".to_string(),
        path: "strike".to_string(),
        theme: default_theme_colors(),
        colors: default_color_options(),
        lists: vec![
            List {
                name: "TODO".to_string(),
                path: "todo".to_string(),
                cards: vec![card("first task", "task1.md"), card("second task", "task2.md")],
                border_color: None,
            },
            List {
                name: "DONE".to_string(),
                path: "done".to_string(),
                cards: Vec::new(),
                border_color: None,
            },
        ],
    }
}

fn sample_projects_app(mode: Mode) -> App {
    App {
        root: "/tmp".to_string(),
        config: default_app_config(),
        screen: Screen::Projects,
        mode,
        show_preview: false,
        projects: vec![
            Project {
                name: "Work".to_string(),
                path: "/tmp/work".to_string(),
            },
            Project {
                name: "Play".to_string(),
                path: "/tmp/play".to_string(),
            },
        ],
        board: None,
        project_preview: Some(sample_board()),
        selected_project: 0,
        selected_list: 0,
        selected_cards: vec![0],
        status: String::new(),
        should_quit: false,
    }
}

fn sample_board_app(show_preview: bool) -> App {
    App {
        root: "/tmp".to_string(),
        config: default_app_config(),
        screen: Screen::Board,
        mode: Mode::Normal,
        show_preview,
        projects: Vec::new(),
        board: Some(sample_board()),
        project_preview: None,
        selected_project: 0,
        selected_list: 0,
        selected_cards: vec![0, 0],
        status: String::new(),
        should_quit: false,
    }
}

#[test]
fn rename_popup_text_shows_target_name_and_current_input() {
    assert_eq!(
        rename_popup_text(RenameTarget::Card, "Ship preview"),
        "Rename Card\n\nShip preview\n\nEnter Rename  Esc Cancel"
    );
}

#[test]
fn list_title_includes_card_count() {
    assert_eq!(list_title("TODO", 1, false), " TODO [1] ");
    assert_eq!(list_title("DONE", 0, false), " DONE [0] ");
    assert_eq!(list_title("PENDING", 3, true), " -> PENDING [3] ");
}

#[test]
fn empty_list_rows_show_action_hint() {
    assert_eq!(
        empty_list_rows(),
        vec![
            BoardRow::Placeholder("No cards"),
            BoardRow::Placeholder("Press n to create a card"),
        ]
    );
}

#[test]
fn board_row_selectability_distinguishes_placeholder_and_card_rows() {
    assert!(!BoardRow::Placeholder("No cards").is_selectable());
    assert!(BoardRow::Card("task").is_selectable());
}

#[test]
fn move_list_mode_does_not_select_board_rows() {
    assert!(!is_row_selected(
        &Mode::MoveList { target_position: 1 },
        &BoardRow::Card("task"),
        true,
        0,
        3
    ));
    assert!(!is_row_selected(
        &Mode::MoveList { target_position: 2 },
        &BoardRow::MoveMarker("moving card".to_string()),
        true,
        0,
        3
    ));
}

#[test]
fn visible_list_window_keeps_focused_list_visible() {
    assert_eq!(visible_list_window(0, 3, 6), 0..3);
    assert_eq!(visible_list_window(3, 3, 6), 1..4);
    assert_eq!(visible_list_window(5, 3, 6), 3..6);
}

#[test]
fn visible_list_window_handles_small_or_empty_inputs() {
    assert_eq!(visible_list_window(2, 10, 4), 0..4);
    assert_eq!(visible_list_window(9, 3, 6), 3..6);
    assert_eq!(visible_list_window(0, 0, 6), 0..0);
    assert_eq!(visible_list_window(0, 3, 0), 0..0);
}

#[test]
fn has_modal_matches_project_modal_modes() {
    assert!(has_modal(&Mode::CreateProject {
        input: "Board".to_string()
    }));
    assert!(has_modal(&Mode::CreateList {
        input: "List".to_string()
    }));
    assert!(has_modal(&Mode::Add {
        input: "Card".to_string()
    }));
    assert!(has_modal(&Mode::Rename {
        target: RenameTarget::Card,
        input: "Rename".to_string()
    }));
    assert!(has_modal(&Mode::ConfirmDelete {
        target: DeleteTarget::Card
    }));
    assert!(has_modal(&Mode::Help));
}

#[test]
fn has_modal_rejects_non_modal_modes() {
    assert!(!has_modal(&Mode::Normal));
    assert!(!has_modal(&Mode::Move {
        target_list: 0,
        target_position: 0
    }));
    assert!(!has_modal(&Mode::MoveList { target_position: 0 }));
}

#[test]
fn home_footer_text_is_compact_and_accurate() {
    let app = sample_projects_app(Mode::Normal);
    assert_eq!(
        instruction_line(&app),
        "[NORMAL] [Tab] Switch [j/k] Move [Enter] Open [n] New [r] Rename [?] Help [q] Quit"
    );
}

#[test]
fn board_footer_text_is_compact_and_accurate() {
    let app = sample_board_app(false);
    assert_eq!(
        instruction_line(&app),
        "[NORMAL] [Tab] List [j/k] Move [n] New [m] Move [p] Preview [?] Help [q] Quit"
    );
    let app = sample_board_app(true);
    assert_eq!(
        instruction_line(&app),
        "[NORMAL] [Tab] List [j/k] Move [n] New [m] Move [p] Hide Preview [?] Help [q] Quit"
    );
}

#[test]
fn board_help_text_includes_preview_toggle() {
    let text = help_text(Screen::Board);
    assert!(text.contains("Navigation"));
    assert!(text.contains("Cards"));
    assert!(text.contains("Lists"));
    assert!(text.contains("Help"));
    assert!(text.contains("Tab/h/l"));
    assert!(text.contains("n New Card"));
    assert!(text.contains("N New List"));
    assert!(text.contains("p Preview"));
    assert!(text.contains(HELP_CLOSE_LINE));
    assert!(text.contains("? / Esc / q"));
    assert!(!text.contains("q Quit"));
}

#[test]
fn home_help_text_includes_board_actions() {
    let text = help_text(Screen::Projects);
    assert!(text.contains("Navigation"));
    assert!(text.contains("Boards"));
    assert!(text.contains("j/k Up/Down"));
    assert!(text.contains("Enter Open"));
    assert!(text.contains("n New Board"));
    assert!(text.contains("r Rename"));
    assert!(text.contains(HELP_CLOSE_LINE));
    assert!(text.contains("? / Esc / q"));
    assert!(!text.contains("q Quit"));
}

#[test]
fn wrapped_text_lines_counts_wrapping() {
    assert_eq!(wrapped_text_lines("a very long line of words", 10), 3);
    assert_eq!(wrapped_text_lines("singlewordthatissolong", 6), 4);
    assert_eq!(wrapped_text_lines("short\nline", 10), 2);
}

#[test]
fn input_popup_text_shows_label_input_and_action() {
    assert_eq!(
        input_popup_text("Card title", "Ship preview", "Create"),
        "Card title\n\nShip preview\n\nEnter Create  Esc Cancel"
    );
}
