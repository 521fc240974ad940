use niffler::app::App;
use niffler::board::{
    default_app_config, default_color_options, default_theme_colors, Board, List, Project,
};
use niffler::card::Card;
use niffler::keys::{handle_key, typed_input, Action, Key, KeyCode};
use niffler::mode::{DeleteTarget, Mode, PickerTarget, RenameTarget, Screen};

fn key(c: char) -> Key {
    Key {
        code: KeyCode::Char(c),
        plain: true,
    }
}

fn code(code: KeyCode) -> Key {
    Key { code, plain: true }
}

fn app_with_empty_board() -> App {
    App {
        root: "/tmp".to_string(),
        config: default_app_config(),
        screen: Screen::Board,
        mode: Mode::Normal,
        show_preview: false,
        projects: Vec::new(),
        board: Some(Board {
            name: "empty".to_string(),
            path: "/tmp/empty".to_string(),
            theme: default_theme_colors(),
            colors: default_color_options(),
            lists: Vec::new(),
        }),
        project_preview: None,
        selected_project: 0,
        selected_list: 0,
        selected_cards: Vec::new(),
        status: String::new(),
        should_quit: false,
    }
}

fn ready_board(border_color: Option<&str>, cards: Vec<Card>) -> Board {
    Board {
        name: "ready".to_string(),
        path: "/tmp/ready".to_string(),
        theme: default_theme_colors(),
        colors: default_color_options(),
        lists: vec![List {
            name: "TODO".to_string(),
            path: "/tmp/ready/todo".to_string(),
            cards,
            border_color: border_color.map(|c| c.to_string()),
        }],
    }
}

fn card(title: &str) -> Card {
    Card {
        title: title.to_string(),
        filename: format!("{title}.md"),
        path: format!("/tmp/ready/todo/{title}.md"),
        content: String::new(),
        position: 1000,
        color: None,
    }
}

fn projects_app() -> App {
    App {
        root: "/tmp".to_string(),
        config: default_app_config(),
        screen: Screen::Projects,
        mode: Mode::Normal,
        show_preview: false,
        projects: vec![
            Project {
                name: "Work".to_string(),
                path: "/tmp/work".to_string(),
            },
            Project {
                name: "Play".to_string(),
                path: "/tmp/play".to_string(),
            },
        ],
        board: None,
        project_preview: None,
        selected_project: 0,
        selected_list: 0,
        selected_cards: Vec::new(),
        status: String::new(),
        should_quit: false,
    }
}

#[test]
fn new_card_on_board_without_lists_opens_create_list_popup() {
    let mut app = app_with_empty_board();

    handle_key(&mut app, key('n'));

    assert_eq!(
        app.mode,
        Mode::CreateList {
            input: String::new(),
        }
    );
}

#[test]
fn new_card_on_board_with_lists_opens_create_card_popup() {
    let mut app = app_with_empty_board();
    app.board = Some(ready_board(None, Vec::new()));
    app.selected_cards = vec![0];

    handle_key(&mut app, key('n'));

    assert_eq!(
        app.mode,
        Mode::Add {
            input: String::new()
        }
    );
}

#[test]
fn uppercase_c_opens_list_border_color_picker() {
    let mut app = app_with_empty_board();
    app.board = Some(ready_board(Some("#22c55e"), Vec::new()));
    app.selected_cards = vec![0];

    handle_key(&mut app, key('C'));

    let Mode::Picker(picker) = app.mode else {
        panic!("expected picker mode");
    };
    assert_eq!(picker.title, "List Border Color");
    assert_eq!(
        picker.target,
        PickerTarget::ListBorderColor { list_index: 0 }
    );
    assert_eq!(picker.options[picker.selected].value, "#22c55e");
}

#[test]
fn q_closes_list_border_color_picker() {
    let mut app = app_with_empty_board();
    app.board = Some(ready_board(None, Vec::new()));
    app.selected_cards = vec![0];
    handle_key(&mut app, key('C'));
    assert!(matches!(app.mode, Mode::Picker(_)));

    let action = handle_key(&mut app, key('q'));

    assert_eq!(app.mode, Mode::Normal);
    assert_eq!(action, Action::Nothing);
}

#[test]
fn move_card_on_empty_list_stays_normal() {
    let mut app = app_with_empty_board();
    app.board = Some(ready_board(None, Vec::new()));
    app.selected_cards = vec![0];

    handle_key(&mut app, key('m'));

    assert_eq!(app.mode, Mode::Normal);
}

#[test]
fn uppercase_c_without_lists_reports_in_status() {
    let mut app = app_with_empty_board();
    handle_key(&mut app, key('C'));
    assert_eq!(app.mode, Mode::Normal);
    assert_eq!(app.status, "No list selected");
}

#[test]
fn typing_and_backspace_edit_the_prompt() {
    let mut app = app_with_empty_board();
    handle_key(&mut app, key('N'));
    handle_key(&mut app, key('a'));
    handle_key(&mut app, key('b'));
    handle_key(&mut app, code(KeyCode::Backspace));
    handle_key(&mut app, key('c'));
    assert_eq!(
        app.mode,
        Mode::CreateList {
            input: "ac".to_string()
        }
    );
    let with_control = Key {
        code: KeyCode::Char('x'),
        plain: false,
    };
    handle_key(&mut app, with_control);
    assert_eq!(
        app.mode,
        Mode::CreateList {
            input: "ac".to_string()
        }
    );
}

#[test]
fn typed_input_follows_the_key() {
    assert_eq!(typed_input("ab".to_string(), code(KeyCode::Backspace)), "a");
    assert_eq!(typed_input(String::new(), code(KeyCode::Backspace)), "");
    assert_eq!(typed_input("ab".to_string(), key('é')), "abé");
    assert_eq!(typed_input("ab".to_string(), code(KeyCode::Tab)), "ab");
}

#[test]
fn enter_submits_a_prompt_and_leaves_the_mode_to_the_caller() {
    let mut app = app_with_empty_board();
    app.board = Some(ready_board(None, Vec::new()));
    app.selected_cards = vec![0];
    app.mode = Mode::Add {
        input: "Write tests".to_string(),
    };
    let action = handle_key(&mut app, code(KeyCode::Enter));
    assert_eq!(action, Action::CreateCard("Write tests".to_string()));
    assert_eq!(
        app.mode,
        Mode::Add {
            input: "Write tests".to_string()
        }
    );
}

#[test]
fn enter_on_a_blank_prompt_closes_it() {
    let mut app = app_with_empty_board();
    app.mode = Mode::CreateList {
        input: "   ".to_string(),
    };
    let action = handle_key(&mut app, code(KeyCode::Enter));
    assert_eq!(action, Action::Nothing);
    assert_eq!(app.mode, Mode::Normal);
}

#[test]
fn esc_cancels_a_prompt_and_q_cancels_a_new_board() {
    let mut app = app_with_empty_board();
    app.mode = Mode::Rename {
        target: RenameTarget::List,
        input: "x".to_string(),
    };
    handle_key(&mut app, key('q'));
    assert_eq!(
        app.mode,
        Mode::Rename {
            target: RenameTarget::List,
            input: "xq".to_string()
        }
    );
    handle_key(&mut app, code(KeyCode::Esc));
    assert_eq!(app.mode, Mode::Normal);

    let mut projects = projects_app();
    projects.mode = Mode::CreateProject {
        input: "Home".to_string(),
    };
    handle_key(&mut projects, key('q'));
    assert_eq!(projects.mode, Mode::Normal);
}

#[test]
fn board_list_keys_select_open_and_rename() {
    let mut app = projects_app();
    assert_eq!(handle_key(&mut app, key('j')), Action::ShowDetails);
    assert_eq!(app.selected_project, 1);
    handle_key(&mut app, code(KeyCode::Down));
    assert_eq!(app.selected_project, 1);
    assert_eq!(
        handle_key(&mut app, code(KeyCode::Enter)),
        Action::OpenBoard("/tmp/play".to_string())
    );
    handle_key(&mut app, key('r'));
    assert_eq!(
        app.mode,
        Mode::Rename {
            target: RenameTarget::Board,
            input: "Play".to_string()
        }
    );
    let submitted = handle_key(&mut app, code(KeyCode::Enter));
    assert_eq!(
        submitted,
        Action::Rename(RenameTarget::Board, "Play".to_string())
    );
}

#[test]
fn tab_on_board_list_opens_the_selected_board_or_returns_to_it() {
    let mut app = projects_app();
    assert_eq!(
        handle_key(&mut app, code(KeyCode::Tab)),
        Action::OpenBoard("/tmp/work".to_string())
    );
    let mut back = app_with_empty_board();
    back.screen = Screen::Projects;
    assert_eq!(handle_key(&mut back, code(KeyCode::BackTab)), Action::Nothing);
    assert_eq!(back.screen, Screen::Board);
}

#[test]
fn enter_without_boards_reports_in_status() {
    let mut app = projects_app();
    app.projects.clear();
    assert_eq!(handle_key(&mut app, code(KeyCode::Enter)), Action::Nothing);
    assert_eq!(app.status, "No projects in /tmp");
}

#[test]
fn delete_confirmation_answers() {
    let mut app = projects_app();
    handle_key(&mut app, key('d'));
    assert_eq!(
        app.mode,
        Mode::ConfirmDelete {
            target: DeleteTarget::Board
        }
    );
    assert_eq!(handle_key(&mut app, key('x')), Action::Nothing);
    assert_eq!(handle_key(&mut app, key('Y')), Action::Delete(DeleteTarget::Board));
    handle_key(&mut app, key('n'));
    assert_eq!(app.mode, Mode::Normal);
}

#[test]
fn help_opens_and_closes() {
    let mut app = app_with_empty_board();
    handle_key(&mut app, key('?'));
    assert_eq!(app.mode, Mode::Help);
    handle_key(&mut app, key('x'));
    assert_eq!(app.mode, Mode::Help);
    handle_key(&mut app, key('?'));
    assert_eq!(app.mode, Mode::Normal);
}

#[test]
fn esc_on_a_board_goes_back_to_the_board_list() {
    let mut app = app_with_empty_board();
    handle_key(&mut app, code(KeyCode::Esc));
    assert_eq!(app.screen, Screen::Projects);
    assert!(app.board.is_none());
    handle_key(&mut app, key('q'));
    assert!(app.should_quit);
}

#[test]
fn preview_key_flips_setting_and_asks_to_save_it() {
    let mut app = app_with_empty_board();
    assert_eq!(
        handle_key(&mut app, key('p')),
        Action::SavePreview("/tmp/empty".to_string())
    );
    assert!(app.show_preview);
    handle_key(&mut app, key('p'));
    assert!(!app.show_preview);
}

#[test]
fn card_keys_need_a_selected_card() {
    let mut app = app_with_empty_board();
    app.board = Some(ready_board(None, vec![card("alpha"), card("beta")]));
    app.selected_cards = vec![1];
    handle_key(&mut app, key('r'));
    assert_eq!(
        app.mode,
        Mode::Rename {
            target: RenameTarget::Card,
            input: "beta".to_string()
        }
    );
    app.mode = Mode::Normal;
    assert_eq!(
        handle_key(&mut app, key('e')),
        Action::EditCard("/tmp/ready/todo/beta.md".to_string())
    );
    handle_key(&mut app, key('k'));
    assert_eq!(app.selected_cards, vec![0]);
    handle_key(&mut app, key('d'));
    assert_eq!(
        app.mode,
        Mode::ConfirmDelete {
            target: DeleteTarget::Card
        }
    );

    let mut empty = app_with_empty_board();
    assert_eq!(handle_key(&mut empty, key('e')), Action::Nothing);
    assert_eq!(empty.status, "No card selected");
}

#[test]
fn moving_a_card_steps_through_lists_and_slots() {
    let mut app = app_with_empty_board();
    let mut b = ready_board(None, vec![card("alpha"), card("beta")]);
    b.lists.push(List {
        name: "DONE".to_string(),
        path: "/tmp/ready/done".to_string(),
        cards: vec![card("gamma")],
        border_color: None,
    });
    app.board = Some(b);
    app.selected_cards = vec![0, 0];
    handle_key(&mut app, key('m'));
    assert_eq!(
        app.mode,
        Mode::Move {
            target_list: 0,
            target_position: 0
        }
    );
    handle_key(&mut app, key('l'));
    assert_eq!(
        app.mode,
        Mode::Move {
            target_list: 1,
            target_position: 0
        }
    );
    handle_key(&mut app, key('j'));
    handle_key(&mut app, key('j'));
    assert_eq!(
        app.mode,
        Mode::Move {
            target_list: 1,
            target_position: 1
        }
    );
    handle_key(&mut app, key('l'));
    assert_eq!(
        app.mode,
        Mode::Move {
            target_list: 0,
            target_position: 1
        }
    );
    assert_eq!(
        handle_key(&mut app, code(KeyCode::Enter)),
        Action::MoveCard {
            target_list: 0,
            target_position: 1
        }
    );
}

#[test]
fn moving_a_list_steps_through_slots() {
    let mut app = app_with_empty_board();
    let mut b = ready_board(None, Vec::new());
    b.lists.push(List {
        name: "DONE".to_string(),
        path: "/tmp/ready/done".to_string(),
        cards: Vec::new(),
        border_color: None,
    });
    app.board = Some(b);
    app.selected_cards = vec![0, 0];
    handle_key(&mut app, key('M'));
    handle_key(&mut app, key('l'));
    handle_key(&mut app, key('l'));
    assert_eq!(app.mode, Mode::MoveList { target_position: 1 });
    assert_eq!(
        handle_key(&mut app, code(KeyCode::Enter)),
        Action::MoveList { target_position: 1 }
    );
}

#[test]
fn picker_moves_inside_its_options_and_chooses() {
    let mut app = app_with_empty_board();
    app.board = Some(ready_board(None, Vec::new()));
    app.selected_cards = vec![0];
    handle_key(&mut app, key('C'));
    handle_key(&mut app, key('k'));
    handle_key(&mut app, key('j'));
    handle_key(&mut app, key('j'));
    let action = handle_key(&mut app, code(KeyCode::Enter));
    assert_eq!(
        action,
        Action::SetListBorderColor {
            list_index: 0,
            value: "#22c55e".to_string()
        }
    );
    for _ in 0..20 {
        handle_key(&mut app, code(KeyCode::Down));
    }
    let Mode::Picker(picker) = &app.mode else {
        panic!("expected picker mode");
    };
    assert_eq!(picker.selected, picker.options.len() - 1);
}

#[test]
fn escape_closes_every_popup_and_changes_nothing_else() {
    let modes = vec![
        Mode::CreateList {
            input: "x".to_string(),
        },
        Mode::Add {
            input: "card".to_string(),
        },
        Mode::Rename {
            target: RenameTarget::List,
            input: "TODO".to_string(),
        },
        Mode::Help,
        Mode::Move {
            target_list: 0,
            target_position: 0,
        },
        Mode::MoveList { target_position: 0 },
        Mode::ConfirmDelete {
            target: DeleteTarget::Card,
        },
        Mode::CreateProject {
            input: "b".to_string(),
        },
    ];
    for mode in modes {
        let mut app = app_with_empty_board();
        app.board = Some(ready_board(Some("#38bdf8"), vec![card("a"), card("b")]));
        app.selected_cards = vec![1];
        app.mode = mode;
        let action = handle_key(&mut app, code(KeyCode::Esc));
        assert!(matches!(action, Action::Nothing));
        assert_eq!(app.mode, Mode::Normal);
        assert_eq!(app.selected_cards, vec![1]);
        assert_eq!(app.screen, Screen::Board);
        assert!(app.board.is_some());
    }
}
