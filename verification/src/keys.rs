//! What each key does: the decisions of the event loop. A key changes the interface
//! state at once, and names the file work that is left to the caller as an `Action`.
//! An action that changes files leaves the mode as it is; once the work succeeds the
//! caller sets `Mode::Normal`.
use vstd::prelude::*;

use crate::app::{moved, offers, preselected, resized, wrap_index, wrapped, App};
use crate::mode::{DeleteTarget, Mode, PickerState, PickerTarget, RenameTarget, Screen};
use crate::text::{chars_of, string_of, trim, trimmed};

verus! {

/// A key, as the terminal reports it.
#[derive(Clone, Copy, Debug, PartialEq, Eq)]
pub enum KeyCode {
    Char(char),
    Enter,
    Esc,
    Backspace,
    Tab,
    BackTab,
    Up,
    Down,
    Left,
    Right,
    Other,
}

/// A key press: the key, and whether it came without modifiers other than Shift.
#[derive(Clone, Copy, Debug, PartialEq, Eq)]
pub struct Key {
    pub code: KeyCode,
    pub plain: bool,
}

/// The file work that a key asks for.
#[derive(Debug, PartialEq, Eq)]
pub enum Action {
    Nothing,
    /// Read and show the board at this path.
    OpenBoard(String),
    /// Read the details of the newly selected board.
    ShowDetails,
    /// Record the preview setting in the metadata of the board at this path.
    SavePreview(String),
    /// Delete the selected board, list or card.
    Delete(DeleteTarget),
    CreateProject(String),
    CreateList(String),
    CreateCard(String),
    Rename(RenameTarget, String),
    MoveCard { target_list: usize, target_position: usize },
    MoveList { target_position: usize },
    SetListBorderColor { list_index: usize, value: String },
    SetCardColor { list_index: usize, card_index: usize, value: String },
    /// Open the card file at this path in the editor.
    EditCard(String),
}

// ---------------------------------------------------------------------------
// The rules
// ---------------------------------------------------------------------------

/// Whether the key is the character `c`.
pub open spec fn is_char(key: Key, c: char) -> bool {
    key.code == KeyCode::Char(c)
}

/// The text of a prompt after a key: Backspace drops the last character, a plain
/// character is added, anything else leaves it.
pub open spec fn typed(input: Seq<char>, key: Key) -> Seq<char> {
    match key.code {
        KeyCode::Backspace => if input.len() > 0 {
            input.drop_last()
        } else {
            input
        },
        KeyCode::Char(c) => if key.plain {
            input.push(c)
        } else {
            input
        },
        _ => input,
    }
}

/// `after` is `before` with at most its mode changed.
pub open spec fn only_mode_changed(before: App, after: App) -> bool {
    after == (App { mode: after.mode, ..before })
}

/// A key in a text prompt holding `input`: Esc (and `q` where `q_cancels`) cancels,
/// Enter submits a text that is not blank (a blank one just closes the prompt), and
/// other keys edit the text.
pub open spec fn prompt_key(
    before: App,
    after: App,
    action: Action,
    input: Seq<char>,
    key: Key,
    q_cancels: bool,
    prompt: spec_fn(Mode, Seq<char>) -> bool,
    submit: spec_fn(Action, Seq<char>) -> bool,
) -> bool {
    &&& only_mode_changed(before, after)
    &&& if key.code == KeyCode::Esc || (q_cancels && is_char(key, 'q')) {
        after.mode == Mode::Normal && action == Action::Nothing
    } else if key.code == KeyCode::Enter {
        if trim(input).len() == 0 {
            after.mode == Mode::Normal && action == Action::Nothing
        } else {
            after.mode == before.mode && submit(action, input)
        }
    } else {
        prompt(after.mode, typed(input, key)) && action == Action::Nothing
    }
}

/// A key in the help popup: Esc, `q` or `?` closes it.
pub open spec fn help_key(before: App, after: App, action: Action, key: Key) -> bool {
    &&& only_mode_changed(before, after)
    &&& action == Action::Nothing
    &&& if key.code == KeyCode::Esc || is_char(key, 'q') || is_char(key, '?') {
        after.mode == Mode::Normal
    } else {
        after.mode == before.mode
    }
}

/// A key in a delete confirmation: Esc or `n` cancels, Enter or `y` confirms.
pub open spec fn confirm_key(
    before: App,
    after: App,
    action: Action,
    target: DeleteTarget,
    key: Key,
) -> bool {
    &&& only_mode_changed(before, after)
    &&& if key.code == KeyCode::Esc || is_char(key, 'n') || is_char(key, 'N') {
        after.mode == Mode::Normal && action == Action::Nothing
    } else if key.code == KeyCode::Enter || is_char(key, 'y') || is_char(key, 'Y') {
        after.mode == before.mode && action == Action::Delete(target)
    } else {
        after.mode == before.mode && action == Action::Nothing
    }
}

/// The number of lists of the loaded board (0 without one).
pub open spec fn list_count(app: App) -> int {
    match app.board {
        Some(b) => b.lists@.len() as int,
        None => 0,
    }
}

/// The card slot that a move targets in list `tl` after moving `tp` by `delta`.
pub open spec fn move_target(app: App, tl: int, tp: int, delta: int) -> int {
    if app.board is Some && 0 <= tl < app.board->0.lists@.len() {
        moved(tp, app.board->0.lists@[tl].cards@.len() as int + 1, delta)
    } else {
        0
    }
}

/// A key while a card is being moved to list `tl`, slot `tp`: `h`/`l` go to the
/// previous or next list (around the ends) keeping the slot inside it, `k`/`j` move
/// the slot, Enter moves the card, Esc cancels.
pub open spec fn move_key(before: App, after: App, action: Action, tl: usize, tp: usize, key: Key) -> bool {
    let n = list_count(before);
    &&& only_mode_changed(before, after)
    &&& if key.code == KeyCode::Esc {
        after.mode == Mode::Normal && action == Action::Nothing
    } else if is_char(key, 'h') || key.code == KeyCode::Left || is_char(key, 'l') || key.code
        == KeyCode::Right {
        let delta: int = if is_char(key, 'h') || key.code == KeyCode::Left {
            -1
        } else {
            1
        };
        let tl2: int = if n > 0 {
            wrapped(tl as int, n, delta)
        } else {
            tl as int
        };
        let tp2: int = if n > 0 {
            move_target(before, tl2, tp as int, 0)
        } else {
            tp as int
        };
        action == Action::Nothing && after.mode == (Mode::Move {
            target_list: tl2 as usize,
            target_position: tp2 as usize,
        })
    } else if is_char(key, 'k') || key.code == KeyCode::Up || is_char(key, 'j') || key.code
        == KeyCode::Down {
        let delta: int = if is_char(key, 'k') || key.code == KeyCode::Up {
            -1
        } else {
            1
        };
        action == Action::Nothing && after.mode == (Mode::Move {
            target_list: tl,
            target_position: move_target(before, tl as int, tp as int, delta) as usize,
        })
    } else if key.code == KeyCode::Enter {
        after.mode == before.mode && action == (Action::MoveCard {
            target_list: tl,
            target_position: tp,
        })
    } else {
        after.mode == before.mode && action == Action::Nothing
    }
}

/// The list slot that a list move targets after moving `tp` by `delta`.
pub open spec fn list_move_target(app: App, tp: int, delta: int) -> int {
    if app.board is Some {
        moved(tp, app.board->0.lists@.len() as int, delta)
    } else {
        0
    }
}

/// A key while a list is being moved to slot `tp`: `h`/`l` move the slot, Enter moves
/// the list, Esc cancels.
pub open spec fn move_list_key(before: App, after: App, action: Action, tp: usize, key: Key) -> bool {
    &&& only_mode_changed(before, after)
    &&& if key.code == KeyCode::Esc {
        after.mode == Mode::Normal && action == Action::Nothing
    } else if is_char(key, 'h') || key.code == KeyCode::Left {
        action == Action::Nothing && after.mode == (Mode::MoveList {
            target_position: list_move_target(before, tp as int, -1) as usize,
        })
    } else if is_char(key, 'l') || key.code == KeyCode::Right {
        action == Action::Nothing && after.mode == (Mode::MoveList {
            target_position: list_move_target(before, tp as int, 1) as usize,
        })
    } else if key.code == KeyCode::Enter {
        after.mode == before.mode && action == (Action::MoveList { target_position: tp })
    } else {
        after.mode == before.mode && action == Action::Nothing
    }
}

/// The action that choosing the option `value` of a picker for `target` asks for.
pub open spec fn picked(action: Action, target: PickerTarget, value: Seq<char>) -> bool {
    match target {
        PickerTarget::ListBorderColor { list_index } => action matches Action::SetListBorderColor {
            list_index: l,
            value: v,
        } && l == list_index && v@ == value,
        PickerTarget::CardColor { list_index, card_index } => action matches Action::SetCardColor {
            list_index: l,
            card_index: c,
            value: v,
        } && l == list_index && c == card_index && v@ == value,
    }
}

/// A key in a picker: `k`/`j` move the choice inside the options, Enter chooses,
/// Esc or `q` cancels.
pub open spec fn picker_key(before: App, after: App, action: Action, p: PickerState, key: Key) -> bool {
    &&& only_mode_changed(before, after)
    &&& if key.code == KeyCode::Esc || is_char(key, 'q') {
        after.mode == Mode::Normal && action == Action::Nothing
    } else if is_char(key, 'k') || key.code == KeyCode::Up {
        action == Action::Nothing && after.mode == Mode::Picker(
            PickerState {
                selected: if p.selected > 0 {
                    (p.selected - 1) as usize
                } else {
                    p.selected
                },
                ..p
            },
        )
    } else if is_char(key, 'j') || key.code == KeyCode::Down {
        action == Action::Nothing && after.mode == Mode::Picker(
            PickerState {
                selected: if p.options@.len() == 0 {
                    p.selected
                } else if p.selected + 1 < p.options@.len() {
                    (p.selected + 1) as usize
                } else {
                    (p.options@.len() - 1) as usize
                },
                ..p
            },
        )
    } else if key.code == KeyCode::Enter {
        if p.selected < p.options@.len() {
            after.mode == before.mode && picked(
                action,
                p.target,
                p.options@[p.selected as int].value@,
            )
        } else {
            after.mode == Mode::Normal && action == Action::Nothing
        }
    } else {
        after.mode == before.mode && action == Action::Nothing
    }
}

/// The mode of a text prompt: which one, and its text.
pub open spec fn is_create_project(m: Mode, s: Seq<char>) -> bool {
    m matches Mode::CreateProject { input } && input@ == s
}

/// The prompt for a new list holding `s`.
pub open spec fn is_create_list(m: Mode, s: Seq<char>) -> bool {
    m matches Mode::CreateList { input } && input@ == s
}

/// The prompt for a new card holding `s`.
pub open spec fn is_add(m: Mode, s: Seq<char>) -> bool {
    m matches Mode::Add { input } && input@ == s
}

/// The rename prompt for `target` holding `s`.
pub open spec fn is_rename(m: Mode, target: RenameTarget, s: Seq<char>) -> bool {
    m matches Mode::Rename { target: t, input } && t == target && input@ == s
}

/// A key on the board list with no popup open.
pub open spec fn project_normal_key(before: App, after: App, action: Action, key: Key) -> bool {
    if is_char(key, '?') {
        after == (App { mode: Mode::Help, ..before }) && action == Action::Nothing
    } else if is_char(key, 'q') {
        after == (App { should_quit: true, ..before }) && action == Action::Nothing
    } else if is_char(key, 'j') || key.code == KeyCode::Down || is_char(key, 'k') || key.code
        == KeyCode::Up {
        let delta: int = if is_char(key, 'j') || key.code == KeyCode::Down {
            1
        } else {
            -1
        };
        &&& after == (App {
            selected_project: moved(
                before.selected_project as int,
                before.projects@.len() as int,
                delta,
            ) as usize,
            ..before
        })
        &&& action == Action::ShowDetails
    } else if key.code == KeyCode::Enter {
        opened(before, after, action)
    } else if is_char(key, 'n') {
        only_mode_changed(before, after) && is_create_project(after.mode, Seq::empty()) && action
            == Action::Nothing
    } else if is_char(key, 'd') {
        after == (App { mode: Mode::ConfirmDelete { target: DeleteTarget::Board }, ..before })
            && action == Action::Nothing
    } else if is_char(key, 'r') {
        &&& only_mode_changed(before, after)
        &&& action == Action::Nothing
        &&& is_rename(
            after.mode,
            RenameTarget::Board,
            if before.selected_project < before.projects@.len() {
                before.projects@[before.selected_project as int].name@
            } else {
                Seq::empty()
            },
        )
    } else {
        after == before && action == Action::Nothing
    }
}

/// Opening the selected board: its path is handed on; without one, the status says
/// so.
pub open spec fn opened(before: App, after: App, action: Action) -> bool {
    if before.selected_project < before.projects@.len() {
        after == before && action == Action::OpenBoard(
            before.projects@[before.selected_project as int].path,
        )
    } else {
        &&& after == (App { status: after.status, ..before })
        &&& after.status@ == "No projects in "@ + before.root@
        &&& action == Action::Nothing
    }
}

/// A key on the board list.
pub open spec fn project_key(before: App, after: App, action: Action, key: Key) -> bool {
    match before.mode {
        Mode::Help => help_key(before, after, action, key),
        Mode::CreateProject { input } => prompt_key(
            before,
            after,
            action,
            input@,
            key,
            true,
            |m: Mode, s: Seq<char>| is_create_project(m, s),
            |a: Action, s: Seq<char>| a matches Action::CreateProject(t) && t@ == s,
        ),
        Mode::Rename { target, input } => prompt_key(
            before,
            after,
            action,
            input@,
            key,
            false,
            |m: Mode, s: Seq<char>| is_rename(m, target, s),
            |a: Action, s: Seq<char>| a matches Action::Rename(t, i) && t == target && i@ == s,
        ),
        Mode::ConfirmDelete { target } => confirm_key(before, after, action, target, key),
        _ => project_normal_key(before, after, action, key),
    }
}

/// Where a new card goes: a board without lists asks for a list first.
pub open spec fn new_card_prompt(before: App, after: App) -> bool {
    if before.board is None || before.board->0.lists@.len() == 0 {
        is_create_list(after.mode, Seq::empty())
    } else {
        is_add(after.mode, Seq::empty())
    }
}

/// A key on a board with no popup open.
pub open spec fn board_normal_key(before: App, after: App, action: Action, key: Key) -> bool {
    if is_char(key, 'q') {
        after == (App { should_quit: true, ..before }) && action == Action::Nothing
    } else if key.code == KeyCode::Esc {
        after == (App { screen: Screen::Projects, board: None, mode: Mode::Normal, ..before })
            && action == Action::Nothing
    } else if is_char(key, 'j') || key.code == KeyCode::Down || is_char(key, 'k') || key.code
        == KeyCode::Up {
        let delta: int = if is_char(key, 'j') || key.code == KeyCode::Down {
            1
        } else {
            -1
        };
        &&& action == Action::Nothing
        &&& after == (App { selected_cards: after.selected_cards, ..before })
        &&& before.card_selection_movable() ==> after.selected_cards@ == before.selected_cards@.update(
            before.selected_list as int,
            moved(
                before.selected_card_index(),
                before.board->0.lists@[before.selected_list as int].cards@.len() as int,
                delta,
            ) as usize,
        )
        &&& !before.card_selection_movable() ==> after.selected_cards == before.selected_cards
    } else if is_char(key, 'h') || key.code == KeyCode::Left || is_char(key, 'l') || key.code
        == KeyCode::Right || key.code == KeyCode::Tab || key.code == KeyCode::BackTab {
        let delta: int = if is_char(key, 'h') || key.code == KeyCode::Left || key.code
            == KeyCode::BackTab {
            -1
        } else {
            1
        };
        let n = list_count(before);
        &&& action == Action::Nothing
        &&& after == (App {
            selected_list: after.selected_list,
            selected_cards: after.selected_cards,
            ..before
        })
        &&& before.board is None ==> after == before
        &&& before.board is Some ==> {
            &&& after.selected_list == wrapped(before.selected_list as int, n, delta)
            &&& n > 0 ==> after.selected_cards@ == resized(before.selected_cards@, n)
            &&& n == 0 ==> after.selected_cards == before.selected_cards
        }
    } else if is_char(key, 'p') {
        &&& after == (App { show_preview: !before.show_preview, ..before })
        &&& action == (match before.board {
            Some(b) => Action::SavePreview(b.path),
            None => Action::Nothing,
        })
    } else if is_char(key, 'C') {
        &&& action == Action::Nothing
        &&& if before.board is Some && before.selected_list < before.board->0.lists@.len() {
            &&& only_mode_changed(before, after)
            &&& after.mode matches Mode::Picker(p) && {
                &&& p.title@ == "List Border Color"@
                &&& offers(p.options@, before.config.colors@)
                &&& p.selected == preselected(
                    before.config.colors@,
                    before.board->0.lists@[before.selected_list as int].border_color,
                )
                &&& p.target == PickerTarget::ListBorderColor { list_index: before.selected_list }
            }
        } else {
            after == (App { status: after.status, ..before }) && after.status@
                == "No list selected"@
        }
    } else if is_char(key, '?') {
        after == (App { mode: Mode::Help, ..before }) && action == Action::Nothing
    } else if is_char(key, 'n') {
        only_mode_changed(before, after) && new_card_prompt(before, after) && action == Action::Nothing
    } else if is_char(key, 'N') {
        only_mode_changed(before, after) && is_create_list(after.mode, Seq::empty()) && action
            == Action::Nothing
    } else if is_char(key, 'm') {
        &&& action == Action::Nothing
        &&& if before.has_selected_card() {
            after == (App {
                mode: Mode::Move {
                    target_list: before.selected_list,
                    target_position: before.selected_card_index() as usize,
                },
                ..before
            })
        } else {
            after == before
        }
    } else if is_char(key, 'M') {
        after == (App { mode: Mode::MoveList { target_position: before.selected_list }, ..before })
            && action == Action::Nothing
    } else if is_char(key, 'd') {
        &&& action == Action::Nothing
        &&& if before.has_selected_card() {
            after == (App { mode: Mode::ConfirmDelete { target: DeleteTarget::Card }, ..before })
        } else {
            after == before
        }
    } else if is_char(key, 'D') {
        after == (App { mode: Mode::ConfirmDelete { target: DeleteTarget::List }, ..before })
            && action == Action::Nothing
    } else if is_char(key, 'r') {
        &&& action == Action::Nothing
        &&& if before.has_selected_card() {
            only_mode_changed(before, after) && is_rename(
                after.mode,
                RenameTarget::Card,
                before.selected_card_spec().title@,
            )
        } else {
            after == before
        }
    } else if is_char(key, 'R') {
        &&& action == Action::Nothing
        &&& only_mode_changed(before, after)
        &&& is_rename(
            after.mode,
            RenameTarget::List,
            if before.board is Some && before.selected_list < before.board->0.lists@.len() {
                before.board->0.lists@[before.selected_list as int].name@
            } else {
                Seq::empty()
            },
        )
    } else if is_char(key, 'e') {
        if before.has_selected_card() {
            after == before && action == Action::EditCard(before.selected_card_spec().path)
        } else {
            &&& after == (App { status: after.status, ..before })
            &&& after.status@ == "No card selected"@
            &&& action == Action::Nothing
        }
    } else {
        after == before && action == Action::Nothing
    }
}

/// A key on a board.
pub open spec fn board_key(before: App, after: App, action: Action, key: Key) -> bool {
    match before.mode {
        Mode::Normal => board_normal_key(before, after, action, key),
        Mode::ConfirmDelete { target } => confirm_key(before, after, action, target, key),
        Mode::CreateProject { .. } => after == (App { mode: Mode::Normal, ..before }) && action
            == Action::Nothing,
        Mode::CreateList { input } => prompt_key(
            before,
            after,
            action,
            input@,
            key,
            false,
            |m: Mode, s: Seq<char>| is_create_list(m, s),
            |a: Action, s: Seq<char>| a matches Action::CreateList(t) && t@ == s,
        ),
        Mode::Add { input } => prompt_key(
            before,
            after,
            action,
            input@,
            key,
            false,
            |m: Mode, s: Seq<char>| is_add(m, s),
            |a: Action, s: Seq<char>| a matches Action::CreateCard(t) && t@ == s,
        ),
        Mode::Rename { target, input } => prompt_key(
            before,
            after,
            action,
            input@,
            key,
            false,
            |m: Mode, s: Seq<char>| is_rename(m, target, s),
            |a: Action, s: Seq<char>| a matches Action::Rename(t, i) && t == target && i@ == s,
        ),
        Mode::Move { target_list, target_position } => move_key(
            before,
            after,
            action,
            target_list,
            target_position,
            key,
        ),
        Mode::MoveList { target_position } => move_list_key(
            before,
            after,
            action,
            target_position,
            key,
        ),
        Mode::Help => help_key(before, after, action, key),
        Mode::Picker(p) => picker_key(before, after, action, p, key),
    }
}

/// What a key does: Tab on the board list goes to the loaded board (or opens the
/// selected one); otherwise the screen decides.
pub open spec fn key_handled(before: App, key: Key, after: App, action: Action) -> bool {
    if before.screen == Screen::Projects && before.mode == Mode::Normal && (key.code
        == KeyCode::Tab || key.code == KeyCode::BackTab) {
        if before.board is Some {
            after == (App { screen: Screen::Board, ..before }) && action == Action::Nothing
        } else {
            opened(before, after, action)
        }
    } else {
        match before.screen {
            Screen::Projects => project_key(before, after, action, key),
            Screen::Board => board_key(before, after, action, key),
        }
    }
}

// ---------------------------------------------------------------------------
// Handling a key
// ---------------------------------------------------------------------------

fn is_char_key(key: Key, c: char) -> (r: bool)
    ensures
        r == is_char(key, c),
{
    match key.code {
        KeyCode::Char(d) => d == c,
        _ => false,
    }
}

/// The text of a prompt after `key` (see `typed`).
pub fn typed_input(input: String, key: Key) -> (r: String)
    ensures
        r@ == typed(input@, key),
{
    match key.code {
        KeyCode::Backspace => {
            let mut v = chars_of(input.as_str());
            v.pop();
            string_of(&v)
        },
        KeyCode::Char(c) => {
            if key.plain {
                let mut v = chars_of(input.as_str());
                v.push(c);
                string_of(&v)
            } else {
                input
            }
        },
        _ => input,
    }
}

/// What a key does to a text prompt.
enum PromptOutcome {
    Cancel,
    Submit,
    Edit(String),
}

fn prompt_outcome(input: &String, key: Key, q_cancels: bool) -> (r: PromptOutcome)
    ensures
        (key.code == KeyCode::Esc || (q_cancels && is_char(key, 'q'))) ==> r is Cancel,
        !(key.code == KeyCode::Esc || (q_cancels && is_char(key, 'q'))) && key.code
            == KeyCode::Enter ==> (if trim(input@).len() == 0 {
            r is Cancel
        } else {
            r is Submit
        }),
        !(key.code == KeyCode::Esc || (q_cancels && is_char(key, 'q'))) && key.code
            != KeyCode::Enter ==> (r matches PromptOutcome::Edit(s) && s@ == typed(input@, key)),
{
    if matches!(key.code, KeyCode::Esc) || (q_cancels && is_char_key(key, 'q')) {
        PromptOutcome::Cancel
    } else if matches!(key.code, KeyCode::Enter) {
        if trimmed(&chars_of(input.as_str())).len() == 0 {
            PromptOutcome::Cancel
        } else {
            PromptOutcome::Submit
        }
    } else {
        PromptOutcome::Edit(typed_input(input.clone(), key))
    }
}

/// Opens the selected board: hands on its path, or says in the status that there is
/// none.
fn open_action(app: &mut App) -> (action: Action)
    ensures
        opened(*old(app), *final(app), action),
{
    match app.open_selected_project() {
        Some(path) => Action::OpenBoard(path),
        None => Action::Nothing,
    }
}

fn help_key_exec(app: &mut App, key: Key)
    requires
        old(app).mode == Mode::Normal,
    ensures
        help_key(App { mode: Mode::Help, ..*old(app) }, *final(app), Action::Nothing, key),
{
    if !(matches!(key.code, KeyCode::Esc) || is_char_key(key, 'q') || is_char_key(key, '?')) {
        app.mode = Mode::Help;
    }
}

fn confirm_key_exec(app: &mut App, key: Key, target: DeleteTarget) -> (action: Action)
    requires
        old(app).mode == Mode::Normal,
    ensures
        confirm_key(App { mode: Mode::ConfirmDelete { target }, ..*old(app) }, *final(app), action, target, key),
{
    if matches!(key.code, KeyCode::Esc) || is_char_key(key, 'n') || is_char_key(key, 'N') {
        Action::Nothing
    } else if matches!(key.code, KeyCode::Enter) || is_char_key(key, 'y') || is_char_key(key, 'Y') {
        app.mode = Mode::ConfirmDelete { target };
        Action::Delete(target)
    } else {
        app.mode = Mode::ConfirmDelete { target };
        Action::Nothing
    }
}

fn create_project_key_exec(app: &mut App, key: Key, input: String) -> (action: Action)
    requires
        old(app).mode == Mode::Normal,
    ensures
        prompt_key(
            App { mode: Mode::CreateProject { input }, ..*old(app) },
            *final(app),
            action,
            input@,
            key,
            true,
            |m: Mode, s: Seq<char>| is_create_project(m, s),
            |a: Action, s: Seq<char>| a matches Action::CreateProject(t) && t@ == s,
        ),
{
    match prompt_outcome(&input, key, true) {
        PromptOutcome::Cancel => Action::Nothing,
        PromptOutcome::Submit => {
            let a = Action::CreateProject(input.clone());
            app.mode = Mode::CreateProject { input };
            a
        },
        PromptOutcome::Edit(s) => {
            app.mode = Mode::CreateProject { input: s };
            Action::Nothing
        },
    }
}

fn create_list_key_exec(app: &mut App, key: Key, input: String) -> (action: Action)
    requires
        old(app).mode == Mode::Normal,
    ensures
        prompt_key(
            App { mode: Mode::CreateList { input }, ..*old(app) },
            *final(app),
            action,
            input@,
            key,
            false,
            |m: Mode, s: Seq<char>| is_create_list(m, s),
            |a: Action, s: Seq<char>| a matches Action::CreateList(t) && t@ == s,
        ),
{
    match prompt_outcome(&input, key, false) {
        PromptOutcome::Cancel => Action::Nothing,
        PromptOutcome::Submit => {
            let a = Action::CreateList(input.clone());
            app.mode = Mode::CreateList { input };
            a
        },
        PromptOutcome::Edit(s) => {
            app.mode = Mode::CreateList { input: s };
            Action::Nothing
        },
    }
}

fn add_key_exec(app: &mut App, key: Key, input: String) -> (action: Action)
    requires
        old(app).mode == Mode::Normal,
    ensures
        prompt_key(
            App { mode: Mode::Add { input }, ..*old(app) },
            *final(app),
            action,
            input@,
            key,
            false,
            |m: Mode, s: Seq<char>| is_add(m, s),
            |a: Action, s: Seq<char>| a matches Action::CreateCard(t) && t@ == s,
        ),
{
    match prompt_outcome(&input, key, false) {
        PromptOutcome::Cancel => Action::Nothing,
        PromptOutcome::Submit => {
            let a = Action::CreateCard(input.clone());
            app.mode = Mode::Add { input };
            a
        },
        PromptOutcome::Edit(s) => {
            app.mode = Mode::Add { input: s };
            Action::Nothing
        },
    }
}

fn rename_key_exec(app: &mut App, key: Key, target: RenameTarget, input: String) -> (action: Action)
    requires
        old(app).mode == Mode::Normal,
    ensures
        prompt_key(
            App { mode: Mode::Rename { target, input }, ..*old(app) },
            *final(app),
            action,
            input@,
            key,
            false,
            |m: Mode, s: Seq<char>| is_rename(m, target, s),
            |a: Action, s: Seq<char>| a matches Action::Rename(t, i) && t == target && i@ == s,
        ),
{
    match prompt_outcome(&input, key, false) {
        PromptOutcome::Cancel => Action::Nothing,
        PromptOutcome::Submit => {
            let a = Action::Rename(target, input.clone());
            app.mode = Mode::Rename { target, input };
            a
        },
        PromptOutcome::Edit(s) => {
            app.mode = Mode::Rename { target, input: s };
            Action::Nothing
        },
    }
}

fn list_count_of(app: &App) -> (r: usize)
    ensures
        r == list_count(*app),
{
    match &app.board {
        Some(b) => b.lists.len(),
        None => 0,
    }
}

fn move_key_exec(app: &mut App, key: Key, target_list: usize, target_position: usize) -> (action: Action)
    requires
        old(app).mode == Mode::Normal,
    ensures
        move_key(
            App { mode: Mode::Move { target_list, target_position }, ..*old(app) },
            *final(app),
            action,
            target_list,
            target_position,
            key,
        ),
{
    let n = list_count_of(app);
    let left = is_char_key(key, 'h') || matches!(key.code, KeyCode::Left);
    let right = is_char_key(key, 'l') || matches!(key.code, KeyCode::Right);
    let up = is_char_key(key, 'k') || matches!(key.code, KeyCode::Up);
    let down = is_char_key(key, 'j') || matches!(key.code, KeyCode::Down);
    if matches!(key.code, KeyCode::Esc) {
        Action::Nothing
    } else if left || right {
        let delta: isize = if left {
            -1
        } else {
            1
        };
        let mut tl = target_list;
        let mut tp = target_position;
        if n > 0 {
            tl = wrap_index(target_list, n, delta);
            tp = app.move_target_position(tl, target_position, 0);
        }
        app.mode = Mode::Move { target_list: tl, target_position: tp };
        Action::Nothing
    } else if up || down {
        let delta: isize = if up {
            -1
        } else {
            1
        };
        let tp = app.move_target_position(target_list, target_position, delta);
        app.mode = Mode::Move { target_list, target_position: tp };
        Action::Nothing
    } else if matches!(key.code, KeyCode::Enter) {
        app.mode = Mode::Move { target_list, target_position };
        Action::MoveCard { target_list, target_position }
    } else {
        app.mode = Mode::Move { target_list, target_position };
        Action::Nothing
    }
}

fn move_list_key_exec(app: &mut App, key: Key, target_position: usize) -> (action: Action)
    requires
        old(app).mode == Mode::Normal,
    ensures
        move_list_key(
            App { mode: Mode::MoveList { target_position }, ..*old(app) },
            *final(app),
            action,
            target_position,
            key,
        ),
{
    if matches!(key.code, KeyCode::Esc) {
        Action::Nothing
    } else if is_char_key(key, 'h') || matches!(key.code, KeyCode::Left) {
        let tp = app.move_list_target_position(target_position, -1);
        app.mode = Mode::MoveList { target_position: tp };
        Action::Nothing
    } else if is_char_key(key, 'l') || matches!(key.code, KeyCode::Right) {
        let tp = app.move_list_target_position(target_position, 1);
        app.mode = Mode::MoveList { target_position: tp };
        Action::Nothing
    } else if matches!(key.code, KeyCode::Enter) {
        app.mode = Mode::MoveList { target_position };
        Action::MoveList { target_position }
    } else {
        app.mode = Mode::MoveList { target_position };
        Action::Nothing
    }
}

fn picker_key_exec(app: &mut App, key: Key, picker: PickerState) -> (action: Action)
    requires
        old(app).mode == Mode::Normal,
    ensures
        picker_key(App { mode: Mode::Picker(picker), ..*old(app) }, *final(app), action, picker, key),
{
    let mut p = picker;
    if matches!(key.code, KeyCode::Esc) || is_char_key(key, 'q') {
        Action::Nothing
    } else if is_char_key(key, 'k') || matches!(key.code, KeyCode::Up) {
        if p.selected > 0 {
            p.selected = p.selected - 1;
        }
        app.mode = Mode::Picker(p);
        Action::Nothing
    } else if is_char_key(key, 'j') || matches!(key.code, KeyCode::Down) {
        if p.options.len() > 0 {
            if p.selected < p.options.len() - 1 {
                p.selected = p.selected + 1;
            } else {
                p.selected = p.options.len() - 1;
            }
        }
        app.mode = Mode::Picker(p);
        Action::Nothing
    } else if matches!(key.code, KeyCode::Enter) {
        if p.selected < p.options.len() {
            let value = p.options[p.selected].value.clone();
            let action = match p.target {
                PickerTarget::ListBorderColor { list_index } => Action::SetListBorderColor {
                    list_index,
                    value,
                },
                PickerTarget::CardColor { list_index, card_index } => Action::SetCardColor {
                    list_index,
                    card_index,
                    value,
                },
            };
            app.mode = Mode::Picker(p);
            action
        } else {
            Action::Nothing
        }
    } else {
        app.mode = Mode::Picker(p);
        Action::Nothing
    }
}

fn project_normal_key_exec(app: &mut App, key: Key) -> (action: Action)
    ensures
        project_normal_key(*old(app), *final(app), action, key),
{
    if is_char_key(key, '?') {
        app.mode = Mode::Help;
        Action::Nothing
    } else if is_char_key(key, 'q') {
        app.should_quit = true;
        Action::Nothing
    } else if is_char_key(key, 'j') || matches!(key.code, KeyCode::Down) {
        app.move_project_selection(1);
        Action::ShowDetails
    } else if is_char_key(key, 'k') || matches!(key.code, KeyCode::Up) {
        app.move_project_selection(-1);
        Action::ShowDetails
    } else if matches!(key.code, KeyCode::Enter) {
        open_action(app)
    } else if is_char_key(key, 'n') {
        app.mode = Mode::CreateProject { input: String::new() };
        Action::Nothing
    } else if is_char_key(key, 'd') {
        app.mode = Mode::ConfirmDelete { target: DeleteTarget::Board };
        Action::Nothing
    } else if is_char_key(key, 'r') {
        let input = if app.selected_project < app.projects.len() {
            app.projects[app.selected_project].name.clone()
        } else {
            String::new()
        };
        app.mode = Mode::Rename { target: RenameTarget::Board, input };
        Action::Nothing
    } else {
        Action::Nothing
    }
}

fn project_key_exec(app: &mut App, key: Key, mode: Mode) -> (action: Action)
    requires
        old(app).mode == Mode::Normal,
    ensures
        project_key(App { mode, ..*old(app) }, *final(app), action, key),
{
    match mode {
        Mode::Help => {
            help_key_exec(app, key);
            Action::Nothing
        },
        Mode::CreateProject { input } => create_project_key_exec(app, key, input),
        Mode::Rename { target, input } => rename_key_exec(app, key, target, input),
        Mode::ConfirmDelete { target } => confirm_key_exec(app, key, target),
        other => {
            app.mode = other;
            project_normal_key_exec(app, key)
        },
    }
}

/// The title of the selected card, when there is one.
fn selected_card_title(app: &App) -> (r: Option<String>)
    ensures
        r is Some <==> app.has_selected_card(),
        r matches Some(t) ==> t@ == app.selected_card_spec().title@,
{
    let board = match &app.board {
        Some(b) => b,
        None => return None,
    };
    if app.selected_list >= board.lists.len() {
        return None;
    }
    let list = &board.lists[app.selected_list];
    let card_index = app.selected_card();
    if card_index >= list.cards.len() {
        return None;
    }
    Some(list.cards[card_index].title.clone())
}

fn board_normal_key_exec(app: &mut App, key: Key) -> (action: Action)
    requires
        old(app).mode == Mode::Normal,
    ensures
        board_normal_key(*old(app), *final(app), action, key),
{
    if is_char_key(key, 'q') {
        app.should_quit = true;
        Action::Nothing
    } else if matches!(key.code, KeyCode::Esc) {
        app.screen = Screen::Projects;
        app.board = None;
        app.mode = Mode::Normal;
        Action::Nothing
    } else if is_char_key(key, 'j') || matches!(key.code, KeyCode::Down) {
        app.move_card_selection(1);
        Action::Nothing
    } else if is_char_key(key, 'k') || matches!(key.code, KeyCode::Up) {
        app.move_card_selection(-1);
        Action::Nothing
    } else if is_char_key(key, 'h') || matches!(key.code, KeyCode::Left) || matches!(
        key.code,
        KeyCode::BackTab
    ) {
        app.move_list_selection(-1);
        Action::Nothing
    } else if is_char_key(key, 'l') || matches!(key.code, KeyCode::Right) || matches!(
        key.code,
        KeyCode::Tab
    ) {
        app.move_list_selection(1);
        Action::Nothing
    } else if is_char_key(key, 'p') {
        match app.toggle_preview() {
            Some(path) => Action::SavePreview(path),
            None => Action::Nothing,
        }
    } else if is_char_key(key, 'C') {
        match app.list_border_color_picker() {
            Some(picker) => {
                app.mode = Mode::Picker(picker);
            },
            None => {
                app.status = String::from_str("No list selected");
            },
        }
        Action::Nothing
    } else if is_char_key(key, '?') {
        app.mode = Mode::Help;
        Action::Nothing
    } else if is_char_key(key, 'n') {
        let no_lists = match &app.board {
            Some(b) => b.lists.len() == 0,
            None => true,
        };
        if no_lists {
            app.mode = Mode::CreateList { input: String::new() };
        } else {
            app.mode = Mode::Add { input: String::new() };
        }
        Action::Nothing
    } else if is_char_key(key, 'N') {
        app.mode = Mode::CreateList { input: String::new() };
        Action::Nothing
    } else if is_char_key(key, 'm') {
        if app.selected_card_path().is_some() {
            let target_position = app.default_move_target_position();
            app.mode = Mode::Move { target_list: app.selected_list, target_position };
        }
        Action::Nothing
    } else if is_char_key(key, 'M') {
        app.mode = Mode::MoveList { target_position: app.selected_list };
        Action::Nothing
    } else if is_char_key(key, 'd') {
        if app.selected_card_path().is_some() {
            app.mode = Mode::ConfirmDelete { target: DeleteTarget::Card };
        }
        Action::Nothing
    } else if is_char_key(key, 'D') {
        app.mode = Mode::ConfirmDelete { target: DeleteTarget::List };
        Action::Nothing
    } else if is_char_key(key, 'r') {
        match selected_card_title(app) {
            Some(input) => {
                app.mode = Mode::Rename { target: RenameTarget::Card, input };
            },
            None => {},
        }
        Action::Nothing
    } else if is_char_key(key, 'R') {
        let input = match &app.board {
            Some(b) => if app.selected_list < b.lists.len() {
                b.lists[app.selected_list].name.clone()
            } else {
                String::new()
            },
            None => String::new(),
        };
        app.mode = Mode::Rename { target: RenameTarget::List, input };
        Action::Nothing
    } else if is_char_key(key, 'e') {
        match app.selected_card_path() {
            Some(path) => Action::EditCard(path),
            None => {
                app.status = String::from_str("No card selected");
                Action::Nothing
            },
        }
    } else {
        Action::Nothing
    }
}

fn board_key_exec(app: &mut App, key: Key, mode: Mode) -> (action: Action)
    requires
        old(app).mode == Mode::Normal,
    ensures
        board_key(App { mode, ..*old(app) }, *final(app), action, key),
{
    match mode {
        Mode::Normal => board_normal_key_exec(app, key),
        Mode::ConfirmDelete { target } => confirm_key_exec(app, key, target),
        Mode::CreateProject { .. } => Action::Nothing,
        Mode::CreateList { input } => create_list_key_exec(app, key, input),
        Mode::Add { input } => add_key_exec(app, key, input),
        Mode::Rename { target, input } => rename_key_exec(app, key, target, input),
        Mode::Move { target_list, target_position } => move_key_exec(
            app,
            key,
            target_list,
            target_position,
        ),
        Mode::MoveList { target_position } => move_list_key_exec(app, key, target_position),
        Mode::Help => {
            help_key_exec(app, key);
            Action::Nothing
        },
        Mode::Picker(p) => picker_key_exec(app, key, p),
    }
}

/// Applies a key to the interface state and returns the file work it asks for (see
/// `key_handled`).
pub fn handle_key(app: &mut App, key: Key) -> (action: Action)
    ensures
        key_handled(*old(app), key, *final(app), action),
{
    let tab = matches!(key.code, KeyCode::Tab) || matches!(key.code, KeyCode::BackTab);
    if matches!(app.screen, Screen::Projects) && matches!(app.mode, Mode::Normal) && tab {
        if app.switch_tab() {
            return open_action(app);
        }
        return Action::Nothing;
    }
    let mut mode = Mode::Normal;
    std::mem::swap(&mut mode, &mut app.mode);
    match app.screen {
        Screen::Projects => project_key_exec(app, key, mode),
        Screen::Board => board_key_exec(app, key, mode),
    }
}

} // verus!
