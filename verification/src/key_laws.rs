//! How the navigation keys move the focus and the move target.
use vstd::prelude::*;

use crate::app::App;
use crate::keys::{is_char, key_handled, Action, Key, KeyCode};
use crate::mode::{Mode, Screen};

verus! {

/// The number of slots a card can be moved to in list `tl` of the loaded board: one
/// before each card and one after the last.
pub open spec fn slot_count(app: App, tl: int) -> int {
    app.board->0.lists@[tl].cards@.len() as int + 1
}

/// While a card is being moved, `k` and Up move the target slot one up (staying at
/// the first slot), and `j` and Down move it one down (staying at the last slot);
/// the target list, the rest of the state and the file work are left alone.
pub proof fn law_move_slot_keys(before: App, key: Key, after: App, action: Action, tl: usize, tp: usize)
    requires
        before.screen == Screen::Board,
        before.mode == (Mode::Move { target_list: tl, target_position: tp }),
        before.board is Some,
        tl < before.board->0.lists@.len(),
        slot_count(before, tl as int) <= usize::MAX,
        is_char(key, 'k') || key.code == KeyCode::Up || is_char(key, 'j') || key.code == KeyCode::Down,
        key_handled(before, key, after, action),
    ensures
        action == Action::Nothing,
        after == (App { mode: after.mode, ..before }),
        after.mode matches Mode::Move { target_list, target_position } && target_list == tl && {
            let last = slot_count(before, tl as int) - 1;
            if is_char(key, 'k') || key.code == KeyCode::Up {
                target_position == (if tp == 0 {
                    0
                } else if tp - 1 > last {
                    last
                } else {
                    tp - 1
                })
            } else {
                target_position == (if tp + 1 > last {
                    last
                } else {
                    tp + 1
                })
            }
        },
{
}

/// While a card is being moved, `k` does exactly what Up does.
pub proof fn law_move_k_is_up(
    before: App,
    k: Key,
    up: Key,
    after_k: App,
    action_k: Action,
    after_up: App,
    action_up: Action,
)
    requires
        before.screen == Screen::Board,
        before.mode is Move,
        is_char(k, 'k'),
        up.code == KeyCode::Up,
        key_handled(before, k, after_k, action_k),
        key_handled(before, up, after_up, action_up),
    ensures
        after_k == after_up,
        action_k == action_up,
{
}

/// While a card is being moved, `h` and Left make the previous list the target and
/// `l` and Right the next one, going around at the ends; the target slot stays,
/// unless the new list has fewer slots, and then it is that list's last slot.
pub proof fn law_move_list_keys(before: App, key: Key, after: App, action: Action, tl: usize, tp: usize)
    requires
        before.screen == Screen::Board,
        before.mode == (Mode::Move { target_list: tl, target_position: tp }),
        before.board is Some,
        tl < before.board->0.lists@.len() <= usize::MAX,
        forall|j: int|
            0 <= j < before.board->0.lists@.len() ==> #[trigger] slot_count(before, j) <= usize::MAX,
        is_char(key, 'h') || key.code == KeyCode::Left || is_char(key, 'l') || key.code
            == KeyCode::Right,
        key_handled(before, key, after, action),
    ensures
        action == Action::Nothing,
        after == (App { mode: after.mode, ..before }),
        after.mode matches Mode::Move { target_list, target_position } && {
            let n = before.board->0.lists@.len() as int;
            let t = tl as int;
            &&& target_list == (if is_char(key, 'h') || key.code == KeyCode::Left {
                if t == 0 {
                    n - 1
                } else {
                    t - 1
                }
            } else {
                if t + 1 == n {
                    0
                } else {
                    t + 1
                }
            })
            &&& target_position == (if tp > slot_count(before, target_list as int) - 1 {
                slot_count(before, target_list as int) - 1
            } else {
                tp as int
            })
        },
{
    let n = before.board->0.lists@.len() as int;
    let t = tl as int;
    lemma_wrap_steps(t, n);
    let t2: int = if is_char(key, 'h') || key.code == KeyCode::Left {
        (t - 1) % n
    } else {
        (t + 1) % n
    };
    assert(0 <= t2 < n);
    assert(slot_count(before, t2) <= usize::MAX);
}

/// One step back or forth from `s` inside `0..n`, going around at the ends.
proof fn lemma_wrap_steps(s: int, n: int)
    requires
        0 <= s < n,
    ensures
        (s - 1) % n == (if s == 0 {
            n - 1
        } else {
            s - 1
        }),
        (s + 1) % n == (if s + 1 == n {
            0
        } else {
            s + 1
        }),
{
    if s == 0 {
        assert((s - 1) % n == n - 1) by (nonlinear_arith)
            requires
                s == 0,
                n > 0,
        ;
    } else {
        assert((s - 1) % n == s - 1) by (nonlinear_arith)
            requires
                0 < s < n,
        ;
    }
    if s + 1 == n {
        assert((s + 1) % n == 0) by (nonlinear_arith)
            requires
                s + 1 == n,
                n > 0,
        ;
    } else {
        assert((s + 1) % n == s + 1) by (nonlinear_arith)
            requires
                0 <= s,
                s + 1 < n,
        ;
    }
}

/// On a board with no popup open, `j` and Down select the next card of the selected
/// list and `k` and Up the previous one, staying at the first and the last card; the
/// other lists keep their selected cards.
pub proof fn law_card_focus_keys(before: App, key: Key, after: App, action: Action)
    requires
        before.screen == Screen::Board,
        before.mode == Mode::Normal,
        before.card_selection_movable(),
        before.board->0.lists@[before.selected_list as int].cards@.len() <= usize::MAX,
        is_char(key, 'j') || key.code == KeyCode::Down || is_char(key, 'k') || key.code
            == KeyCode::Up,
        key_handled(before, key, after, action),
    ensures
        action == Action::Nothing,
        after.selected_list == before.selected_list,
        after.board == before.board,
        after.mode == before.mode,
        after.selected_cards@.len() == before.selected_cards@.len(),
        forall|t: int|
            0 <= t < before.selected_cards@.len() && t != before.selected_list ==> after.selected_cards@[t]
                == #[trigger] before.selected_cards@[t],
        ({
            let s = before.selected_list as int;
            let c = before.board->0.lists@[s].cards@.len() as int;
            let i = before.selected_cards@[s] as int;
            let r = after.selected_cards@[s] as int;
            if c == 0 {
                r == 0
            } else if is_char(key, 'j') || key.code == KeyCode::Down {
                r == (if i + 1 > c - 1 {
                    c - 1
                } else {
                    i + 1
                })
            } else {
                r == (if i == 0 {
                    0
                } else if i - 1 > c - 1 {
                    c - 1
                } else {
                    i - 1
                })
            }
        }),
{
}

/// On a board with no popup open, `h`, Left and BackTab focus the previous list and
/// `l`, Right and Tab the next one, going around at the ends.
pub proof fn law_list_focus_keys(before: App, key: Key, after: App, action: Action)
    requires
        before.screen == Screen::Board,
        before.mode == Mode::Normal,
        before.board is Some,
        before.selected_list < before.board->0.lists@.len(),
        is_char(key, 'h') || key.code == KeyCode::Left || key.code == KeyCode::BackTab || is_char(
            key,
            'l',
        ) || key.code == KeyCode::Right || key.code == KeyCode::Tab,
        key_handled(before, key, after, action),
    ensures
        action == Action::Nothing,
        ({
            let n = before.board->0.lists@.len();
            let s = before.selected_list as int;
            if is_char(key, 'h') || key.code == KeyCode::Left || key.code == KeyCode::BackTab {
                after.selected_list == (if s == 0 {
                    n - 1
                } else {
                    s - 1
                })
            } else {
                after.selected_list == (if s + 1 == n {
                    0
                } else {
                    s + 1
                })
            }
        }),
        after.board == before.board,
        after.mode == before.mode,
{
    lemma_wrap_steps(before.selected_list as int, before.board->0.lists@.len() as int);
}

} // verus!
