//! The state of the interface and its transitions. Each operation that reads or
//! writes the boards on disk is split in two: a method that finds what the outside
//! work applies to, and a method that takes what that work produced and updates the
//! state; the work itself is done by the caller.
use vstd::prelude::*;

use crate::board::{AppConfig, Board, ColorOption, List, Project};
use crate::card::Card;
use crate::card::{preview_content, spec_preview_content};
use crate::mode::{Mode, PickerOption, PickerState, PickerTarget, Screen};
use crate::text::{
    append_chars, chars_eq_ignore_ascii_case, chars_of, concat, eq_ignore_ascii_case, string_of, trim, trimmed,
};

verus! {

/// The state of the interface.
pub struct App {
    pub root: String,
    pub config: AppConfig,
    pub screen: Screen,
    pub mode: Mode,
    pub show_preview: bool,
    pub projects: Vec<Project>,
    pub board: Option<Board>,
    pub project_preview: Option<Board>,
    pub selected_project: usize,
    pub selected_list: usize,
    pub selected_cards: Vec<usize>,
    pub status: String,
    pub should_quit: bool,
}

// ---------------------------------------------------------------------------
// Index arithmetic
// ---------------------------------------------------------------------------

/// `index` kept inside `0..len` (0 when `len` is 0).
pub open spec fn clamped(index: int, len: int) -> int {
    if len <= 0 {
        0
    } else if index >= len {
        len - 1
    } else {
        index
    }
}

/// `index + delta`, kept inside `0..len` (0 when `len` is 0).
pub open spec fn moved(index: int, len: int, delta: int) -> int {
    if len <= 0 {
        0
    } else if index + delta < 0 {
        0
    } else if index + delta > len - 1 {
        len - 1
    } else {
        index + delta
    }
}

/// `index + delta`, wrapped around `0..len` (0 when `len` is 0).
pub open spec fn wrapped(index: int, len: int, delta: int) -> int {
    if len <= 0 {
        0
    } else {
        (index + delta) % len
    }
}

/// `v` cut or padded with zeros to the length `len`.
pub open spec fn resized(v: Seq<usize>, len: int) -> Seq<usize> {
    if v.len() < len {
        v + Seq::new((len - v.len()) as nat, |i: int| 0usize)
    } else {
        v.take(len)
    }
}

/// Keeps `*index` inside `0..len`.
pub fn clamp_index(index: &mut usize, len: usize)
    ensures
        *final(index) == clamped(*old(index) as int, len as int),
{
    if len == 0 {
        *index = 0;
    } else if *index >= len {
        *index = len - 1;
    }
}

/// `index + delta` kept inside `0..len`.
pub fn move_index_value(index: usize, len: usize, delta: isize) -> (r: usize)
    ensures
        r == moved(index as int, len as int, delta as int),
{
    if len == 0 {
        return 0;
    }
    let target: i128 = index as i128 + delta as i128;
    if target < 0 {
        0
    } else if target > len as i128 - 1 {
        len - 1
    } else {
        target as usize
    }
}

/// Moves `*index` by `delta` inside `0..len`.
pub fn move_index(index: &mut usize, len: usize, delta: isize)
    ensures
        *final(index) == moved(*old(index) as int, len as int, delta as int),
{
    *index = move_index_value(*index, len, delta);
}

/// `index + delta` wrapped around `0..len`.
pub fn wrap_index(index: usize, len: usize, delta: isize) -> (r: usize)
    ensures
        r == wrapped(index as int, len as int, delta as int),
        len > 0 ==> r < len,
{
    if len == 0 {
        return 0;
    }
    let target: i128 = index as i128 + delta as i128;
    let m = len as i128;
    let r: i128 = if target >= 0 {
        target % m
    } else {
        let k = (-target) % m;
        if k == 0 {
            0
        } else {
            m - k
        }
    };
    proof {
        if target < 0 {
            lemma_negative_mod(target as int, m as int);
        }
    }
    r as usize
}

proof fn lemma_negative_mod(t: int, m: int)
    requires
        t < 0,
        m > 0,
    ensures
        t % m == (if (-t) % m == 0 { 0 } else { m - (-t) % m }),
{
    let k = (-t) % m;
    let q = (-t) / m;
    assert(-t == q * m + k && 0 <= k < m) by {
        vstd::arithmetic::div_mod::lemma_fundamental_div_mod(-t, m);
    }
    if k == 0 {
        assert(t == (-q) * m) by (nonlinear_arith)
            requires
                -t == q * m + k,
                k == 0,
        ;
        vstd::arithmetic::div_mod::lemma_mod_multiples_basic(-q, m);
    } else {
        assert(t == (-q - 1) * m + (m - k)) by (nonlinear_arith)
            requires
                -t == q * m + k,
        ;
        vstd::arithmetic::div_mod::lemma_mod_multiples_vanish(-q - 1, m - k, m);
        vstd::arithmetic::div_mod::lemma_small_mod((m - k) as nat, m as nat);
    }
}

/// The index of the first option whose value equals `color` up to ASCII case.
pub open spec fn color_index_from(colors: Seq<ColorOption>, color: Seq<char>, k: int) -> Option<
    int,
>
    decreases colors.len() - k,
{
    if k < 0 || k >= colors.len() {
        None
    } else if eq_ignore_ascii_case(colors[k].value@, color) {
        Some(k)
    } else {
        color_index_from(colors, color, k + 1)
    }
}

/// The option to preselect for `color`: the first whose value matches, else the first.
pub open spec fn preselected(colors: Seq<ColorOption>, color: Option<String>) -> int {
    match color {
        Some(c) => match color_index_from(colors, c@, 0) {
            Some(i) => i,
            None => 0,
        },
        None => 0,
    }
}

/// Whether `options` offer exactly `colors`, in order.
pub open spec fn offers(options: Seq<PickerOption>, colors: Seq<ColorOption>) -> bool {
    options.len() == colors.len() && forall|i: int|
        0 <= i < colors.len() ==> (#[trigger] options[i]).label == colors[i].label
            && options[i].value == colors[i].value
}

fn color_index(colors: &Vec<ColorOption>, color: &String) -> (r: usize)
    ensures
        r == preselected(colors@, Some(*color)),
{
    let c = chars_of(color.as_str());
    let mut i: usize = 0;
    while i < colors.len()
        invariant
            i <= colors.len(),
            c@ == color@,
            color_index_from(colors@, color@, i as int) == color_index_from(colors@, color@, 0),
        decreases colors.len() - i,
    {
        let v = chars_of(colors[i].value.as_str());
        if chars_eq_ignore_ascii_case(&v, &c) {
            return i;
        }
        i += 1;
    }
    0
}

fn picker_options(colors: &Vec<ColorOption>) -> (r: Vec<PickerOption>)
    ensures
        offers(r@, colors@),
{
    let mut r: Vec<PickerOption> = Vec::new();
    let mut i: usize = 0;
    while i < colors.len()
        invariant
            i <= colors.len(),
            r@.len() == i,
            forall|j: int|
                0 <= j < i ==> (#[trigger] r@[j]).label == colors@[j].label && r@[j].value
                    == colors@[j].value,
        decreases colors.len() - i,
    {
        r.push(PickerOption { label: colors[i].label.clone(), value: colors[i].value.clone() });
        i += 1;
    }
    r
}

/// The remembered card indexes `sc` made one per list of `b`, each inside its list.
pub open spec fn clamp_selection(sc: Seq<usize>, b: Board) -> Seq<usize> {
    let r = resized(sc, b.lists@.len() as int);
    Seq::new(r.len(), |i: int| clamped(r[i] as int, b.lists@[i].cards@.len() as int) as usize)
}

/// The index of the first list of `lists` at `path`.
pub open spec fn list_index_of(lists: Seq<List>, path: Seq<char>) -> Option<int>
    decreases lists.len(),
{
    if lists.len() == 0 {
        None
    } else {
        match list_index_of(lists.drop_last(), path) {
            Some(i) => Some(i),
            None => if lists.last().path@ == path {
                Some(lists.len() - 1)
            } else {
                None
            },
        }
    }
}

/// The index of the first card of `cards` at `path`.
pub open spec fn card_index_of(cards: Seq<Card>, path: Seq<char>) -> Option<int>
    decreases cards.len(),
{
    if cards.len() == 0 {
        None
    } else {
        match card_index_of(cards.drop_last(), path) {
            Some(i) => Some(i),
            None => if cards.last().path@ == path {
                Some(cards.len() - 1)
            } else {
                None
            },
        }
    }
}

/// The index of the first board of `projects` at `path`.
pub open spec fn project_index_of(projects: Seq<Project>, path: Seq<char>) -> Option<int>
    decreases projects.len(),
{
    if projects.len() == 0 {
        None
    } else {
        match project_index_of(projects.drop_last(), path) {
            Some(i) => Some(i),
            None => if projects.last().path@ == path {
                Some(projects.len() - 1)
            } else {
                None
            },
        }
    }
}

proof fn lemma_list_index_of(lists: Seq<List>, path: Seq<char>)
    ensures
        list_index_of(lists, path) matches Some(i) ==> 0 <= i < lists.len() && lists[i].path@
            == path,
    decreases lists.len(),
{
    if lists.len() > 0 {
        lemma_list_index_of(lists.drop_last(), path);
    }
}

proof fn lemma_card_index_of(cards: Seq<Card>, path: Seq<char>)
    ensures
        card_index_of(cards, path) matches Some(i) ==> 0 <= i < cards.len() && cards[i].path@
            == path,
    decreases cards.len(),
{
    if cards.len() > 0 {
        lemma_card_index_of(cards.drop_last(), path);
    }
}

proof fn lemma_project_index_of(projects: Seq<Project>, path: Seq<char>)
    ensures
        project_index_of(projects, path) matches Some(i) ==> 0 <= i < projects.len()
            && projects[i].path@ == path,
    decreases projects.len(),
{
    if projects.len() > 0 {
        lemma_project_index_of(projects.drop_last(), path);
    }
}

/// The index of the first list at `path`.
fn find_list(lists: &Vec<List>, path: &String) -> (r: Option<usize>)
    ensures
        r matches Some(i) ==> list_index_of(lists@, path@) == Some(i as int),
        r is None ==> list_index_of(lists@, path@) is None,
{
    let mut i: usize = 0;
    while i < lists.len()
        invariant
            i <= lists.len(),
            list_index_of(lists@.take(i as int), path@) is None,
        decreases lists.len() - i,
    {
        assert(lists@.take(i + 1).drop_last() =~= lists@.take(i as int));
        if lists[i].path == *path {
            proof {
                lemma_list_index_prefix(lists@, path@, i + 1, i as int);
            }
            return Some(i);
        }
        i += 1;
    }
    assert(lists@.take(i as int) =~= lists@);
    None
}

proof fn lemma_list_index_prefix(lists: Seq<List>, path: Seq<char>, k: int, j: int)
    requires
        0 < k <= lists.len(),
        list_index_of(lists.take(k), path) == Some(j),
    ensures
        list_index_of(lists, path) == Some(j),
    decreases lists.len() - k,
{
    if k < lists.len() {
        assert(lists.take(k + 1).drop_last() =~= lists.take(k));
        lemma_list_index_prefix(lists, path, k + 1, j);
    } else {
        assert(lists.take(k) =~= lists);
    }
}

/// The index of the first card at `path`.
fn find_card(cards: &Vec<Card>, path: &String) -> (r: Option<usize>)
    ensures
        r matches Some(i) ==> card_index_of(cards@, path@) == Some(i as int),
        r is None ==> card_index_of(cards@, path@) is None,
{
    let mut i: usize = 0;
    while i < cards.len()
        invariant
            i <= cards.len(),
            card_index_of(cards@.take(i as int), path@) is None,
        decreases cards.len() - i,
    {
        assert(cards@.take(i + 1).drop_last() =~= cards@.take(i as int));
        if cards[i].path == *path {
            proof {
                lemma_card_index_prefix(cards@, path@, i + 1, i as int);
            }
            return Some(i);
        }
        i += 1;
    }
    assert(cards@.take(i as int) =~= cards@);
    None
}

proof fn lemma_card_index_prefix(cards: Seq<Card>, path: Seq<char>, k: int, j: int)
    requires
        0 < k <= cards.len(),
        card_index_of(cards.take(k), path) == Some(j),
    ensures
        card_index_of(cards, path) == Some(j),
    decreases cards.len() - k,
{
    if k < cards.len() {
        assert(cards.take(k + 1).drop_last() =~= cards.take(k));
        lemma_card_index_prefix(cards, path, k + 1, j);
    } else {
        assert(cards.take(k) =~= cards);
    }
}

/// The index of the first board at `path`.
fn find_project(projects: &Vec<Project>, path: &String) -> (r: Option<usize>)
    ensures
        r matches Some(i) ==> project_index_of(projects@, path@) == Some(i as int),
        r is None ==> project_index_of(projects@, path@) is None,
{
    let mut i: usize = 0;
    while i < projects.len()
        invariant
            i <= projects.len(),
            project_index_of(projects@.take(i as int), path@) is None,
        decreases projects.len() - i,
    {
        assert(projects@.take(i + 1).drop_last() =~= projects@.take(i as int));
        if projects[i].path == *path {
            proof {
                lemma_project_index_prefix(projects@, path@, i + 1, i as int);
            }
            return Some(i);
        }
        i += 1;
    }
    assert(projects@.take(i as int) =~= projects@);
    None
}

proof fn lemma_project_index_prefix(projects: Seq<Project>, path: Seq<char>, k: int, j: int)
    requires
        0 < k <= projects.len(),
        project_index_of(projects.take(k), path) == Some(j),
    ensures
        project_index_of(projects, path) == Some(j),
    decreases projects.len() - k,
{
    if k < projects.len() {
        assert(projects.take(k + 1).drop_last() =~= projects.take(k));
        lemma_project_index_prefix(projects, path, k + 1, j);
    } else {
        assert(projects.take(k) =~= projects);
    }
}

// ---------------------------------------------------------------------------
// The state
// ---------------------------------------------------------------------------

impl App {
    /// The card index remembered for the selected list (0 when there is none).
    pub open spec fn selected_card_index(&self) -> int {
        if self.selected_list < self.selected_cards@.len() {
            self.selected_cards@[self.selected_list as int] as int
        } else {
            0
        }
    }

    /// Whether the selection fits the loaded board: a list selected while there are
    /// lists, one remembered card index per list, each at a card while the list has
    /// cards (and 0 for an empty list).
    pub open spec fn selection_fits(&self) -> bool {
        self.board matches Some(b) ==> {
            &&& (b.lists@.len() > 0 ==> self.selected_list < b.lists@.len())
            &&& (b.lists@.len() == 0 ==> self.selected_list == 0)
            &&& self.selected_cards@.len() == b.lists@.len()
            &&& forall|i: int|
                0 <= i < b.lists@.len() ==> {
                    ||| (#[trigger] self.selected_cards@[i]) < b.lists@[i].cards@.len()
                    ||| b.lists@[i].cards@.len() == 0 && self.selected_cards@[i] == 0
                }
        }
    }

    /// Whether the selected list of the loaded board has a card at the remembered index.
    pub open spec fn has_selected_card(&self) -> bool {
        &&& self.board is Some
        &&& self.selected_list < self.board->0.lists@.len()
        &&& self.selected_card_index() < self.board->0.lists@[self.selected_list as int].cards@.len()
    }

    /// The card at the remembered index of the selected list.
    pub open spec fn selected_card_spec(&self) -> crate::card::Card {
        self.board->0.lists@[self.selected_list as int].cards@[self.selected_card_index()]
    }

    /// The state right after start-up: the board list, nothing selected yet.
    pub fn new(
        root: String,
        config: AppConfig,
        projects: Vec<Project>,
        project_preview: Option<Board>,
    ) -> (r: App)
        ensures
            r.root == root,
            r.config == config,
            r.screen == Screen::Projects,
            r.mode == Mode::Normal,
            !r.show_preview,
            r.projects == projects,
            r.board is None,
            r.project_preview == project_preview,
            r.selected_project == 0,
            r.selected_list == 0,
            r.selected_cards@.len() == 0,
            r.status@.len() == 0,
            !r.should_quit,
    {
        App {
            root,
            config,
            screen: Screen::Projects,
            mode: Mode::Normal,
            show_preview: false,
            projects,
            board: None,
            project_preview,
            selected_project: 0,
            selected_list: 0,
            selected_cards: Vec::new(),
            status: String::new(),
            should_quit: false,
        }
    }

    /// Takes a fresh list of boards and keeps the selection inside it.
    pub fn refresh_projects(&mut self, projects: Vec<Project>)
        ensures
            final(self).projects == projects,
            final(self).selected_project == clamped(
                old(self).selected_project as int,
                projects@.len() as int,
            ),
            final(self).board == old(self).board,
            final(self).screen == old(self).screen,
            final(self).selected_list == old(self).selected_list,
            final(self).selected_cards == old(self).selected_cards,
            final(self).status == old(self).status,
    {
        self.projects = projects;
        let len = self.projects.len();
        clamp_index(&mut self.selected_project, len);
    }

    /// The path of the selected board, whose details the board list shows.
    pub fn selected_project_path(&self) -> (r: Option<String>)
        ensures
            self.selected_project < self.projects@.len() ==> r == Some(
                self.projects@[self.selected_project as int].path,
            ),
            self.selected_project >= self.projects@.len() ==> r is None,
    {
        if self.selected_project < self.projects.len() {
            Some(self.projects[self.selected_project].path.clone())
        } else {
            None
        }
    }

    /// Flips whether the preview panel shows, and gives the path of the loaded board,
    /// whose metadata should record the new setting.
    pub fn toggle_preview(&mut self) -> (r: Option<String>)
        ensures
            final(self).show_preview == !old(self).show_preview,
            r == (match old(self).board {
                Some(b) => Some(b.path),
                None => None,
            }),
            *final(self) == (App { show_preview: !old(self).show_preview, ..*old(self) }),
    {
        self.show_preview = !self.show_preview;
        match &self.board {
            Some(board) => Some(board.path.clone()),
            None => None,
        }
    }

    /// The picker of border colors for the selected list, with its current color
    /// preselected.
    pub fn list_border_color_picker(&self) -> (r: Option<PickerState>)
        ensures
            r is Some <==> (self.board is Some && self.selected_list
                < self.board->0.lists@.len()),
            r matches Some(p) ==> {
                &&& p.title@ == "List Border Color"@
                &&& offers(p.options@, self.config.colors@)
                &&& p.selected == preselected(
                    self.config.colors@,
                    self.board->0.lists@[self.selected_list as int].border_color,
                )
                &&& p.target == PickerTarget::ListBorderColor { list_index: self.selected_list }
            },
    {
        let board = match &self.board {
            Some(b) => b,
            None => return None,
        };
        if self.selected_list >= board.lists.len() {
            return None;
        }
        let list = &board.lists[self.selected_list];
        let selected = match &list.border_color {
            Some(c) => color_index(&self.config.colors, c),
            None => 0,
        };
        Some(
            PickerState {
                title: String::from_str("List Border Color"),
                options: picker_options(&self.config.colors),
                selected,
                target: PickerTarget::ListBorderColor { list_index: self.selected_list },
            },
        )
    }

    /// The picker of colors for the selected card, with its current color preselected.
    pub fn card_color_picker(&self) -> (r: Option<PickerState>)
        ensures
            r is Some <==> self.has_selected_card(),
            r matches Some(p) ==> {
                &&& p.title@ == "Card Color"@
                &&& offers(p.options@, self.config.colors@)
                &&& p.selected == preselected(self.config.colors@, self.selected_card_spec().color)
                &&& p.target == PickerTarget::CardColor {
                    list_index: self.selected_list,
                    card_index: self.selected_card_index() as usize,
                }
            },
    {
        let board = match &self.board {
            Some(b) => b,
            None => return None,
        };
        if self.selected_list >= board.lists.len() {
            return None;
        }
        let list = &board.lists[self.selected_list];
        let card_index = self.selected_card();
        if card_index >= list.cards.len() {
            return None;
        }
        let card = &list.cards[card_index];
        let selected = match &card.color {
            Some(c) => color_index(&self.config.colors, c),
            None => 0,
        };
        Some(
            PickerState {
                title: String::from_str("Card Color"),
                options: picker_options(&self.config.colors),
                selected,
                target: PickerTarget::CardColor { list_index: self.selected_list, card_index },
            },
        )
    }

    /// The card index remembered for the selected list.
    pub fn selected_card(&self) -> (r: usize)
        ensures
            r == self.selected_card_index(),
    {
        if self.selected_list < self.selected_cards.len() {
            self.selected_cards[self.selected_list]
        } else {
            0
        }
    }

    /// The name shown for the current screen.
    pub fn current_project_name(&self) -> (r: &str)
        ensures
            r@ == (match self.screen {
                Screen::Projects => "Projects"@,
                Screen::Board => match self.board {
                    Some(b) => b.name@,
                    None => "Board"@,
                },
            }),
    {
        match self.screen {
            Screen::Projects => "Projects",
            Screen::Board => match &self.board {
                Some(board) => board.name.as_str(),
                None => "Board",
            },
        }
    }

    /// The markdown of the selected card without its frontmatter.
    pub fn selected_card_content(&self) -> (r: Option<String>)
        ensures
            r is Some <==> self.has_selected_card(),
            r matches Some(c) ==> c@ == spec_preview_content(self.selected_card_spec().content@),
    {
        let board = match &self.board {
            Some(b) => b,
            None => return None,
        };
        if self.selected_list >= board.lists.len() {
            return None;
        }
        let list = &board.lists[self.selected_list];
        let card_index = self.selected_card();
        if card_index >= list.cards.len() {
            return None;
        }
        Some(preview_content(list.cards[card_index].content.as_str()))
    }

    /// The path of the selected card.
    pub fn selected_card_path(&self) -> (r: Option<String>)
        ensures
            r is Some <==> self.has_selected_card(),
            r matches Some(p) ==> p == self.selected_card_spec().path,
    {
        let board = match &self.board {
            Some(b) => b,
            None => return None,
        };
        if self.selected_list >= board.lists.len() {
            return None;
        }
        let list = &board.lists[self.selected_list];
        let card_index = self.selected_card();
        if card_index >= list.cards.len() {
            return None;
        }
        Some(list.cards[card_index].path.clone())
    }

    /// Moves the board selection by `delta`, inside the list of boards.
    pub fn move_project_selection(&mut self, delta: isize)
        ensures
            final(self).selected_project == moved(
                old(self).selected_project as int,
                old(self).projects@.len() as int,
                delta as int,
            ),
            *final(self) == (App { selected_project: final(self).selected_project, ..*old(self) }),
    {
        let len = self.projects.len();
        move_index(&mut self.selected_project, len, delta);
    }

    /// Whether the selected list exists and has a remembered card index.
    pub open spec fn card_selection_movable(&self) -> bool {
        &&& self.board is Some
        &&& self.selected_list < self.board->0.lists@.len()
        &&& self.selected_list < self.selected_cards@.len()
    }

    /// Moves the card selection of the selected list by `delta`, inside that list.
    pub fn move_card_selection(&mut self, delta: isize)
        ensures
            final(self).board == old(self).board,
            final(self).selected_list == old(self).selected_list,
            old(self).card_selection_movable() ==> final(self).selected_cards@ == old(self).selected_cards@.update(
                old(self).selected_list as int,
                moved(
                    old(self).selected_card_index(),
                    old(self).board->0.lists@[old(self).selected_list as int].cards@.len() as int,
                    delta as int,
                ) as usize,
            ),
            !old(self).card_selection_movable() ==> final(self).selected_cards == old(self).selected_cards,
            *final(self) == (App { selected_cards: final(self).selected_cards, ..*old(self) }),
    {
        let len = match &self.board {
            Some(board) => {
                if self.selected_list < board.lists.len() {
                    board.lists[self.selected_list].cards.len()
                } else {
                    return;
                }
            },
            None => return,
        };
        if self.selected_list < self.selected_cards.len() {
            let current = self.selected_cards[self.selected_list];
            let next = move_index_value(current, len, delta);
            self.selected_cards.set(self.selected_list, next);
        }
    }

    /// Resizes the remembered card indexes to one per list.
    fn ensure_selection_shape(&mut self, len: usize)
        ensures
            final(self).selected_cards@ == resized(old(self).selected_cards@, len as int),
            final(self).board == old(self).board,
            final(self).selected_list == old(self).selected_list,
            final(self).projects == old(self).projects,
            final(self).selected_project == old(self).selected_project,
            final(self).screen == old(self).screen,
            final(self).status == old(self).status,
            final(self).show_preview == old(self).show_preview,
            final(self).mode == old(self).mode,
            *final(self) == (App { selected_cards: final(self).selected_cards, ..*old(self) }),
    {
        let ghost before = self.selected_cards@;
        let mut v: Vec<usize> = Vec::new();
        let mut i: usize = 0;
        while i < len
            invariant
                i <= len,
                before == self.selected_cards@,
                v@.len() == i,
                forall|j: int|
                    0 <= j < i ==> #[trigger] v@[j] == (if j < before.len() {
                        before[j]
                    } else {
                        0usize
                    }),
            decreases len - i,
        {
            if i < self.selected_cards.len() {
                v.push(self.selected_cards[i]);
            } else {
                v.push(0);
            }
            i += 1;
        }
        self.selected_cards = v;
        assert(self.selected_cards@ =~= resized(before, len as int));
    }

    /// Moves the list selection by `delta`, wrapping around the lists of the board.
    pub fn move_list_selection(&mut self, delta: isize)
        ensures
            old(self).board is None ==> final(self).selected_list == old(self).selected_list
                && final(self).selected_cards == old(self).selected_cards,
            old(self).board is Some ==> {
                let n = old(self).board->0.lists@.len() as int;
                &&& final(self).selected_list == wrapped(
                    old(self).selected_list as int,
                    n,
                    delta as int,
                )
                &&& n > 0 ==> final(self).selected_cards@ == resized(
                    old(self).selected_cards@,
                    n,
                )
                &&& n == 0 ==> final(self).selected_cards == old(self).selected_cards
            },
            *final(self) == (App {
                selected_list: final(self).selected_list,
                selected_cards: final(self).selected_cards,
                ..*old(self)
            }),
    {
        let len = match &self.board {
            Some(board) => board.lists.len(),
            None => return,
        };
        if len == 0 {
            self.selected_list = 0;
            return;
        }
        self.selected_list = wrap_index(self.selected_list, len, delta);
        self.ensure_selection_shape(len);
    }

    /// Focuses the next list, the first after the last.
    pub fn focus_next_list(&mut self)
        ensures
            old(self).board is Some ==> final(self).selected_list == wrapped(
                old(self).selected_list as int,
                old(self).board->0.lists@.len() as int,
                1,
            ),
            old(self).board is None ==> final(self).selected_list == old(self).selected_list,
            *final(self) == (App {
                selected_list: final(self).selected_list,
                selected_cards: final(self).selected_cards,
                ..*old(self)
            }),
    {
        self.move_list_selection(1);
    }

    /// Focuses the previous list, the last before the first.
    pub fn focus_previous_list(&mut self)
        ensures
            old(self).board is Some ==> final(self).selected_list == wrapped(
                old(self).selected_list as int,
                old(self).board->0.lists@.len() as int,
                -1,
            ),
            old(self).board is None ==> final(self).selected_list == old(self).selected_list,
            *final(self) == (App {
                selected_list: final(self).selected_list,
                selected_cards: final(self).selected_cards,
                ..*old(self)
            }),
    {
        self.move_list_selection(-1);
    }

    /// The card position that a move targets after moving it by `delta` inside the
    /// target list (which has one more slot than cards).
    pub fn move_target_position(&self, target_list: usize, target_position: usize, delta: isize) -> (r:
        usize)
        ensures
            (self.board is Some && target_list < self.board->0.lists@.len()) ==> r == moved(
                target_position as int,
                self.board->0.lists@[target_list as int].cards@.len() as int + 1,
                delta as int,
            ),
            !(self.board is Some && target_list < self.board->0.lists@.len()) ==> r == 0,
    {
        let board = match &self.board {
            Some(b) => b,
            None => return 0,
        };
        if target_list >= board.lists.len() {
            return 0;
        }
        let max = board.lists[target_list].cards.len();
        let target: i128 = target_position as i128 + delta as i128;
        if target < 0 {
            0
        } else if target > max as i128 {
            max
        } else {
            target as usize
        }
    }

    /// Where a card move starts: the selected card's position.
    pub fn default_move_target_position(&self) -> (r: usize)
        ensures
            r == self.selected_card_index(),
    {
        self.selected_card()
    }

    /// The list position that a list move targets after moving it by `delta`.
    pub fn move_list_target_position(&self, target_position: usize, delta: isize) -> (r: usize)
        ensures
            self.board is Some ==> r == moved(
                target_position as int,
                self.board->0.lists@.len() as int,
                delta as int,
            ),
            self.board is None ==> r == 0,
    {
        match &self.board {
            Some(board) => move_index_value(target_position, board.lists.len(), delta),
            None => 0,
        }
    }
}


impl App {
    /// Whether `new` is `old` after reloading the board `b`: the selection is kept
    /// inside the lists and cards of `b`.
    pub open spec fn is_reload_of(new: App, old: App, b: Board) -> bool {
        App::is_reload_from(new, old, b, old.selected_list as int)
    }

    /// `is_reload_of`, with `from_list` as the list selected before the reload.
    pub open spec fn is_reload_from(new: App, old: App, b: Board, from_list: int) -> bool {
        &&& new.board == Some(b)
        &&& new.selected_list == clamped(from_list, b.lists@.len() as int)
        &&& new.selected_cards@ == clamp_selection(old.selected_cards@, b)
        &&& new.screen == old.screen
        &&& new.mode == old.mode
        &&& new.projects == old.projects
        &&& new.selected_project == old.selected_project
        &&& new.show_preview == old.show_preview
    }

    /// Keeps the list and card selection inside the loaded board.
    fn clamp_board_selection(&mut self)
        ensures
            old(self).board matches Some(b) ==> {
                &&& final(self).selected_list == clamped(
                    old(self).selected_list as int,
                    b.lists@.len() as int,
                )
                &&& final(self).selected_cards@ == clamp_selection(old(self).selected_cards@, b)
            },
            old(self).board is None ==> final(self).selected_list == old(self).selected_list
                && final(self).selected_cards == old(self).selected_cards,
            final(self).board == old(self).board,
            final(self).screen == old(self).screen,
            final(self).mode == old(self).mode,
            final(self).projects == old(self).projects,
            final(self).selected_project == old(self).selected_project,
            final(self).show_preview == old(self).show_preview,
            final(self).status == old(self).status,
    {
        let list_len = match &self.board {
            Some(board) => board.lists.len(),
            None => return,
        };
        clamp_index(&mut self.selected_list, list_len);
        self.ensure_selection_shape(list_len);
        let ghost shaped = self.selected_cards@;
        let board = match &self.board {
            Some(board) => board,
            None => return,
        };
        let ghost b = *board;
        let mut v: Vec<usize> = Vec::new();
        let mut index: usize = 0;
        while index < list_len
            invariant
                list_len == b.lists@.len(),
                board == b,
                index <= list_len,
                v@.len() == index,
                self.selected_cards@ == shaped,
                shaped.len() == list_len,
                forall|j: int|
                    0 <= j < index ==> #[trigger] v@[j] == clamped(
                        shaped[j] as int,
                        b.lists@[j].cards@.len() as int,
                    ) as usize,
            decreases list_len - index,
        {
            let mut next = self.selected_cards[index];
            clamp_index(&mut next, board.lists[index].cards.len());
            v.push(next);
            index += 1;
        }
        self.selected_cards = v;
        assert(self.selected_cards@ =~= clamp_selection(old(self).selected_cards@, b));
    }

    /// Takes the board as just read again from disk, keeping the selection inside it.
    pub fn reload_board(&mut self, board: Board)
        ensures
            App::is_reload_of(*final(self), *old(self), board),
            final(self).status == old(self).status,
    {
        let len = board.lists.len();
        self.ensure_selection_shape(len);
        self.board = Some(board);
        self.clamp_board_selection();
        proof {
            let b = board;
            assert(resized(resized(old(self).selected_cards@, len as int), len as int) =~= resized(
                old(self).selected_cards@,
                len as int,
            ));
        }
    }

    /// The path of the loaded board.
    pub fn board_path(&self) -> (r: Option<String>)
        ensures
            r == (match self.board {
                Some(b) => Some(b.path),
                None => None,
            }),
    {
        match &self.board {
            Some(b) => Some(b.path.clone()),
            None => None,
        }
    }

    /// Whether the loaded board is the one at `path`.
    pub fn is_loaded_board(&self, path: &String) -> (r: bool)
        ensures
            r == (self.board is Some && self.board->0.path@ == path@),
    {
        match &self.board {
            Some(b) => b.path == *path,
            None => false,
        }
    }

    /// The board to open: the selected one; with none, the status says so.
    pub fn open_selected_project(&mut self) -> (r: Option<String>)
        ensures
            old(self).selected_project < old(self).projects@.len() ==> r == Some(
                old(self).projects@[old(self).selected_project as int].path,
            ) && final(self).status == old(self).status,
            old(self).selected_project >= old(self).projects@.len() ==> r is None
                && final(self).status@ == "No projects in "@ + old(self).root@,
            *final(self) == (App { status: final(self).status, ..*old(self) }),
    {
        if self.selected_project < self.projects.len() {
            Some(self.projects[self.selected_project].path.clone())
        } else {
            self.status = concat("No projects in ", self.root.as_str());
            None
        }
    }

    /// Shows a board just read from disk: its first list is selected and the first
    /// card of every list.
    pub fn open_board(&mut self, board: Board, show_preview: bool)
        ensures
            final(self).show_preview == show_preview,
            final(self).selected_list == 0,
            final(self).selected_cards@ == Seq::new(board.lists@.len(), |i: int| 0usize),
            final(self).board == Some(board),
            final(self).screen == Screen::Board,
            final(self).mode == Mode::Normal,
            final(self).projects == old(self).projects,
            final(self).selected_project == old(self).selected_project,
    {
        self.show_preview = show_preview;
        self.selected_list = 0;
        let n = board.lists.len();
        let mut zeros: Vec<usize> = Vec::new();
        while zeros.len() < n
            invariant
                zeros@.len() <= n,
                forall|j: int| 0 <= j < zeros@.len() ==> zeros@[j] == 0usize,
            decreases n - zeros.len(),
        {
            zeros.push(0);
        }
        assert(zeros@ =~= Seq::new(n as nat, |i: int| 0usize));
        self.selected_cards = zeros;
        self.board = Some(board);
        self.screen = Screen::Board;
        self.mode = Mode::Normal;
    }

    /// Switches between the board list and the board. From the board list without a
    /// loaded board, the result is `true`: the selected board is to be opened.
    pub fn switch_tab(&mut self) -> (r: bool)
        ensures
            final(self).mode == Mode::Normal,
            r == (old(self).screen == Screen::Projects && old(self).board is None),
            old(self).screen == Screen::Projects && old(self).board is Some ==> final(self).screen
                == Screen::Board,
            old(self).screen == Screen::Projects && old(self).board is None ==> final(self).screen
                == Screen::Projects,
            old(self).screen == Screen::Board ==> final(self).screen == Screen::Projects,
            *final(self) == (App { mode: Mode::Normal, screen: final(self).screen, ..*old(self) }),
    {
        self.mode = Mode::Normal;
        match self.screen {
            Screen::Projects => {
                if self.board.is_some() {
                    self.screen = Screen::Board;
                    false
                } else {
                    true
                }
            },
            Screen::Board => {
                self.screen = Screen::Projects;
                false
            },
        }
    }

    /// After a board was created at `created_path` (named `created_name` on disk):
    /// takes the fresh board list and selects the new board.
    pub fn create_project(&mut self, projects: Vec<Project>, created_path: &String, created_name: &str)
        ensures
            final(self).projects == projects,
            final(self).selected_project == (match project_index_of(projects@, created_path@) {
                Some(i) => i,
                None => clamped(old(self).selected_project as int, projects@.len() as int),
            }),
            final(self).status@ == "Created board "@ + created_name@,
            final(self).board == old(self).board,
            final(self).screen == old(self).screen,
    {
        self.refresh_projects(projects);
        if let Some(index) = find_project(&self.projects, created_path) {
            self.selected_project = index;
        }
        self.status = concat("Created board ", created_name);
    }

    /// The selected board's path and name, for a delete or a rename; with none, the
    /// status says so.
    pub fn selected_project_target(&mut self) -> (r: Option<(String, String)>)
        ensures
            old(self).selected_project < old(self).projects@.len() ==> r == Some(
                (
                    old(self).projects@[old(self).selected_project as int].path,
                    old(self).projects@[old(self).selected_project as int].name,
                ),
            ) && final(self).status == old(self).status,
            old(self).selected_project >= old(self).projects@.len() ==> r is None
                && final(self).status@ == "No board selected"@,
            final(self).board == old(self).board,
            final(self).projects == old(self).projects,
            final(self).selected_project == old(self).selected_project,
    {
        if self.selected_project < self.projects.len() {
            let p = &self.projects[self.selected_project];
            Some((p.path.clone(), p.name.clone()))
        } else {
            self.status = String::from_str("No board selected");
            None
        }
    }

    /// After the board at `deleted_path` was deleted: a loaded board there is closed,
    /// and the fresh board list is taken.
    pub fn delete_selected_project(
        &mut self,
        deleted_path: &String,
        deleted_name: &str,
        projects: Vec<Project>,
    )
        ensures
            (old(self).board is Some && old(self).board->0.path@ == deleted_path@) ==> {
                &&& final(self).board is None
                &&& final(self).screen == Screen::Projects
                &&& final(self).selected_list == 0
                &&& final(self).selected_cards@.len() == 0
            },
            !(old(self).board is Some && old(self).board->0.path@ == deleted_path@) ==> {
                &&& final(self).board == old(self).board
                &&& final(self).screen == old(self).screen
                &&& final(self).selected_list == old(self).selected_list
                &&& final(self).selected_cards == old(self).selected_cards
            },
            final(self).projects == projects,
            final(self).selected_project == clamped(
                old(self).selected_project as int,
                projects@.len() as int,
            ),
            final(self).status@ == "Deleted board "@ + deleted_name@,
    {
        if self.is_loaded_board(deleted_path) {
            self.board = None;
            self.screen = Screen::Projects;
            self.selected_list = 0;
            self.selected_cards = Vec::new();
        }
        self.refresh_projects(projects);
        self.status = concat("Deleted board ", deleted_name);
    }

    /// After the board at `old_path` was renamed to `name` and moved to `new_path`:
    /// a loaded board there is replaced by `renamed_board` (read from `new_path`), the
    /// fresh board list is taken and the renamed board selected.
    pub fn rename_selected_project(
        &mut self,
        old_path: &String,
        new_path: &String,
        name: &str,
        renamed_board: Board,
        projects: Vec<Project>,
    )
        ensures
            (old(self).board is Some && old(self).board->0.path@ == old_path@) ==> final(self).board == Some(renamed_board),
            !(old(self).board is Some && old(self).board->0.path@ == old_path@) ==> final(self).board == old(self).board,
            final(self).projects == projects,
            final(self).selected_project == (match project_index_of(projects@, new_path@) {
                Some(i) => i,
                None => clamped(old(self).selected_project as int, projects@.len() as int),
            }),
            final(self).status@ == "Renamed board "@ + trim(name@),
    {
        if self.is_loaded_board(old_path) {
            self.board = Some(renamed_board);
        }
        self.refresh_projects(projects);
        if let Some(index) = find_project(&self.projects, new_path) {
            self.selected_project = index;
        }
        let n = chars_of(name);
        let mut msg = chars_of("Renamed board ");
        append_chars(&mut msg, &trimmed(&n));
        self.status = string_of(&msg);
    }
}


impl App {
    /// Whether the selected list exists in the loaded board.
    pub open spec fn has_selected_list(&self) -> bool {
        self.board is Some && self.selected_list < self.board->0.lists@.len()
    }

    /// The selected list of the loaded board.
    pub open spec fn selected_list_spec(&self) -> List {
        self.board->0.lists@[self.selected_list as int]
    }

    /// After reloading the board: the list at `path` is selected if there is one.
    pub open spec fn focused_list_after(new: App, reloaded: App, b: Board, path: Seq<char>) -> bool {
        match list_index_of(b.lists@, path) {
            Some(i) => new.selected_list == i && new.selected_cards@ == resized(
                reloaded.selected_cards@,
                b.lists@.len() as int,
            ),
            None => new.selected_list == reloaded.selected_list && new.selected_cards
                == reloaded.selected_cards,
        }
    }

    /// The selected list's path, board path and name, for a delete, rename or move.
    /// Without a board the result is `None`; without the list the status says so.
    pub fn selected_list_target(&mut self) -> (r: Option<(String, String, String)>)
        ensures
            old(self).has_selected_list() ==> r == Some(
                (
                    old(self).selected_list_spec().path,
                    old(self).board->0.path,
                    old(self).selected_list_spec().name,
                ),
            ) && final(self).status == old(self).status,
            old(self).board is None ==> r is None && final(self).status == old(self).status,
            (old(self).board is Some && !old(self).has_selected_list()) ==> r is None
                && final(self).status@ == "No list selected"@,
            final(self).board == old(self).board,
            final(self).selected_list == old(self).selected_list,
            final(self).selected_cards == old(self).selected_cards,
    {
        let board = match &self.board {
            Some(b) => b,
            None => return None,
        };
        if self.selected_list < board.lists.len() {
            let list = &board.lists[self.selected_list];
            Some((list.path.clone(), board.path.clone(), list.name.clone()))
        } else {
            self.status = String::from_str("No list selected");
            None
        }
    }

    /// The selected list's path, where a new card goes.
    pub fn selected_list_path(&self) -> (r: Option<String>)
        ensures
            self.has_selected_list() ==> r == Some(self.selected_list_spec().path),
            !self.has_selected_list() ==> r is None,
    {
        match &self.board {
            Some(b) => if self.selected_list < b.lists.len() {
                Some(b.lists[self.selected_list].path.clone())
            } else {
                None
            },
            None => None,
        }
    }

    /// Selects the list at `path` of the loaded board, if there is one.
    fn focus_list_at(&mut self, path: &String)
        ensures
            final(self).board == old(self).board,
            final(self).status == old(self).status,
            final(self).screen == old(self).screen,
            final(self).mode == old(self).mode,
            final(self).projects == old(self).projects,
            final(self).selected_project == old(self).selected_project,
            final(self).show_preview == old(self).show_preview,
            old(self).board matches Some(b) ==> App::focused_list_after(
                *final(self),
                *old(self),
                b,
                path@,
            ),
            old(self).board is None ==> final(self).selected_list == old(self).selected_list
                && final(self).selected_cards == old(self).selected_cards,
    {
        let (found, len) = match &self.board {
            Some(b) => (find_list(&b.lists, path), b.lists.len()),
            None => return,
        };
        if let Some(index) = found {
            self.selected_list = index;
            self.ensure_selection_shape(len);
        }
    }

    /// After the selected list (named `deleted_name`) was deleted: takes the board
    /// as read again.
    pub fn delete_selected_list(&mut self, deleted_name: &str, board: Board)
        ensures
            App::is_reload_of(*final(self), *old(self), board),
            final(self).status@ == "Deleted list "@ + deleted_name@,
    {
        self.status = concat("Deleted list ", deleted_name);
        self.reload_board(board);
    }

    /// After the selected list was renamed to `name` and moved to `new_path`: takes
    /// the board as read again and selects that list.
    pub fn rename_selected_list(&mut self, name: &str, new_path: &String, board: Board)
        ensures
            final(self).board == Some(board),
            exists|reloaded: App|
                App::is_reload_of(reloaded, *old(self), board) && App::focused_list_after(
                    *final(self),
                    reloaded,
                    board,
                    new_path@,
                ),
            final(self).status@ == "Renamed list "@ + trim(name@),
    {
        let n = chars_of(name);
        let mut msg = chars_of("Renamed list ");
        append_chars(&mut msg, &trimmed(&n));
        self.status = string_of(&msg);
        self.reload_board(board);
        let ghost reloaded = *self;
        self.focus_list_at(new_path);
        assert(App::is_reload_of(reloaded, *old(self), board));
    }

    /// After a list was created at `created_path` (named `created_name` on disk):
    /// takes the board as read again and selects the new list.
    pub fn create_list(&mut self, created_path: &String, created_name: &str, board: Board)
        ensures
            final(self).board == Some(board),
            exists|reloaded: App|
                App::is_reload_of(reloaded, *old(self), board) && App::focused_list_after(
                    *final(self),
                    reloaded,
                    board,
                    created_path@,
                ),
            final(self).status@ == "Created list "@ + created_name@,
    {
        self.reload_board(board);
        let ghost reloaded = *self;
        self.focus_list_at(created_path);
        self.status = concat("Created list ", created_name);
        assert(App::is_reload_of(reloaded, *old(self), board));
    }

    /// After a card was created (named `created_name` on disk): takes the board as
    /// read again.
    pub fn create_card(&mut self, created_name: &str, board: Board)
        ensures
            App::is_reload_of(*final(self), *old(self), board),
            final(self).status@ == "Created "@ + created_name@,
    {
        self.status = concat("Created ", created_name);
        self.reload_board(board);
    }

    /// The selected card's path, for a delete, rename or edit; with none, the status
    /// says so.
    pub fn selected_card_target(&mut self) -> (r: Option<String>)
        ensures
            old(self).has_selected_card() ==> r == Some(old(self).selected_card_spec().path)
                && final(self).status == old(self).status,
            !old(self).has_selected_card() ==> r is None && final(self).status@
                == "No card selected"@,
            final(self).board == old(self).board,
            final(self).selected_list == old(self).selected_list,
            final(self).selected_cards == old(self).selected_cards,
    {
        match self.selected_card_path() {
            Some(p) => Some(p),
            None => {
                self.status = String::from_str("No card selected");
                None
            },
        }
    }

    /// After the selected card (named `deleted_name` on disk) was deleted: takes the
    /// board as read again.
    pub fn delete_selected_card(&mut self, deleted_name: &str, board: Board)
        ensures
            App::is_reload_of(*final(self), *old(self), board),
            final(self).status@ == "Deleted "@ + deleted_name@,
    {
        self.status = concat("Deleted ", deleted_name);
        self.reload_board(board);
    }

    /// Remembers `card_index` for the list `list_index` when the loaded board has a
    /// card at `path` there.
    fn focus_card_at(&mut self, list_index: usize, path: &String)
        ensures
            final(self).board == old(self).board,
            final(self).status == old(self).status,
            final(self).selected_list == old(self).selected_list,
            final(self).screen == old(self).screen,
            final(self).selected_cards@.len() == old(self).selected_cards@.len(),
            ({
                let found = match old(self).board {
                    Some(b) => if list_index < b.lists@.len() {
                        card_index_of(b.lists@[list_index as int].cards@, path@)
                    } else {
                        None
                    },
                    None => None,
                };
                match found {
                    Some(i) => if list_index < old(self).selected_cards@.len() {
                        final(self).selected_cards@ == old(self).selected_cards@.update(
                            list_index as int,
                            i as usize,
                        )
                    } else {
                        final(self).selected_cards == old(self).selected_cards
                    },
                    None => final(self).selected_cards == old(self).selected_cards,
                }
            }),
    {
        let found = match &self.board {
            Some(b) => if list_index < b.lists.len() {
                find_card(&b.lists[list_index].cards, path)
            } else {
                None
            },
            None => None,
        };
        if let Some(card_index) = found {
            if list_index < self.selected_cards.len() {
                self.selected_cards.set(list_index, card_index);
            }
        }
    }

    /// After the selected card was renamed to `title` and moved to `new_path`: takes
    /// the board as read again and selects that card.
    pub fn rename_selected_card(&mut self, title: &str, new_path: &String, board: Board)
        ensures
            final(self).board == Some(board),
            final(self).status@ == "Renamed card "@ + trim(title@),
            exists|reloaded: App|
                {
                    &&& #[trigger] App::is_reload_of(reloaded, *old(self), board)
                    &&& final(self).selected_list == reloaded.selected_list
                    &&& match (if reloaded.selected_list < board.lists@.len() {
                        card_index_of(board.lists@[reloaded.selected_list as int].cards@, new_path@)
                    } else {
                        None
                    }) {
                        Some(i) => final(self).selected_cards@ == reloaded.selected_cards@.update(
                            reloaded.selected_list as int,
                            i as usize,
                        ),
                        None => final(self).selected_cards == reloaded.selected_cards,
                    }
                },
    {
        let t = chars_of(title);
        let mut msg = chars_of("Renamed card ");
        append_chars(&mut msg, &trimmed(&t));
        self.status = string_of(&msg);
        self.reload_board(board);
        let ghost reloaded = *self;
        proof {
            if reloaded.selected_list < board.lists@.len() {
                lemma_card_index_of(board.lists@[reloaded.selected_list as int].cards@, new_path@);
            }
            assert(reloaded.selected_cards@.len() == board.lists@.len());
        }
        let list_index = self.selected_list;
        self.focus_card_at(list_index, new_path);
        assert(App::is_reload_of(reloaded, *old(self), board));
    }

    /// The selected card's path and the path of the list at `target_list`, for a
    /// move. Without a board or that list the result is `None`; without a selected card
    /// the status says so.
    pub fn card_move_target(&mut self, target_list: usize) -> (r: Option<(String, String)>)
        ensures
            (old(self).board is Some && target_list < old(self).board->0.lists@.len()
                && old(self).has_selected_card()) ==> r == Some(
                (
                    old(self).selected_card_spec().path,
                    old(self).board->0.lists@[target_list as int].path,
                ),
            ) && final(self).status == old(self).status,
            (old(self).board is Some && target_list < old(self).board->0.lists@.len()
                && !old(self).has_selected_card()) ==> r is None && final(self).status@
                == "No card selected"@,
            !(old(self).board is Some && target_list < old(self).board->0.lists@.len()) ==> r
                is None && final(self).status == old(self).status,
            final(self).board == old(self).board,
            final(self).selected_list == old(self).selected_list,
            final(self).selected_cards == old(self).selected_cards,
    {
        let target_path = match &self.board {
            Some(b) => if target_list < b.lists.len() {
                b.lists[target_list].path.clone()
            } else {
                return None;
            },
            None => return None,
        };
        match self.selected_card_target() {
            Some(card_path) => Some((card_path, target_path)),
            None => None,
        }
    }

    /// After the selected card was moved to `moved_path` in the list `target_list`:
    /// that list is selected, the board is taken as read again and the moved card is
    /// selected.
    pub fn move_selected_card_to(&mut self, target_list: usize, moved_path: &String, board: Board)
        ensures
            final(self).board == Some(board),
            final(self).status@ == "Moved card"@,
            exists|reloaded: App|
                {
                    &&& #[trigger] App::is_reload_from(
                        reloaded,
                        *old(self),
                        board,
                        target_list as int,
                    )
                    &&& final(self).selected_list == reloaded.selected_list
                    &&& match (if target_list < board.lists@.len() {
                        card_index_of(board.lists@[target_list as int].cards@, moved_path@)
                    } else {
                        None
                    }) {
                        Some(i) => final(self).selected_cards@ == reloaded.selected_cards@.update(
                            target_list as int,
                            i as usize,
                        ),
                        None => final(self).selected_cards == reloaded.selected_cards,
                    }
                },
    {
        self.selected_list = target_list;
        self.status = String::from_str("Moved card");
        let ghost before = *self;
        self.reload_board(board);
        let ghost reloaded = *self;
        proof {
            if target_list < board.lists@.len() {
                lemma_card_index_of(board.lists@[target_list as int].cards@, moved_path@);
            }
        }
        self.focus_card_at(target_list, moved_path);
        assert(App::is_reload_from(reloaded, *old(self), board, target_list as int));
    }

    /// After the list at `list_path` (named `list_name`) was moved: takes the board as
    /// read again and keeps that list selected.
    pub fn move_selected_list_to(&mut self, list_path: &String, list_name: &str, board: Board)
        ensures
            final(self).board == Some(board),
            exists|reloaded: App|
                App::is_reload_of(reloaded, *old(self), board) && App::focused_list_after(
                    *final(self),
                    reloaded,
                    board,
                    list_path@,
                ),
            final(self).status@ == "Moved list "@ + list_name@,
    {
        self.reload_board(board);
        let ghost reloaded = *self;
        self.focus_list_at(list_path);
        self.status = concat("Moved list ", list_name);
        assert(App::is_reload_of(reloaded, *old(self), board));
    }

    /// The board path and the path of the list at `list_index`, whose border color is
    /// to be set; without a board or that list, the status says so.
    pub fn set_list_border_color(&mut self, list_index: usize) -> (r: Option<(String, String)>)
        ensures
            (old(self).board is Some && list_index < old(self).board->0.lists@.len()) ==> r
                == Some(
                (old(self).board->0.path, old(self).board->0.lists@[list_index as int].path),
            ) && final(self).status == old(self).status,
            old(self).board is None ==> r is None && final(self).status@ == "No board selected"@,
            (old(self).board is Some && list_index >= old(self).board->0.lists@.len()) ==> r
                is None && final(self).status@ == "No list selected"@,
            final(self).board == old(self).board,
            final(self).selected_list == old(self).selected_list,
            final(self).selected_cards == old(self).selected_cards,
    {
        let target = match &self.board {
            Some(b) => if list_index < b.lists.len() {
                Some((b.path.clone(), b.lists[list_index].path.clone()))
            } else {
                None
            },
            None => {
                self.status = String::from_str("No board selected");
                return None;
            },
        };
        if target.is_none() {
            self.status = String::from_str("No list selected");
        }
        target
    }

    /// `set_list_border_color` for the selected list.
    pub fn set_selected_list_border_color(&mut self) -> (r: Option<(String, String)>)
        ensures
            old(self).has_selected_list() ==> r == Some(
                (old(self).board->0.path, old(self).selected_list_spec().path),
            ),
            !old(self).has_selected_list() ==> r is None,
            final(self).board == old(self).board,
    {
        let index = self.selected_list;
        self.set_list_border_color(index)
    }

    /// The path of the card at `card_index` of the list `list_index`, whose color is to
    /// be set; without a board or that card, the status says so.
    pub fn set_card_color(&mut self, list_index: usize, card_index: usize) -> (r: Option<String>)
        ensures
            (old(self).board is Some && list_index < old(self).board->0.lists@.len() && card_index
                < old(self).board->0.lists@[list_index as int].cards@.len()) ==> r == Some(
                old(self).board->0.lists@[list_index as int].cards@[card_index as int].path,
            ) && final(self).status == old(self).status,
            old(self).board is None ==> r is None && final(self).status@ == "No board selected"@,
            (old(self).board is Some && !(list_index < old(self).board->0.lists@.len()
                && card_index < old(self).board->0.lists@[list_index as int].cards@.len())) ==> r
                is None && final(self).status@ == "No card selected"@,
            final(self).board == old(self).board,
            final(self).selected_list == old(self).selected_list,
            final(self).selected_cards == old(self).selected_cards,
    {
        let target = match &self.board {
            Some(b) => if list_index < b.lists.len() && card_index < b.lists[list_index].cards.len() {
                Some(b.lists[list_index].cards[card_index].path.clone())
            } else {
                None
            },
            None => {
                self.status = String::from_str("No board selected");
                return None;
            },
        };
        if target.is_none() {
            self.status = String::from_str("No card selected");
        }
        target
    }

    /// After a color was written: takes the board as read again and says what changed.
    pub fn color_updated(&mut self, board: Board, card: bool)
        ensures
            App::is_reload_of(*final(self), *old(self), board),
            card ==> final(self).status@ == "Updated card color"@,
            !card ==> final(self).status@ == "Updated list border color"@,
    {
        self.reload_board(board);
        if card {
            self.status = String::from_str("Updated card color");
        } else {
            self.status = String::from_str("Updated list border color");
        }
    }
}

} // verus!
