//! What the interface is showing and which interaction is in progress.
use vstd::prelude::*;

verus! {

/// The screen: the list of boards or one board.
#[derive(Clone, Copy, Debug, PartialEq, Eq)]
pub enum Screen {
    Projects,
    Board,
}

/// The interaction in progress.
#[derive(Clone, Debug, PartialEq, Eq)]
pub enum Mode {
    Normal,
    CreateProject { input: String },
    CreateList { input: String },
    Add { input: String },
    Rename { target: RenameTarget, input: String },
    Help,
    Move { target_list: usize, target_position: usize },
    MoveList { target_position: usize },
    ConfirmDelete { target: DeleteTarget },
    Picker(PickerState),
}

/// What a delete confirmation deletes.
#[derive(Clone, Copy, Debug, PartialEq, Eq)]
pub enum DeleteTarget {
    Board,
    List,
    Card,
}

/// What a rename renames.
#[derive(Clone, Copy, Debug, PartialEq, Eq)]
pub enum RenameTarget {
    Board,
    List,
    Card,
}

/// A choice among options, such as the colors of a list border.
#[derive(Clone, Debug, PartialEq, Eq)]
pub struct PickerState {
    pub title: String,
    pub options: Vec<PickerOption>,
    pub selected: usize,
    pub target: PickerTarget,
}

/// One option of a picker.
#[derive(Clone, Debug, PartialEq, Eq)]
pub struct PickerOption {
    pub label: String,
    pub value: String,
}

/// What the option chosen in a picker applies to.
#[derive(Clone, Copy, Debug, PartialEq, Eq)]
pub enum PickerTarget {
    ListBorderColor { list_index: usize },
    CardColor { list_index: usize, card_index: usize },
}

/// The label of a mode in the board header.
pub open spec fn mode_name(mode: Mode) -> Seq<char> {
    match mode {
        Mode::Normal => "Normal"@,
        Mode::CreateProject { .. } => "New Board"@,
        Mode::CreateList { .. } => "New List"@,
        Mode::Add { .. } => "Add"@,
        Mode::Rename { .. } => "Rename"@,
        Mode::Help => "Help"@,
        Mode::Move { .. } => "Move"@,
        Mode::MoveList { .. } => "Move List"@,
        Mode::ConfirmDelete { .. } => "Confirm"@,
        Mode::Picker(_) => "Picker"@,
    }
}

impl Mode {
    /// The label of the mode in the board header.
    pub fn name(&self) -> (r: &'static str)
        ensures
            r@ == mode_name(*self),
    {
        match self {
            Mode::Normal => "Normal",
            Mode::CreateProject { .. } => "New Board",
            Mode::CreateList { .. } => "New List",
            Mode::Add { .. } => "Add",
            Mode::Rename { .. } => "Rename",
            Mode::Help => "Help",
            Mode::Move { .. } => "Move",
            Mode::MoveList { .. } => "Move List",
            Mode::ConfirmDelete { .. } => "Confirm",
            Mode::Picker(_) => "Picker",
        }
    }
}

} // verus!
