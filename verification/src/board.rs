//! Boards, lists, projects and the color configuration.
use vstd::prelude::*;

use crate::card::Card;

verus! {

/// A named color that lists and cards can take.
#[derive(Clone, Debug, PartialEq, Eq)]
pub struct ColorOption {
    pub label: String,
    pub value: String,
}

/// The colors of the interface.
#[derive(Clone, Debug, PartialEq, Eq)]
pub struct ThemeColors {
    pub active_selection: String,
    pub header: String,
    pub success: String,
    pub inactive: String,
    pub unfocused_panel_border: String,
    pub text: String,
    pub muted: String,
    pub selected_text: String,
    pub shell: String,
    pub panel: String,
    pub preview: String,
    pub modal: String,
    pub move_target: String,
    pub danger: String,
}

/// The application's configuration: the theme and the colors offered for lists
/// and cards.
#[derive(Clone, Debug, PartialEq, Eq)]
pub struct AppConfig {
    pub theme: ThemeColors,
    pub colors: Vec<ColorOption>,
}

/// A board directory under the data root.
#[derive(Clone, Debug, PartialEq, Eq)]
pub struct Project {
    pub name: String,
    pub path: String,
}

/// A list of a board: one directory of card files.
#[derive(Clone, Debug, PartialEq, Eq)]
pub struct List {
    pub name: String,
    pub path: String,
    pub cards: Vec<Card>,
    pub border_color: Option<String>,
}

/// A board: its lists in display order.
#[derive(Clone, Debug, PartialEq, Eq)]
pub struct Board {
    pub name: String,
    pub path: String,
    pub theme: ThemeColors,
    pub colors: Vec<ColorOption>,
    pub lists: Vec<List>,
}

/// The color option `label`/`value`.
pub fn color_option(label: &str, value: &str) -> (r: ColorOption)
    ensures
        r.label@ == label@,
        r.value@ == value@,
{
    ColorOption { label: String::from_str(label), value: String::from_str(value) }
}

/// Whether `colors` are the eight default colors, in order.
pub open spec fn is_default_color_options(colors: Seq<ColorOption>) -> bool {
    &&& colors.len() == 8
    &&& colors[0].label@ == "Default"@ && colors[0].value@ == "#3c3c3c"@
    &&& colors[1].label@ == "Amber"@ && colors[1].value@ == "#f59e0b"@
    &&& colors[2].label@ == "Green"@ && colors[2].value@ == "#22c55e"@
    &&& colors[3].label@ == "Sky"@ && colors[3].value@ == "#38bdf8"@
    &&& colors[4].label@ == "Violet"@ && colors[4].value@ == "#a855f7"@
    &&& colors[5].label@ == "Rose"@ && colors[5].value@ == "#f43f5e"@
    &&& colors[6].label@ == "Teal"@ && colors[6].value@ == "#14b8a6"@
    &&& colors[7].label@ == "Slate"@ && colors[7].value@ == "#64748b"@
}

/// The colors offered when the configuration names none.
pub fn default_color_options() -> (r: Vec<ColorOption>)
    ensures
        is_default_color_options(r@),
{
    let mut r: Vec<ColorOption> = Vec::new();
    r.push(color_option("Default", "#3c3c3c"));
    r.push(color_option("Amber", "#f59e0b"));
    r.push(color_option("Green", "#22c55e"));
    r.push(color_option("Sky", "#38bdf8"));
    r.push(color_option("Violet", "#a855f7"));
    r.push(color_option("Rose", "#f43f5e"));
    r.push(color_option("Teal", "#14b8a6"));
    r.push(color_option("Slate", "#64748b"));
    r
}

/// Whether `t` is the default theme.
pub open spec fn is_default_theme(t: ThemeColors) -> bool {
    &&& t.active_selection@ == "#daad52"@
    &&& t.header@ == "#ecc45b"@
    &&& t.success@ == "#be8f42"@
    &&& t.inactive@ == "#58544c"@
    &&& t.unfocused_panel_border@ == "#3c3c3c"@
    &&& t.text@ == "#e5dbc7"@
    &&& t.muted@ == "#9a8e7a"@
    &&& t.selected_text@ == "black"@
    &&& t.shell@ == "#7a582a"@
    &&& t.panel@ == "#976f3a"@
    &&& t.preview@ == "#b0803e"@
    &&& t.modal@ == "#f4cf68"@
    &&& t.move_target@ == "#d39743"@
    &&& t.danger@ == "#c65d4a"@
}

/// The theme used when the configuration sets none.
pub fn default_theme_colors() -> (r: ThemeColors)
    ensures
        is_default_theme(r),
{
    ThemeColors {
        active_selection: String::from_str("#daad52"),
        header: String::from_str("#ecc45b"),
        success: String::from_str("#be8f42"),
        inactive: String::from_str("#58544c"),
        unfocused_panel_border: String::from_str("#3c3c3c"),
        text: String::from_str("#e5dbc7"),
        muted: String::from_str("#9a8e7a"),
        selected_text: String::from_str("black"),
        shell: String::from_str("#7a582a"),
        panel: String::from_str("#976f3a"),
        preview: String::from_str("#b0803e"),
        modal: String::from_str("#f4cf68"),
        move_target: String::from_str("#d39743"),
        danger: String::from_str("#c65d4a"),
    }
}

/// The configuration used when none is written: the default theme and colors.
pub fn default_app_config() -> (r: AppConfig)
    ensures
        is_default_theme(r.theme),
        is_default_color_options(r.colors@),
{
    AppConfig { theme: default_theme_colors(), colors: default_color_options() }
}

} // verus!
