//! The configuration file (`config.yaml` under the data root): theme colors under
//! `theme:` and the colors offered for lists and cards under `colors:`.
use vstd::prelude::*;

use crate::board::{
    default_color_options, default_theme_colors, is_default_color_options, ColorOption, ThemeColors,
};
use crate::card::unquoted;
use crate::text::{chars_eq, chars_of, copy_range, has_prefix, lines, lines_of, starts_with, string_of, trim, trimmed};

verus! {

broadcast use crate::views::lemma_chars_deep_view;

/// The name of the configuration file under the data root.
pub const CONFIG_FILE: &'static str = "config.yaml";

/// The names of the theme colors, in the order of `theme_values`.
pub open spec fn theme_keys() -> Seq<Seq<char>> {
    seq![
        "active_selection"@,
        "header"@,
        "success"@,
        "inactive"@,
        "unfocused_panel_border"@,
        "text"@,
        "muted"@,
        "selected_text"@,
        "shell"@,
        "panel"@,
        "preview"@,
        "modal"@,
        "move_target"@,
        "danger"@,
    ]
}

/// The theme colors as values, in the order of `theme_keys`.
pub open spec fn theme_values(t: ThemeColors) -> Seq<Seq<char>> {
    seq![
        t.active_selection@,
        t.header@,
        t.success@,
        t.inactive@,
        t.unfocused_panel_border@,
        t.text@,
        t.muted@,
        t.selected_text@,
        t.shell@,
        t.panel@,
        t.preview@,
        t.modal@,
        t.move_target@,
        t.danger@,
    ]
}

/// What has been read of the configuration so far: the section (`theme:` is 1,
/// `colors:` is 2, none is 0), the theme, the colors read and the one being read.
pub struct ConfigState {
    pub section: int,
    pub theme: Seq<Seq<char>>,
    pub colors: Seq<(Seq<char>, Seq<char>)>,
    pub current: Option<(Seq<char>, Seq<char>)>,
}

/// The colors read, the one being read included.
pub open spec fn all_colors(st: ConfigState) -> Seq<(Seq<char>, Seq<char>)> {
    match st.current {
        Some(c) => st.colors.push(c),
        None => st.colors,
    }
}

/// The index of the first theme key from `k` on that `t` starts with, followed by `:`.
pub open spec fn theme_key_from(t: Seq<char>, k: int) -> Option<int>
    decreases theme_keys().len() - k,
{
    if k < 0 || k >= theme_keys().len() {
        None
    } else if starts_with(t, theme_keys()[k].push(':')) {
        Some(k)
    } else {
        theme_key_from(t, k + 1)
    }
}

/// The value of a `key: value` line `t`, trimmed and unquoted.
pub open spec fn setting_value(t: Seq<char>, key_len: int) -> Seq<char> {
    unquoted(trim(t.skip(key_len)))
}

/// One line of the configuration read: `theme:` and `colors:` open their sections; in
/// `theme:`, a line naming a theme color sets it; in `colors:`, `- label:` starts a
/// color and `value:` sets the value of the one being read. Other lines change nothing.
pub open spec fn config_step(st: ConfigState, line: Seq<char>) -> ConfigState {
    let t = trim(line);
    if t == "theme:"@ {
        ConfigState { section: 1, ..st }
    } else if t == "colors:"@ {
        ConfigState { section: 2, ..st }
    } else if st.section == 1 {
        match theme_key_from(t, 0) {
            Some(i) => ConfigState {
                theme: st.theme.update(i, setting_value(t, theme_keys()[i].len() + 1int)),
                ..st
            },
            None => st,
        }
    } else if st.section == 2 {
        if starts_with(t, "- label:"@) {
            ConfigState {
                colors: all_colors(st),
                current: Some((setting_value(t, 8), Seq::empty())),
                ..st
            }
        } else if starts_with(t, "value:"@) {
            match st.current {
                Some(c) => ConfigState { current: Some((c.0, setting_value(t, 6))), ..st },
                None => st,
            }
        } else {
            st
        }
    } else {
        st
    }
}

/// The lines `ls` read in order, from the default theme and no colors.
pub open spec fn config_lines(ls: Seq<Seq<char>>, start: Seq<Seq<char>>) -> ConfigState
    decreases ls.len(),
{
    if ls.len() == 0 {
        ConfigState { section: 0, theme: start, colors: Seq::empty(), current: None }
    } else {
        config_step(config_lines(ls.drop_last(), start), ls.last())
    }
}

/// The colors as label and value pairs.
pub open spec fn color_pairs(cs: Seq<ColorOption>) -> Seq<(Seq<char>, Seq<char>)> {
    Seq::new(cs.len(), |i: int| (cs[i].label@, cs[i].value@))
}

fn theme_key_chars() -> (r: Vec<Vec<char>>)
    ensures
        r.deep_view() == theme_keys(),
{
    let mut r: Vec<Vec<char>> = Vec::new();
    r.push(chars_of("active_selection"));
    r.push(chars_of("header"));
    r.push(chars_of("success"));
    r.push(chars_of("inactive"));
    r.push(chars_of("unfocused_panel_border"));
    r.push(chars_of("text"));
    r.push(chars_of("muted"));
    r.push(chars_of("selected_text"));
    r.push(chars_of("shell"));
    r.push(chars_of("panel"));
    r.push(chars_of("preview"));
    r.push(chars_of("modal"));
    r.push(chars_of("move_target"));
    r.push(chars_of("danger"));
    assert(r.deep_view() =~= theme_keys());
    r
}

fn theme_value_chars(t: &ThemeColors) -> (r: Vec<Vec<char>>)
    ensures
        r.deep_view() == theme_values(*t),
{
    let mut r: Vec<Vec<char>> = Vec::new();
    r.push(chars_of(t.active_selection.as_str()));
    r.push(chars_of(t.header.as_str()));
    r.push(chars_of(t.success.as_str()));
    r.push(chars_of(t.inactive.as_str()));
    r.push(chars_of(t.unfocused_panel_border.as_str()));
    r.push(chars_of(t.text.as_str()));
    r.push(chars_of(t.muted.as_str()));
    r.push(chars_of(t.selected_text.as_str()));
    r.push(chars_of(t.shell.as_str()));
    r.push(chars_of(t.panel.as_str()));
    r.push(chars_of(t.preview.as_str()));
    r.push(chars_of(t.modal.as_str()));
    r.push(chars_of(t.move_target.as_str()));
    r.push(chars_of(t.danger.as_str()));
    assert(r.deep_view() =~= theme_values(*t));
    r
}

fn theme_of(v: &Vec<Vec<char>>) -> (r: ThemeColors)
    requires
        v@.len() == 14,
    ensures
        theme_values(r) == v.deep_view(),
{
    let r = ThemeColors {
        active_selection: string_of(&v[0]),
        header: string_of(&v[1]),
        success: string_of(&v[2]),
        inactive: string_of(&v[3]),
        unfocused_panel_border: string_of(&v[4]),
        text: string_of(&v[5]),
        muted: string_of(&v[6]),
        selected_text: string_of(&v[7]),
        shell: string_of(&v[8]),
        panel: string_of(&v[9]),
        preview: string_of(&v[10]),
        modal: string_of(&v[11]),
        move_target: string_of(&v[12]),
        danger: string_of(&v[13]),
    };
    assert(theme_values(r) =~= v.deep_view());
    r
}

/// The index of the first theme key that `t` starts with (see `theme_key_from`).
fn find_theme_key(t: &Vec<char>, keys: &Vec<Vec<char>>) -> (r: Option<usize>)
    requires
        keys.deep_view() == theme_keys(),
    ensures
        match r {
            Some(i) => theme_key_from(t@, 0) == Some(i as int) && i < 14 && starts_with(
                t@,
                theme_keys()[i as int].push(':'),
            ),
            None => theme_key_from(t@, 0) is None,
        },
{
    let mut k: usize = 0;
    while k < keys.len()
        invariant
            k <= keys@.len(),
            keys.deep_view() == theme_keys(),
            theme_key_from(t@, k as int) == theme_key_from(t@, 0),
        decreases keys.len() - k,
    {
        let mut p = copy_range(&keys[k], 0, keys[k].len());
        assert(keys[k as int]@.subrange(0, keys[k as int]@.len() as int) =~= keys[k as int]@);
        assert(keys.deep_view()[k as int] == keys@[k as int]@);
        p.push(':');
        if has_prefix(t, &p) {
            return Some(k);
        }
        k += 1;
    }
    None
}

/// The value of the `key: value` line `t` for a key of `n` characters and its colon
/// (see `setting_value`).
fn value_of(t: &Vec<char>, n: usize) -> (r: Vec<char>)
    requires
        n <= t@.len(),
    ensures
        r@ == setting_value(t@, n as int),
{
    let v = trimmed(&copy_range(t, n, t.len()));
    assert(t@.subrange(n as int, t@.len() as int) =~= t@.skip(n as int));
    if v.len() >= 2 && v[0] == '"' && v[v.len() - 1] == '"' {
        copy_range(&v, 1, v.len() - 1)
    } else {
        v
    }
}

/// The configuration that `content` sets: the default theme with the colors it names
/// replaced, and the colors it lists (the default colors when it lists none).
pub fn parse_app_config(content: &str) -> (r: crate::board::AppConfig)
    ensures
        ({
            let st = config_lines(lines_of(content@), default_theme_values());
            &&& theme_values(r.theme) == st.theme
            &&& all_colors(st).len() > 0 ==> color_pairs(r.colors@) == all_colors(st)
            &&& all_colors(st).len() == 0 ==> is_default_color_options(r.colors@)
        }),
{
    let c = chars_of(content);
    let ls = lines(&c);
    let keys = theme_key_chars();
    let defaults = default_theme_colors();
    proof {
        lemma_default_theme_values(defaults);
    }
    let mut theme = theme_value_chars(&defaults);
    let ghost start = theme.deep_view();
    let theme_line = chars_of("theme:");
    let colors_line = chars_of("colors:");
    let p_label = chars_of("- label:");
    let p_value = chars_of("value:");
    let mut section: u8 = 0;
    let mut done: Vec<ColorOption> = Vec::new();
    let mut current: Option<(Vec<char>, Vec<char>)> = None;
    let mut i: usize = 0;
    assert(ls.deep_view().take(0) =~= Seq::<Seq<char>>::empty());
    assert(theme@.len() == theme.deep_view().len());
    proof {
        reveal_strlit("- label:");
        reveal_strlit("value:");
    }
    while i < ls.len()
        invariant
            i <= ls.len(),
            keys.deep_view() == theme_keys(),
            theme_line@ == "theme:"@,
            colors_line@ == "colors:"@,
            p_label@ == "- label:"@,
            p_value@ == "value:"@,
            p_label@.len() == 8,
            p_value@.len() == 6,
            theme@.len() == 14,
            ({
                let st = config_lines(ls.deep_view().take(i as int), start);
                &&& st.section == section as int
                &&& theme.deep_view() == st.theme
                &&& color_pairs(done@) == st.colors
                &&& (match current {
                    Some(m) => st.current == Some((m.0@, m.1@)),
                    None => st.current is None,
                })
            }),
        decreases ls.len() - i,
    {
        assert(ls.deep_view().take(i + 1).drop_last() =~= ls.deep_view().take(i as int));
        assert(ls.deep_view().take(i + 1).last() == ls@[i as int]@);
        let t = trimmed(&ls[i]);
        if chars_eq(&t, &theme_line) {
            section = 1;
        } else if chars_eq(&t, &colors_line) {
            section = 2;
        } else if section == 1 {
            match find_theme_key(&t, &keys) {
                Some(k) => {
                    assert(keys.deep_view()[k as int] == keys@[k as int]@);
                    assert(keys@[k as int]@ == theme_keys()[k as int]);
                    assert(theme_keys()[k as int].push(':').len() <= t@.len());
                    let tl = t.len();
                    let kl = keys[k].len();
                    assert(kl + 1 <= tl);
                    let n = kl + 1;
                    let v = value_of(&t, n);
                    let ghost before = theme.deep_view();
                    theme.set(k, v);
                    assert(theme.deep_view() =~= before.update(k as int, v@));
                },
                None => {},
            }
        } else if section == 2 {
            if has_prefix(&t, &p_label) {
                let v = value_of(&t, 8);
                let ghost dv = done@;
                match current {
                    Some(m) => {
                        done.push(ColorOption { label: string_of(&m.0), value: string_of(&m.1) });
                        assert(color_pairs(done@) =~= color_pairs(dv).push((m.0@, m.1@)));
                    },
                    None => {},
                }
                current = Some((v, Vec::new()));
            } else if has_prefix(&t, &p_value) {
                let v = value_of(&t, 6);
                match current {
                    Some(m) => {
                        current = Some((m.0, v));
                    },
                    None => {},
                }
            }
        }
        i += 1;
    }
    assert(ls.deep_view().take(i as int) =~= ls.deep_view());
    let ghost dv = done@;
    match current {
        Some(m) => {
            done.push(ColorOption { label: string_of(&m.0), value: string_of(&m.1) });
            assert(color_pairs(done@) =~= color_pairs(dv).push((m.0@, m.1@)));
        },
        None => {},
    }
    let colors = if done.len() > 0 {
        done
    } else {
        default_color_options()
    };
    crate::board::AppConfig { theme: theme_of(&theme), colors }
}

/// The default theme as values (see `is_default_theme`).
pub open spec fn default_theme_values() -> Seq<Seq<char>> {
    seq![
        "#daad52"@,
        "#ecc45b"@,
        "#be8f42"@,
        "#58544c"@,
        "#3c3c3c"@,
        "#e5dbc7"@,
        "#9a8e7a"@,
        "black"@,
        "#7a582a"@,
        "#976f3a"@,
        "#b0803e"@,
        "#f4cf68"@,
        "#d39743"@,
        "#c65d4a"@,
    ]
}

proof fn lemma_default_theme_values(t: ThemeColors)
    requires
        crate::board::is_default_theme(t),
    ensures
        theme_values(t) == default_theme_values(),
{
    assert(theme_values(t) =~= default_theme_values());
}

} // verus!
