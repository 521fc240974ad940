use niffler::board::default_theme_colors;
use niffler::editor::{configured_editor_from, editor_command, temp_card_name};
use niffler::settings::parse_app_config;

#[test]
fn configured_colors_and_theme_are_read() {
    let config = parse_app_config(
        "theme:\n  active_selection: \"#daad52\"\n  text: '#ffffff'\n  danger: \"#ff0000\"\n\ncolors:\n  - label: Red\n    value: \"#ef4444\"\n  - label: Blue\n    value: \"#3b82f6\"\n",
    );
    assert_eq!(config.colors.len(), 2);
    assert_eq!(config.colors[0].label, "Red");
    assert_eq!(config.colors[0].value, "#ef4444");
    assert_eq!(config.colors[1].label, "Blue");
    assert_eq!(config.colors[1].value, "#3b82f6");
    assert_eq!(config.theme.active_selection, "#daad52");
    assert_eq!(config.theme.danger, "#ff0000");
    assert_eq!(config.theme.text, "'#ffffff'");
    assert_eq!(config.theme.header, default_theme_colors().header);
}

#[test]
fn configuration_without_colors_keeps_the_defaults() {
    let config = parse_app_config("theme:\n  selected_text: white\n");
    assert_eq!(config.colors.len(), 8);
    assert_eq!(config.colors[2].value, "#22c55e");
    assert_eq!(config.theme.selected_text, "white");
    assert_eq!(config.theme.text, default_theme_colors().text);
}

#[test]
fn theme_lines_outside_the_theme_section_are_ignored() {
    let config = parse_app_config("header: \"#000000\"\ncolors:\n  header: \"#111111\"\n  value: \"#222222\"\n");
    assert_eq!(config.theme.header, default_theme_colors().header);
    assert_eq!(config.colors.len(), 8);
}

#[test]
fn editor_is_chosen_from_the_environment() {
    assert_eq!(
        configured_editor_from(Some("hx".to_string()), Some("nano".to_string())),
        "hx"
    );
    assert_eq!(configured_editor_from(None, Some("nano".to_string())), "nano");
    assert_eq!(configured_editor_from(None, None), "vi");
}

#[test]
fn editor_command_splits_program_and_arguments() {
    let (program, args) = editor_command("  code --wait  -n ");
    assert_eq!(program, "code");
    assert_eq!(args, vec!["--wait".to_string(), "-n".to_string()]);
    let (program, args) = editor_command("   ");
    assert_eq!(program, "vi");
    assert!(args.is_empty());
}

#[test]
fn temporary_card_names_carry_the_id_and_file_name() {
    assert_eq!(temp_card_name(1234567890123456789012, Some("task.md")), "niffler-1234567890123456789012-task.md");
    assert_eq!(temp_card_name(0, None), "niffler-0-card.md");
}
