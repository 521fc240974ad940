use niffler::card::{
    color_from_markdown, preview_content, markdown_with_color, markdown_with_color_at, markdown_with_missing_metadata,
    markdown_with_position, markdown_with_position_at, markdown_with_updated_at_at, new_card_markdown, new_card_markdown_at, position_from_markdown,
    markdown_with_title_at, slug_from_title, title_from_markdown, Card,
};
use niffler::tui::list_title;

#[test]
fn color_is_added_to_the_frontmatter() {
    let written = markdown_with_color_at("# Task\n", "#38bdf8", 7);
    assert_eq!(
        written,
        "---\ncolor: \"#38bdf8\"\ncreated_at: 7\nupdated_at: 7\n---\n\n# Task\n"
    );
    assert_eq!(color_from_markdown(&written).as_deref(), Some("#38bdf8"));
}

#[test]
fn color_replaces_the_one_recorded() {
    let written = markdown_with_color_at(
        "---\nposition: 1000\ncolor: \"#111111\"\ncreated_at: 1\nupdated_at: 2\n---\n\n# Task\n",
        "#222222",
        9,
    );
    assert_eq!(
        written,
        "---\nposition: 1000\ncolor: \"#222222\"\ncreated_at: 1\nupdated_at: 9\n---\n\n# Task"
    );
    let card = Card::from_markdown("task.md".to_string(), "task.md".to_string(), written);
    assert_eq!(card.color.as_deref(), Some("#222222"));
    assert_eq!(card.position, 1000);
    assert_eq!(card.title, "Task");
}

#[test]
fn stamped_color_reads_back() {
    let written = markdown_with_color("---\nposition: 5\n---\nBody\n", "#abcdef");
    assert_eq!(color_from_markdown(&written).as_deref(), Some("#abcdef"));
    assert_eq!(position_from_markdown(&written), Some(5));
    assert!(written.contains("\nupdated_at: "));
}

#[test]
fn empty_color_reads_back_as_none() {
    let written = markdown_with_color_at("# T\n", "", 3);
    assert_eq!(color_from_markdown(&written), None);
}

#[test]
fn new_card_markdown_has_position_heading_and_stamps() {
    assert_eq!(
        new_card_markdown_at("  Learn KZG ", 1000, 11),
        "---\nposition: 1000\ncreated_at: 11\nupdated_at: 11\n---\n\n# Learn KZG\n"
    );
    let stamped = new_card_markdown("Learn KZG", 2000);
    assert!(stamped.starts_with("---\nposition: 2000\n"));
    assert!(stamped.ends_with("---\n\n# Learn KZG\n"));
    assert_eq!(title_from_markdown(&stamped).as_deref(), Some("Learn KZG"));
}

#[test]
fn stamps_are_the_current_time() {
    let written = markdown_with_position("# T\n", 1);
    let stamp_line = written
        .lines()
        .find(|l| l.starts_with("created_at: "))
        .unwrap()
        .to_string();
    let seconds: u64 = stamp_line["created_at: ".len()..].parse().unwrap();
    assert!(seconds > 1_600_000_000);
}

#[test]
fn missing_metadata_is_added_once() {
    let once = markdown_with_missing_metadata("# T\n", 3000);
    let twice = markdown_with_missing_metadata(&once, 9000);
    assert_eq!(once, twice);
    assert_eq!(position_from_markdown(&twice), Some(3000));
}

#[test]
fn position_round_trip_holds_for_odd_texts() {
    for (content, position) in [
        ("", 0i64),
        ("---\n---\n", i64::MIN),
        ("---\nposition: nope\nposition: 3\n---\n", i64::MAX),
        ("no frontmatter\r\nhere", 42),
        ("---\r\nposition: 1\r\n---\r\nBody\r\n", -1),
    ] {
        let written = niffler::card::markdown_with_position_at(content, position, 1);
        assert_eq!(position_from_markdown(&written), Some(position));
    }
}

#[test]
fn slugs_are_file_names() {
    for title in ["  --Hello,  World--  ", "Ünïcode Title", "a--b", "", "___"] {
        let slug = slug_from_title(title);
        assert!(!slug.is_empty());
        assert!(!slug.starts_with('-') && !slug.ends_with('-'));
        assert!(!slug.contains("--"));
        assert!(slug.chars().all(|c| c.is_ascii_alphanumeric() || c == '-'));
    }
    assert_eq!(slug_from_title("  --Hello,  World--  "), "hello-world");
    assert_eq!(slug_from_title("___"), "untitled");
}

#[test]
fn list_titles_are_uppercased() {
    assert_eq!(list_title("todo", 2, false), " TODO [2] ");
    assert_eq!(list_title("straße", 0, true), " -> STRASSE [0] ");
}

#[test]
fn renamed_titles_read_back_trimmed() {
    let texts = [
        "",
        "Body only\n",
        "intro\n# Old\nbody\n",
        "---\nposition: 3\n---\n\n# Old\n",
        "---\nposition: 3\n---\nno heading\r\n",
    ];
    for text in texts {
        let written = markdown_with_title_at(text, "  Fresh Title ", 42);
        assert_eq!(title_from_markdown(&written).as_deref(), Some("Fresh Title"));
    }
}

#[test]
fn filling_metadata_keeps_a_recorded_position() {
    let kept = markdown_with_missing_metadata("---\r\nposition: 2500\r\n---\r\n# T\r\n", 1000);
    assert_eq!(position_from_markdown(&kept), Some(2500));
    let added = markdown_with_missing_metadata("---\ncolor: \"#fff\"\n---\n# T\n", 1000);
    assert_eq!(position_from_markdown(&added), Some(1000));
    let fresh = markdown_with_missing_metadata("# T\n", 7000);
    assert_eq!(position_from_markdown(&fresh), Some(7000));
}

#[test]
fn moving_a_card_keeps_its_title() {
    for text in [
        "# Task\nBody\n",
        "---\nposition: 1\n---\n\n\n# Task\n",
        "---\r\ncreated_at: 1\r\n---\r\nintro\r\n# Task\r\n",
        "no heading at all\n",
    ] {
        let moved = markdown_with_position(text, 4000);
        assert_eq!(title_from_markdown(&moved), title_from_markdown(text));
        let colored = markdown_with_color(text, "#38bdf8");
        assert_eq!(title_from_markdown(&colored), title_from_markdown(text));
    }
}

#[test]
fn slugs_are_lowercase_and_stable() {
    for title in ["Learn KZG!!", "  Mixed-Case  Title ", "a--b", "???", "Ünïcode Ärger 42"] {
        let slug = slug_from_title(title);
        assert!(slug
            .chars()
            .all(|c| c.is_ascii_lowercase() || c.is_ascii_digit() || c == '-'));
        assert_eq!(slug_from_title(&slug), slug);
    }
    assert_eq!(slug_from_title("!!! ???"), "untitled");
}

#[test]
fn moving_a_card_keeps_created_at_and_stamps_updated_at() {
    let moved = markdown_with_position_at(
        "---\ncreated_at: 123\nupdated_at: 124\n---\n# Task\n",
        3000,
        999,
    );
    assert!(moved.starts_with("---\ncreated_at: 123\nupdated_at: 999\nposition: 3000\n---"));
    let fresh = markdown_with_position_at("# Task\n", 1000, 55);
    assert!(fresh.starts_with("---\nposition: 1000\ncreated_at: 55\nupdated_at: 55\n---"));
}

#[test]
fn stamping_keeps_created_at_and_sets_updated_at() {
    let stamped = markdown_with_updated_at_at("---\ncreated_at: 5\nupdated_at: 6\n---\n# T\n", 9);
    assert_eq!(stamped, "---\ncreated_at: 5\nupdated_at: 9\n---\n# T\n");
    let fresh = markdown_with_updated_at_at("# T", 9);
    assert_eq!(fresh, "---\ncreated_at: 9\nupdated_at: 9\n---\n\n# T");
    let placed = "---\r\nposition: 1500\r\n---\r\n# T\r\n";
    assert_eq!(position_from_markdown(&markdown_with_updated_at_at(placed, 3)), Some(1500));
    let renamed = markdown_with_title_at("# Old\n", "New", 4);
    assert!(renamed.starts_with("---\ncreated_at: 4\nupdated_at: 4\n---\n"));
}

#[test]
fn preview_hides_the_metadata_added_to_a_plain_card() {
    for text in ["# Task\nBody\n", "Just text", "# T\n\nmore\n"] {
        assert_eq!(preview_content(&markdown_with_missing_metadata(text, 1000)), text);
        assert_eq!(preview_content(&markdown_with_position(text, 3000)), text);
    }
}

#[test]
fn filling_metadata_twice_changes_nothing() {
    for text in [
        "# Task\nBody\n",
        "---\r\ncolor: \"#fff\"\r\n---\r\n\r\n# T\r\n",
        "---\nposition: 2000\ncreated_at: 1\nupdated_at: 2\n---\n\n# T\n",
        "",
    ] {
        let once = markdown_with_missing_metadata(text, 1000);
        assert_eq!(markdown_with_missing_metadata(&once, 5000), once);
    }
}

#[test]
fn stamping_keeps_the_preview() {
    for text in [
        "---\nposition: 1\n---\n\n# Task\nBody\n",
        "---\r\nposition: 1\r\n---\r\n# Task\r\n",
        "---\ncreated_at: 3\n---",
        "---\n---\nx\r\r\ny\r\n",
    ] {
        assert_eq!(
            preview_content(&markdown_with_updated_at_at(text, 77)),
            preview_content(text)
        );
    }
}
