use niffler::card::{
    markdown_with_missing_metadata, markdown_with_position, markdown_with_title,
    markdown_with_updated_at, position_from_markdown, preview_content, slug_from_title,
    title_from_markdown, Card,
};

#[test]
fn card_title_uses_first_markdown_h1() {
    let title = title_from_markdown("intro\n# Learn KZG\nbody");

    assert_eq!(title.as_deref(), Some("Learn KZG"));
}

#[test]
fn card_title_falls_back_to_humanized_filename() {
    let card = Card::from_markdown(
        "learn-kzg.md".to_string(),
        "todo/learn-kzg.md".to_string(),
        "body only".to_string(),
    );

    assert_eq!(card.title, "Learn Kzg");
}

#[test]
fn parses_position_from_markdown_frontmatter() {
    assert_eq!(
        position_from_markdown("---\nposition: 1500\n---\n\n# Task\n"),
        Some(1500)
    );
    assert_eq!(position_from_markdown("# Task\n"), None);
}

#[test]
fn writes_or_updates_position_frontmatter() {
    let created = markdown_with_position("# Task\n", 1000);
    assert!(created.starts_with("---\nposition: 1000\n"));
    assert!(created.contains("\ncreated_at: "));
    assert!(created.contains("\nupdated_at: "));
    assert!(created.ends_with("---\n\n# Task\n"));

    let updated = markdown_with_position(
        "---\nposition: 1\ncreated_at: 123\nupdated_at: 124\n---\n\n# Task\n",
        2000,
    );
    assert!(updated.starts_with("---\nposition: 2000\n"));
    assert!(updated.contains("\ncreated_at: 123\n"));
    assert!(updated.contains("\nupdated_at: "));
    assert!(updated.ends_with("---\n\n# Task"));
}

#[test]
fn fills_missing_card_metadata_without_replacing_existing_values() {
    let filled = markdown_with_missing_metadata("# Task\n", 1000);
    assert!(filled.starts_with("---\nposition: 1000\n"));
    assert!(filled.contains("\ncreated_at: "));
    assert!(filled.contains("\nupdated_at: "));
    assert!(filled.ends_with("---\n\n# Task\n"));

    let preserved = markdown_with_missing_metadata(
        "---\nposition: 2000\ncreated_at: 123\nupdated_at: 124\n---\n\n# Task\n",
        1000,
    );
    assert_eq!(
        preserved,
        "---\nposition: 2000\ncreated_at: 123\nupdated_at: 124\n---\n\n# Task\n"
    );
}

#[test]
fn card_preview_content_hides_frontmatter() {
    assert_eq!(
        preview_content("---\nposition: 1\ncreated_at: 2\nupdated_at: 3\n---\n\n# Task\nBody\n"),
        "# Task\nBody\n"
    );
    assert_eq!(preview_content("# Task\nBody\n"), "# Task\nBody\n");
}

#[test]
fn slug_from_title_is_filesystem_friendly() {
    assert_eq!(slug_from_title(" Learn KZG!! "), "learn-kzg");
    assert_eq!(slug_from_title("???"), "untitled");
}

#[test]
fn updates_or_inserts_markdown_title() {
    let without_frontmatter = markdown_with_title("# Old\nBody\n", "New");
    assert!(without_frontmatter.starts_with("---\ncreated_at: "));
    assert!(without_frontmatter.contains("\nupdated_at: "));
    assert!(without_frontmatter.ends_with("---\n\n# New\nBody\n"));

    let with_frontmatter = markdown_with_title(
        "---\nposition: 1\ncreated_at: 123\nupdated_at: 124\n---\n\nBody\n",
        "New",
    );
    assert!(with_frontmatter.starts_with("---\nposition: 1\n"));
    assert!(with_frontmatter.contains("\ncreated_at: 123\n"));
    assert!(with_frontmatter.contains("\nupdated_at: "));
    assert!(with_frontmatter.ends_with("---\n\n# New\n\nBody\n"));
}

#[test]
fn updates_card_updated_at_metadata() {
    let updated = markdown_with_updated_at(
        "---\nposition: 1\ncreated_at: 123\nupdated_at: 124\n---\n\n# Task\n",
    );

    assert!(updated.starts_with("---\nposition: 1\n"));
    assert!(updated.contains("\ncreated_at: 123\n"));
    assert!(updated.contains("\nupdated_at: "));
    assert!(updated.ends_with("---\n\n# Task\n"));
}
