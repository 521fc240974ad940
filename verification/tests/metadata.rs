use niffler::board::{default_app_config, Project};
use niffler::card::{markdown_with_position_at, Card};
use niffler::filesystem::{
    assemble_board, board_preview_setting, candidate_name, list_sort_position, move_list_to_index,
    new_board_metadata, parse_board_metadata, rename_list_entry, render_board_metadata,
    set_board_name, set_board_preview, set_list_border_color, set_list_title, sort_cards,
    sort_projects, sync_board_metadata, BoardMetadata, ListDir, ListMetadata,
};
use niffler::positions::{
    cards_with_metadata_at, next_card_position, position_for_insert, CardFile,
};

fn list_meta(id: &str, title: &str, position: i64) -> ListMetadata {
    ListMetadata {
        id: id.to_string(),
        title: title.to_string(),
        position,
        border_color: None,
    }
}

fn card(title: &str, filename: &str, position: i64) -> Card {
    Card {
        title: title.to_string(),
        filename: filename.to_string(),
        path: format!("todo/{filename}"),
        content: String::new(),
        position,
        color: None,
    }
}

fn ids(m: &BoardMetadata) -> Vec<(String, i64)> {
    m.lists.iter().map(|l| (l.id.clone(), l.position)).collect()
}

#[test]
fn metadata_is_read_from_its_file() {
    let parsed = parse_board_metadata(
        "name: Work Board\nshow_preview: TRUE\n\nlists:\n  - id: doing\n    title: DOING\n    position: 2000\n    border_color: \"#38bdf8\"\n\n  - id: todo\n    position: soon\n",
    )
    .unwrap();
    assert_eq!(parsed.name, "Work Board");
    assert!(parsed.show_preview);
    assert_eq!(parsed.lists.len(), 2);
    assert_eq!(parsed.lists[0].title, "DOING");
    assert_eq!(parsed.lists[0].position, 2000);
    assert_eq!(parsed.lists[0].border_color.as_deref(), Some("#38bdf8"));
    assert_eq!(parsed.lists[1].title, "todo");
    assert_eq!(parsed.lists[1].position, i64::MAX);
    assert_eq!(parsed.lists[1].border_color, None);
}

#[test]
fn metadata_without_name_is_not_read() {
    assert!(parse_board_metadata("lists:\n  - id: todo\n").is_none());
    assert!(parse_board_metadata("").is_none());
}

#[test]
fn metadata_is_written_in_its_file_format() {
    let mut metadata = new_board_metadata("  Work Board ");
    metadata.lists.push(list_meta("todo", "TODO", 1000));
    metadata.lists.push(ListMetadata {
        border_color: Some("#38bdf8".to_string()),
        ..list_meta("done", "DONE", 2000)
    });
    assert_eq!(
        render_board_metadata(&metadata),
        "name: Work Board\nshow_preview: false\n\nlists:\n  - id: todo\n    title: TODO\n    position: 1000\n\n  - id: done\n    title: DONE\n    position: 2000\n    border_color: \"#38bdf8\"\n\n"
    );
}

#[test]
fn written_metadata_reads_back_the_same() {
    let metadata = BoardMetadata {
        name: "Work".to_string(),
        show_preview: true,
        lists: vec![
            list_meta("todo", "To do", -5),
            ListMetadata {
                border_color: Some("#22c55e".to_string()),
                ..list_meta("done", "", i64::MAX)
            },
        ],
    };
    let text = render_board_metadata(&metadata);
    assert_eq!(parse_board_metadata(&text), Some(metadata));
}

#[test]
fn untrimmed_name_does_not_read_back_the_same() {
    let metadata = BoardMetadata {
        name: " Work".to_string(),
        show_preview: false,
        lists: Vec::new(),
    };
    let back = parse_board_metadata(&render_board_metadata(&metadata)).unwrap();
    assert_eq!(back.name, "Work");
}

#[test]
fn sync_adds_new_list_directories_after_known_ones() {
    let existing = Some(BoardMetadata {
        name: "Work Board".to_string(),
        show_preview: true,
        lists: vec![list_meta("doing", "DOING", 2000), list_meta("gone", "GONE", 500)],
    });
    let dirs = vec!["todo".to_string(), "doing".to_string(), "archive".to_string()];
    let synced = sync_board_metadata(&existing, &dirs, &"work".to_string()).unwrap();
    assert_eq!(synced.name, "Work Board");
    assert!(synced.show_preview);
    assert_eq!(
        ids(&synced),
        vec![
            ("doing".to_string(), 2000),
            ("archive".to_string(), 3000),
            ("todo".to_string(), 4000)
        ]
    );
    assert_eq!(synced.lists[1].title, "archive");
}

#[test]
fn sync_without_metadata_starts_from_directory_names() {
    let dirs = vec!["todo".to_string(), "doing".to_string()];
    let synced = sync_board_metadata(&None, &dirs, &"work".to_string()).unwrap();
    assert_eq!(synced.name, "work");
    assert!(!synced.show_preview);
    assert_eq!(
        ids(&synced),
        vec![("doing".to_string(), 1000), ("todo".to_string(), 2000)]
    );
}

#[test]
fn sync_that_would_number_past_the_limit_gives_none() {
    let existing = Some(BoardMetadata {
        name: "Full".to_string(),
        show_preview: false,
        lists: vec![list_meta("last", "LAST", i64::MAX - 10)],
    });
    let dirs = vec!["last".to_string(), "new".to_string()];
    assert!(sync_board_metadata(&existing, &dirs, &"full".to_string()).is_none());
}

#[test]
fn move_list_to_index_updates_metadata_order() {
    let mut metadata = BoardMetadata {
        name: "Board".to_string(),
        show_preview: false,
        lists: vec![
            list_meta("doing", "doing", 1000),
            list_meta("done", "done", 2000),
            list_meta("todo", "todo", 3000),
        ],
    };
    assert!(move_list_to_index(&mut metadata, &"done".to_string(), 0));
    assert_eq!(
        ids(&metadata),
        vec![
            ("done".to_string(), 1000),
            ("doing".to_string(), 2000),
            ("todo".to_string(), 3000)
        ]
    );
    assert!(move_list_to_index(&mut metadata, &"done".to_string(), 99));
    assert_eq!(metadata.lists[2].id, "done");
    assert!(!move_list_to_index(&mut metadata, &"missing".to_string(), 0));
    assert_eq!(metadata.lists[2].id, "done");
}

#[test]
fn list_entries_are_edited_by_id() {
    let mut metadata = BoardMetadata {
        name: "Board".to_string(),
        show_preview: false,
        lists: vec![list_meta("todo", "todo", 1000), list_meta("done", "done", 2000)],
    };
    set_list_title(&mut metadata, &"todo".to_string(), "  To Do ");
    assert_eq!(metadata.lists[0].title, "To Do");
    rename_list_entry(&mut metadata, &"done".to_string(), &"finished".to_string(), "Finished");
    assert_eq!(metadata.lists[1].id, "finished");
    assert_eq!(metadata.lists[1].title, "Finished");
    set_list_border_color(&mut metadata, &"finished".to_string(), "#38bdf8");
    assert_eq!(metadata.lists[1].border_color.as_deref(), Some("#38bdf8"));
    set_list_title(&mut metadata, &"nowhere".to_string(), "x");
    assert_eq!(metadata.lists[0].title, "To Do");
    set_board_name(&mut metadata, " New Name ");
    assert_eq!(metadata.name, "New Name");
}

#[test]
fn board_preview_setting_reads_and_writes_metadata() {
    let mut metadata = parse_board_metadata(
        "name: Work Board\nshow_preview: true\n\nlists:\n  - id: todo\n    title: TODO\n    position: 1000\n",
    );
    assert!(board_preview_setting(&metadata));
    if let Some(m) = metadata.as_mut() {
        set_board_preview(m, false);
    }
    assert!(!board_preview_setting(&metadata));
    let text = render_board_metadata(metadata.as_ref().unwrap());
    assert!(text.contains("show_preview: false"));
    assert!(!board_preview_setting(&None));
}

#[test]
fn candidate_names_count_up_from_the_slug() {
    assert_eq!(candidate_name("learn-kzg", 1, Some("md")), "learn-kzg.md");
    assert_eq!(candidate_name("learn-kzg", 2, Some("md")), "learn-kzg-2.md");
    assert_eq!(candidate_name("work", 0, None), "work");
    assert_eq!(candidate_name("work", 12, None), "work-12");
}

#[test]
fn projects_are_sorted_by_lowercase_name() {
    let projects = vec![
        Project {
            name: "beta".to_string(),
            path: "/b".to_string(),
        },
        Project {
            name: "Alpha".to_string(),
            path: "/a".to_string(),
        },
        Project {
            name: "Gamma".to_string(),
            path: "/g".to_string(),
        },
    ];
    let sorted = sort_projects(projects);
    let names: Vec<&str> = sorted.iter().map(|p| p.name.as_str()).collect();
    assert_eq!(names, vec!["Alpha", "beta", "Gamma"]);
}

#[test]
fn cards_are_sorted_by_position_then_lowercase_file_name() {
    let cards = vec![
        card("Last", "last.md", 3000),
        card("b", "B.md", 1000),
        card("First", "first.md", 1000),
        card("Unplaced", "a.md", i64::MAX),
    ];
    let sorted = sort_cards(cards);
    let titles: Vec<&str> = sorted.iter().map(|c| c.title.as_str()).collect();
    assert_eq!(titles, vec!["b", "First", "Last", "Unplaced"]);
}

#[test]
fn list_position_comes_from_metadata() {
    let metadata = Some(BoardMetadata {
        name: "B".to_string(),
        show_preview: false,
        lists: vec![list_meta("todo", "TODO", 1000)],
    });
    assert_eq!(list_sort_position(&metadata, &"todo".to_string()), 1000);
    assert_eq!(list_sort_position(&metadata, &"other".to_string()), i64::MAX);
    assert_eq!(list_sort_position(&None, &"todo".to_string()), i64::MAX);
}

#[test]
fn load_board_uses_metadata_for_board_name_and_list_order() {
    let metadata = parse_board_metadata(
        "name: Work Board\n\nlists:\n  - id: doing\n    title: DOING\n    position: 2000\n\n  - id: todo\n    title: TODO\n    position: 1000\n",
    );
    let dirs = vec![
        ListDir {
            id: "doing".to_string(),
            path: "work/doing".to_string(),
            cards: Vec::new(),
        },
        ListDir {
            id: "todo".to_string(),
            path: "work/todo".to_string(),
            cards: vec![card("Last", "last.md", 3000), card("First", "first.md", 1000)],
        },
    ];
    let board = assemble_board(
        "work".to_string(),
        &"work".to_string(),
        &metadata,
        dirs,
        default_app_config(),
    );
    assert_eq!(board.name, "Work Board");
    let names: Vec<&str> = board.lists.iter().map(|l| l.name.as_str()).collect();
    assert_eq!(names, vec!["TODO", "DOING"]);
    let titles: Vec<&str> = board.lists[0].cards.iter().map(|c| c.title.as_str()).collect();
    assert_eq!(titles, vec!["First", "Last"]);
}

#[test]
fn board_without_metadata_is_named_by_its_directory() {
    let dirs = vec![
        ListDir {
            id: "zeta".to_string(),
            path: "b/zeta".to_string(),
            cards: Vec::new(),
        },
        ListDir {
            id: "Alpha".to_string(),
            path: "b/Alpha".to_string(),
            cards: Vec::new(),
        },
    ];
    let board = assemble_board("b".to_string(), &"b".to_string(), &None, dirs, default_app_config());
    assert_eq!(board.name, "b");
    let names: Vec<&str> = board.lists.iter().map(|l| l.name.as_str()).collect();
    assert_eq!(names, vec!["Alpha", "zeta"]);
}

#[test]
fn move_card_to_index_updates_position_between_neighbors() {
    let others = vec![card("A", "a.md", 1000), card("B", "b.md", 2000)];
    assert_eq!(position_for_insert(&others, 1), Some(1500));
}

#[test]
fn move_card_to_index_between_lists_can_insert_at_top() {
    let others = vec![card("Refactor", "refactor.md", 1000)];
    assert_eq!(position_for_insert(&others, 0), Some(0));
}

#[test]
fn insert_positions_at_the_ends_and_between_close_neighbours() {
    let cards = vec![card("A", "a.md", 1000), card("B", "b.md", 1001)];
    assert_eq!(position_for_insert(&cards, 1), Some(1001));
    assert_eq!(position_for_insert(&cards, 2), Some(2001));
    assert_eq!(position_for_insert(&cards, 50), Some(2001));
    assert_eq!(position_for_insert(&Vec::new(), 3), Some(1000));
    let negative = vec![card("A", "a.md", -7), card("B", "b.md", -2)];
    assert_eq!(position_for_insert(&negative, 1), Some(-4));
}

#[test]
fn insert_position_past_the_number_range_is_none() {
    let top = vec![card("A", "a.md", i64::MIN + 5)];
    assert_eq!(position_for_insert(&top, 0), None);
    let bottom = vec![card("A", "a.md", i64::MAX - 5)];
    assert_eq!(position_for_insert(&bottom, 1), None);
    let wide = vec![card("A", "a.md", i64::MIN), card("B", "b.md", i64::MAX)];
    assert_eq!(position_for_insert(&wide, 1), None);
}

#[test]
fn next_card_position_follows_the_largest_recorded_one() {
    let cards = vec![
        card("A", "a.md", 3000),
        card("B", "b.md", i64::MAX),
        card("C", "c.md", -4000),
    ];
    assert_eq!(next_card_position(&cards), Some(4000));
    assert_eq!(next_card_position(&Vec::new()), Some(1000));
    assert_eq!(
        next_card_position(&vec![card("A", "a.md", i64::MAX - 1)]),
        None
    );
}

#[test]
fn cards_read_from_a_list_get_missing_positions_in_name_order() {
    let files = vec![
        CardFile {
            filename: "b.md".to_string(),
            path: "todo/b.md".to_string(),
            content: "# B\n".to_string(),
        },
        CardFile {
            filename: "A.md".to_string(),
            path: "todo/A.md".to_string(),
            content: "---\nposition: 7\ncreated_at: 1\nupdated_at: 2\n---\n\n# A\n".to_string(),
        },
    ];
    let prepared = cards_with_metadata_at(files, 42);
    assert_eq!(prepared.len(), 2);
    assert_eq!(prepared[0].0.filename, "A.md");
    assert!(!prepared[0].1);
    assert_eq!(prepared[1].0.filename, "b.md");
    assert!(prepared[1].1);
    assert_eq!(
        prepared[1].0.content,
        "---\nposition: 2000\ncreated_at: 42\nupdated_at: 42\n---\n\n# B\n"
    );
}

#[test]
fn position_written_into_a_card_reads_back() {
    let written = markdown_with_position_at("---\ncolor: x\n---\nBody", -1234, 5);
    let card = Card::from_markdown("c.md".to_string(), "c.md".to_string(), written);
    assert_eq!(card.position, -1234);
}

#[test]
fn syncing_twice_changes_nothing() {
    let existing = Some(BoardMetadata {
        name: "Work".to_string(),
        show_preview: true,
        lists: vec![
            list_meta("done", "DONE", 500),
            list_meta("gone", "GONE", 9000),
            list_meta("todo", "TODO", 2000),
        ],
    });
    let dirs = vec![
        "todo".to_string(),
        "doing".to_string(),
        "done".to_string(),
        "backlog".to_string(),
    ];
    let once = sync_board_metadata(&existing, &dirs, &"work".to_string()).unwrap();
    let ids: Vec<&str> = once.lists.iter().map(|l| l.id.as_str()).collect();
    assert_eq!(ids, vec!["done", "todo", "backlog", "doing"]);
    let twice = sync_board_metadata(&Some(once.clone()), &dirs, &"other".to_string()).unwrap();
    assert_eq!(twice, once);
    let fresh = sync_board_metadata(&None, &dirs, &"work".to_string()).unwrap();
    assert_eq!(
        sync_board_metadata(&Some(fresh.clone()), &dirs, &"work".to_string()).unwrap(),
        fresh
    );
}

#[test]
fn read_metadata_writes_back_the_same() {
    let text = "name:  Work Board  \nshow_preview: TRUE\n\nlists:\n  - id:  doing \n    title:   Doing  \n    position: 2000\n    border_color: \"  #38bdf8 \"\n";
    let read = parse_board_metadata(text).unwrap();
    assert_eq!(parse_board_metadata(&render_board_metadata(&read)), Some(read.clone()));
    let mut hidden = read.clone();
    set_board_preview(&mut hidden, false);
    let again = parse_board_metadata(&render_board_metadata(&hidden)).unwrap();
    assert!(!again.show_preview);
    assert!(board_preview_setting(&Some(again.clone())) == false);
    assert_eq!(again.lists, read.lists);
}
