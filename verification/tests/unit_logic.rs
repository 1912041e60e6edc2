use gitjobs::help::{CommandInfo, CommandText, EventState, HelpEvent, HelpPopup, HelpRow};
use gitjobs::keys::CommitId;
use gitjobs::stash::get_stash_index;
use gitjobs::status::{
    sort_status_items, status_items_from_raw, StatusItem, StatusItemType, StatusType,
    map_untracked_value, ShowUntrackedFilesConfig,
};
use gitjobs::gitrepo::RawStatusEntry;
use gitjobs::tags::{annotation_of, extract_tag_name, Tag, Tags};

fn cid(last: u8) -> CommitId {
    let mut bytes = vec![0u8; 20];
    bytes[19] = last;
    CommitId::new(bytes)
}

#[test]
fn status_bits_map_like_the_scan_reports_them() {
    assert_eq!(StatusItemType::from_bits(1), StatusItemType::New);
    assert_eq!(StatusItemType::from_bits(128), StatusItemType::New);
    assert_eq!(StatusItemType::from_bits(4), StatusItemType::Deleted);
    assert_eq!(StatusItemType::from_bits(512), StatusItemType::Deleted);
    assert_eq!(StatusItemType::from_bits(8), StatusItemType::Renamed);
    assert_eq!(StatusItemType::from_bits(2048), StatusItemType::Renamed);
    assert_eq!(StatusItemType::from_bits(16), StatusItemType::Typechange);
    assert_eq!(StatusItemType::from_bits(1024), StatusItemType::Typechange);
    assert_eq!(StatusItemType::from_bits(32768), StatusItemType::Conflicted);
    assert_eq!(StatusItemType::from_bits(2), StatusItemType::Modified);
    assert_eq!(StatusItemType::from_bits(256), StatusItemType::Modified);
    // New wins over deleted when both bits are set.
    assert_eq!(StatusItemType::from_bits(1 | 512), StatusItemType::New);
}

#[test]
fn status_listing_is_sorted_by_path() {
    let items = vec![
        StatusItem { path: String::from("b.txt"), status: StatusItemType::Modified },
        StatusItem { path: String::from("a/z.txt"), status: StatusItemType::New },
        StatusItem { path: String::from("a.txt"), status: StatusItemType::Deleted },
    ];
    let sorted = sort_status_items(items);
    let paths: Vec<&str> = sorted.iter().map(|i| i.path.as_str()).collect();
    assert_eq!(paths, vec!["a/z.txt", "a.txt", "b.txt"]);
}

#[test]
fn status_order_goes_component_by_component() {
    // A directory's entries follow the directory's own name: "a/b" comes
    // before "a.txt" although '.' precedes '/' as a raw byte.
    let items = vec![
        StatusItem { path: String::from("a.txt"), status: StatusItemType::Modified },
        StatusItem { path: String::from("a/b"), status: StatusItemType::New },
    ];
    let sorted = sort_status_items(items);
    let paths: Vec<&str> = sorted.iter().map(|i| i.path.as_str()).collect();
    assert_eq!(paths, vec!["a/b", "a.txt"]);
}

#[test]
fn raw_entries_prefer_the_head_to_index_path() {
    let raw = vec![
        RawStatusEntry {
            head_to_index: true,
            head_new_path: Some(String::from("renamed.txt")),
            path: Some(String::from("old.txt")),
            bits: 8,
        },
        RawStatusEntry {
            head_to_index: false,
            head_new_path: None,
            path: Some(String::from("added.txt")),
            bits: 128,
        },
    ];
    let items = status_items_from_raw(raw).unwrap();
    assert_eq!(items.len(), 2);
    assert_eq!(items[0].path, "added.txt");
    assert_eq!(items[0].status, StatusItemType::New);
    assert_eq!(items[1].path, "renamed.txt");
    assert_eq!(items[1].status, StatusItemType::Renamed);
}

#[test]
fn raw_entry_without_path_is_an_error() {
    let raw = vec![RawStatusEntry {
        head_to_index: true,
        head_new_path: None,
        path: Some(String::from("old.txt")),
        bits: 8,
    }];
    assert!(status_items_from_raw(raw).is_err());
}

#[test]
fn untracked_config_values_map_to_modes() {
    assert_eq!(map_untracked_value(None), ShowUntrackedFilesConfig::All);
    assert_eq!(
        map_untracked_value(Some(String::from("no"))),
        ShowUntrackedFilesConfig::Off
    );
    assert_eq!(
        map_untracked_value(Some(String::from("normal"))),
        ShowUntrackedFilesConfig::Normal
    );
    assert_eq!(
        map_untracked_value(Some(String::from("all"))),
        ShowUntrackedFilesConfig::All
    );
    assert_eq!(StatusType::default(), StatusType::WorkingDir);
    assert!(ShowUntrackedFilesConfig::All.include_untracked());
    assert!(ShowUntrackedFilesConfig::All.recurse_untracked_dirs());
    assert!(ShowUntrackedFilesConfig::Normal.include_untracked());
    assert!(!ShowUntrackedFilesConfig::Normal.recurse_untracked_dirs());
    assert!(!ShowUntrackedFilesConfig::Off.include_untracked());
}

#[test]
fn tag_ref_names_are_stripped_and_checked() {
    // The prefix is stripped: handing the input back unchanged would fail.
    assert_eq!(
        extract_tag_name(&b"refs/tags/v1.0".to_vec()),
        Some(String::from("v1.0"))
    );
    assert_eq!(extract_tag_name(&b"refs/heads/main".to_vec()), None);
    assert_eq!(extract_tag_name(&b"short".to_vec()), None);
    // An invalid byte sequence after the prefix is no name.
    assert_eq!(extract_tag_name(&vec![b'r', b'e', b'f', b's', b'/', b't', b'a', b'g', b's', b'/', 0xff]), None);
}

#[test]
fn empty_annotations_are_dropped() {
    assert_eq!(annotation_of(None), None);
    assert_eq!(annotation_of(Some(Vec::new())), None);
    assert_eq!(annotation_of(Some(b"note".to_vec())), Some(String::from("note")));
    assert_eq!(annotation_of(Some(vec![0xff, 0xfe])), None);
}

#[test]
fn tags_map_groups_by_commit_in_id_order() {
    let mut tags = Tags::new();
    tags.add(cid(9), Tag::new("z"));
    tags.add(cid(3), Tag::new("a"));
    tags.add(cid(9), Tag::new("b"));
    assert_eq!(tags.len(), 2);
    // Slots come in commit-id byte order; tags keep insertion order.
    assert_eq!(tags.slots[0].0.bytes[19], 3);
    assert_eq!(tags.slots[1].0.bytes[19], 9);
    let names: Vec<&str> = tags.get(&cid(9)).unwrap().iter().map(|t| t.name.as_str()).collect();
    assert_eq!(names, vec!["z", "b"]);
    assert!(tags.get(&cid(4)).is_none());
}

#[test]
fn stash_index_finds_the_first_match() {
    let ids = vec![cid(5), cid(7), cid(5)];
    assert_eq!(get_stash_index(&ids, &cid(7)).unwrap(), 1);
    assert_eq!(get_stash_index(&ids, &cid(5)).unwrap(), 0);
    assert!(get_stash_index(&ids, &cid(1)).is_err());
}

#[test]
fn commit_id_order_is_by_byte_value() {
    assert!(cid(1).le(&cid(2)));
    assert!(!cid(2).le(&cid(1)));
    assert!(cid(2).same_id(&cid(2)));
    assert!(!cid(2).same_id(&cid(3)));
}

fn cmd(group: &str, name: &str, hidden: bool) -> CommandInfo {
    CommandInfo {
        text: CommandText {
            name: String::from(name),
            desc: String::from(name).to_uppercase(),
            group: String::from(group),
            hide_help: hidden,
        },
        enabled: true,
        quick_bar: true,
    }
}

#[test]
fn help_commands_are_grouped_deduplicated_and_visible_only() {
    let mut popup = HelpPopup::new();
    popup.set_cmds(vec![
        cmd("nav", "down", false),
        cmd("edit", "stage", false),
        cmd("nav", "down", false),
        cmd("nav", "up", false),
        cmd("secret", "x", true),
    ]);
    let listed: Vec<(String, String)> = popup
        .cmds
        .iter()
        .map(|c| (c.text.group.clone(), c.text.name.clone()))
        .collect();
    assert_eq!(
        listed,
        vec![
            (String::from("edit"), String::from("stage")),
            (String::from("nav"), String::from("down")),
            (String::from("nav"), String::from("up")),
        ]
    );
}

#[test]
fn help_selection_moves_and_clamps() {
    let mut popup = HelpPopup::new();
    popup.set_cmds(vec![cmd("nav", "down", false), cmd("nav", "up", false)]);
    assert_eq!(popup.selection, 0);
    popup.move_selection(false);
    assert_eq!(popup.selection, 0);
    popup.move_selection(true);
    assert_eq!(popup.selection, 1);
    popup.move_selection(true);
    assert_eq!(popup.selection, 1, "the selection clamps to the last command");
}

#[test]
fn help_events_follow_visibility() {
    let mut popup = HelpPopup::new();
    assert_eq!(popup.event(HelpEvent::MoveDown), EventState::NotConsumed);
    assert_eq!(popup.event(HelpEvent::OpenHelp), EventState::Consumed);
    assert!(popup.is_visible());
    assert_eq!(popup.event(HelpEvent::MoveDown), EventState::Consumed);
    assert_eq!(popup.event(HelpEvent::ExitPopup), EventState::Consumed);
    assert!(!popup.is_visible());
}

#[test]
fn help_text_marks_groups_and_the_selection() {
    let mut popup = HelpPopup::new();
    popup.set_cmds(vec![
        cmd("edit", "stage", false),
        cmd("nav", "down", false),
        cmd("nav", "up", false),
    ]);
    popup.move_selection(true);
    let rows = popup.get_text();
    assert_eq!(
        rows,
        vec![
            HelpRow::Group(String::from("edit")),
            HelpRow::Command(String::from("stage"), false),
            HelpRow::Group(String::from("nav")),
            HelpRow::Command(String::from("down"), true),
            HelpRow::Desc(String::from("DOWN")),
            HelpRow::Command(String::from("up"), false),
        ]
    );
}
