use clip_win::menu::{
    build_menu, direct_paste_item_id, entry_item_id, menu_items, menu_layout, paste_text,
    parse_menu_event, tray_history, tray_history_limit, display_limit, EntryAction, MenuCommand,
    MenuNode,
};
use clip_win::models::ClipboardEntry;
use clip_win::storage::StorageService;

fn e(id: i64, content: &str, pinned: bool) -> ClipboardEntry {
    ClipboardEntry {
        id,
        content: content.to_string(),
        created_at: "2024-01-01T00:00:00.000Z".to_string(),
        is_pinned: pinned,
    }
}

#[test]
fn item_ids_have_the_documented_shape() {
    assert_eq!(entry_item_id(false, 42, EntryAction::Paste), "hist_sub_42_paste");
    assert_eq!(entry_item_id(true, 7, EntryAction::Pin), "pin_sub_7_pin");
    assert_eq!(entry_item_id(false, -3, EntryAction::Delete), "hist_sub_-3_del");
}

#[test]
fn fixed_items_are_recognised() {
    assert_eq!(parse_menu_event("quit"), MenuCommand::Quit);
    assert_eq!(parse_menu_event("clear_history"), MenuCommand::ClearHistory);
    assert_eq!(parse_menu_event("open_settings"), MenuCommand::OpenSettings);
}

#[test]
fn entry_items_are_recognised() {
    assert_eq!(parse_menu_event("hist_sub_42_paste"), MenuCommand::Entry(42, EntryAction::Paste));
    assert_eq!(parse_menu_event("pin_sub_42_pin"), MenuCommand::Entry(42, EntryAction::Pin));
    assert_eq!(parse_menu_event("hist_sub_5_del"), MenuCommand::Entry(5, EntryAction::Delete));
    assert_eq!(parse_menu_event("hist_sub_5_copy"), MenuCommand::UnknownAction(5));
    assert_eq!(parse_menu_event("hist_sub_5_paste_x"), MenuCommand::UnknownAction(5));
}

#[test]
fn malformed_ids_are_unrecognised() {
    assert_eq!(parse_menu_event("hist_sub_x_paste"), MenuCommand::Unrecognized);
    assert_eq!(parse_menu_event("hist_sub_42"), MenuCommand::Unrecognized);
    assert_eq!(parse_menu_event("pin_paste_4x"), MenuCommand::Unrecognized);
    assert_eq!(parse_menu_event("hist_paste_"), MenuCommand::Unrecognized);
    assert_eq!(parse_menu_event("QUIT"), MenuCommand::Unrecognized);
    assert_eq!(parse_menu_event(""), MenuCommand::Unrecognized);
}

#[test]
fn every_built_id_parses_back() {
    for id in [0i64, 1, 42, -17, i64::MAX, i64::MIN] {
        for pinned in [false, true] {
            for a in [EntryAction::Paste, EntryAction::Pin, EntryAction::Delete] {
                let s = entry_item_id(pinned, id, a);
                assert_eq!(parse_menu_event(&s), MenuCommand::Entry(id, a));
            }
        }
    }
}

#[test]
fn layout_splits_pinned_and_recent() {
    let history = vec![
        e(9, "pinned one", true),
        e(5, "e5", false),
        e(4, "e4", false),
        e(3, "e3", false),
    ];
    let l = menu_layout(&history, 2);
    assert_eq!(l.pinned.len(), 1);
    assert_eq!(l.pinned[0].title, "📌 pinned one");
    assert_eq!(l.pinned[0].paste_id, "pin_sub_9_paste");
    assert_eq!(l.pinned[0].pin_label, "📌 ピン留め解除");
    let recent: Vec<&str> = l.recent.iter().map(|m| m.title.as_str()).collect();
    assert_eq!(recent, vec!["e5", "e4"]);
    assert_eq!(l.recent[0].delete_id, "hist_sub_5_del");
    assert_eq!(l.recent[0].pin_label, "📌 ピン留め");
    let all = l.all_history.expect("more entries than shown");
    assert_eq!(all.len(), 3);
    assert_eq!(all[2].pin_id, "hist_sub_3_pin");
}

#[test]
fn layout_without_overflow_has_no_all_history() {
    let history = vec![e(2, "b", false), e(1, "a", false)];
    let l = menu_layout(&history, 2);
    assert_eq!(l.recent.len(), 2);
    assert!(l.all_history.is_none());
}

#[test]
fn menu_titles_are_cut_at_forty_chars() {
    let long = "x".repeat(50);
    let l = menu_layout(&vec![e(1, &long, false)], 10);
    assert_eq!(l.recent[0].title, format!("{}…", "x".repeat(40)));
}

#[test]
fn tray_limit_adds_fifty_and_wraps() {
    assert_eq!(tray_history_limit(10), 60);
    assert_eq!(tray_history_limit(i64::MAX), i64::MIN + 49);
}

#[test]
fn display_limit_converts_like_as() {
    assert_eq!(display_limit(10), 10usize);
    assert_eq!(display_limit(-1), usize::MAX);
}

#[test]
fn build_menu_uses_display_count_setting() {
    let mut s = StorageService::new();
    s.set_setting("menu_display_count", "1");
    for i in 0..3 {
        s.add_history(&format!("t{}", i), format!("2024-01-01T00:00:0{}.000Z", i)).unwrap();
    }
    let history = tray_history(&s);
    assert_eq!(history.len(), 3);
    let l = build_menu(&s, &history);
    assert_eq!(l.recent.len(), 1);
    assert_eq!(l.recent[0].title, "t2");
    assert_eq!(l.all_history.map(|v| v.len()), Some(3));
}

#[test]
fn paste_text_finds_listed_entry() {
    let mut s = StorageService::new();
    s.add_history("hello", "2024-01-01T00:00:00.000Z".to_string()).unwrap();
    assert_eq!(paste_text(&s, 1), Some("hello".to_string()));
    assert_eq!(paste_text(&s, 2), None);
}

#[test]
fn hotkey_history_follows_history_limit() {
    let mut s = StorageService::new();
    s.set_setting("history_limit", "-1");
    for i in 0..4 {
        s.add_history(&format!("t{}", i), format!("{}", i)).unwrap();
    }
    s.set_setting("history_limit", "2");
    let h = clip_win::menu::hotkey_history(&s);
    let titles: Vec<&str> = h.iter().map(|e| e.content.as_str()).collect();
    assert_eq!(titles, vec!["t3", "t2"]);
}

#[test]
fn direct_paste_items_paste_their_entry() {
    assert_eq!(parse_menu_event("hist_paste_42"), MenuCommand::Entry(42, EntryAction::Paste));
    assert_eq!(parse_menu_event("pin_paste_7"), MenuCommand::Entry(7, EntryAction::Paste));
    for id in [0i64, 9, -5, i64::MAX, i64::MIN] {
        for pinned in [false, true] {
            let s = direct_paste_item_id(pinned, id);
            assert_eq!(parse_menu_event(&s), MenuCommand::Entry(id, EntryAction::Paste));
        }
    }
    assert_eq!(direct_paste_item_id(false, 42), "hist_paste_42");
    assert_eq!(direct_paste_item_id(true, 3), "pin_paste_3");
}

#[test]
fn paste_finds_entries_beyond_two_hundred() {
    let mut s = StorageService::new();
    s.set_setting("history_limit", "-1");
    for i in 0..250 {
        s.add_history(&format!("t{}", i), format!("{:04}", i)).unwrap();
    }
    assert_eq!(paste_text(&s, 1), Some("t0".to_string()));
    assert_eq!(paste_text(&s, 250), Some("t249".to_string()));
}

#[test]
fn whole_menu_has_fixed_tail() {
    let history = vec![e(9, "p", true), e(5, "e5", false), e(4, "e4", false)];
    let nodes = menu_items(menu_layout(&history, 1));
    let shape: Vec<String> = nodes
        .iter()
        .map(|n| match n {
            MenuNode::Entry(m) => format!("entry:{}", m.title),
            MenuNode::AllHistory(t, v) => format!("all:{}:{}", t, v.len()),
            MenuNode::Separator => "sep".to_string(),
            MenuNode::Command(id, label) => format!("cmd:{}:{}", id, label),
        })
        .collect();
    assert_eq!(
        shape,
        vec![
            "entry:📌 p",
            "sep",
            "entry:e5",
            "sep",
            "all:すべての履歴を表示:2",
            "sep",
            "cmd:clear_history:履歴をすべて削除",
            "sep",
            "cmd:open_settings:設定...",
            "cmd:quit:終了",
        ]
    );
}

#[test]
fn menu_without_pinned_has_no_leading_separator() {
    let nodes = menu_items(menu_layout(&vec![e(1, "a", false)], 10));
    assert_eq!(nodes.len(), 6);
    assert!(matches!(nodes[0], MenuNode::Entry(_)));
    assert!(matches!(nodes[1], MenuNode::Separator));
}
