use clip_win::history::{stamp_le, AddOutcome, HistoryTable, StoreError};
use clip_win::models::ClipboardEntry;
use clip_win::storage::StorageService;

fn contents(list: &[ClipboardEntry]) -> Vec<String> {
    list.iter().map(|e| e.content.clone()).collect()
}

fn stamp(n: u32) -> String {
    format!("2024-01-01T00:00:{:02}.000Z", n)
}

#[test]
fn blank_text_is_not_recorded() {
    let mut s = StorageService::new();
    assert!(matches!(s.add_history("   \n\t", stamp(0)), Ok(AddOutcome::Blank)));
    assert!(matches!(s.add_history("", stamp(0)), Ok(AddOutcome::Blank)));
    assert!(s.get_history(-1).is_empty());
}

#[test]
fn consecutive_duplicate_is_not_recorded() {
    let mut s = StorageService::new();
    assert!(matches!(s.add_history("a", stamp(1)), Ok(AddOutcome::Inserted { .. })));
    assert!(matches!(s.add_history("a", stamp(2)), Ok(AddOutcome::Duplicate)));
    assert!(matches!(s.add_history("b", stamp(3)), Ok(AddOutcome::Inserted { .. })));
    assert!(matches!(s.add_history("a", stamp(4)), Ok(AddOutcome::Inserted { .. })));
    assert_eq!(contents(&s.get_history(-1)), vec!["a", "b", "a"]);
}

#[test]
fn ids_count_up_from_one() {
    let mut s = StorageService::new();
    s.add_history("a", stamp(1)).unwrap();
    s.add_history("b", stamp(2)).unwrap();
    let ids: Vec<i64> = s.get_history(-1).iter().map(|e| e.id).collect();
    assert_eq!(ids, vec![2, 1]);
}

#[test]
fn limit_drops_oldest_unpinned_but_keeps_pinned() {
    let mut s = StorageService::new();
    s.set_setting("history_limit", "2");
    s.add_history("a", stamp(1)).unwrap();
    s.toggle_pin(1);
    s.add_history("b", stamp(2)).unwrap();
    s.add_history("c", stamp(3)).unwrap();
    match s.add_history("d", stamp(4)).unwrap() {
        AddOutcome::Inserted { entry, removed_ids } => {
            assert_eq!(entry.id, 4);
            assert_eq!(entry.content, "d");
            assert!(!entry.is_pinned);
            assert_eq!(removed_ids, vec![2]);
        }
        other => panic!("unexpected {:?}", other),
    }
    assert_eq!(contents(&s.get_history(-1)), vec!["a", "d", "c"]);
}

#[test]
fn zero_limit_keeps_no_unpinned_entry() {
    let mut s = StorageService::new();
    s.set_setting("history_limit", "0");
    match s.add_history("a", stamp(1)).unwrap() {
        AddOutcome::Inserted { removed_ids, .. } => assert_eq!(removed_ids, vec![1]),
        other => panic!("unexpected {:?}", other),
    }
    assert!(s.get_history(-1).is_empty());
}

#[test]
fn negative_limit_keeps_everything() {
    let mut s = StorageService::new();
    s.set_setting("history_limit", "-1");
    for i in 0..5 {
        s.add_history(&format!("t{}", i), stamp(i)).unwrap();
    }
    assert_eq!(s.get_history(-1).len(), 5);
}

#[test]
fn unparsable_limit_falls_back_to_one_hundred() {
    let mut s = StorageService::new();
    s.set_setting("history_limit", "many");
    assert_eq!(s.get_history_limit(), 100);
    s.set_setting("history_limit", "+7");
    assert_eq!(s.get_history_limit(), 7);
    s.set_setting("history_limit", " 7");
    assert_eq!(s.get_history_limit(), 100);
}

#[test]
fn listing_puts_pinned_first_newest_first() {
    let mut s = StorageService::new();
    for (i, t) in ["a", "b", "c", "d"].iter().enumerate() {
        s.add_history(t, stamp(i as u32)).unwrap();
    }
    s.toggle_pin(1);
    s.toggle_pin(3);
    assert_eq!(contents(&s.get_history(-1)), vec!["c", "a", "d", "b"]);
    assert_eq!(contents(&s.get_history(3)), vec!["c", "a", "d"]);
    assert!(s.get_history(0).is_empty());
}

#[test]
fn clear_keeps_pinned_entries() {
    let mut s = StorageService::new();
    s.add_history("a", stamp(1)).unwrap();
    s.add_history("b", stamp(2)).unwrap();
    s.add_history("c", stamp(3)).unwrap();
    s.toggle_pin(2);
    assert_eq!(s.clear_history(), vec![3, 1]);
    assert_eq!(contents(&s.get_history(-1)), vec!["b"]);
}

#[test]
fn toggle_pin_twice_restores() {
    let mut s = StorageService::new();
    s.add_history("a", stamp(1)).unwrap();
    assert!(s.toggle_pin(1));
    assert!(s.get_history_by_id(1).unwrap().is_pinned);
    assert!(s.toggle_pin(1));
    assert!(!s.get_history_by_id(1).unwrap().is_pinned);
    assert!(!s.toggle_pin(9));
}

#[test]
fn delete_removes_the_entry() {
    let mut s = StorageService::new();
    s.add_history("a", stamp(1)).unwrap();
    s.add_history("b", stamp(2)).unwrap();
    assert!(s.delete_history(1));
    assert!(s.get_history_by_id(1).is_none());
    assert_eq!(s.get_history_by_id(2).unwrap().content, "b");
    assert!(!s.delete_history(1));
}

#[test]
fn pinned_text_does_not_block_recording_it_again() {
    let mut s = StorageService::new();
    s.add_history("a", stamp(1)).unwrap();
    s.toggle_pin(1);
    assert!(matches!(s.add_history("a", stamp(2)), Ok(AddOutcome::Inserted { .. })));
}

#[test]
fn restore_rejects_taken_and_out_of_range_ids() {
    let mut t = HistoryTable::new();
    let e = |id: i64| ClipboardEntry {
        id,
        content: format!("x{}", id),
        created_at: stamp(0),
        is_pinned: false,
    };
    assert!(t.restore(e(5)));
    assert!(!t.restore(e(5)));
    assert!(t.restore(e(0)));
    assert!(!t.restore(e(i64::MAX)));
    match t.add("new", stamp(1), -1).unwrap() {
        AddOutcome::Inserted { entry, .. } => assert_eq!(entry.id, 6),
        other => panic!("unexpected {:?}", other),
    }
}

#[test]
fn exhausted_ids_refuse_new_entries() {
    let mut t = HistoryTable::new();
    let e = ClipboardEntry {
        id: i64::MAX - 1,
        content: "last".to_string(),
        created_at: stamp(0),
        is_pinned: false,
    };
    assert!(t.restore(e));
    assert!(matches!(t.add("more", stamp(1), -1), Err(StoreError::IdsExhausted)));
    assert_eq!(t.len(), 1);
}

#[test]
fn remembered_last_id_is_not_reused() {
    let mut t = HistoryTable::new();
    let e = ClipboardEntry { id: 3, content: "x".to_string(), created_at: stamp(0), is_pinned: false };
    assert!(t.restore(e));
    t.restore_last_id(8);
    match t.add("y", stamp(1), -1).unwrap() {
        AddOutcome::Inserted { entry, .. } => assert_eq!(entry.id, 9),
        other => panic!("unexpected {:?}", other),
    }
    t.restore_last_id(2);
    match t.add("z", stamp(2), -1).unwrap() {
        AddOutcome::Inserted { entry, .. } => assert_eq!(entry.id, 10),
        other => panic!("unexpected {:?}", other),
    }
}

#[test]
fn entries_are_ordered_by_stamp_not_by_arrival() {
    let mut s = StorageService::new();
    s.add_history("a", stamp(5)).unwrap();
    s.add_history("b", stamp(3)).unwrap();
    assert_eq!(contents(&s.get_history(-1)), vec!["a", "b"]);
    assert!(matches!(s.add_history("a", stamp(6)), Ok(AddOutcome::Duplicate)));
    assert!(matches!(s.add_history("b", stamp(7)), Ok(AddOutcome::Inserted { .. })));
    assert_eq!(contents(&s.get_history(-1)), vec!["b", "a", "b"]);
}

#[test]
fn limit_drops_the_earliest_stamped() {
    let mut s = StorageService::new();
    s.set_setting("history_limit", "2");
    s.add_history("late", stamp(9)).unwrap();
    s.add_history("mid", stamp(5)).unwrap();
    match s.add_history("early", stamp(1)).unwrap() {
        AddOutcome::Inserted { entry, removed_ids } => assert_eq!(removed_ids, vec![entry.id]),
        other => panic!("unexpected {:?}", other),
    }
    assert_eq!(contents(&s.get_history(-1)), vec!["late", "mid"]);
}

#[test]
fn stamps_compare_as_text() {
    let t = |x: &str| x.to_string();
    assert!(stamp_le(&t("2024-01-01"), &t("2024-01-02")));
    assert!(!stamp_le(&t("2024-01-02"), &t("2024-01-01")));
    assert!(stamp_le(&t("2024"), &t("2024-01")));
    assert!(!stamp_le(&t("2024-01"), &t("2024")));
    assert!(stamp_le(&t(""), &t("")));
    assert!(stamp_le(&t("a"), &t("a")));
}
