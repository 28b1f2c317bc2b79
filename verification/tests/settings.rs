use clip_win::hotkey::hotkey_or_default;
use clip_win::settings::{check_setting_keys, numeric_or, SettingsTable};
use clip_win::storage::StorageService;

#[test]
fn fresh_store_has_default_settings() {
    let s = StorageService::new();
    assert_eq!(s.get_setting("history_limit").as_deref(), Some("100"));
    assert_eq!(s.get_setting("menu_display_count").as_deref(), Some("10"));
    assert_eq!(s.get_setting("hotkey").as_deref(), Some("Ctrl+Shift+V"));
    assert_eq!(s.get_setting("language").as_deref(), Some(""));
    assert_eq!(s.get_setting("startup_enabled").as_deref(), Some("0"));
    assert_eq!(s.get_setting("hotkey_modifiers").as_deref(), Some("0x4006"));
    assert_eq!(s.get_setting("hotkey_vk").as_deref(), Some("0x56"));
    assert_eq!(s.get_setting("hotkey_display").as_deref(), Some("Ctrl+Shift+V"));
    assert_eq!(s.get_setting("theme"), None);
}

#[test]
fn set_then_get_returns_value() {
    let mut s = StorageService::new();
    s.set_setting("language", "en");
    s.set_setting("language", "ja");
    assert_eq!(s.get_setting("language").as_deref(), Some("ja"));
    assert_eq!(s.get_setting("hotkey").as_deref(), Some("Ctrl+Shift+V"));
}

#[test]
fn defaults_do_not_override_stored_values() {
    let mut t = SettingsTable::new();
    t.set("history_limit", "5");
    t.apply_defaults();
    assert_eq!(t.get("history_limit").as_deref(), Some("5"));
    assert_eq!(t.get("menu_display_count").as_deref(), Some("10"));
}

#[test]
fn known_settings_lists_keys_in_order() {
    let s = StorageService::new();
    let pairs = clip_win::commands::get_settings(&s);
    let keys: Vec<&str> = pairs.iter().map(|p| p.0.as_str()).collect();
    assert_eq!(
        keys,
        vec![
            "history_limit",
            "menu_display_count",
            "hotkey",
            "hotkey_modifiers",
            "hotkey_vk",
            "hotkey_display",
            "language",
            "startup_enabled"
        ]
    );
}

#[test]
fn unknown_key_is_refused_with_message() {
    let keys = vec!["hotkey".to_string(), "colour".to_string(), "size".to_string()];
    assert_eq!(check_setting_keys(&keys), Err("不明な設定キー: colour".to_string()));
    let ok = vec!["language".to_string(), "startup_enabled".to_string(), "hotkey_vk".to_string()];
    assert_eq!(check_setting_keys(&ok), Ok(()));
}

#[test]
fn numeric_settings_parse_or_default() {
    assert_eq!(numeric_or(&Some("42".to_string()), 7), 42);
    assert_eq!(numeric_or(&Some("-3".to_string()), 7), -3);
    assert_eq!(numeric_or(&Some("4x".to_string()), 7), 7);
    assert_eq!(numeric_or(&Some("99999999999999999999".to_string()), 7), 7);
    assert_eq!(numeric_or(&None, 7), 7);
}

#[test]
fn hotkey_falls_back_to_default() {
    assert_eq!(hotkey_or_default(None), "Ctrl+Shift+V");
    assert_eq!(hotkey_or_default(Some("Alt+X".to_string())), "Alt+X");
}

#[test]
fn settings_screen_sees_only_known_keys() {
    let mut s = StorageService::new();
    s.set_setting("theme", "dark");
    s.set_setting("hotkey", "Alt+V");
    let pairs = clip_win::commands::get_settings(&s);
    assert_eq!(pairs.len(), 8);
    assert_eq!(pairs[2], ("hotkey".to_string(), "Alt+V".to_string()));
}

#[test]
fn history_screen_defaults_to_one_hundred_entries() {
    let mut s = StorageService::new();
    s.set_setting("history_limit", "-1");
    for i in 0..120 {
        s.add_history(&format!("t{}", i), format!("{:03}", i)).unwrap();
    }
    assert_eq!(clip_win::commands::get_history(&s, None).len(), 100);
    assert_eq!(clip_win::commands::get_history(&s, Some(5)).len(), 5);
    assert_eq!(clip_win::commands::get_history(&s, Some(-1)).len(), 120);
}

#[test]
fn numeric_settings_follow_integer_syntax() {
    assert_eq!(numeric_or(&Some("007".to_string()), 1), 7);
    assert_eq!(numeric_or(&Some("-0".to_string()), 1), 0);
    assert_eq!(numeric_or(&Some("+".to_string()), 1), 1);
    assert_eq!(numeric_or(&Some("".to_string()), 1), 1);
    assert_eq!(numeric_or(&Some("9223372036854775807".to_string()), 1), i64::MAX);
    assert_eq!(numeric_or(&Some("9223372036854775808".to_string()), 1), 1);
    assert_eq!(numeric_or(&Some("-9223372036854775808".to_string()), 1), i64::MIN);
    assert_eq!(numeric_or(&Some("1_000".to_string()), 1), 1);
}
