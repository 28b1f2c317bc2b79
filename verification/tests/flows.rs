use clip_win::hotkey::{
    HotkeyAction, HotkeyChange, HotkeyEvent, HotkeyState, SaveAction, SaveEvent, SaveSettings,
    SaveState,
};
use clip_win::paste::{
    capture_foreground, listener_action, paste_keystrokes, KeyDirection, ListenerAction,
    PasteAction, PasteEvent, PasteFlow, PasteKey, PasteState, WM_CLIPBOARDUPDATE,
};

fn pair(k: &str, v: &str) -> (String, String) {
    (k.to_string(), v.to_string())
}

#[test]
fn paste_runs_through_all_steps() {
    let mut f = PasteFlow::new(77);
    assert_eq!(f.step(PasteEvent::Start), PasteAction::RaiseFlagAndWrite);
    assert_eq!(f.step(PasteEvent::ClipboardWritten(true)), PasteAction::Focus(77));
    assert_eq!(f.step(PasteEvent::Focused), PasteAction::Wait(50));
    assert_eq!(f.step(PasteEvent::Waited), PasteAction::SendPasteKeys);
    assert_eq!(f.step(PasteEvent::KeysSent), PasteAction::Wait(150));
    assert_eq!(f.step(PasteEvent::Waited), PasteAction::LowerFlag);
    assert_eq!(f.state, PasteState::Finished);
    assert_eq!(f.step(PasteEvent::Start), PasteAction::Nothing);
}

#[test]
fn paste_without_window_skips_focus() {
    let mut f = PasteFlow::new(0);
    f.step(PasteEvent::Start);
    assert_eq!(f.step(PasteEvent::ClipboardWritten(true)), PasteAction::Wait(50));
}

#[test]
fn failed_clipboard_write_lowers_flag() {
    let mut f = PasteFlow::new(5);
    f.step(PasteEvent::Start);
    assert_eq!(f.step(PasteEvent::ClipboardWritten(false)), PasteAction::LowerFlag);
    assert_eq!(f.state, PasteState::Finished);
}

#[test]
fn paste_keystroke_is_ctrl_v() {
    assert_eq!(
        paste_keystrokes(),
        vec![
            (PasteKey::Control, KeyDirection::Press),
            (PasteKey::V, KeyDirection::Click),
            (PasteKey::Control, KeyDirection::Release),
        ]
    );
}

#[test]
fn listener_ignores_own_writes() {
    assert_eq!(listener_action(WM_CLIPBOARDUPDATE, false), ListenerAction::Notify);
    assert_eq!(listener_action(WM_CLIPBOARDUPDATE, true), ListenerAction::Ignore);
    assert_eq!(listener_action(0x0001, false), ListenerAction::Default);
}

#[test]
fn foreground_is_zero_without_window_system() {
    assert_eq!(capture_foreground(), 0);
}

#[test]
fn hotkey_change_succeeds() {
    let (mut c, a) = HotkeyChange::start("Alt+V", Some("Ctrl+Shift+V".to_string()));
    assert!(matches!(a, HotkeyAction::UnregisterAll));
    match c.step(HotkeyEvent::Unregistered(Ok(()))) {
        HotkeyAction::Register(h) => assert_eq!(h, "Alt+V"),
        other => panic!("unexpected {:?}", other),
    }
    assert!(matches!(c.step(HotkeyEvent::Registered(Ok(()))), HotkeyAction::Finish(Ok(()))));
    assert_eq!(c.state, HotkeyState::Done);
}

#[test]
fn refused_hotkey_restores_old_one() {
    let (mut c, _) = HotkeyChange::start("Bad", None);
    c.step(HotkeyEvent::Unregistered(Ok(())));
    match c.step(HotkeyEvent::Registered(Err("in use".to_string()))) {
        HotkeyAction::Restore(h) => assert_eq!(h, "Ctrl+Shift+V"),
        other => panic!("unexpected {:?}", other),
    }
    match c.step(HotkeyEvent::Restored) {
        HotkeyAction::Finish(Err(m)) => assert_eq!(m, "ホットキー 'Bad' は使用できません: in use"),
        other => panic!("unexpected {:?}", other),
    }
}

#[test]
fn unregister_failure_ends_change() {
    let (mut c, _) = HotkeyChange::start("Alt+V", None);
    match c.step(HotkeyEvent::Unregistered(Err("busy".to_string()))) {
        HotkeyAction::Finish(Err(m)) => assert_eq!(m, "busy"),
        other => panic!("unexpected {:?}", other),
    }
}

#[test]
fn save_refuses_unknown_key() {
    let (s, a) = SaveSettings::start(vec![pair("language", "en"), pair("colour", "red")], None);
    assert_eq!(s.state, SaveState::Done);
    match a {
        SaveAction::Finish(Err(m)) => assert_eq!(m, "不明な設定キー: colour"),
        other => panic!("unexpected {:?}", other),
    }
}

#[test]
fn save_registers_hotkey_before_writing() {
    let (mut s, a) = SaveSettings::start(vec![pair("language", "en"), pair("hotkey", "Alt+V")], None);
    match a {
        SaveAction::ChangeHotkey(h) => assert_eq!(h, "Alt+V"),
        other => panic!("unexpected {:?}", other),
    }
    assert!(matches!(s.step(SaveEvent::HotkeyChanged(Ok(()))), SaveAction::Write(0)));
    assert!(matches!(s.step(SaveEvent::Written(Ok(()))), SaveAction::Write(1)));
    assert!(matches!(s.step(SaveEvent::Written(Ok(()))), SaveAction::Finish(Ok(()))));
}

#[test]
fn save_stops_when_hotkey_is_refused() {
    let (mut s, _) = SaveSettings::start(vec![pair("hotkey", "Bad")], None);
    match s.step(SaveEvent::HotkeyChanged(Err("no".to_string()))) {
        SaveAction::Finish(Err(m)) => assert_eq!(m, "no"),
        other => panic!("unexpected {:?}", other),
    }
}

#[test]
fn failed_write_restores_hotkey_then_fails() {
    let (mut s, _) = SaveSettings::start(
        vec![pair("language", "en"), pair("hotkey", "Alt+V")],
        Some("Ctrl+Alt+C".to_string()),
    );
    s.step(SaveEvent::HotkeyChanged(Ok(())));
    assert!(matches!(s.step(SaveEvent::Written(Ok(()))), SaveAction::Write(1)));
    match s.step(SaveEvent::Written(Err("disk full".to_string()))) {
        SaveAction::RestoreHotkey(h) => assert_eq!(h, "Ctrl+Alt+C"),
        other => panic!("unexpected {:?}", other),
    }
    match s.step(SaveEvent::HotkeyRestored) {
        SaveAction::Finish(Err(m)) => assert_eq!(m, "disk full"),
        other => panic!("unexpected {:?}", other),
    }
}

#[test]
fn failed_write_without_hotkey_fails_at_once() {
    let (mut s, a) = SaveSettings::start(vec![pair("language", "en")], None);
    assert!(matches!(a, SaveAction::Write(0)));
    match s.step(SaveEvent::Written(Err("locked".to_string()))) {
        SaveAction::Finish(Err(m)) => assert_eq!(m, "locked"),
        other => panic!("unexpected {:?}", other),
    }
}

#[test]
fn empty_batch_saves_nothing() {
    let (_, a) = SaveSettings::start(vec![], None);
    assert!(matches!(a, SaveAction::Finish(Ok(()))));
}
