use hotkey_core::{
    batch_outcome, key_event, unregister_number_shortcuts, KeyEventAction,
    pick_history_item, plain_text_press_action, quickpaste_action, PlainTextAction, PressError,
    QuickPasteAction,
    apply_activation, complete_number_shortcuts, complete_registration, contains_str,
    deactivate_key, desired_activation, disable_hotkeys, enable_hotkeys, get_shortcut_status,
    get_shortcut_statuses, init_hotkey_manager, is_hotkeys_enabled, is_key_active, join_strings,
    normalize_descriptor, number_shortcut_descriptor, number_shortcut_id, parse_shortcut,
    register_number_shortcuts, register_paste_plain_text_hotkey, register_quickpaste_hotkey,
    register_screenshot_hotkey, register_screenshot_quick_ocr_hotkey,
    register_screenshot_quick_pin_hotkey, register_screenshot_quick_save_hotkey,
    register_shortcut, register_toggle_hotkey, reload_from_settings, reload_requests,
    replace_all_str, sync_applied, sync_hotkeys_for_foreground, sync_target, try_activate_key,
    unregister_all, unregister_shortcut, BatchOutcome, HotkeyAction, HotkeyActivation,
    HotkeyError, HotkeyManager, HotkeySettings, KeyActivationSet,
};

fn ready() -> HotkeyManager {
    let mut m = HotkeyManager::new();
    init_hotkey_manager(&mut m);
    m
}

fn settings(enabled: bool) -> HotkeySettings {
    HotkeySettings {
        hotkeys_enabled: enabled,
        toggle_shortcut: "Ctrl+Shift+V".to_string(),
        quickpaste_enabled: true,
        quickpaste_shortcut: "Alt+Q".to_string(),
        screenshot_enabled: false,
        screenshot_shortcut: "Alt+S".to_string(),
        screenshot_quick_save_shortcut: String::new(),
        screenshot_quick_pin_shortcut: String::new(),
        screenshot_quick_ocr_shortcut: String::new(),
        toggle_clipboard_monitor_shortcut: String::new(),
        toggle_paste_with_format_shortcut: "Ctrl+Alt+F".to_string(),
        paste_plain_text_shortcut: "Ctrl+Shift+T".to_string(),
        number_shortcuts: true,
        number_shortcuts_modifier: "Alt".to_string(),
    }
}

/// Registers `id` with `s`, the OS accepting.
fn register_ok(m: &mut HotkeyManager, id: &str, s: &str) {
    let start = register_shortcut(m, id, s);
    assert!(start.shortcut.is_ok());
    assert_eq!(complete_registration(m, id, s, Ok(())), Ok(()));
}

fn table(m: &HotkeyManager) -> Vec<(String, String)> {
    m.registered_shortcuts()
}

#[test]
fn tracker_first_press_repeat_and_release() {
    let mut keys = KeyActivationSet::new();
    assert!(keys.try_activate("x"));
    assert!(keys.is_active("x"));
    assert!(!keys.try_activate("x"));
    assert!(keys.is_active("x"));
    keys.deactivate("x");
    assert!(!keys.is_active("x"));
    assert!(keys.try_activate("x"));
    keys.deactivate("x");
    keys.deactivate("x");
    assert!(!keys.is_active("x"));
}

#[test]
fn manager_key_tracking_per_id() {
    let mut m = ready();
    assert!(try_activate_key(&mut m, "number_1"));
    assert!(try_activate_key(&mut m, "number_2"));
    assert!(!try_activate_key(&mut m, "number_1"));
    deactivate_key(&mut m, "number_1");
    assert!(!is_key_active(&m, "number_1"));
    assert!(is_key_active(&m, "number_2"));
    assert!(try_activate_key(&mut m, "number_1"));
}

#[test]
fn parse_ctrl_comma_equals_control_comma() {
    assert_eq!(normalize_descriptor("Ctrl+Shift+,"), "Control+Shift+Comma");
    assert_eq!(normalize_descriptor("Control+Shift+Comma"), "Control+Shift+Comma");
    let a = parse_shortcut("Ctrl+Shift+,").unwrap();
    let b = parse_shortcut("Control+Shift+Comma").unwrap();
    assert_eq!(a, b);
}

#[test]
fn parse_win_equals_super() {
    assert_eq!(normalize_descriptor("Win+1"), "Super+1");
    let a = parse_shortcut("Win+1").unwrap();
    let b = parse_shortcut("Super+1").unwrap();
    assert_eq!(a, b);
    assert_eq!(a.mods, b.mods);
}

#[test]
fn normalize_symbol_table() {
    assert_eq!(normalize_descriptor("Alt+?"), "Alt+Slash");
    assert_eq!(normalize_descriptor("Ctrl+Shift+~"), "Control+Shift+Backquote");
    assert_eq!(normalize_descriptor("Win+Ctrl+-"), "Super+Control+Minus");
    assert_eq!(normalize_descriptor("Alt+\\"), "Alt+Backslash");
    assert_eq!(normalize_descriptor("Alt+\""), "Alt+Quote");
    assert_eq!(normalize_descriptor("Alt+}"), "Alt+BracketRight");
    assert_eq!(normalize_descriptor("Alt+:"), "Alt+Semicolon");
    assert_eq!(normalize_descriptor("Alt+="), "Alt+Equal");
    assert_eq!(normalize_descriptor("Alt+>"), "Alt+Period");
    assert_eq!(normalize_descriptor("Ctrl+A"), "Control+A");
    assert_eq!(normalize_descriptor(","), ",");
    assert_eq!(normalize_descriptor(""), "");
    assert_eq!(normalize_descriptor("+,"), "+Comma");
}

#[test]
fn parse_rejects_unknown_key() {
    assert!(parse_shortcut("Ctrl+Shift+Nope").is_err());
    assert!(parse_shortcut("Ctrl++").is_err());
    assert!(parse_shortcut("Ctrl+Shift+V").is_ok());
    assert!(parse_shortcut("Alt+?").is_ok());
}

#[test]
fn string_helpers_exact() {
    assert_eq!(replace_all_str("Win+Win+A", "Win+", "Super+"), "Super+Super+A");
    assert_eq!(replace_all_str("aaa", "aa", "b"), "ba");
    assert_eq!(replace_all_str("abc", "", "x"), "abc");
    assert!(contains_str("HotKey already registered: x", "already registered"));
    assert!(!contains_str("failed", "already registered"));
    assert!(contains_str("abc", ""));
    let parts = vec!["Alt+3".to_string(), "Alt+7".to_string()];
    assert_eq!(join_strings(&parts, ", "), "Alt+3, Alt+7");
    assert_eq!(join_strings(&Vec::new(), ", "), "");
}

#[test]
fn number_descriptors() {
    assert_eq!(number_shortcut_descriptor("Alt", 1), "Alt+1");
    assert_eq!(number_shortcut_descriptor("Ctrl+Shift", 9), "Ctrl+Shift+9");
    assert_eq!(number_shortcut_descriptor("F", 4), "F4");
    assert_eq!(number_shortcut_descriptor("Ctrl+F", 2), "Ctrl+F2");
    assert_eq!(number_shortcut_descriptor("Ctrl++F", 5), "Ctrl+F5");
    assert_eq!(number_shortcut_descriptor("+F", 7), "F7");
    assert_eq!(number_shortcut_id(3), "number_3");
}

#[test]
fn reregister_keeps_one_entry() {
    let mut m = ready();
    register_ok(&mut m, "toggle", "Ctrl+Shift+V");
    let start = register_shortcut(&mut m, "toggle", "Alt+V");
    assert!(start.stale.is_some());
    assert_eq!(complete_registration(&mut m, "toggle", "Alt+V", Ok(())), Ok(()));
    let t = table(&m);
    assert_eq!(t, vec![("toggle".to_string(), "Alt+V".to_string())]);
    let st = get_shortcut_status(&m, "toggle").unwrap();
    assert!(st.success);
    assert_eq!(st.shortcut, "Alt+V");
}

#[test]
fn unregister_all_empties_both_tables() {
    let mut m = ready();
    register_ok(&mut m, "toggle", "Ctrl+Shift+V");
    register_ok(&mut m, "toggle_paste_with_format", "Ctrl+Alt+F");
    let bad = register_shortcut(&mut m, "toggle_clipboard_monitor", "Ctrl+Nope");
    assert!(matches!(bad.shortcut, Err(HotkeyError::ParseFailed(_))));
    assert_eq!(get_shortcut_statuses(&m).len(), 3);
    let stale = unregister_all(&mut m);
    assert_eq!(stale.len(), 2);
    assert!(table(&m).is_empty());
    assert!(get_shortcut_statuses(&m).is_empty());
}

#[test]
fn unregister_absent_id_is_no_error() {
    let mut m = ready();
    assert!(unregister_shortcut(&mut m, "missing").is_none());
    register_ok(&mut m, "toggle", "Ctrl+Shift+V");
    assert!(unregister_shortcut(&mut m, "toggle").is_some());
    assert!(get_shortcut_status(&m, "toggle").is_none());
    assert!(table(&m).is_empty());
}

#[test]
fn not_initialized_refuses_registration() {
    let mut m = HotkeyManager::new();
    let start = register_toggle_hotkey(&mut m, "Ctrl+Shift+V");
    assert_eq!(start.shortcut.unwrap_err(), HotkeyError::NotInitialized);
    assert!(start.stale.is_none());
    assert!(matches!(register_number_shortcuts(&mut m, "Alt"), Err(HotkeyError::NotInitialized)));
    assert!(get_shortcut_statuses(&m).is_empty());
}

#[test]
fn parse_failure_records_status() {
    let mut m = ready();
    let start = register_toggle_hotkey(&mut m, "Ctrl+Shift+Nope");
    assert!(matches!(start.shortcut, Err(HotkeyError::ParseFailed(_))));
    let st = get_shortcut_status(&m, "toggle").unwrap();
    assert!(!st.success);
    assert_eq!(st.shortcut, "Ctrl+Shift+Nope");
    assert_eq!(st.error, Some("REGISTRATION_FAILED".to_string()));
    assert!(table(&m).is_empty());
}

#[test]
fn os_conflict_and_other_failure() {
    let mut m = ready();
    let _ = register_toggle_hotkey(&mut m, "Ctrl+Shift+V");
    let r = complete_registration(
        &mut m,
        "toggle",
        "Ctrl+Shift+V",
        Err("HotKey already registered: Control+Shift+V".to_string()),
    );
    assert_eq!(
        r,
        Err(HotkeyError::Conflict("HotKey already registered: Control+Shift+V".to_string()))
    );
    assert_eq!(get_shortcut_status(&m, "toggle").unwrap().error, Some("CONFLICT".to_string()));
    let r2 = complete_registration(&mut m, "toggle", "Ctrl+Shift+V", Err("denied".to_string()));
    assert_eq!(r2, Err(HotkeyError::OsError("denied".to_string())));
    assert_eq!(
        get_shortcut_status(&m, "toggle").unwrap().error,
        Some("REGISTRATION_FAILED".to_string())
    );
    assert!(table(&m).is_empty());
}

#[test]
fn every_id_records_its_status() {
    let mut m = ready();
    let q = register_quickpaste_hotkey(&mut m, "Alt+Nope");
    assert!(matches!(q.shortcut, Err(HotkeyError::ParseFailed(_))));
    let st = get_shortcut_status(&m, "quickpaste").unwrap();
    assert!(!st.success);
    assert_eq!(st.error, Some("REGISTRATION_FAILED".to_string()));
    let _ = register_quickpaste_hotkey(&mut m, "Alt+Q");
    assert_eq!(complete_registration(&mut m, "quickpaste", "Alt+Q", Ok(())), Ok(()));
    let st = get_shortcut_status(&m, "quickpaste").unwrap();
    assert!(st.success);
    assert_eq!(st.shortcut, "Alt+Q");
    assert_eq!(st.error, None);
    assert_eq!(table(&m), vec![("quickpaste".to_string(), "Alt+Q".to_string())]);
    let p = register_paste_plain_text_hotkey(&mut m, "Ctrl+Shift+T");
    assert!(p.shortcut.is_ok());
    let _ = complete_registration(&mut m, "paste_plain_text", "Ctrl+Shift+T", Err("x".to_string()));
    let st = get_shortcut_status(&m, "paste_plain_text").unwrap();
    assert!(!st.success);
    assert_eq!(st.error, Some("REGISTRATION_FAILED".to_string()));
    let _ = complete_registration(&mut m, "paste_plain_text", "Ctrl+Shift+T", Ok(()));
    assert!(get_shortcut_status(&m, "paste_plain_text").unwrap().success);
}

#[test]
fn registrations_append_in_order() {
    let mut m = ready();
    register_ok(&mut m, "toggle", "Ctrl+Shift+V");
    register_ok(&mut m, "quickpaste", "Alt+Q");
    register_ok(&mut m, "paste_plain_text", "Ctrl+Shift+T");
    register_ok(&mut m, "toggle", "Alt+V");
    assert_eq!(
        table(&m),
        vec![
            ("quickpaste".to_string(), "Alt+Q".to_string()),
            ("paste_plain_text".to_string(), "Ctrl+Shift+T".to_string()),
            ("toggle".to_string(), "Alt+V".to_string()),
        ]
    );
    let batch = register_number_shortcuts(&mut m, "Alt").unwrap();
    let outcomes: Vec<BatchOutcome> = batch.attempts.iter().map(|a| batch_outcome(a, true)).collect();
    complete_number_shortcuts(&mut m, &outcomes);
    let t = table(&m);
    assert_eq!(t.len(), 12);
    assert_eq!(t[2], ("toggle".to_string(), "Alt+V".to_string()));
    assert_eq!(t[3], ("number_1".to_string(), "Alt+1".to_string()));
    assert_eq!(t[11], ("number_9".to_string(), "Alt+9".to_string()));
    let _ = unregister_shortcut(&mut m, "quickpaste");
    let stale = unregister_number_shortcuts(&mut m);
    assert_eq!(stale.len(), 9);
    assert_eq!(
        table(&m),
        vec![
            ("paste_plain_text".to_string(), "Ctrl+Shift+T".to_string()),
            ("toggle".to_string(), "Alt+V".to_string()),
        ]
    );
}

#[test]
fn batch_unparsed_descriptors_are_reported() {
    let mut m = ready();
    let batch = register_number_shortcuts(&mut m, "Nope").unwrap();
    assert_eq!(batch.attempts.len(), 9);
    assert!(batch.attempts.iter().all(|a| a.shortcut.is_none()));
    let outcomes: Vec<BatchOutcome> = batch.attempts.iter().map(|a| batch_outcome(a, true)).collect();
    complete_number_shortcuts(&mut m, &outcomes);
    assert!(table(&m).is_empty());
    let st = get_shortcut_status(&m, "number_shortcuts").unwrap();
    assert_eq!(
        st.shortcut,
        "Nope+1, Nope+2, Nope+3, Nope+4, Nope+5, Nope+6, Nope+7, Nope+8, Nope+9"
    );
    assert_eq!(st.error, Some("REGISTRATION_FAILED".to_string()));
}

#[test]
fn key_event_decisions() {
    let mut m = ready();
    assert_eq!(key_event(&mut m, "number_2", true), KeyEventAction::FirstPress);
    assert_eq!(key_event(&mut m, "number_2", true), KeyEventAction::Repeat);
    assert_eq!(key_event(&mut m, "number_2", true), KeyEventAction::Repeat);
    assert_eq!(key_event(&mut m, "number_2", false), KeyEventAction::Released);
    assert!(!is_key_active(&m, "number_2"));
    assert_eq!(key_event(&mut m, "number_2", false), KeyEventAction::Released);
    assert_eq!(key_event(&mut m, "number_2", true), KeyEventAction::FirstPress);
}

#[test]
fn coalescing_long_burst() {
    let mut m = ready();
    assert!(sync_hotkeys_for_foreground(&mut m, true, true));
    let in_flight = sync_target(&m);
    for i in 0..25 {
        assert!(!sync_hotkeys_for_foreground(&mut m, true, i % 2 == 0));
    }
    // the last request (i = 24) asked for exclusion
    assert_eq!(m.sync_state().desired(), HotkeyActivation::Inactive);
    assert!(sync_applied(&mut m, in_flight));
    assert_eq!(m.sync_state().current(), HotkeyActivation::Inactive);
    assert!(!m.sync_state().is_syncing());
}

#[test]
fn batch_isolation_one_refused() {
    let mut m = ready();
    let batch = register_number_shortcuts(&mut m, "Alt").unwrap();
    assert_eq!(batch.attempts.len(), 9);
    assert_eq!(batch.attempts[4].shortcut_str, "Alt+5");
    assert_eq!(batch.attempts[4].id, "number_5");
    let outcomes: Vec<BatchOutcome> = batch
        .attempts
        .iter()
        .map(|a| BatchOutcome {
            id: a.id.clone(),
            shortcut_str: a.shortcut_str.clone(),
            registered: a.shortcut.is_some() && a.shortcut_str != "Alt+5",
        })
        .collect();
    complete_number_shortcuts(&mut m, &outcomes);
    let t = table(&m);
    assert_eq!(t.len(), 8);
    assert!(t.iter().all(|(id, _)| id != "number_5"));
    let st = get_shortcut_status(&m, "number_shortcuts").unwrap();
    assert!(!st.success);
    assert_eq!(st.shortcut, "Alt+5");
    assert_eq!(st.error, Some("REGISTRATION_FAILED".to_string()));
}

#[test]
fn batch_two_refused_joined() {
    let mut m = ready();
    let batch = register_number_shortcuts(&mut m, "Ctrl+F").unwrap();
    assert_eq!(batch.attempts[0].shortcut_str, "Ctrl+F1");
    let outcomes: Vec<BatchOutcome> = batch
        .attempts
        .iter()
        .map(|a| BatchOutcome {
            id: a.id.clone(),
            shortcut_str: a.shortcut_str.clone(),
            registered: a.id != "number_3" && a.id != "number_7",
        })
        .collect();
    complete_number_shortcuts(&mut m, &outcomes);
    assert_eq!(table(&m).len(), 7);
    assert_eq!(get_shortcut_status(&m, "number_shortcuts").unwrap().shortcut, "Ctrl+F3, Ctrl+F7");
    // a new batch drops the old numbered entries and the aggregate status
    let again = register_number_shortcuts(&mut m, "Alt").unwrap();
    assert_eq!(again.stale.len(), 7);
    assert!(table(&m).is_empty());
    assert!(get_shortcut_status(&m, "number_shortcuts").is_none());
}

#[test]
fn batch_all_registered_has_no_status() {
    let mut m = ready();
    let batch = register_number_shortcuts(&mut m, "Alt").unwrap();
    let outcomes: Vec<BatchOutcome> = batch.attempts.iter().map(|a| batch_outcome(a, true)).collect();
    complete_number_shortcuts(&mut m, &outcomes);
    assert_eq!(table(&m).len(), 9);
    assert!(get_shortcut_status(&m, "number_shortcuts").is_none());
}

#[test]
fn reload_with_hotkeys_disabled_registers_nothing() {
    let mut m = ready();
    register_ok(&mut m, "toggle", "Ctrl+Shift+V");
    let plan = reload_from_settings(&mut m, &settings(false));
    assert!(plan.requests.is_empty());
    assert_eq!(plan.stale.len(), 1);
    assert!(table(&m).is_empty());
    assert!(get_shortcut_statuses(&m).is_empty());
}

#[test]
fn reload_requests_in_order() {
    let r = reload_requests(&settings(true), false);
    let got: Vec<(HotkeyAction, String)> =
        r.iter().map(|q| (q.action, q.shortcut_str.clone())).collect();
    assert_eq!(
        got,
        vec![
            (HotkeyAction::Toggle, "Ctrl+Shift+V".to_string()),
            (HotkeyAction::QuickPaste, "Alt+Q".to_string()),
            (HotkeyAction::TogglePasteWithFormat, "Ctrl+Alt+F".to_string()),
            (HotkeyAction::PastePlainText, "Ctrl+Shift+T".to_string()),
            (HotkeyAction::NumberShortcuts, "Alt".to_string()),
        ]
    );
    assert!(reload_requests(&settings(true), true).is_empty());
}

#[test]
fn foreground_exclusion_converges_inactive() {
    let mut m = ready();
    register_ok(&mut m, "toggle", "Ctrl+Shift+V");
    let spawn = sync_hotkeys_for_foreground(&mut m, true, true);
    assert!(spawn);
    let target = sync_target(&m);
    assert_eq!(target, HotkeyActivation::Inactive);
    let plan = apply_activation(&mut m, target, &settings(true));
    assert!(plan.requests.is_empty());
    assert_eq!(plan.stale.len(), 1);
    assert!(sync_applied(&mut m, target));
    assert!(table(&m).is_empty());
    assert_eq!(m.sync_state().current(), HotkeyActivation::Inactive);
    assert!(!m.sync_state().is_syncing());
    // leaving the excluded application converges back to active
    assert!(sync_hotkeys_for_foreground(&mut m, true, false));
    let target = sync_target(&m);
    let plan = apply_activation(&mut m, target, &settings(true));
    assert_eq!(plan.requests.len(), 5);
    assert!(sync_applied(&mut m, target));
}

#[test]
fn coalescing_bursts_into_one_worker() {
    let mut m = ready();
    assert!(sync_hotkeys_for_foreground(&mut m, true, true));
    let in_flight = sync_target(&m);
    assert_eq!(in_flight, HotkeyActivation::Inactive);
    assert!(!sync_hotkeys_for_foreground(&mut m, true, false));
    assert!(!sync_hotkeys_for_foreground(&mut m, true, true));
    assert!(!sync_hotkeys_for_foreground(&mut m, true, false));
    assert!(m.sync_state().is_syncing());
    assert_eq!(m.sync_state().desired(), HotkeyActivation::Active);
    assert!(!sync_applied(&mut m, in_flight));
    let next = sync_target(&m);
    assert_eq!(next, HotkeyActivation::Active);
    assert!(sync_applied(&mut m, next));
    assert_eq!(m.sync_state().current(), m.sync_state().desired());
    assert_eq!(m.sync_state().current(), HotkeyActivation::Active);
}

#[test]
fn quiescence_after_each_step() {
    let mut m = ready();
    let quiet = |m: &HotkeyManager| {
        m.sync_state().is_syncing() || m.sync_state().current() == m.sync_state().desired()
    };
    assert!(quiet(&m));
    assert!(!sync_hotkeys_for_foreground(&mut m, true, false));
    assert!(quiet(&m));
    assert!(sync_hotkeys_for_foreground(&mut m, false, false));
    assert!(quiet(&m));
    assert!(sync_applied(&mut m, HotkeyActivation::Inactive));
    assert!(quiet(&m));
    assert!(!m.sync_state().is_syncing());
}

#[test]
fn desired_activation_table() {
    assert_eq!(desired_activation(true, true, false), HotkeyActivation::Active);
    assert_eq!(desired_activation(false, true, false), HotkeyActivation::Inactive);
    assert_eq!(desired_activation(true, false, false), HotkeyActivation::Inactive);
    assert_eq!(desired_activation(true, true, true), HotkeyActivation::Inactive);
}

#[test]
fn runtime_switch() {
    let mut m = ready();
    assert!(is_hotkeys_enabled(&m));
    assert!(enable_hotkeys(&mut m, &settings(true)).is_none());
    register_ok(&mut m, "toggle", "Ctrl+Shift+V");
    let stale = disable_hotkeys(&mut m);
    assert_eq!(stale.len(), 1);
    assert!(!is_hotkeys_enabled(&m));
    assert!(table(&m).is_empty());
    assert!(disable_hotkeys(&mut m).is_empty());
    let plan = enable_hotkeys(&mut m, &settings(true)).unwrap();
    assert_eq!(plan.requests.len(), 5);
    assert!(is_hotkeys_enabled(&m));
    // with the runtime switch off, synchronising asks for inactive
    let _ = disable_hotkeys(&mut m);
    assert!(sync_hotkeys_for_foreground(&mut m, true, false));
    assert_eq!(sync_target(&m), HotkeyActivation::Inactive);
}

#[test]
fn screenshot_bindings_are_inert() {
    assert_eq!(register_screenshot_hotkey("Alt+S"), Ok(()));
    assert_eq!(register_screenshot_quick_save_hotkey("Alt+1"), Ok(()));
    assert_eq!(register_screenshot_quick_pin_hotkey("Alt+2"), Ok(()));
    assert_eq!(register_screenshot_quick_ocr_hotkey(""), Ok(()));
}

#[test]
fn quickpaste_event_rule() {
    assert_eq!(quickpaste_action(true, false, false, false, false), QuickPasteAction::Show);
    assert_eq!(quickpaste_action(true, false, false, true, true), QuickPasteAction::Nothing);
    assert_eq!(quickpaste_action(true, false, false, true, false), QuickPasteAction::Show);
    assert_eq!(quickpaste_action(false, false, false, false, true), QuickPasteAction::Hide);
    assert_eq!(quickpaste_action(false, false, false, true, true), QuickPasteAction::Nothing);
    assert_eq!(quickpaste_action(true, true, false, false, false), QuickPasteAction::Nothing);
    assert_eq!(quickpaste_action(true, false, true, false, false), QuickPasteAction::Nothing);
}

#[test]
fn press_decisions() {
    assert_eq!(plain_text_press_action(true, Some(4)), PlainTextAction::NotifyWindow);
    assert_eq!(plain_text_press_action(false, Some(4)), PlainTextAction::PasteItem(4));
    assert_eq!(plain_text_press_action(false, None), PlainTextAction::Nothing);
    let ids = vec![30, 20, 10];
    assert_eq!(pick_history_item(&ids, 0), Ok(30));
    assert_eq!(pick_history_item(&ids, 2), Ok(10));
    assert_eq!(pick_history_item(&ids, 3), Err(PressError::IndexOutOfRange { index: 3, len: 3 }));
    assert_eq!(pick_history_item(&Vec::new(), 0), Err(PressError::IndexOutOfRange { index: 0, len: 0 }));
}
