//! Global-shortcut activation engine: descriptor normalisation, a registration
//! table with per-action status, an activation synchroniser that coalesces
//! concurrent requests, and a tracker that tells a first key press from repeats.
//!
//! The engine decides and records; the caller performs the OS work that each
//! step hands back (shortcuts to unregister, registrations to make) and
//! reports the OS's answer to the matching completion step.
use vstd::prelude::*;

pub mod batch;
pub mod descriptor;
pub mod hotkey;
pub mod keyed;
pub mod press;
pub mod registry;
pub mod status;
pub mod sync;
pub mod tracker;

pub use batch::{join_strings, number_shortcut_descriptor, number_shortcut_id, BatchOutcome};
pub use descriptor::{contains_str, normalize_descriptor, parse_shortcut, replace_all_str};
pub use hotkey::{
    apply_activation, batch_outcome, complete_number_shortcuts, complete_registration,
    deactivate_key, disable_hotkeys, enable_hotkeys, get_shortcut_status, get_shortcut_statuses,
    init_hotkey_manager, is_foreground_globally_disabled, is_hotkeys_enabled, is_key_active,
    key_event, register_number_shortcuts, register_paste_plain_text_hotkey,
    register_quickpaste_hotkey, register_screenshot_hotkey, register_screenshot_quick_ocr_hotkey,
    register_screenshot_quick_pin_hotkey, register_screenshot_quick_save_hotkey, register_shortcut,
    register_toggle_clipboard_monitor_hotkey, register_toggle_hotkey,
    register_toggle_paste_with_format_hotkey, reload_from_settings, reload_requests, sync_applied,
    sync_hotkeys_for_foreground, sync_target, try_activate_key, unregister_all,
    unregister_number_shortcuts, unregister_shortcut, ActionRequest, HotkeyAction, HotkeyError,
    HotkeyManager, HotkeySettings, KeyEventAction, NumberAttempt, NumberBatch, RegistrationStart,
    ReloadPlan,
};
pub use press::{
    pick_history_item, plain_text_press_action, quickpaste_action, PlainTextAction, PressError,
    QuickPasteAction,
};
pub use registry::RegistrationTable;
pub use status::{ShortcutStatus, StatusTable};
pub use sync::{desired_activation, HotkeyActivation, HotkeySyncState};
pub use tracker::KeyActivationSet;

verus! {

} // verus!
