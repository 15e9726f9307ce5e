use vstd::prelude::*;
use global_hotkey::hotkey::HotKey;
use crate::batch::{
    append_successes, apply_successes, failed_descriptors, join_strings, number_descriptor, number_id,
    number_shortcut_descriptor, number_shortcut_id, outcome_views, string_views, join_with,
    BatchOutcome,
};
use crate::descriptor::{
    canonical_descriptor, contains_str, has_substring, parse_shortcut, shortcut_grammar_accepts,
};
use crate::registry::{drop_id, drop_numbered, numbered_descriptors, pair_views, without_numbered, RegistrationTable};
use crate::status::{ShortcutStatus, StatusTable, StatusView};
use crate::sync::{
    after_applied, after_request, desired_activation, desired_for, quiescent_consistent,
    request_spawns, HotkeyActivation, HotkeySyncState, SyncView,
};
use crate::tracker::KeyActivationSet;

verus! {

/// Why a registration did not take effect.
#[derive(Debug, Clone, PartialEq, Eq)]
pub enum HotkeyError {
    /// The manager was used before `init_hotkey_manager`.
    NotInitialized,
    /// The descriptor does not parse as a shortcut.
    ParseFailed(String),
    /// The OS reports the combination as bound by another registrant.
    Conflict(String),
    /// Any other failure of the OS registration.
    OsError(String),
}

/// The status error code of a failed registration.
pub open spec fn registration_failed_code() -> Seq<char> {
    "REGISTRATION_FAILED"@
}

/// The status error code of a combination already bound elsewhere.
pub open spec fn conflict_code() -> Seq<char> {
    "CONFLICT"@
}

/// The status error code for an OS failure with message `msg`.
pub open spec fn failure_code(msg: Seq<char>) -> Seq<char> {
    if has_substring(msg, "already registered"@) {
        conflict_code()
    } else {
        registration_failed_code()
    }
}

/// The status recorded for `id` after an attempt with `shortcut`.
pub open spec fn status_of(
    id: Seq<char>,
    shortcut: Seq<char>,
    success: bool,
    error: Option<Seq<char>>,
) -> StatusView {
    StatusView { id, shortcut, success, error }
}

/// The id of the aggregate status of the numbered family.
pub open spec fn number_batch_id() -> Seq<char> {
    "number_shortcuts"@
}

/// The status table after a numbered batch with outcomes `o`: one aggregate
/// failure listing the refused descriptors, if any was refused.
pub open spec fn statuses_after_batch(
    s: Map<Seq<char>, StatusView>,
    o: Seq<(Seq<char>, Seq<char>, bool)>,
) -> Map<Seq<char>, StatusView> {
    if failed_descriptors(o).len() == 0 {
        s
    } else {
        s.insert(
            number_batch_id(),
            status_of(
                number_batch_id(),
                join_with(failed_descriptors(o), ", "@),
                false,
                Some(registration_failed_code()),
            ),
        )
    }
}

/// How many of `e`'s descriptors parse: the shortcuts that unregistering
/// them all hands to the OS.
pub open spec fn parsable_count(e: Seq<(Seq<char>, Seq<char>)>) -> nat
    decreases e.len(),
{
    if e.len() == 0 {
        0
    } else {
        parsable_count(e.drop_last()) + if shortcut_grammar_accepts(
            canonical_descriptor(e.last().1),
        ) {
            1nat
        } else {
            0nat
        }
    }
}

/// How many of the descriptors `ds` parse.
pub open spec fn accepted_count(ds: Seq<Seq<char>>) -> nat
    decreases ds.len(),
{
    if ds.len() == 0 {
        0
    } else {
        accepted_count(ds.drop_last()) + if shortcut_grammar_accepts(
            canonical_descriptor(ds.last()),
        ) {
            1nat
        } else {
            0nat
        }
    }
}

/// The registration table after `id` was registered with `descriptor`.
pub open spec fn registered_after(
    t: Map<Seq<char>, Seq<char>>,
    id: Seq<char>,
    descriptor: Seq<char>,
) -> Map<Seq<char>, Seq<char>> {
    t.remove(id).insert(id, descriptor)
}

/// The first half of a registration: the shortcut left over from an earlier
/// registration of the same id, to unregister from the OS, and the parsed
/// shortcut to register (or why there is none).
pub struct RegistrationStart {
    pub stale: Option<HotKey>,
    pub shortcut: Result<HotKey, HotkeyError>,
}

/// One numbered shortcut: its id, its descriptor, and the shortcut to hand
/// to the OS, or none when the descriptor does not parse.
pub struct NumberAttempt {
    pub id: String,
    pub shortcut_str: String,
    pub shortcut: Option<HotKey>,
}

/// The first half of registering the numbered family: the shortcuts to
/// unregister from the OS, and the nine attempts, in order.
pub struct NumberBatch {
    pub stale: Vec<HotKey>,
    pub attempts: Vec<NumberAttempt>,
}

/// The (id, descriptor) views of a batch's attempts.
pub open spec fn attempt_views(v: Seq<NumberAttempt>) -> Seq<(Seq<char>, Seq<char>)> {
    v.map_values(|a: NumberAttempt| (a.id@, a.shortcut_str@))
}

/// The ids and descriptors of numbered shortcuts 1 to `k`, in order.
pub open spec fn number_attempts(modifier: Seq<char>, k: nat) -> Seq<(Seq<char>, Seq<char>)>
    decreases k,
{
    if k == 0 {
        Seq::empty()
    } else {
        number_attempts(modifier, (k - 1) as nat).push(
            (number_id(k), number_descriptor(modifier, k)),
        )
    }
}

/// Each attempt carries a shortcut exactly when its descriptor parses.
pub open spec fn attempts_parsed(v: Seq<NumberAttempt>) -> bool {
    forall|j: int|
        0 <= j < v.len() ==> ((#[trigger] v[j]).shortcut is Some <==> shortcut_grammar_accepts(
            canonical_descriptor(v[j].shortcut_str@),
        ))
}

/// The actions a reload registers.
#[derive(Clone, Copy, Debug, PartialEq, Eq, Structural)]
pub enum HotkeyAction {
    Toggle,
    QuickPaste,
    Screenshot,
    ScreenshotQuickSave,
    ScreenshotQuickPin,
    ScreenshotQuickOcr,
    ToggleClipboardMonitor,
    TogglePasteWithFormat,
    PastePlainText,
    NumberShortcuts,
}

/// The shortcut settings a reload reads.
pub struct HotkeySettings {
    pub hotkeys_enabled: bool,
    pub toggle_shortcut: String,
    pub quickpaste_enabled: bool,
    pub quickpaste_shortcut: String,
    pub screenshot_enabled: bool,
    pub screenshot_shortcut: String,
    pub screenshot_quick_save_shortcut: String,
    pub screenshot_quick_pin_shortcut: String,
    pub screenshot_quick_ocr_shortcut: String,
    pub toggle_clipboard_monitor_shortcut: String,
    pub toggle_paste_with_format_shortcut: String,
    pub paste_plain_text_shortcut: String,
    pub number_shortcuts: bool,
    pub number_shortcuts_modifier: String,
}

/// One registration a reload asks for: the action and its descriptor (for
/// the numbered family, its modifier).
pub struct ActionRequest {
    pub action: HotkeyAction,
    pub shortcut_str: String,
}

pub open spec fn request_views(v: Seq<ActionRequest>) -> Seq<(HotkeyAction, Seq<char>)> {
    v.map_values(|r: ActionRequest| (r.action, r.shortcut_str@))
}

/// `(a, s)` when `on`, else nothing.
pub open spec fn request_if(on: bool, a: HotkeyAction, s: Seq<char>) -> Seq<(HotkeyAction, Seq<char>)> {
    if on {
        seq![(a, s)]
    } else {
        Seq::empty()
    }
}

/// The registrations a reload asks for, in order: each enabled action with a
/// non-empty descriptor; none when shortcuts are off in the settings or the
/// foreground application excludes them.
pub open spec fn reload_requests_for(st: HotkeySettings, foreground_disabled: bool) -> Seq<
    (HotkeyAction, Seq<char>),
> {
    if !st.hotkeys_enabled || foreground_disabled {
        Seq::empty()
    } else {
        request_if(st.toggle_shortcut@.len() > 0, HotkeyAction::Toggle, st.toggle_shortcut@)
            + request_if(
            st.quickpaste_enabled && st.quickpaste_shortcut@.len() > 0,
            HotkeyAction::QuickPaste,
            st.quickpaste_shortcut@,
        ) + request_if(
            st.screenshot_enabled && st.screenshot_shortcut@.len() > 0,
            HotkeyAction::Screenshot,
            st.screenshot_shortcut@,
        ) + request_if(
            st.screenshot_enabled && st.screenshot_quick_save_shortcut@.len() > 0,
            HotkeyAction::ScreenshotQuickSave,
            st.screenshot_quick_save_shortcut@,
        ) + request_if(
            st.screenshot_enabled && st.screenshot_quick_pin_shortcut@.len() > 0,
            HotkeyAction::ScreenshotQuickPin,
            st.screenshot_quick_pin_shortcut@,
        ) + request_if(
            st.screenshot_enabled && st.screenshot_quick_ocr_shortcut@.len() > 0,
            HotkeyAction::ScreenshotQuickOcr,
            st.screenshot_quick_ocr_shortcut@,
        ) + request_if(
            st.toggle_clipboard_monitor_shortcut@.len() > 0,
            HotkeyAction::ToggleClipboardMonitor,
            st.toggle_clipboard_monitor_shortcut@,
        ) + request_if(
            st.toggle_paste_with_format_shortcut@.len() > 0,
            HotkeyAction::TogglePasteWithFormat,
            st.toggle_paste_with_format_shortcut@,
        ) + request_if(
            st.paste_plain_text_shortcut@.len() > 0,
            HotkeyAction::PastePlainText,
            st.paste_plain_text_shortcut@,
        ) + request_if(
            st.number_shortcuts && st.number_shortcuts_modifier@.len() > 0,
            HotkeyAction::NumberShortcuts,
            st.number_shortcuts_modifier@,
        )
    }
}

/// What a reload (or a switch to inactive) leaves to do at the OS: the
/// shortcuts to unregister, then the registrations to make, in order.
pub struct ReloadPlan {
    pub stale: Vec<HotKey>,
    pub requests: Vec<ActionRequest>,
}

/// The registration table, status table, activation state and key tracker
/// of one application, with the runtime switches they depend on.
pub struct HotkeyManager {
    initialized: bool,
    hotkeys_enabled: bool,
    foreground_disabled: bool,
    registered: RegistrationTable,
    statuses: StatusTable,
    sync: HotkeySyncState,
    keys: KeyActivationSet,
}

impl HotkeyManager {
    pub closed spec fn wf(&self) -> bool {
        &&& self.registered.wf()
        &&& self.statuses.wf()
        &&& self.keys.wf()
        &&& quiescent_consistent(self.sync@)
    }

    /// Whether the application handle was installed.
    pub closed spec fn initialized(&self) -> bool {
        self.initialized
    }

    /// The runtime switch, independent of the settings.
    pub closed spec fn enabled(&self) -> bool {
        self.hotkeys_enabled
    }

    /// Whether the foreground application excludes global shortcuts.
    pub closed spec fn foreground_disabled(&self) -> bool {
        self.foreground_disabled
    }

    /// Action id to the descriptor it is registered with.
    pub closed spec fn table(&self) -> Map<Seq<char>, Seq<char>> {
        self.registered@
    }

    /// The registrations as (id, descriptor), in registration order.
    pub closed spec fn table_entries(&self) -> Seq<(Seq<char>, Seq<char>)> {
        self.registered.entries_seq()
    }

    /// The registration map is the one the ordered entries describe, and a
    /// well-formed manager holds no id twice.
    pub proof fn lemma_table_entries(&self)
        ensures
            self.table() == crate::keyed::map_of(self.table_entries()),
            self.wf() ==> crate::keyed::keys_of(self.table_entries()).no_duplicates(),
    {
    }

    /// Action id (or aggregate id) to the outcome of its last attempt.
    pub closed spec fn status_map(&self) -> Map<Seq<char>, StatusView> {
        self.statuses@
    }

    pub closed spec fn sync_view(&self) -> SyncView {
        self.sync@
    }

    /// The action ids whose key is held.
    pub closed spec fn held(&self) -> Set<Seq<char>> {
        self.keys@
    }

    pub fn new() -> (r: Self)
        ensures
            r.wf(),
            !r.initialized(),
            r.enabled(),
            !r.foreground_disabled(),
            r.table() == Map::<Seq<char>, Seq<char>>::empty(),
            r.status_map() == Map::<Seq<char>, StatusView>::empty(),
            r.sync_view() == crate::sync::initial_sync(),
            r.held() == Set::<Seq<char>>::empty(),
    {
        HotkeyManager {
            initialized: false,
            hotkeys_enabled: true,
            foreground_disabled: false,
            registered: RegistrationTable::new(),
            statuses: StatusTable::new(),
            sync: HotkeySyncState::new(),
            keys: KeyActivationSet::new(),
        }
    }

    /// A copy of the live registrations, in registration order.
    pub fn registered_shortcuts(&self) -> (r: Vec<(String, String)>)
        requires
            self.wf(),
        ensures
            crate::keyed::map_of(crate::registry::pair_views(r@)) == self.table(),
            crate::keyed::keys_of(crate::registry::pair_views(r@)).no_duplicates(),
    {
        let r = self.registered.entries();
        r
    }

    pub fn sync_state(&self) -> (r: &HotkeySyncState)
        ensures
            r@ == self.sync_view(),
    {
        &self.sync
    }
}

/// Installs the application handle; every registration fails before this.
pub fn init_hotkey_manager(m: &mut HotkeyManager)
    requires
        old(m).wf(),
    ensures
        final(m).wf(),
        final(m).initialized(),
        final(m).enabled() == old(m).enabled(),
        final(m).foreground_disabled() == old(m).foreground_disabled(),
        final(m).table() == old(m).table(),
        final(m).status_map() == old(m).status_map(),
        final(m).sync_view() == old(m).sync_view(),
        final(m).held() == old(m).held(),
{
    m.initialized = true;
}

/// First press of `id`: true exactly when it was not held already.
pub fn try_activate_key(m: &mut HotkeyManager, id: &str) -> (r: bool)
    requires
        old(m).wf(),
    ensures
        final(m).wf(),
        r == !old(m).held().contains(id@),
        final(m).held() == old(m).held().insert(id@),
        final(m).table() == old(m).table(),
        final(m).status_map() == old(m).status_map(),
        final(m).sync_view() == old(m).sync_view(),
        final(m).initialized() == old(m).initialized(),
        final(m).enabled() == old(m).enabled(),
        final(m).foreground_disabled() == old(m).foreground_disabled(),
{
    m.keys.try_activate(id)
}

/// What a key event of a shortcut that tells first press from repeat means.
#[derive(Clone, Copy, Debug, PartialEq, Eq, Structural)]
pub enum KeyEventAction {
    /// The key went down: run the action.
    FirstPress,
    /// Auto-repeat while held: replay the cheap repeat action.
    Repeat,
    /// The key came up.
    Released,
}

/// A press or release of `id`: a press is a first press when `id` was not
/// held and a repeat otherwise, and leaves it held; a release always
/// leaves it not held.
pub fn key_event(m: &mut HotkeyManager, id: &str, pressed: bool) -> (r: KeyEventAction)
    requires
        old(m).wf(),
    ensures
        final(m).wf(),
        pressed ==> r == (if old(m).held().contains(id@) {
            KeyEventAction::Repeat
        } else {
            KeyEventAction::FirstPress
        }),
        pressed ==> final(m).held() == old(m).held().insert(id@),
        !pressed ==> r == KeyEventAction::Released,
        !pressed ==> final(m).held() == old(m).held().remove(id@),
        final(m).table() == old(m).table(),
        final(m).table_entries() == old(m).table_entries(),
        final(m).status_map() == old(m).status_map(),
        final(m).sync_view() == old(m).sync_view(),
        final(m).initialized() == old(m).initialized(),
        final(m).enabled() == old(m).enabled(),
        final(m).foreground_disabled() == old(m).foreground_disabled(),
{
    if pressed {
        if m.keys.try_activate(id) {
            KeyEventAction::FirstPress
        } else {
            KeyEventAction::Repeat
        }
    } else {
        m.keys.deactivate(id);
        KeyEventAction::Released
    }
}

/// Whether `id` is held (true for repeats after the first press).
pub fn is_key_active(m: &HotkeyManager, id: &str) -> (r: bool)
    ensures
        r == m.held().contains(id@),
{
    m.keys.is_active(id)
}

/// Release of `id`, or a failed first-press action: it is no longer held.
pub fn deactivate_key(m: &mut HotkeyManager, id: &str)
    requires
        old(m).wf(),
    ensures
        final(m).wf(),
        final(m).held() == old(m).held().remove(id@),
        final(m).table() == old(m).table(),
        final(m).status_map() == old(m).status_map(),
        final(m).sync_view() == old(m).sync_view(),
        final(m).initialized() == old(m).initialized(),
        final(m).enabled() == old(m).enabled(),
        final(m).foreground_disabled() == old(m).foreground_disabled(),
{
    m.keys.deactivate(id)
}

pub fn is_foreground_globally_disabled(m: &HotkeyManager) -> (r: bool)
    ensures
        r == m.foreground_disabled(),
{
    m.foreground_disabled
}

pub fn is_hotkeys_enabled(m: &HotkeyManager) -> (r: bool)
    ensures
        r == m.enabled(),
{
    m.hotkeys_enabled
}

/// Every recorded status, one per id.
pub fn get_shortcut_statuses(m: &HotkeyManager) -> (r: Vec<ShortcutStatus>)
    requires
        m.wf(),
    ensures
        crate::keyed::keys_of(crate::status::status_views(r@)).no_duplicates(),
        crate::keyed::map_of(crate::status::status_views(r@)) == m.status_map(),
{
    m.statuses.all()
}

/// The status of `id`, if one is recorded.
pub fn get_shortcut_status(m: &HotkeyManager, id: &str) -> (r: Option<ShortcutStatus>)
    requires
        m.wf(),
    ensures
        match r {
            Some(s) => m.status_map().contains_key(id@) && s@ == m.status_map()[id@],
            None => !m.status_map().contains_key(id@),
        },
{
    m.statuses.get(id)
}

/// Drops the registration of `id` and its status. Hands back the shortcut to
/// unregister from the OS, parsed afresh from the stored descriptor. Does
/// nothing before `init_hotkey_manager`; an absent id is no error.
pub fn unregister_shortcut(m: &mut HotkeyManager, id: &str) -> (r: Option<HotKey>)
    requires
        old(m).wf(),
    ensures
        final(m).wf(),
        old(m).initialized() ==> final(m).table() == old(m).table().remove(id@),
        old(m).initialized() ==> final(m).table_entries() == drop_id(old(m).table_entries(), id@),
        old(m).initialized() ==> final(m).status_map() == old(m).status_map().remove(id@),
        !old(m).initialized() ==> final(m).table() == old(m).table() && final(m).table_entries()
            == old(m).table_entries() && final(m).status_map() == old(m).status_map() && r is None,
        r is Some <==> old(m).initialized() && old(m).table().contains_key(id@)
            && shortcut_grammar_accepts(canonical_descriptor(old(m).table()[id@])),
        final(m).initialized() == old(m).initialized(),
        final(m).enabled() == old(m).enabled(),
        final(m).foreground_disabled() == old(m).foreground_disabled(),
        final(m).sync_view() == old(m).sync_view(),
        final(m).held() == old(m).held(),
{
    if !m.initialized {
        return None;
    }
    let removed = m.registered.remove(id);
    m.statuses.clear(id);
    match removed {
        Some(d) => match parse_shortcut(d.as_str()) {
            Ok(hk) => Some(hk),
            Err(_) => None,
        },
        None => None,
    }
}

/// The first half of registering `id` with `shortcut_str` took `before` to
/// `after` and answered `r`.
pub open spec fn registration_started(
    before: HotkeyManager,
    after: HotkeyManager,
    id: Seq<char>,
    shortcut_str: Seq<char>,
    r: RegistrationStart,
) -> bool {
    let accepted = shortcut_grammar_accepts(canonical_descriptor(shortcut_str));
    &&& after.wf()
    &&& after.initialized() == before.initialized()
    &&& after.enabled() == before.enabled()
    &&& after.foreground_disabled() == before.foreground_disabled()
    &&& after.sync_view() == before.sync_view()
    &&& after.held() == before.held()
    &&& if !before.initialized() {
        &&& r.stale is None
        &&& r.shortcut == Err::<HotKey, HotkeyError>(HotkeyError::NotInitialized)
        &&& after.table() == before.table()
        &&& after.table_entries() == before.table_entries()
        &&& after.status_map() == before.status_map()
    } else {
        &&& after.table() == before.table().remove(id)
        &&& (r.stale is Some <==> before.table().contains_key(id) && shortcut_grammar_accepts(
            canonical_descriptor(before.table()[id]),
        ))
        &&& (r.shortcut is Ok <==> accepted)
        &&& (!accepted ==> r.shortcut matches Err(HotkeyError::ParseFailed(_)))
        &&& after.table_entries() == drop_id(before.table_entries(), id)
        &&& after.status_map() == if !accepted {
            before.status_map().remove(id).insert(
                id,
                status_of(id, shortcut_str, false, Some(registration_failed_code())),
            )
        } else {
            before.status_map().remove(id)
        }
    }
}

/// First half of registering `id` with `shortcut_str`: any earlier
/// registration of `id` is dropped (its shortcut handed back to unregister
/// from the OS), then the descriptor is parsed. A parse failure is recorded
/// as a failed status.
pub fn register_shortcut(m: &mut HotkeyManager, id: &str, shortcut_str: &str) -> (r:
    RegistrationStart)
    requires
        old(m).wf(),
    ensures
        registration_started(*old(m), *final(m), id@, shortcut_str@, r),
{
    if !m.initialized {
        return RegistrationStart { stale: None, shortcut: Err(HotkeyError::NotInitialized) };
    }
    let stale = unregister_shortcut(m, id);
    match parse_shortcut(shortcut_str) {
        Ok(hk) => RegistrationStart { stale, shortcut: Ok(hk) },
        Err(e) => {
            m.statuses.set(
                ShortcutStatus {
                    id: id.to_owned(),
                    shortcut: shortcut_str.to_owned(),
                    success: false,
                    error: Some("REGISTRATION_FAILED".to_owned()),
                },
            );
            RegistrationStart { stale, shortcut: Err(HotkeyError::ParseFailed(e)) }
        },
    }
}

/// Second half of registering `id` with `shortcut_str`, given what the OS
/// answered. On success the registration is entered; on failure the table is
/// left as it was, and the failure is classified as a conflict when the OS
/// says the combination is already registered.
pub fn complete_registration(
    m: &mut HotkeyManager,
    id: &str,
    shortcut_str: &str,
    outcome: Result<(), String>,
) -> (r: Result<(), HotkeyError>)
    requires
        old(m).wf(),
    ensures
        final(m).wf(),
        match outcome {
            Ok(()) => {
                &&& r is Ok
                &&& final(m).table() == registered_after(old(m).table(), id@, shortcut_str@)
                &&& final(m).table_entries() == drop_id(old(m).table_entries(), id@).push(
                    (id@, shortcut_str@),
                )
                &&& final(m).status_map() == old(m).status_map().insert(
                    id@,
                    status_of(id@, shortcut_str@, true, None),
                )
            },
            Err(msg) => {
                &&& final(m).table() == old(m).table()
                &&& final(m).table_entries() == old(m).table_entries()
                &&& final(m).status_map() == old(m).status_map().insert(
                    id@,
                    status_of(id@, shortcut_str@, false, Some(failure_code(msg@))),
                )
                &&& has_substring(msg@, "already registered"@) ==> (r matches Err(
                    HotkeyError::Conflict(e),
                ) && e@ == msg@)
                &&& !has_substring(msg@, "already registered"@) ==> (r matches Err(
                    HotkeyError::OsError(e),
                ) && e@ == msg@)
            },
        },
        final(m).initialized() == old(m).initialized(),
        final(m).enabled() == old(m).enabled(),
        final(m).foreground_disabled() == old(m).foreground_disabled(),
        final(m).sync_view() == old(m).sync_view(),
        final(m).held() == old(m).held(),
{
    match outcome {
        Ok(()) => {
            let _ = m.registered.remove(id);
            m.registered.insert_new(id.to_owned(), shortcut_str.to_owned());
            m.statuses.set(
                ShortcutStatus {
                    id: id.to_owned(),
                    shortcut: shortcut_str.to_owned(),
                    success: true,
                    error: None,
                },
            );
            proof {
                assert(m.table() =~= registered_after(old(m).table(), id@, shortcut_str@));
            }
            Ok(())
        },
        Err(msg) => {
            let conflict = contains_str(msg.as_str(), "already registered");
            let code = if conflict {
                "CONFLICT".to_owned()
            } else {
                "REGISTRATION_FAILED".to_owned()
            };
            m.statuses.set(
                ShortcutStatus {
                    id: id.to_owned(),
                    shortcut: shortcut_str.to_owned(),
                    success: false,
                    error: Some(code),
                },
            );
            if conflict {
                Err(HotkeyError::Conflict(msg))
            } else {
                Err(HotkeyError::OsError(msg))
            }
        },
    }
}

/// Registering an id twice leaves exactly one entry for it, bound to the
/// second descriptor, and every other id as it was; with the drop that each
/// registration starts with, the table is as after the second alone.
pub proof fn lemma_reregistration(
    t: Map<Seq<char>, Seq<char>>,
    id: Seq<char>,
    d1: Seq<char>,
    d2: Seq<char>,
)
    ensures
        registered_after(registered_after(t, id, d1), id, d2).contains_key(id),
        registered_after(registered_after(t, id, d1), id, d2)[id] == d2,
        registered_after(registered_after(t, id, d1), id, d2).remove(id) == t.remove(id),
        registered_after(registered_after(t.remove(id), id, d1).remove(id), id, d2)
            == registered_after(t, id, d2),
{
    assert(registered_after(registered_after(t, id, d1), id, d2).remove(id) =~= t.remove(id));
    assert(registered_after(registered_after(t.remove(id), id, d1).remove(id), id, d2)
        =~= registered_after(t, id, d2));
}

pub fn register_toggle_hotkey(m: &mut HotkeyManager, shortcut_str: &str) -> (r: RegistrationStart)
    requires
        old(m).wf(),
    ensures
        registration_started(*old(m), *final(m), "toggle"@, shortcut_str@, r),
{
    register_shortcut(m, "toggle", shortcut_str)
}

pub fn register_quickpaste_hotkey(m: &mut HotkeyManager, shortcut_str: &str) -> (r:
    RegistrationStart)
    requires
        old(m).wf(),
    ensures
        registration_started(*old(m), *final(m), "quickpaste"@, shortcut_str@, r),
{
    register_shortcut(m, "quickpaste", shortcut_str)
}

pub fn register_toggle_clipboard_monitor_hotkey(m: &mut HotkeyManager, shortcut_str: &str) -> (r:
    RegistrationStart)
    requires
        old(m).wf(),
    ensures
        registration_started(*old(m), *final(m), "toggle_clipboard_monitor"@, shortcut_str@, r),
{
    register_shortcut(m, "toggle_clipboard_monitor", shortcut_str)
}

pub fn register_toggle_paste_with_format_hotkey(m: &mut HotkeyManager, shortcut_str: &str) -> (r:
    RegistrationStart)
    requires
        old(m).wf(),
    ensures
        registration_started(*old(m), *final(m), "toggle_paste_with_format"@, shortcut_str@, r),
{
    register_shortcut(m, "toggle_paste_with_format", shortcut_str)
}

pub fn register_paste_plain_text_hotkey(m: &mut HotkeyManager, shortcut_str: &str) -> (r:
    RegistrationStart)
    requires
        old(m).wf(),
    ensures
        registration_started(*old(m), *final(m), "paste_plain_text"@, shortcut_str@, r),
{
    register_shortcut(m, "paste_plain_text", shortcut_str)
}

/// Screen capture is not part of this build: nothing is registered.
pub fn register_screenshot_hotkey(_shortcut_str: &str) -> (r: Result<(), String>)
    ensures
        r is Ok,
{
    Ok(())
}

/// Screen capture is not part of this build: nothing is registered.
pub fn register_screenshot_quick_save_hotkey(_shortcut_str: &str) -> (r: Result<(), String>)
    ensures
        r is Ok,
{
    Ok(())
}

/// Screen capture is not part of this build: nothing is registered.
pub fn register_screenshot_quick_pin_hotkey(_shortcut_str: &str) -> (r: Result<(), String>)
    ensures
        r is Ok,
{
    Ok(())
}

/// Screen capture is not part of this build: nothing is registered.
pub fn register_screenshot_quick_ocr_hotkey(_shortcut_str: &str) -> (r: Result<(), String>)
    ensures
        r is Ok,
{
    Ok(())
}

/// Drops every registration of the numbered family (their statuses stay).
/// Hands back their shortcuts to unregister from the OS, none before
/// `init_hotkey_manager`.
pub fn unregister_number_shortcuts(m: &mut HotkeyManager) -> (r: Vec<HotKey>)
    requires
        old(m).wf(),
    ensures
        final(m).wf(),
        final(m).table() == without_numbered(old(m).table()),
        final(m).table_entries() == drop_numbered(old(m).table_entries()),
        !old(m).initialized() ==> r@.len() == 0,
        old(m).initialized() ==> r@.len() == accepted_count(
            numbered_descriptors(old(m).table_entries()),
        ),
        final(m).status_map() == old(m).status_map(),
        final(m).initialized() == old(m).initialized(),
        final(m).enabled() == old(m).enabled(),
        final(m).foreground_disabled() == old(m).foreground_disabled(),
        final(m).sync_view() == old(m).sync_view(),
        final(m).held() == old(m).held(),
{
    let removed = m.registered.remove_numbered();
    let mut stale: Vec<HotKey> = Vec::new();
    if m.initialized {
        let mut i: usize = 0;
        while i < removed.len()
            invariant
                i <= removed@.len(),
                stale@.len() == accepted_count(string_views(removed@).subrange(0, i as int)),
            decreases removed@.len() - i,
        {
            proof {
                assert(string_views(removed@).subrange(0, i as int + 1).drop_last()
                    =~= string_views(removed@).subrange(0, i as int));
            }
            match parse_shortcut(removed[i].as_str()) {
                Ok(hk) => stale.push(hk),
                Err(_) => {},
            }
            i = i + 1;
        }
        proof {
            assert(string_views(removed@).subrange(0, i as int) =~= string_views(removed@));
        }
    }
    stale
}

/// First half of registering the numbered family under `modifier`: drops
/// the earlier numbered registrations and the aggregate status, and hands
/// back shortcuts 1 to 9 in order, each parsed when its descriptor parses.
/// One that does not parse counts as refused when the batch completes.
pub fn register_number_shortcuts(m: &mut HotkeyManager, modifier: &str) -> (r: Result<
    NumberBatch,
    HotkeyError,
>)
    requires
        old(m).wf(),
    ensures
        final(m).wf(),
        !old(m).initialized() ==> r == Err::<NumberBatch, HotkeyError>(
            HotkeyError::NotInitialized,
        ) && final(m).table() == old(m).table() && final(m).status_map() == old(m).status_map(),
        old(m).initialized() ==> r is Ok,
        r matches Ok(b) ==> attempt_views(b.attempts@) == number_attempts(modifier@, 9),
        r matches Ok(b) ==> attempts_parsed(b.attempts@),
        r matches Ok(b) ==> b.stale@.len() == accepted_count(
            numbered_descriptors(old(m).table_entries()),
        ),
        old(m).initialized() ==> final(m).table() == without_numbered(old(m).table()),
        old(m).initialized() ==> final(m).table_entries() == drop_numbered(
            old(m).table_entries(),
        ),
        !old(m).initialized() ==> final(m).table_entries() == old(m).table_entries(),
        old(m).initialized() ==> final(m).status_map() == old(m).status_map().remove(
            number_batch_id(),
        ),
        final(m).initialized() == old(m).initialized(),
        final(m).enabled() == old(m).enabled(),
        final(m).foreground_disabled() == old(m).foreground_disabled(),
        final(m).sync_view() == old(m).sync_view(),
        final(m).held() == old(m).held(),
{
    if !m.initialized {
        return Err(HotkeyError::NotInitialized);
    }
    let stale = unregister_number_shortcuts(m);
    m.statuses.clear("number_shortcuts");
    let mut attempts: Vec<NumberAttempt> = Vec::new();
    let mut n: u8 = 1;
    while n <= 9
        invariant
            1 <= n <= 10,
            attempt_views(attempts@) == number_attempts(modifier@, (n - 1) as nat),
            attempts_parsed(attempts@),
        decreases 10 - n,
    {
        let shortcut_str = number_shortcut_descriptor(modifier, n);
        let ghost before = attempts@;
        let shortcut = match parse_shortcut(shortcut_str.as_str()) {
            Ok(hk) => Some(hk),
            Err(_) => None,
        };
        let id = number_shortcut_id(n);
        attempts.push(NumberAttempt { id, shortcut_str, shortcut });
        proof {
            assert(attempt_views(attempts@) =~= attempt_views(before).push(
                (number_id(n as nat), number_descriptor(modifier@, n as nat)),
            ));
        }
        n = n + 1;
    }
    Ok(NumberBatch { stale, attempts })
}

/// The outcome of one attempt: registered when it had a shortcut and the OS
/// accepted it.
pub fn batch_outcome(attempt: &NumberAttempt, os_accepted: bool) -> (r: BatchOutcome)
    ensures
        r.id@ == attempt.id@,
        r.shortcut_str@ == attempt.shortcut_str@,
        r.registered == (attempt.shortcut is Some && os_accepted),
{
    BatchOutcome {
        id: attempt.id.clone(),
        shortcut_str: attempt.shortcut_str.clone(),
        registered: attempt.shortcut.is_some() && os_accepted,
    }
}

/// Second half of registering the numbered family, given the outcome of each
/// attempt: every registered one is appended to the table, and the refused
/// ones (by the OS, or unparsed) are recorded together under one aggregate
/// failure status.
pub fn complete_number_shortcuts(m: &mut HotkeyManager, outcomes: &Vec<BatchOutcome>)
    requires
        old(m).wf(),
    ensures
        final(m).wf(),
        final(m).table() == apply_successes(old(m).table(), outcome_views(outcomes@)),
        final(m).table_entries() == append_successes(
            old(m).table_entries(),
            outcome_views(outcomes@),
        ),
        final(m).status_map() == statuses_after_batch(
            old(m).status_map(),
            outcome_views(outcomes@),
        ),
        final(m).initialized() == old(m).initialized(),
        final(m).enabled() == old(m).enabled(),
        final(m).foreground_disabled() == old(m).foreground_disabled(),
        final(m).sync_view() == old(m).sync_view(),
        final(m).held() == old(m).held(),
{
    let ghost start = m.table();
    let ghost start_entries = m.table_entries();
    let mut failed: Vec<String> = Vec::new();
    let mut i: usize = 0;
    while i < outcomes.len()
        invariant
            i <= outcomes@.len(),
            m.wf(),
            m.table() == apply_successes(start, outcome_views(outcomes@).subrange(0, i as int)),
            m.table_entries() == append_successes(
                start_entries,
                outcome_views(outcomes@).subrange(0, i as int),
            ),
            string_views(failed@) == failed_descriptors(
                outcome_views(outcomes@).subrange(0, i as int),
            ),
            m.status_map() == old(m).status_map(),
            m.initialized() == old(m).initialized(),
            m.enabled() == old(m).enabled(),
            m.foreground_disabled() == old(m).foreground_disabled(),
            m.sync_view() == old(m).sync_view(),
            m.held() == old(m).held(),
        decreases outcomes@.len() - i,
    {
        let ghost prefix = outcome_views(outcomes@).subrange(0, i as int + 1);
        proof {
            assert(prefix.drop_last() =~= outcome_views(outcomes@).subrange(0, i as int));
        }
        let o = &outcomes[i];
        let ghost before_failed = failed@;
        if o.registered {
            let _ = m.registered.remove(o.id.as_str());
            m.registered.insert_new(o.id.clone(), o.shortcut_str.clone());
            proof {
                assert(m.table() =~= apply_successes(start, prefix));
                assert(m.table_entries() == append_successes(start_entries, prefix));
            }
        } else {
            failed.push(o.shortcut_str.clone());
            proof {
                assert(string_views(failed@) =~= string_views(before_failed).push(
                    o.shortcut_str@,
                ));
            }
        }
        i = i + 1;
    }
    proof {
        assert(outcome_views(outcomes@).subrange(0, i as int) =~= outcome_views(outcomes@));
    }
    if failed.len() > 0 {
        let joined = join_strings(&failed, ", ");
        m.statuses.set(
            ShortcutStatus {
                id: "number_shortcuts".to_owned(),
                shortcut: joined,
                success: false,
                error: Some("REGISTRATION_FAILED".to_owned()),
            },
        );
    }
}

/// Batch isolation: when the OS refuses exactly one shortcut of a batch with
/// distinct ids, every other one is registered with its descriptor, the
/// refused one is not, the table grows by one entry less than the batch (when
/// it held none of the batch's ids; the others are then appended in batch
/// order after the existing entries), and the aggregate status lists exactly
/// the refused descriptor.
pub proof fn lemma_batch_isolation(
    t: Map<Seq<char>, Seq<char>>,
    e: Seq<(Seq<char>, Seq<char>)>,
    s: Map<Seq<char>, StatusView>,
    o: Seq<(Seq<char>, Seq<char>, bool)>,
    k: int,
)
    requires
        0 <= k < o.len(),
        !o[k].2,
        forall|j: int| 0 <= j < o.len() && j != k ==> o[j].2,
        forall|a: int, b: int| 0 <= a < b < o.len() ==> o[a].0 != o[b].0,
        !t.contains_key(o[k].0),
        t.dom().finite(),
    ensures
        forall|j: int|
            0 <= j < o.len() && j != k ==> apply_successes(t, o).contains_key(#[trigger] o[j].0)
                && apply_successes(t, o)[o[j].0] == o[j].1,
        !apply_successes(t, o).contains_key(o[k].0),
        (forall|j: int| 0 <= j < o.len() ==> !t.contains_key(#[trigger] o[j].0))
            ==> apply_successes(t, o).len() == t.len() + o.len() - 1,
        (forall|i: int, j: int| 0 <= i < o.len() && 0 <= j < e.len() ==> e[j].0 != o[i].0)
            ==> append_successes(e, o) == e + o.remove(k).map_values(
            |x: (Seq<char>, Seq<char>, bool)| (x.0, x.1),
        ),
        statuses_after_batch(s, o) == s.insert(
            number_batch_id(),
            status_of(number_batch_id(), o[k].1, false, Some(registration_failed_code())),
        ),
{
    assert forall|j: int| 0 <= j < o.len() && j != k implies apply_successes(t, o).contains_key(
        #[trigger] o[j].0,
    ) && apply_successes(t, o)[o[j].0] == o[j].1 by {
        crate::batch::lemma_success_kept(t, o, j);
    }
    crate::batch::lemma_failure_absent(t, o, o[k].0);
    crate::batch::lemma_single_failure(o, k);
    if forall|j: int| 0 <= j < o.len() ==> !t.contains_key(#[trigger] o[j].0) {
        crate::batch::lemma_apply_len(t, o);
        crate::batch::lemma_success_count_one_refused(o, k);
    }
    assert(join_with(seq![o[k].1], ", "@) == o[k].1);
    if forall|i: int, j: int| 0 <= i < o.len() && 0 <= j < e.len() ==> e[j].0 != o[i].0 {
        crate::batch::lemma_append_in_order(e, o);
        lemma_success_pairs_one_refused(o, k);
    }
}

proof fn lemma_success_pairs_one_refused(o: Seq<(Seq<char>, Seq<char>, bool)>, k: int)
    requires
        0 <= k < o.len(),
        !o[k].2,
        forall|j: int| 0 <= j < o.len() && j != k ==> o[j].2,
    ensures
        crate::batch::success_pairs(o) == o.remove(k).map_values(
            |x: (Seq<char>, Seq<char>, bool)| (x.0, x.1),
        ),
    decreases o.len(),
{
    let d = o.drop_last();
    if k < o.len() - 1 {
        lemma_success_pairs_one_refused(d, k);
        assert(o.remove(k).map_values(|x: (Seq<char>, Seq<char>, bool)| (x.0, x.1))
            =~= d.remove(k).map_values(|x: (Seq<char>, Seq<char>, bool)| (x.0, x.1)).push(
            (o.last().0, o.last().1),
        ));
    } else {
        lemma_success_pairs_all(d);
        assert(o.remove(k) =~= d);
    }
}

proof fn lemma_success_pairs_all(o: Seq<(Seq<char>, Seq<char>, bool)>)
    requires
        forall|j: int| 0 <= j < o.len() ==> o[j].2,
    ensures
        crate::batch::success_pairs(o) == o.map_values(
            |x: (Seq<char>, Seq<char>, bool)| (x.0, x.1),
        ),
    decreases o.len(),
{
    if o.len() > 0 {
        lemma_success_pairs_all(o.drop_last());
        assert(o.map_values(|x: (Seq<char>, Seq<char>, bool)| (x.0, x.1)) =~= o.drop_last().map_values(
            |x: (Seq<char>, Seq<char>, bool)| (x.0, x.1),
        ).push((o.last().0, o.last().1)));
    }
}

/// Drops every registration and every status. Hands back the shortcuts to
/// unregister from the OS, none before `init_hotkey_manager`.
pub fn unregister_all(m: &mut HotkeyManager) -> (r: Vec<HotKey>)
    requires
        old(m).wf(),
    ensures
        final(m).wf(),
        final(m).table() == Map::<Seq<char>, Seq<char>>::empty(),
        final(m).table_entries() == Seq::<(Seq<char>, Seq<char>)>::empty(),
        final(m).status_map() == Map::<Seq<char>, StatusView>::empty(),
        !old(m).initialized() ==> r@.len() == 0,
        old(m).initialized() ==> r@.len() == parsable_count(old(m).table_entries()),
        final(m).initialized() == old(m).initialized(),
        final(m).enabled() == old(m).enabled(),
        final(m).foreground_disabled() == old(m).foreground_disabled(),
        final(m).sync_view() == old(m).sync_view(),
        final(m).held() == old(m).held(),
{
    let entries = m.registered.take_all();
    m.statuses.clear_all();
    let mut stale: Vec<HotKey> = Vec::new();
    if m.initialized {
        let mut i: usize = 0;
        while i < entries.len()
            invariant
                i <= entries@.len(),
                stale@.len() == parsable_count(pair_views(entries@).subrange(0, i as int)),
            decreases entries@.len() - i,
        {
            proof {
                assert(pair_views(entries@).subrange(0, i as int + 1).drop_last()
                    =~= pair_views(entries@).subrange(0, i as int));
            }
            match parse_shortcut(entries[i].1.as_str()) {
                Ok(hk) => stale.push(hk),
                Err(_) => {},
            }
            i = i + 1;
        }
        proof {
            assert(pair_views(entries@).subrange(0, i as int) =~= pair_views(entries@));
        }
    }
    stale
}

fn push_request_if(v: &mut Vec<ActionRequest>, on: bool, action: HotkeyAction, s: &String)
    ensures
        request_views(final(v)@) == request_views(old(v)@) + request_if(on, action, s@),
{
    let ghost before = v@;
    if on {
        v.push(ActionRequest { action, shortcut_str: s.clone() });
        proof {
            assert(request_views(v@) =~= request_views(before) + request_if(on, action, s@));
        }
    } else {
        proof {
            assert(request_views(v@) =~= request_views(before) + request_if(on, action, s@));
        }
    }
}

/// The registrations a reload asks for under `settings`, in order.
pub fn reload_requests(settings: &HotkeySettings, foreground_disabled: bool) -> (r: Vec<
    ActionRequest,
>)
    ensures
        request_views(r@) == reload_requests_for(*settings, foreground_disabled),
{
    let mut r: Vec<ActionRequest> = Vec::new();
    if !settings.hotkeys_enabled || foreground_disabled {
        proof {
            assert(request_views(r@) =~= Seq::<(HotkeyAction, Seq<char>)>::empty());
        }
        return r;
    }
    proof {
        assert(request_views(r@) =~= Seq::<(HotkeyAction, Seq<char>)>::empty());
    }
    let st = settings;
    push_request_if(
        &mut r,
        st.toggle_shortcut.as_str().unicode_len() > 0,
        HotkeyAction::Toggle,
        &st.toggle_shortcut,
    );
    proof {
        assert(request_views(r@) =~= request_if(
            st.toggle_shortcut@.len() > 0,
            HotkeyAction::Toggle,
            st.toggle_shortcut@,
        ));
    }
    push_request_if(
        &mut r,
        st.quickpaste_enabled && st.quickpaste_shortcut.as_str().unicode_len() > 0,
        HotkeyAction::QuickPaste,
        &st.quickpaste_shortcut,
    );
    push_request_if(
        &mut r,
        st.screenshot_enabled && st.screenshot_shortcut.as_str().unicode_len() > 0,
        HotkeyAction::Screenshot,
        &st.screenshot_shortcut,
    );
    push_request_if(
        &mut r,
        st.screenshot_enabled && st.screenshot_quick_save_shortcut.as_str().unicode_len() > 0,
        HotkeyAction::ScreenshotQuickSave,
        &st.screenshot_quick_save_shortcut,
    );
    push_request_if(
        &mut r,
        st.screenshot_enabled && st.screenshot_quick_pin_shortcut.as_str().unicode_len() > 0,
        HotkeyAction::ScreenshotQuickPin,
        &st.screenshot_quick_pin_shortcut,
    );
    push_request_if(
        &mut r,
        st.screenshot_enabled && st.screenshot_quick_ocr_shortcut.as_str().unicode_len() > 0,
        HotkeyAction::ScreenshotQuickOcr,
        &st.screenshot_quick_ocr_shortcut,
    );
    push_request_if(
        &mut r,
        st.toggle_clipboard_monitor_shortcut.as_str().unicode_len() > 0,
        HotkeyAction::ToggleClipboardMonitor,
        &st.toggle_clipboard_monitor_shortcut,
    );
    push_request_if(
        &mut r,
        st.toggle_paste_with_format_shortcut.as_str().unicode_len() > 0,
        HotkeyAction::TogglePasteWithFormat,
        &st.toggle_paste_with_format_shortcut,
    );
    push_request_if(
        &mut r,
        st.paste_plain_text_shortcut.as_str().unicode_len() > 0,
        HotkeyAction::PastePlainText,
        &st.paste_plain_text_shortcut,
    );
    push_request_if(
        &mut r,
        st.number_shortcuts && st.number_shortcuts_modifier.as_str().unicode_len() > 0,
        HotkeyAction::NumberShortcuts,
        &st.number_shortcuts_modifier,
    );
    r
}

/// Unregisters everything, clears every status, and hands back what to
/// register again from `settings`: nothing when shortcuts are off in the
/// settings or the foreground application excludes them.
pub fn reload_from_settings(m: &mut HotkeyManager, settings: &HotkeySettings) -> (r: ReloadPlan)
    requires
        old(m).wf(),
    ensures
        final(m).wf(),
        final(m).table() == Map::<Seq<char>, Seq<char>>::empty(),
        final(m).status_map() == Map::<Seq<char>, StatusView>::empty(),
        request_views(r.requests@) == reload_requests_for(*settings, old(m).foreground_disabled()),
        !settings.hotkeys_enabled ==> r.requests@.len() == 0,
        !old(m).initialized() ==> r.stale@.len() == 0,
        old(m).initialized() ==> r.stale@.len() == parsable_count(old(m).table_entries()),
        final(m).table_entries() == Seq::<(Seq<char>, Seq<char>)>::empty(),
        final(m).initialized() == old(m).initialized(),
        final(m).enabled() == old(m).enabled(),
        final(m).foreground_disabled() == old(m).foreground_disabled(),
        final(m).sync_view() == old(m).sync_view(),
        final(m).held() == old(m).held(),
{
    let stale = unregister_all(m);
    m.statuses.clear_all();
    let requests = reload_requests(settings, m.foreground_disabled);
    proof {
        assert(request_views(requests@).len() == requests@.len());
    }
    ReloadPlan { stale, requests }
}

/// Makes `desired` the applied activation: active reloads from `settings`,
/// inactive unregisters everything.
pub fn apply_activation(
    m: &mut HotkeyManager,
    desired: HotkeyActivation,
    settings: &HotkeySettings,
) -> (r: ReloadPlan)
    requires
        old(m).wf(),
    ensures
        final(m).wf(),
        final(m).table() == Map::<Seq<char>, Seq<char>>::empty(),
        final(m).status_map() == Map::<Seq<char>, StatusView>::empty(),
        desired == HotkeyActivation::Active ==> request_views(r.requests@) == reload_requests_for(
            *settings,
            old(m).foreground_disabled(),
        ),
        desired == HotkeyActivation::Inactive ==> r.requests@.len() == 0,
        final(m).table_entries() == Seq::<(Seq<char>, Seq<char>)>::empty(),
        !old(m).initialized() ==> r.stale@.len() == 0,
        old(m).initialized() ==> r.stale@.len() == parsable_count(old(m).table_entries()),
        final(m).initialized() == old(m).initialized(),
        final(m).enabled() == old(m).enabled(),
        final(m).foreground_disabled() == old(m).foreground_disabled(),
        final(m).sync_view() == old(m).sync_view(),
        final(m).held() == old(m).held(),
{
    match desired {
        HotkeyActivation::Active => reload_from_settings(m, settings),
        HotkeyActivation::Inactive => {
            let stale = unregister_all(m);
            ReloadPlan { stale, requests: Vec::new() }
        },
    }
}

/// Recomputes the desired activation from the settings switch, the runtime
/// switch and the foreground exclusion, and requests it. True when the
/// caller must start the convergence worker; while one runs, the request
/// only changes what it converges to.
pub fn sync_hotkeys_for_foreground(
    m: &mut HotkeyManager,
    settings_hotkeys_enabled: bool,
    globally_disabled: bool,
) -> (spawn: bool)
    requires
        old(m).wf(),
    ensures
        final(m).wf(),
        final(m).foreground_disabled() == globally_disabled,
        final(m).sync_view() == after_request(
            old(m).sync_view(),
            desired_for(settings_hotkeys_enabled, old(m).enabled(), globally_disabled),
        ),
        spawn == request_spawns(
            old(m).sync_view(),
            desired_for(settings_hotkeys_enabled, old(m).enabled(), globally_disabled),
        ),
        final(m).table() == old(m).table(),
        final(m).status_map() == old(m).status_map(),
        final(m).initialized() == old(m).initialized(),
        final(m).enabled() == old(m).enabled(),
        final(m).held() == old(m).held(),
{
    m.foreground_disabled = globally_disabled;
    let desired = desired_activation(settings_hotkeys_enabled, m.hotkeys_enabled, globally_disabled);
    m.sync.request(desired)
}

/// What the convergence worker applies next: the latest desired activation.
pub fn sync_target(m: &HotkeyManager) -> (r: HotkeyActivation)
    ensures
        r == m.sync_view().desired,
{
    m.sync.desired()
}

/// The convergence worker applied `applied`; true when it may stop.
pub fn sync_applied(m: &mut HotkeyManager, applied: HotkeyActivation) -> (done: bool)
    requires
        old(m).wf(),
        old(m).sync_view().syncing,
    ensures
        final(m).wf(),
        final(m).sync_view() == after_applied(old(m).sync_view(), applied),
        done == !final(m).sync_view().syncing,
        final(m).table() == old(m).table(),
        final(m).status_map() == old(m).status_map(),
        final(m).initialized() == old(m).initialized(),
        final(m).enabled() == old(m).enabled(),
        final(m).foreground_disabled() == old(m).foreground_disabled(),
        final(m).held() == old(m).held(),
{
    m.sync.applied(applied)
}

/// Turns the runtime switch on. When it was off, everything is reloaded from
/// `settings` and the plan handed back; when it was on, nothing happens.
pub fn enable_hotkeys(m: &mut HotkeyManager, settings: &HotkeySettings) -> (r: Option<ReloadPlan>)
    requires
        old(m).wf(),
    ensures
        final(m).wf(),
        final(m).enabled(),
        old(m).enabled() ==> r is None && final(m).table() == old(m).table() && final(m).status_map() == old(m).status_map(),
        !old(m).enabled() ==> (r matches Some(p) && request_views(p.requests@)
            == reload_requests_for(*settings, old(m).foreground_disabled()) && (
        old(m).initialized() ==> p.stale@.len() == parsable_count(old(m).table_entries()))
            && (!old(m).initialized() ==> p.stale@.len() == 0)),
        !old(m).enabled() ==> final(m).table() == Map::<Seq<char>, Seq<char>>::empty()
            && final(m).status_map() == Map::<Seq<char>, StatusView>::empty(),
        final(m).initialized() == old(m).initialized(),
        final(m).foreground_disabled() == old(m).foreground_disabled(),
        final(m).sync_view() == old(m).sync_view(),
        final(m).held() == old(m).held(),
{
    if m.hotkeys_enabled {
        return None;
    }
    let plan = reload_from_settings(m, settings);
    m.hotkeys_enabled = true;
    Some(plan)
}

/// Turns the runtime switch off, unregistering everything; hands back the
/// shortcuts to unregister from the OS. Nothing happens when it was off.
pub fn disable_hotkeys(m: &mut HotkeyManager) -> (r: Vec<HotKey>)
    requires
        old(m).wf(),
    ensures
        final(m).wf(),
        !final(m).enabled(),
        !old(m).enabled() ==> r@.len() == 0 && final(m).table() == old(m).table() && final(m).status_map() == old(m).status_map(),
        old(m).enabled() ==> final(m).table() == Map::<Seq<char>, Seq<char>>::empty()
            && final(m).status_map() == Map::<Seq<char>, StatusView>::empty(),
        old(m).enabled() && old(m).initialized() ==> r@.len() == parsable_count(
            old(m).table_entries(),
        ),
        final(m).initialized() == old(m).initialized(),
        final(m).foreground_disabled() == old(m).foreground_disabled(),
        final(m).sync_view() == old(m).sync_view(),
        final(m).held() == old(m).held(),
{
    if !m.hotkeys_enabled {
        return Vec::new();
    }
    let stale = unregister_all(m);
    m.hotkeys_enabled = false;
    stale
}

} // verus!
