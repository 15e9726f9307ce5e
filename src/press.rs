use vstd::prelude::*;

verus! {

/// What the quick-paste shortcut does on a key event.
#[derive(Clone, Copy, Debug, PartialEq, Eq, Structural)]
pub enum QuickPasteAction {
    Show,
    Hide,
    Nothing,
}

/// The quick-paste rule: nothing in low-memory mode or in an excluded
/// foreground application; a press shows the window unless, pasting on
/// modifier release, it is already visible; a release hides it unless
/// pasting on modifier release.
pub open spec fn quickpaste_rule(
    pressed: bool,
    low_memory: bool,
    foreground_disabled: bool,
    paste_on_modifier_release: bool,
    window_visible: bool,
) -> QuickPasteAction {
    if low_memory || foreground_disabled {
        QuickPasteAction::Nothing
    } else if pressed {
        if paste_on_modifier_release && window_visible {
            QuickPasteAction::Nothing
        } else {
            QuickPasteAction::Show
        }
    } else if paste_on_modifier_release {
        QuickPasteAction::Nothing
    } else {
        QuickPasteAction::Hide
    }
}

pub fn quickpaste_action(
    pressed: bool,
    low_memory: bool,
    foreground_disabled: bool,
    paste_on_modifier_release: bool,
    window_visible: bool,
) -> (r: QuickPasteAction)
    ensures
        r == quickpaste_rule(
            pressed,
            low_memory,
            foreground_disabled,
            paste_on_modifier_release,
            window_visible,
        ),
{
    if low_memory || foreground_disabled {
        QuickPasteAction::Nothing
    } else if pressed {
        if paste_on_modifier_release && window_visible {
            QuickPasteAction::Nothing
        } else {
            QuickPasteAction::Show
        }
    } else if paste_on_modifier_release {
        QuickPasteAction::Nothing
    } else {
        QuickPasteAction::Hide
    }
}

/// What a first press of the plain-text paste shortcut does.
#[derive(Clone, Copy, Debug, PartialEq, Eq, Structural)]
pub enum PlainTextAction {
    /// The main window is visible: it pastes its selection itself.
    NotifyWindow,
    /// Paste this history item as plain text.
    PasteItem(i64),
    /// The history is empty.
    Nothing,
}

pub fn plain_text_press_action(main_window_visible: bool, newest_item: Option<i64>) -> (r:
    PlainTextAction)
    ensures
        main_window_visible ==> r == PlainTextAction::NotifyWindow,
        !main_window_visible ==> r == match newest_item {
            Some(id) => PlainTextAction::PasteItem(id),
            None => PlainTextAction::Nothing,
        },
{
    if main_window_visible {
        PlainTextAction::NotifyWindow
    } else {
        match newest_item {
            Some(id) => PlainTextAction::PasteItem(id),
            None => PlainTextAction::Nothing,
        }
    }
}

/// Why a numbered shortcut found no history item to paste.
#[derive(Clone, Copy, Debug, PartialEq, Eq, Structural)]
pub enum PressError {
    /// Shortcut `index + 1` was pressed with only `len` items in the history.
    IndexOutOfRange { index: usize, len: usize },
}

/// The history item a numbered shortcut pastes: the `index`-th newest.
pub fn pick_history_item(item_ids: &Vec<i64>, index: usize) -> (r: Result<i64, PressError>)
    ensures
        index < item_ids@.len() ==> r == Ok::<i64, PressError>(item_ids@[index as int]),
        index >= item_ids@.len() ==> r == Err::<i64, PressError>(
            PressError::IndexOutOfRange { index, len: item_ids@.len() as usize },
        ),
{
    if index < item_ids.len() {
        Ok(item_ids[index])
    } else {
        Err(PressError::IndexOutOfRange { index, len: item_ids.len() })
    }
}

} // verus!
