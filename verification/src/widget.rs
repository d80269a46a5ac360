//! The widget: what its global shortcut does.

use vstd::prelude::*;

verus! {

/// What the shortcut does.
#[derive(Debug, Clone, Copy, PartialEq, Eq, Structural)]
pub enum ShortcutAction {
    /// Nothing.
    Ignore,
    /// The widget goes away.
    Hide,
    /// The screen is captured, and the widget comes up with the screenshot.
    Activate,
}

/// What the shortcut does: it turns the widget on and off when it is pressed, and nothing when it
/// is released. A widget whose state cannot be told counts as hidden.
pub open spec fn action_for(pressed: bool, visible: Option<bool>) -> ShortcutAction {
    if !pressed {
        ShortcutAction::Ignore
    } else if visible == Some(true) {
        ShortcutAction::Hide
    } else {
        ShortcutAction::Activate
    }
}

/// Whether the widget is visible after an action.
pub open spec fn visible_after(action: ShortcutAction, visible: bool) -> bool {
    match action {
        ShortcutAction::Ignore => visible,
        ShortcutAction::Hide => false,
        ShortcutAction::Activate => true,
    }
}

/// Pressing the shortcut turns the widget on and off in turn, and on where its state cannot be
/// told; releasing it leaves the widget alone.
pub proof fn law_the_shortcut_toggles(visible: bool)
    ensures
        visible_after(action_for(true, Some(visible)), visible) == !visible,
        visible_after(action_for(false, Some(visible)), visible) == visible,
        visible_after(action_for(true, None), visible),
        visible_after(action_for(false, None), visible) == visible,
        action_for(true, Some(true)) == ShortcutAction::Hide,
        action_for(true, Some(false)) == ShortcutAction::Activate,
{
}

/// What the shortcut does.
pub fn shortcut_action(pressed: bool, visible: Option<bool>) -> (action: ShortcutAction)
    ensures
        action == action_for(pressed, visible),
{
    if !pressed {
        return ShortcutAction::Ignore;
    }
    match visible {
        Some(true) => ShortcutAction::Hide,
        _ => ShortcutAction::Activate,
    }
}

/// The path of the screenshot with which the widget comes up; empty where none could be taken.
pub fn activation_path(captured: Option<Result<String, String>>) -> (path: String)
    ensures
        path@ == match captured {
            Some(Ok(p)) => p@,
            _ => seq![],
        },
{
    match captured {
        Some(Ok(p)) => p,
        _ => String::new(),
    }
}

} // verus!
