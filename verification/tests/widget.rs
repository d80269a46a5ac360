use glidewin::widget::{activation_path, shortcut_action, ShortcutAction};

#[test]
fn the_shortcut_toggles() {
    assert_eq!(shortcut_action(true, Some(true)), ShortcutAction::Hide);
    assert_eq!(shortcut_action(true, Some(false)), ShortcutAction::Activate);
    assert_eq!(shortcut_action(true, None), ShortcutAction::Activate);
    assert_eq!(shortcut_action(false, Some(true)), ShortcutAction::Ignore);
    assert_eq!(shortcut_action(false, None), ShortcutAction::Ignore);
}

#[test]
fn the_widget_comes_up_with_or_without_a_screenshot() {
    assert_eq!(activation_path(Some(Ok("p".to_string()))), "p");
    assert_eq!(activation_path(Some(Err("e".to_string()))), "");
    assert_eq!(activation_path(None), "");
}
