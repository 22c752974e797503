use agenterm::app_menus::{
    action_updates, dock_menu, edit_menu, menu_bar, CustomAction, MenuCommand, MenuItem, Shortcut,
    StandardAction,
};

/// The command and the key of the item with this name.
fn find(items: &[MenuItem], wanted: &str) -> Option<(MenuCommand, Shortcut)> {
    items.iter().find_map(|item| match item {
        MenuItem::Custom {
            name,
            command,
            shortcut,
        } if *name == wanted => Some((*command, *shortcut)),
        _ => None,
    })
}

#[test]
fn copy_menu_uses_native_macos_shortcut() {
    let menu = edit_menu();
    let (command, shortcut) = find(&menu.menu_items, "Copy").expect("Edit menu must include Copy");
    assert_eq!(command, MenuCommand::Dispatch(CustomAction::Copy));
    // The key that is bound to copying, which the application's key map holds.
    assert_eq!(shortcut, Shortcut::Bound(CustomAction::Copy));
    let shown = action_updates(Some(Some("cmd-c".to_owned())));
    assert_eq!(shown.keystroke, Some(Some("cmd-c".to_owned())));
}

#[test]
fn paste_menu_uses_custom_action_and_shortcut() {
    let menu = edit_menu();
    assert!(!menu
        .menu_items
        .iter()
        .any(|item| matches!(item, MenuItem::Standard(_))));
    let (command, shortcut) = find(&menu.menu_items, "Paste").expect("Edit menu must include Paste");
    assert_eq!(command, MenuCommand::Dispatch(CustomAction::Paste));
    assert_eq!(shortcut, Shortcut::Bound(CustomAction::Paste));
}

#[test]
fn edit_menu_includes_context_aware_editing_actions() {
    let menu = edit_menu();
    let expected = [
        ("Undo", CustomAction::Undo),
        ("Redo", CustomAction::Redo),
        ("Cut", CustomAction::Cut),
        ("Copy", CustomAction::Copy),
        ("Paste", CustomAction::Paste),
        ("Select All", CustomAction::SelectAll),
        ("Clear Editor", CustomAction::ClearEditor),
        ("Find", CustomAction::Find),
    ];

    for (name, action) in expected {
        let (command, shortcut) = find(&menu.menu_items, name)
            .unwrap_or_else(|| panic!("Edit menu must include {name}"));
        assert_eq!(command, MenuCommand::Dispatch(action));
        assert_eq!(shortcut, Shortcut::Bound(action));
    }
}

#[test]
fn menu_bar_holds_all_menus_in_order() {
    let bar = menu_bar();
    let names: Vec<_> = bar.iter().map(|menu| menu.name).collect();
    assert_eq!(names, ["Agenterm", "File", "Edit", "View", "Blocks", "Window"]);
    assert_eq!(
        find(&bar[1].menu_items, "New Tab"),
        Some((MenuCommand::Dispatch(CustomAction::NewTab), Shortcut::CommandT))
    );
    assert!(bar[0]
        .menu_items
        .iter()
        .any(|item| *item == MenuItem::Standard(StandardAction::Quit)));
    assert!(bar[5].menu_items.is_empty());
    assert_eq!(
        find(&dock_menu().menu_items, "New Window"),
        Some((MenuCommand::OpenWindowAndSave, Shortcut::CommandN))
    );
}

#[test]
fn items_follow_the_binding_of_their_action() {
    let unbound = action_updates(None);
    assert_eq!(unbound.disabled, Some(true));
    assert_eq!(unbound.keystroke, None);
    let bound = action_updates(Some(Some("cmd-c".to_owned())));
    assert_eq!(bound.disabled, Some(false));
    assert_eq!(bound.keystroke, Some(Some("cmd-c".to_owned())));
}
