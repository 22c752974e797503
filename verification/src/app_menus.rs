//! The menus of the application, as data: the platform draws them and carries
//! out what they ask for.

use vstd::prelude::*;

verus! {

/// What the user can do through a menu or a key.
#[derive(Clone, Copy, Debug, PartialEq, Eq, Structural)]
pub enum CustomAction {
    ShowSettings,
    NewTab,
    CloseTab,
    CloseWindow,
    Undo,
    Redo,
    Cut,
    Copy,
    Paste,
    SelectAll,
    ClearEditor,
    Find,
    IncreaseZoom,
    DecreaseZoom,
    ResetZoom,
    ClearBlocks,
    SelectBlockAbove,
    SelectBlockBelow,
    CopyBlock,
    CopyBlockCommand,
    CopyBlockOutput,
}

/// What the platform itself does.
#[derive(Clone, Copy, Debug, PartialEq, Eq, Structural)]
pub enum StandardAction {
    Hide,
    HideOtherApps,
    ShowAllApps,
    Quit,
}

/// What a menu item does.
#[derive(Clone, Copy, Debug, PartialEq, Eq, Structural)]
pub enum MenuCommand {
    /// Dispatches an action to the active window.
    Dispatch(CustomAction),
    /// Opens a window.
    OpenWindow,
    /// Opens a window and saves the application's state.
    OpenWindowAndSave,
}

/// The key of a menu item.
#[derive(Clone, Copy, Debug, PartialEq, Eq, Structural)]
pub enum Shortcut {
    /// A window's key: command and the letter N.
    CommandN,
    /// A tab's key: command and the letter T.
    CommandT,
    /// A closing key: command and the letter W.
    CommandW,
    /// The key that the key map binds the action to, kept up to date.
    Bound(CustomAction),
}

/// An item of a menu.
#[derive(Clone, Copy, Debug, PartialEq, Eq)]
pub enum MenuItem {
    Custom { name: &'static str, command: MenuCommand, shortcut: Shortcut },
    Separator,
    Standard(StandardAction),
}

/// An item of a menu over plain values.
pub ghost enum MenuItemView {
    Custom { name: Seq<char>, command: MenuCommand, shortcut: Shortcut },
    Separator,
    Standard(StandardAction),
}

impl View for MenuItem {
    type V = MenuItemView;

    open spec fn view(&self) -> MenuItemView {
        match *self {
            MenuItem::Custom { name, command, shortcut } => MenuItemView::Custom {
                name: name@,
                command,
                shortcut,
            },
            MenuItem::Separator => MenuItemView::Separator,
            MenuItem::Standard(action) => MenuItemView::Standard(action),
        }
    }
}

/// A menu.
pub struct Menu {
    pub name: &'static str,
    pub menu_items: Vec<MenuItem>,
}

/// A menu over plain values.
pub ghost struct MenuView {
    pub name: Seq<char>,
    pub items: Seq<MenuItemView>,
}

/// The view of items.
pub open spec fn items_view(items: Seq<MenuItem>) -> Seq<MenuItemView> {
    items.map_values(|item: MenuItem| item@)
}

impl View for Menu {
    type V = MenuView;

    open spec fn view(&self) -> MenuView {
        MenuView { name: self.name@, items: items_view(self.menu_items@) }
    }
}

/// An item that dispatches an action and shows the action's key.
pub open spec fn spec_action_item(name: Seq<char>, action: CustomAction) -> MenuItemView {
    MenuItemView::Custom {
        name,
        command: MenuCommand::Dispatch(action),
        shortcut: Shortcut::Bound(action),
    }
}

/// An item that dispatches an action and shows the action's key.
pub fn action_item(name: &'static str, action: CustomAction) -> (r: MenuItem)
    ensures
        r@ == spec_action_item(name@, action),
{
    MenuItem::Custom {
        name,
        command: MenuCommand::Dispatch(action),
        shortcut: Shortcut::Bound(action),
    }
}

/// What changes of a menu item before it is shown.
#[derive(Clone, Debug, PartialEq, Eq)]
pub struct MenuItemPropertyChanges {
    pub disabled: Option<bool>,
    /// Another key, or none.
    pub keystroke: Option<Option<String>>,
}

/// An item follows the binding of its action: without one it is disabled, with
/// one it shows the binding's key.
pub fn action_updates(binding: Option<Option<String>>) -> (r: MenuItemPropertyChanges)
    ensures
        r.disabled == Some(binding is None),
        r.keystroke == binding,
{
    let disabled: Option<bool> = Some(binding.is_none());
    MenuItemPropertyChanges { disabled, keystroke: binding }
}

/// The application's own menu.
pub open spec fn app_menu_view() -> MenuView {
    MenuView {
        name: "Agenterm"@,
        items: seq![
            spec_action_item("Settings…"@, CustomAction::ShowSettings),
            MenuItemView::Separator,
            MenuItemView::Standard(StandardAction::Hide),
            MenuItemView::Standard(StandardAction::HideOtherApps),
            MenuItemView::Standard(StandardAction::ShowAllApps),
            MenuItemView::Separator,
            MenuItemView::Standard(StandardAction::Quit),
        ],
    }
}

/// The application's own menu.
pub fn app_menu() -> (r: Menu)
    ensures
        r@ == app_menu_view(),
{
    let mut menu_items: Vec<MenuItem> = Vec::new();
    menu_items.push(action_item("Settings…", CustomAction::ShowSettings));
    menu_items.push(MenuItem::Separator);
    menu_items.push(MenuItem::Standard(StandardAction::Hide));
    menu_items.push(MenuItem::Standard(StandardAction::HideOtherApps));
    menu_items.push(MenuItem::Standard(StandardAction::ShowAllApps));
    menu_items.push(MenuItem::Separator);
    menu_items.push(MenuItem::Standard(StandardAction::Quit));
    assert(items_view(menu_items@) =~= app_menu_view().items);
    Menu { name: "Agenterm", menu_items }
}

/// The menu of windows and tabs.
pub open spec fn file_menu_view() -> MenuView {
    MenuView {
        name: "File"@,
        items: seq![
            MenuItemView::Custom {
                name: "New Window"@,
                command: MenuCommand::OpenWindow,
                shortcut: Shortcut::CommandN,
            },
            MenuItemView::Custom {
                name: "New Tab"@,
                command: MenuCommand::Dispatch(CustomAction::NewTab),
                shortcut: Shortcut::CommandT,
            },
            MenuItemView::Separator,
            MenuItemView::Custom {
                name: "Close Tab"@,
                command: MenuCommand::Dispatch(CustomAction::CloseTab),
                shortcut: Shortcut::CommandW,
            },
            spec_action_item("Close Window"@, CustomAction::CloseWindow),
        ],
    }
}

/// The menu of windows and tabs.
pub fn file_menu() -> (r: Menu)
    ensures
        r@ == file_menu_view(),
{
    let mut menu_items: Vec<MenuItem> = Vec::new();
    menu_items.push(
        MenuItem::Custom {
            name: "New Window",
            command: MenuCommand::OpenWindow,
            shortcut: Shortcut::CommandN,
        },
    );
    menu_items.push(
        MenuItem::Custom {
            name: "New Tab",
            command: MenuCommand::Dispatch(CustomAction::NewTab),
            shortcut: Shortcut::CommandT,
        },
    );
    menu_items.push(MenuItem::Separator);
    menu_items.push(
        MenuItem::Custom {
            name: "Close Tab",
            command: MenuCommand::Dispatch(CustomAction::CloseTab),
            shortcut: Shortcut::CommandW,
        },
    );
    menu_items.push(action_item("Close Window", CustomAction::CloseWindow));
    assert(items_view(menu_items@) =~= file_menu_view().items);
    Menu { name: "File", menu_items }
}

/// The menu of editing.
pub open spec fn edit_menu_view() -> MenuView {
    MenuView {
        name: "Edit"@,
        items: seq![
            spec_action_item("Undo"@, CustomAction::Undo),
            spec_action_item("Redo"@, CustomAction::Redo),
            MenuItemView::Separator,
            spec_action_item("Cut"@, CustomAction::Cut),
            spec_action_item("Copy"@, CustomAction::Copy),
            spec_action_item("Paste"@, CustomAction::Paste),
            spec_action_item("Select All"@, CustomAction::SelectAll),
            spec_action_item("Clear Editor"@, CustomAction::ClearEditor),
            MenuItemView::Separator,
            spec_action_item("Find"@, CustomAction::Find),
        ],
    }
}

/// The menu of editing.
pub fn edit_menu() -> (r: Menu)
    ensures
        r@ == edit_menu_view(),
{
    let mut menu_items: Vec<MenuItem> = Vec::new();
    menu_items.push(action_item("Undo", CustomAction::Undo));
    menu_items.push(action_item("Redo", CustomAction::Redo));
    menu_items.push(MenuItem::Separator);
    menu_items.push(action_item("Cut", CustomAction::Cut));
    menu_items.push(action_item("Copy", CustomAction::Copy));
    menu_items.push(action_item("Paste", CustomAction::Paste));
    menu_items.push(action_item("Select All", CustomAction::SelectAll));
    menu_items.push(action_item("Clear Editor", CustomAction::ClearEditor));
    menu_items.push(MenuItem::Separator);
    menu_items.push(action_item("Find", CustomAction::Find));
    assert(items_view(menu_items@) =~= edit_menu_view().items);
    Menu { name: "Edit", menu_items }
}

/// The menu of the view.
pub open spec fn view_menu_view() -> MenuView {
    MenuView {
        name: "View"@,
        items: seq![
            spec_action_item("Zoom In"@, CustomAction::IncreaseZoom),
            spec_action_item("Zoom Out"@, CustomAction::DecreaseZoom),
            spec_action_item("Actual Size"@, CustomAction::ResetZoom),
        ],
    }
}

/// The menu of the view.
pub fn view_menu() -> (r: Menu)
    ensures
        r@ == view_menu_view(),
{
    let mut menu_items: Vec<MenuItem> = Vec::new();
    menu_items.push(action_item("Zoom In", CustomAction::IncreaseZoom));
    menu_items.push(action_item("Zoom Out", CustomAction::DecreaseZoom));
    menu_items.push(action_item("Actual Size", CustomAction::ResetZoom));
    assert(items_view(menu_items@) =~= view_menu_view().items);
    Menu { name: "View", menu_items }
}

/// The menu of blocks.
pub open spec fn blocks_menu_view() -> MenuView {
    MenuView {
        name: "Blocks"@,
        items: seq![
            spec_action_item("Clear Blocks"@, CustomAction::ClearBlocks),
            MenuItemView::Separator,
            spec_action_item("Select Block Above"@, CustomAction::SelectBlockAbove),
            spec_action_item("Select Block Below"@, CustomAction::SelectBlockBelow),
            spec_action_item("Copy Block"@, CustomAction::CopyBlock),
            spec_action_item("Copy Block Command"@, CustomAction::CopyBlockCommand),
            spec_action_item("Copy Block Output"@, CustomAction::CopyBlockOutput),
        ],
    }
}

/// The menu of blocks.
pub fn blocks_menu() -> (r: Menu)
    ensures
        r@ == blocks_menu_view(),
{
    let mut menu_items: Vec<MenuItem> = Vec::new();
    menu_items.push(action_item("Clear Blocks", CustomAction::ClearBlocks));
    menu_items.push(MenuItem::Separator);
    menu_items.push(action_item("Select Block Above", CustomAction::SelectBlockAbove));
    menu_items.push(action_item("Select Block Below", CustomAction::SelectBlockBelow));
    menu_items.push(action_item("Copy Block", CustomAction::CopyBlock));
    menu_items.push(action_item("Copy Block Command", CustomAction::CopyBlockCommand));
    menu_items.push(action_item("Copy Block Output", CustomAction::CopyBlockOutput));
    assert(items_view(menu_items@) =~= blocks_menu_view().items);
    Menu { name: "Blocks", menu_items }
}

/// The menu of the dock.
pub fn dock_menu() -> (r: Menu)
    ensures
        r@ == (MenuView {
            name: "New Window"@,
            items: seq![
                MenuItemView::Custom {
                    name: "New Window"@,
                    command: MenuCommand::OpenWindowAndSave,
                    shortcut: Shortcut::CommandN,
                },
            ],
        }),
{
    let mut menu_items: Vec<MenuItem> = Vec::new();
    menu_items.push(
        MenuItem::Custom {
            name: "New Window",
            command: MenuCommand::OpenWindowAndSave,
            shortcut: Shortcut::CommandN,
        },
    );
    assert(items_view(menu_items@) =~= seq![
        MenuItemView::Custom {
            name: "New Window"@,
            command: MenuCommand::OpenWindowAndSave,
            shortcut: Shortcut::CommandN,
        },
    ]);
    Menu { name: "New Window", menu_items }
}

/// All menus of the menu bar, in order; the platform fills the last one.
pub fn menu_bar() -> (r: Vec<Menu>)
    ensures
        r@.len() == 6,
        r@[0]@ == app_menu_view(),
        r@[1]@ == file_menu_view(),
        r@[2]@ == edit_menu_view(),
        r@[3]@ == view_menu_view(),
        r@[4]@ == blocks_menu_view(),
        r@[5]@ == (MenuView { name: "Window"@, items: Seq::empty() }),
{
    let mut menus: Vec<Menu> = Vec::new();
    menus.push(app_menu());
    menus.push(file_menu());
    menus.push(edit_menu());
    menus.push(view_menu());
    menus.push(blocks_menu());
    let window = Menu { name: "Window", menu_items: Vec::new() };
    assert(items_view(window.menu_items@) =~= Seq::<MenuItemView>::empty());
    menus.push(window);
    menus
}

} // verus!
