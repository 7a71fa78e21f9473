//! The native menu of the graphical client.
use vstd::prelude::*;

use crate::text::same_text;

verus! {

pub const DETACH_TAB_COMMAND_ID: &'static str = "session.disconnect";

pub const CLOSE_SESSION_COMMAND_ID: &'static str = "session.close";

/// The event by which the frontend hears of a menu command.
pub const NATIVE_COMMAND_EVENT: &'static str = "rmux://command";

/// One line of a menu.
#[derive(Debug, Clone, Copy, PartialEq, Eq, Structural)]
pub enum MenuEntry {
    About,
    Separator,
    Services,
    Hide,
    HideOthers,
    Quit,
    /// Closes the tab: the session goes on.
    CloseTab,
    /// Ends the session.
    CloseSession,
    Undo,
    Redo,
    Cut,
    Copy,
    Paste,
    SelectAll,
    Fullscreen,
    Minimize,
    Maximize,
}

/// The menus, in order.
#[derive(Debug, Clone, Copy, PartialEq, Eq, Structural)]
pub enum MenuName {
    /// The menu named after the application.
    Application,
    File,
    Edit,
    View,
    Window,
    Help,
}

/// A menu and its lines.
#[derive(Debug, PartialEq, Eq)]
pub struct MenuModel {
    pub name: MenuName,
    pub entries: Vec<MenuEntry>,
}

impl MenuName {
    pub open spec fn lines(self) -> Seq<MenuEntry> {
        match self {
            MenuName::Application => seq![
                MenuEntry::About,
                MenuEntry::Separator,
                MenuEntry::Services,
                MenuEntry::Separator,
                MenuEntry::Hide,
                MenuEntry::HideOthers,
                MenuEntry::Separator,
                MenuEntry::Quit,
            ],
            MenuName::File => seq![MenuEntry::CloseTab, MenuEntry::CloseSession],
            MenuName::Edit => seq![
                MenuEntry::Undo,
                MenuEntry::Redo,
                MenuEntry::Separator,
                MenuEntry::Cut,
                MenuEntry::Copy,
                MenuEntry::Paste,
                MenuEntry::SelectAll,
            ],
            MenuName::View => seq![MenuEntry::Fullscreen],
            MenuName::Window => seq![MenuEntry::Minimize, MenuEntry::Maximize],
            MenuName::Help => Seq::empty(),
        }
    }

    /// The title of the menu; the application menu is named after the
    /// application.
    pub fn title(&self) -> (title: Option<&'static str>)
        ensures
            match *self {
                MenuName::Application => title is None,
                MenuName::File => title is Some && title->0@ == "File"@,
                MenuName::Edit => title is Some && title->0@ == "Edit"@,
                MenuName::View => title is Some && title->0@ == "View"@,
                MenuName::Window => title is Some && title->0@ == "Window"@,
                MenuName::Help => title is Some && title->0@ == "Help"@,
            },
    {
        match self {
            MenuName::Application => None,
            MenuName::File => Some("File"),
            MenuName::Edit => Some("Edit"),
            MenuName::View => Some("View"),
            MenuName::Window => Some("Window"),
            MenuName::Help => Some("Help"),
        }
    }

    /// The lines of the menu, in order.
    pub fn entries(&self) -> (entries: Vec<MenuEntry>)
        ensures
            entries@ == self.lines(),
    {
        let entries: Vec<MenuEntry> = match self {
            MenuName::Application => vec![
                MenuEntry::About,
                MenuEntry::Separator,
                MenuEntry::Services,
                MenuEntry::Separator,
                MenuEntry::Hide,
                MenuEntry::HideOthers,
                MenuEntry::Separator,
                MenuEntry::Quit,
            ],
            MenuName::File => vec![MenuEntry::CloseTab, MenuEntry::CloseSession],
            MenuName::Edit => vec![
                MenuEntry::Undo,
                MenuEntry::Redo,
                MenuEntry::Separator,
                MenuEntry::Cut,
                MenuEntry::Copy,
                MenuEntry::Paste,
                MenuEntry::SelectAll,
            ],
            MenuName::View => vec![MenuEntry::Fullscreen],
            MenuName::Window => vec![MenuEntry::Minimize, MenuEntry::Maximize],
            MenuName::Help => Vec::new(),
        };
        assert(entries@ =~= self.lines());
        entries
    }
}

/// The menus of the application, in order.
pub fn build() -> (menus: Vec<MenuModel>)
    ensures
        menus@.len() == 6,
        menus@[0].name == MenuName::Application,
        menus@[1].name == MenuName::File,
        menus@[2].name == MenuName::Edit,
        menus@[3].name == MenuName::View,
        menus@[4].name == MenuName::Window,
        menus@[5].name == MenuName::Help,
        forall|i: int| 0 <= i < 6 ==> (#[trigger] menus@[i]).entries@ == menus@[i].name.lines(),
{
    vec![
        MenuModel { name: MenuName::Application, entries: MenuName::Application.entries() },
        MenuModel { name: MenuName::File, entries: MenuName::File.entries() },
        MenuModel { name: MenuName::Edit, entries: MenuName::Edit.entries() },
        MenuModel { name: MenuName::View, entries: MenuName::View.entries() },
        MenuModel { name: MenuName::Window, entries: MenuName::Window.entries() },
        MenuModel { name: MenuName::Help, entries: MenuName::Help.entries() },
    ]
}

/// A line that the application answers itself.
#[derive(Debug, PartialEq, Eq)]
pub struct CommandEntry {
    pub id: &'static str,
    pub label: &'static str,
    pub accelerator: &'static str,
}

/// What a line of the application's own looks like; the other lines are those
/// of the system.
pub fn command_entry(entry: MenuEntry) -> (command: Option<CommandEntry>)
    ensures
        match entry {
            MenuEntry::CloseTab => command is Some && command->0.id@ == DETACH_TAB_COMMAND_ID@
                && command->0.label@ == "Close Tab"@ && command->0.accelerator@ == "CmdOrCtrl+W"@,
            MenuEntry::CloseSession => command is Some && command->0.id@
                == CLOSE_SESSION_COMMAND_ID@ && command->0.label@ == "Close Session…"@
                && command->0.accelerator@ == "CmdOrCtrl+E"@,
            _ => command is None,
        },
{
    match entry {
        MenuEntry::CloseTab => Some(
            CommandEntry {
                id: DETACH_TAB_COMMAND_ID,
                label: "Close Tab",
                accelerator: "CmdOrCtrl+W",
            },
        ),
        MenuEntry::CloseSession => Some(
            CommandEntry {
                id: CLOSE_SESSION_COMMAND_ID,
                label: "Close Session…",
                accelerator: "CmdOrCtrl+E",
            },
        ),
        _ => None,
    }
}

/// The command that the frontend is told of, if a menu line is one of its own.
pub fn frontend_command(menu_id: &str) -> (command: Option<&'static str>)
    ensures
        if menu_id@ == DETACH_TAB_COMMAND_ID@ {
            command is Some && command->0@ == DETACH_TAB_COMMAND_ID@
        } else if menu_id@ == CLOSE_SESSION_COMMAND_ID@ {
            command is Some && command->0@ == CLOSE_SESSION_COMMAND_ID@
        } else {
            command is None
        },
{
    if same_text(menu_id, DETACH_TAB_COMMAND_ID) {
        Some(DETACH_TAB_COMMAND_ID)
    } else if same_text(menu_id, CLOSE_SESSION_COMMAND_ID) {
        Some(CLOSE_SESSION_COMMAND_ID)
    } else {
        None
    }
}

} // verus!
