//! What the notification area icon reports, and how the tray window
//! answers the messages it receives. The icon, its window and its message
//! loop live outside this crate.

use vstd::prelude::*;

verus! {

/// Context menu entry "Open".
pub const MENU_OPEN: usize = 1;

/// Context menu entry "Settings".
pub const MENU_SETTINGS: usize = 2;

/// Context menu entry "Quit".
pub const MENU_EXIT: usize = 3;

/// What the tray thread reports to the UI.
#[derive(Debug, Clone, Copy, PartialEq, Eq, Structural)]
pub enum TrayMessage {
    /// Left click: show the mixer if hidden, hide it if already visible.
    Toggle,
    /// Context menu "Open".
    Show,
    /// Context menu "Settings".
    ShowSettings,
    /// Context menu "Quit".
    Quit,
}

/// A message reaching the tray window, as far as the tray cares.
#[derive(Debug, Clone, Copy, PartialEq, Eq, Structural)]
pub enum TrayInput {
    /// Explorer restarted and broadcast `TaskbarCreated`.
    TaskbarCreated,
    /// The installer asks this instance to quit before it replaces the file.
    QuitRequest,
    /// A second start of Volume11 asks this one to show itself.
    ShowRequest,
    /// The icon was clicked with the left button.
    LeftClick,
    /// The icon was clicked with the right button.
    RightClick,
    /// Some other mouse activity on the icon.
    OtherIconActivity,
    /// A context menu entry was chosen.
    MenuCommand(usize),
    /// Anything else.
    Other,
}

/// How the tray window answers a message.
#[derive(Debug, Clone, Copy, PartialEq, Eq, Structural)]
pub enum TrayResponse {
    /// Register the icon again: every tray icon is lost when Explorer restarts.
    RestoreIcon,
    /// Report this to the UI and wake it.
    Notify(TrayMessage),
    /// Open the context menu.
    ShowMenu,
    /// Handled; nothing to do.
    Nothing,
    /// Leave the message to the default window procedure.
    PassOn,
}

/// How the tray window answers `input`.
pub open spec fn respond_spec(input: TrayInput) -> TrayResponse {
    match input {
        TrayInput::TaskbarCreated => TrayResponse::RestoreIcon,
        TrayInput::QuitRequest => TrayResponse::Notify(TrayMessage::Quit),
        TrayInput::ShowRequest => TrayResponse::Notify(TrayMessage::Show),
        TrayInput::LeftClick => TrayResponse::Notify(TrayMessage::Toggle),
        TrayInput::RightClick => TrayResponse::ShowMenu,
        TrayInput::OtherIconActivity => TrayResponse::Nothing,
        TrayInput::MenuCommand(id) => if id == MENU_OPEN {
            TrayResponse::Notify(TrayMessage::Show)
        } else if id == MENU_SETTINGS {
            TrayResponse::Notify(TrayMessage::ShowSettings)
        } else if id == MENU_EXIT {
            TrayResponse::Notify(TrayMessage::Quit)
        } else {
            TrayResponse::Nothing
        },
        TrayInput::Other => TrayResponse::PassOn,
    }
}

/// How the tray window answers a message: a left click toggles the mixer,
/// a right click opens the menu, menu entries and the broadcasts from a
/// second start or the installer become messages for the UI.
pub fn respond(input: TrayInput) -> (r: TrayResponse)
    ensures
        r == respond_spec(input),
{
    match input {
        TrayInput::TaskbarCreated => TrayResponse::RestoreIcon,
        TrayInput::QuitRequest => TrayResponse::Notify(TrayMessage::Quit),
        TrayInput::ShowRequest => TrayResponse::Notify(TrayMessage::Show),
        TrayInput::LeftClick => TrayResponse::Notify(TrayMessage::Toggle),
        TrayInput::RightClick => TrayResponse::ShowMenu,
        TrayInput::OtherIconActivity => TrayResponse::Nothing,
        TrayInput::MenuCommand(id) => {
            if id == MENU_OPEN {
                TrayResponse::Notify(TrayMessage::Show)
            } else if id == MENU_SETTINGS {
                TrayResponse::Notify(TrayMessage::ShowSettings)
            } else if id == MENU_EXIT {
                TrayResponse::Notify(TrayMessage::Quit)
            } else {
                TrayResponse::Nothing
            }
        },
        TrayInput::Other => TrayResponse::PassOn,
    }
}

} // verus!
