//! Notification-area icon: status tooltip, error balloons and the Open config / Open log /
//! Restart / Exit menu.

use vstd::prelude::*;
use crate::text::push_text;
use crate::worker::Status;

verus! {

pub const WM_DESTROY: u32 = 0x0002;

pub const WM_CLOSE: u32 = 0x0010;

pub const WM_CONTEXTMENU: u32 = 0x007B;

pub const WM_RBUTTONUP: u32 = 0x0205;

/// Sent by the icon.
pub const WM_TRAY: u32 = 0x8001;

/// Posted when the status changed.
pub const WM_STATUS: u32 = 0x8002;

pub const ID_OPEN_CONFIG: usize = 1;

pub const ID_OPEN_LOG: usize = 2;

pub const ID_RESTART: usize = 3;

pub const ID_EXIT: usize = 4;

// ---------------------------------------------------------------------------------------------
// Messages

/// What a window message asks for.
#[derive(Clone, Copy, PartialEq, Eq, Debug, Structural)]
pub enum Reaction {
    /// Show the new status.
    UpdateStatus,
    ShowMenu,
    /// Destroy the window.
    Destroy,
    /// Stop the worker, remove the icon and quit.
    Quit,
    /// The taskbar is new: add the icon again.
    AddIcon,
    /// Nothing: the message is dealt with.
    Nothing,
    /// Windows' own reaction.
    Default,
}

/// What a window message asks for. `taskbar_created` is the message about a new taskbar, where
/// that is known (the app's state is not in use).
pub open spec fn reaction_to(msg: u32, lparam: int, taskbar_created: Option<u32>) -> Reaction {
    if msg == WM_STATUS {
        Reaction::UpdateStatus
    } else if msg == WM_TRAY {
        if lparam % 0x1_0000 == WM_RBUTTONUP || lparam % 0x1_0000 == WM_CONTEXTMENU {
            Reaction::ShowMenu
        } else {
            Reaction::Nothing
        }
    } else if msg == WM_CLOSE {
        Reaction::Destroy
    } else if msg == WM_DESTROY {
        Reaction::Quit
    } else if msg != 0 && taskbar_created == Some(msg) {
        Reaction::AddIcon
    } else {
        Reaction::Default
    }
}

/// What a window message asks for.
pub fn react(msg: u32, lparam: u64, taskbar_created: Option<u32>) -> (r: Reaction)
    ensures
        r == reaction_to(msg, lparam as int, taskbar_created),
{
    if msg == WM_STATUS {
        return Reaction::UpdateStatus;
    }
    if msg == WM_TRAY {
        let event: u32 = (lparam % 0x1_0000) as u32;
        return if event == WM_RBUTTONUP || event == WM_CONTEXTMENU {
            Reaction::ShowMenu
        } else {
            Reaction::Nothing
        };
    }
    if msg == WM_CLOSE {
        return Reaction::Destroy;
    }
    if msg == WM_DESTROY {
        return Reaction::Quit;
    }
    match taskbar_created {
        Some(t) => if msg != 0 && t == msg {
            Reaction::AddIcon
        } else {
            Reaction::Default
        },
        None => Reaction::Default,
    }
}

// ---------------------------------------------------------------------------------------------
// Menu

/// What the user chose.
#[derive(Clone, Copy, PartialEq, Eq, Debug, Structural)]
pub enum Choice {
    OpenConfig,
    OpenLog,
    /// Stop the worker and start it with the settings read anew.
    Restart,
    Exit,
    Nothing,
}

/// A line of the menu: its id and text; lines without text separate.
#[derive(Clone, PartialEq, Eq, Debug)]
pub struct MenuItem {
    pub id: usize,
    pub text: Option<String>,
    pub grayed: bool,
}

impl MenuItem {
    pub open spec fn is_line(self, id: usize, text: Seq<char>, grayed: bool) -> bool {
        self.id == id && self.grayed == grayed && (self.text matches Some(t) && t@ == text)
    }

    pub open spec fn is_separator(self) -> bool {
        self.id == 0 && self.text is None && !self.grayed
    }
}

fn line(id: usize, text: &str, grayed: bool) -> (item: MenuItem)
    ensures
        item.is_line(id, text@, grayed),
{
    let mut t = String::new();
    push_text(&mut t, text);
    assert(t@ =~= text@);
    MenuItem { id, text: Some(t), grayed }
}

fn separator() -> (item: MenuItem)
    ensures
        item.is_separator(),
{
    MenuItem { id: 0, text: None, grayed: false }
}

/// The menu: the status, then what can be done.
pub fn menu(status: &Status) -> (items: Vec<MenuItem>)
    ensures
        items@.len() == 7,
        items@[0].is_line(0, crate::worker::status_text(*status), true),
        items@[1].is_separator(),
        items@[2].is_line(ID_OPEN_CONFIG, "Open config"@, false),
        items@[3].is_line(ID_OPEN_LOG, "Open log"@, false),
        items@[4].is_line(ID_RESTART, "Restart"@, false),
        items@[5].is_separator(),
        items@[6].is_line(ID_EXIT, "Exit"@, false),
{
    let mut items: Vec<MenuItem> = Vec::new();
    items.push(MenuItem { id: 0, text: Some(status.text()), grayed: true });
    items.push(separator());
    items.push(line(ID_OPEN_CONFIG, "Open config", false));
    items.push(line(ID_OPEN_LOG, "Open log", false));
    items.push(line(ID_RESTART, "Restart", false));
    items.push(separator());
    items.push(line(ID_EXIT, "Exit", false));
    items
}

/// What the chosen line means.
pub fn chosen(id: usize) -> (c: Choice)
    ensures
        c == (if id == ID_OPEN_CONFIG {
            Choice::OpenConfig
        } else if id == ID_OPEN_LOG {
            Choice::OpenLog
        } else if id == ID_RESTART {
            Choice::Restart
        } else if id == ID_EXIT {
            Choice::Exit
        } else {
            Choice::Nothing
        }),
{
    if id == ID_OPEN_CONFIG {
        Choice::OpenConfig
    } else if id == ID_OPEN_LOG {
        Choice::OpenLog
    } else if id == ID_RESTART {
        Choice::Restart
    } else if id == ID_EXIT {
        Choice::Exit
    } else {
        Choice::Nothing
    }
}

// ---------------------------------------------------------------------------------------------
// Status

/// How the icon shows a status.
#[derive(Clone, PartialEq, Eq, Debug)]
pub struct Notice {
    pub tip: String,
    /// The text of an error balloon, if one is to be shown.
    pub balloon: Option<String>,
}

/// The text of an optional string.
pub open spec fn text_of(s: Option<String>) -> Option<Seq<char>> {
    match s {
        Some(t) => Some(t@),
        None => None,
    }
}

/// How the icon shows a status. Each error gets one balloon; it may get another once a status
/// other than an error was shown. `shown` is the error shown last.
pub fn on_status(status: &Status, shown: &mut Option<String>) -> (n: Notice)
    ensures
        n.tip@ == crate::worker::status_text(*status),
        match *status {
            Status::Error(msg) => {
                &&& text_of(n.balloon) == (if text_of(*old(shown)) == Some(msg@) {
                    None
                } else {
                    Some(msg@)
                })
                &&& text_of(*final(shown)) == Some(msg@)
            },
            _ => n.balloon is None && *final(shown) is None,
        },
{
    let tip = status.text();
    match status {
        Status::Error(msg) => {
            let seen = match &*shown {
                Some(s) => *s == *msg,
                None => false,
            };
            if seen {
                Notice { tip, balloon: None }
            } else {
                *shown = Some(msg.clone());
                Notice { tip, balloon: Some(msg.clone()) }
            }
        },
        _ => {
            *shown = None;
            Notice { tip, balloon: None }
        },
    }
}

/// Only the low 16 bits of a message's second parameter count, and only for messages of the icon.
pub proof fn law_event_is_the_low_word(msg: u32, event: int, high: int, taskbar_created: Option<u32>)
    requires
        0 <= event < 0x1_0000,
    ensures
        reaction_to(msg, event + 0x1_0000 * high, taskbar_created) == reaction_to(
            msg,
            event,
            taskbar_created,
        ),
        msg != WM_TRAY ==> reaction_to(msg, event, taskbar_created) == reaction_to(
            msg,
            0,
            taskbar_created,
        ),
{
}

}
