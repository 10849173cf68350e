//! The system tray menu: a line showing what is active, the bypass toggle,
//! and open / quit. Switching presets happens in the window, so the tray
//! never lists the library. The shell builds the native menu from these
//! entries and hands back the id of the item picked.

use crate::text;
use vstd::prelude::*;

verus! {

/// One entry of the tray menu.
#[derive(Debug, Clone, PartialEq, Eq)]
pub enum TrayEntry {
    /// A line of text that cannot be clicked.
    Label(String),
    /// A separator.
    Separator,
    /// A checkable item.
    Check { id: String, text: String, checked: bool },
    /// A clickable item.
    Item { id: String, text: String },
}

/// A tray entry over plain values.
pub enum TrayEntryV {
    Label(Seq<char>),
    Separator,
    Check { id: Seq<char>, text: Seq<char>, checked: bool },
    Item { id: Seq<char>, text: Seq<char> },
}

impl View for TrayEntry {
    type V = TrayEntryV;

    open spec fn view(&self) -> TrayEntryV {
        match self {
            TrayEntry::Label(s) => TrayEntryV::Label(s@),
            TrayEntry::Separator => TrayEntryV::Separator,
            TrayEntry::Check { id, text, checked } => TrayEntryV::Check { id: id@, text: text@, checked: *checked },
            TrayEntry::Item { id, text } => TrayEntryV::Item { id: id@, text: text@ },
        }
    }
}

/// The views of a menu.
pub open spec fn menu_view(v: Seq<TrayEntry>) -> Seq<TrayEntryV> {
    Seq::new(v.len(), |i: int| v[i]@)
}

/// What the tray's first line says: that the EQ is bypassed, else the
/// active preset, else that none is.
pub open spec fn label_of(bypassed: bool, active: Option<Seq<char>>) -> Seq<char> {
    if bypassed {
        "Bypassed"@
    } else {
        match active {
            Some(n) => n,
            None => "No preset active"@,
        }
    }
}

/// The tray menu for the current state.
pub open spec fn menu_of(bypassed: bool, active: Option<Seq<char>>) -> Seq<TrayEntryV> {
    seq![
        TrayEntryV::Label(label_of(bypassed, active)),
        TrayEntryV::Separator,
        TrayEntryV::Check { id: "bypass"@, text: "Bypass (flat)"@, checked: bypassed },
        TrayEntryV::Separator,
        TrayEntryV::Item { id: "show"@, text: "Open fastpeq"@ },
        TrayEntryV::Item { id: "quit"@, text: "Quit fastpeq"@ },
    ]
}

/// The tray's first line.
pub fn tray_label(bypassed: bool, active: Option<String>) -> (s: String)
    ensures
        s@ == label_of(bypassed, match active {
            Some(n) => Some(n@),
            None => None,
        }),
{
    if bypassed {
        text::owned("Bypassed")
    } else {
        match active {
            Some(n) => n,
            None => text::owned("No preset active"),
        }
    }
}

/// The tray menu for the current state: the status line, the bypass
/// toggle (checked while bypassed), then open and quit.
pub fn tray_menu(bypassed: bool, active: Option<String>) -> (m: Vec<TrayEntry>)
    ensures
        menu_view(m@) == menu_of(bypassed, match active {
            Some(n) => Some(n@),
            None => None,
        }),
{
    let label = tray_label(bypassed, active);
    let m = vec![
        TrayEntry::Label(label),
        TrayEntry::Separator,
        TrayEntry::Check { id: text::owned("bypass"), text: text::owned("Bypass (flat)"), checked: bypassed },
        TrayEntry::Separator,
        TrayEntry::Item { id: text::owned("show"), text: text::owned("Open fastpeq") },
        TrayEntry::Item { id: text::owned("quit"), text: text::owned("Quit fastpeq") },
    ];
    assert(menu_view(m@) =~= menu_of(bypassed, match active {
        Some(n) => Some(n@),
        None => None,
    }));
    m
}

/// What picking a tray item does.
#[derive(Debug, Clone, Copy, PartialEq, Eq, Structural)]
pub enum TrayAction {
    /// Leave the app.
    Quit,
    /// Bring the main window to the front.
    Show,
    /// Toggle the bypass, then rebuild the menu and tell the window.
    ToggleBypass,
    /// Nothing (the status line fires nothing).
    Nothing,
}

/// The action of the tray item with `id`.
pub fn tray_action(id: &str) -> (a: TrayAction)
    ensures
        a == if id@ == "quit"@ {
            TrayAction::Quit
        } else if id@ == "show"@ {
            TrayAction::Show
        } else if id@ == "bypass"@ {
            TrayAction::ToggleBypass
        } else {
            TrayAction::Nothing
        },
{
    if text::str_eq(id, "quit") {
        TrayAction::Quit
    } else if text::str_eq(id, "show") {
        TrayAction::Show
    } else if text::str_eq(id, "bypass") {
        TrayAction::ToggleBypass
    } else {
        TrayAction::Nothing
    }
}

} // verus!
