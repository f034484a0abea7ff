use vstd::prelude::*;

use crate::text::chars_of;

verus! {

/// What a tray menu entry does.
#[derive(Clone, Copy, Debug, PartialEq, Eq, Structural)]
pub enum MenuAction {
    /// Show and focus the main window.
    ShowWindow,
    /// Show the main window and open the admin console in it.
    OpenAdmin,
    /// Stop the backend and leave the application.
    Quit,
    /// Not an entry of this menu.
    Ignore,
}

pub open spec fn show_id() -> Seq<char> {
    seq!['s', 'h', 'o', 'w']
}

pub open spec fn open_admin_id() -> Seq<char> {
    seq!['o', 'p', 'e', 'n', '-', 'a', 'd', 'm', 'i', 'n']
}

pub open spec fn quit_id() -> Seq<char> {
    seq!['q', 'u', 'i', 't']
}

pub open spec fn menu_action_of(id: Seq<char>) -> MenuAction {
    if id == show_id() {
        MenuAction::ShowWindow
    } else if id == open_admin_id() {
        MenuAction::OpenAdmin
    } else if id == quit_id() {
        MenuAction::Quit
    } else {
        MenuAction::Ignore
    }
}

fn same_chars(v: &Vec<char>, w: &Vec<char>) -> (b: bool)
    ensures
        b == (v@ == w@),
{
    if v.len() != w.len() {
        return false;
    }
    let mut i: usize = 0;
    while i < v.len()
        invariant
            i <= v.len() == w.len(),
            forall|j: int| 0 <= j < i ==> v@[j] == w@[j],
        decreases v.len() - i,
    {
        if v[i] != w[i] {
            return false;
        }
        i += 1;
    }
    assert(v@ =~= w@);
    true
}

/// The action of the tray menu entry with id `id`. Only the `quit` entry quits.
pub fn menu_action(id: &str) -> (r: MenuAction)
    ensures
        r == menu_action_of(id@),
        r == MenuAction::Quit <==> id@ == quit_id(),
{
    let cs = chars_of(id);
    let show = vec!['s', 'h', 'o', 'w'];
    let open_admin = vec!['o', 'p', 'e', 'n', '-', 'a', 'd', 'm', 'i', 'n'];
    let quit = vec!['q', 'u', 'i', 't'];
    assert(show@ =~= show_id());
    assert(open_admin@ =~= open_admin_id());
    assert(quit@ =~= quit_id());
    if same_chars(&cs, &show) {
        MenuAction::ShowWindow
    } else if same_chars(&cs, &open_admin) {
        MenuAction::OpenAdmin
    } else if same_chars(&cs, &quit) {
        MenuAction::Quit
    } else {
        MenuAction::Ignore
    }
}

/// A pointer event on the tray icon.
#[derive(Clone, Copy, Debug, PartialEq, Eq, Structural)]
pub enum TrayPointer {
    /// A click, with whether it was the left button and whether it was released.
    Click { left: bool, up: bool },
    /// Any other event (double click, enter, move, leave).
    Other,
}

/// Whether a tray event brings the main window back: a released left click.
pub fn tray_event_reveals(event: TrayPointer) -> (r: bool)
    ensures
        r == (event == (TrayPointer::Click { left: true, up: true })),
{
    match event {
        TrayPointer::Click { left, up } => left && up,
        TrayPointer::Other => false,
    }
}

/// An error of the desktop shell, which carries its message as it is.
pub fn anyhow(message: &str) -> (r: String)
    ensures
        r@ == message@,
{
    String::from_str(message)
}

} // verus!
