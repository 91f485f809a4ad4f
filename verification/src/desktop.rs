//! The tray menu, the command line and the end of the program.

use crate::startup::BACKGROUND_FLAG;
use crate::text::same;
use vstd::prelude::*;

verus! {

#[derive(Clone, Copy, Debug, PartialEq, Eq, Structural)]
pub enum MenuAction {
    OpenPanel,
    Login,
    TogglePause,
    Quit,
    Nothing,
}

pub open spec fn action_of(id: Seq<char>) -> MenuAction {
    if id == "open"@ {
        MenuAction::OpenPanel
    } else if id == "login"@ {
        MenuAction::Login
    } else if id == "pause"@ {
        MenuAction::TogglePause
    } else if id == "quit"@ {
        MenuAction::Quit
    } else {
        MenuAction::Nothing
    }
}

pub fn menu_action(id: &str) -> (r: MenuAction)
    ensures
        r == action_of(id@),
{
    if same(id, "open") {
        MenuAction::OpenPanel
    } else if same(id, "login") {
        MenuAction::Login
    } else if same(id, "pause") {
        MenuAction::TogglePause
    } else if same(id, "quit") {
        MenuAction::Quit
    } else {
        MenuAction::Nothing
    }
}

/// Whether the program was started to stay in the tray: the flag stands among
/// its arguments. The first one is the program itself.
pub fn stays_in_background(args: &Vec<String>) -> (r: bool)
    ensures
        r == exists|k: int| 1 <= k < args@.len() && (#[trigger] args@[k])@ == BACKGROUND_FLAG@,
{
    let mut i: usize = 1;
    while i < args.len()
        invariant
            1 <= i,
            args@.len() > 0 ==> i <= args@.len(),
            forall|k: int| 1 <= k < i && k < args@.len() ==> (#[trigger] args@[k])@
                != BACKGROUND_FLAG@,
        decreases args@.len() - i,
    {
        if same(&args[i], BACKGROUND_FLAG) {
            return true;
        }
        i += 1;
    }
    false
}

/// Whether a request to exit is refused. Closing windows, which has no exit
/// code, leaves the monitor in the tray; quitting has one.
pub fn refuses_exit(code: Option<i32>) -> (r: bool)
    ensures
        r == code is None,
{
    code.is_none()
}

/// Each entry of the menu does what it is named after, and nothing else does.
pub proof fn menu_entries_do_what_they_say(id: Seq<char>)
    ensures
        action_of(id) is OpenPanel <==> id == "open"@,
        action_of(id) is Login <==> id == "login"@,
        action_of(id) is TogglePause <==> id == "pause"@,
        action_of(id) is Quit <==> id == "quit"@,
{
    reveal_strlit("open");
    reveal_strlit("login");
    reveal_strlit("pause");
    reveal_strlit("quit");
    assert("open"@.len() == 4 && "open"@[0] == 'o');
    assert("quit"@.len() == 4 && "quit"@[0] == 'q');
    assert("login"@.len() == 5 && "login"@[0] == 'l');
    assert("pause"@.len() == 5 && "pause"@[0] == 'p');
}

} // verus!
