//! The components of the screen: the explorer, the todo list and the
//! inspector, and what they share.
pub mod explorer;
pub mod todo_list;
pub mod inspector;

use vstd::prelude::*;
use crate::action::Mode;

verus! {

/// The scroll offset one row further down: `y + 1`, or `y` at the top of the
/// range.
pub open spec fn scroll_down(y: u16) -> u16 {
    if y < u16::MAX { (y + 1) as u16 } else { y }
}

/// The scroll offset one row further up: `y - 1`, or `y` at zero.
pub open spec fn scroll_up(y: u16) -> u16 {
    if y > 0 { (y - 1) as u16 } else { y }
}

/// The name of a mode, as its frame shows it.
pub open spec fn mode_label(m: Mode) -> Seq<char> {
    match m {
        Mode::Explorer => "Explorer"@,
        Mode::TodoList => "TodoList"@,
        Mode::Inspector => "Inspector"@,
    }
}

/// How the frame of a component looks: the number and the name of its mode
/// in the title, and a highlighted border while it is active.
#[derive(Debug, PartialEq, Eq)]
pub struct FrameLook {
    pub number: String,
    pub name: String,
    pub highlighted: bool,
}

/// The number of a mode between brackets, as the frame title shows it.
pub open spec fn number_label(m: Mode) -> Seq<char> {
    match m {
        Mode::Explorer => "[1]"@,
        Mode::TodoList => "[2]"@,
        Mode::Inspector => "[3]"@,
    }
}

/// The frame of the component of mode `caller_mode`: highlighted when the
/// component is active.
pub fn frame_block(active: bool, caller_mode: Mode) -> (r: FrameLook)
    ensures
        r.number@ == number_label(caller_mode),
        r.name@ == mode_label(caller_mode),
        r.highlighted == active,
{
    let (number, name) = match caller_mode {
        Mode::Explorer => ("[1]".to_owned(), "Explorer".to_owned()),
        Mode::TodoList => ("[2]".to_owned(), "TodoList".to_owned()),
        Mode::Inspector => ("[3]".to_owned(), "Inspector".to_owned()),
    };
    FrameLook { number, name, highlighted: active }
}

} // verus!
