//! The modes of the application, the actions a user asks for and the signals
//! the components exchange.
use vstd::prelude::*;
use vstd::std_specs::convert::FromSpecImpl;
use crate::types::{Diff, Task};
use id_tree::NodeId;

verus! {

/// The component that has the focus.
#[derive(Debug, Copy, Clone, PartialEq, Eq, Hash, Structural)]
pub enum Mode {
    Explorer,
    TodoList,
    Inspector,
}

impl Default for Mode {
    fn default() -> (r: Mode)
        ensures
            r == Mode::Explorer,
    {
        Mode::Explorer
    }
}

/// The number shown in the frame title of a component: 1, 2 and 3.
pub open spec fn mode_number(m: Mode) -> u8 {
    match m {
        Mode::Explorer => 1,
        Mode::TodoList => 2,
        Mode::Inspector => 3,
    }
}

impl From<Mode> for u8 {
    fn from(value: Mode) -> (r: u8) {
        match value {
            Mode::Explorer => 1,
            Mode::TodoList => 2,
            Mode::Inspector => 3,
        }
    }
}

impl FromSpecImpl<Mode> for u8 {
    open spec fn obeys_from_spec() -> bool {
        true
    }

    open spec fn from_spec(v: Mode) -> u8 {
        mode_number(v)
    }
}

/// What a user asks for, through a key binding.
#[derive(Debug, Copy, Clone, PartialEq, Eq, Structural)]
pub enum Action {
    SwitchTo(Mode),
    Suspend,
    Help,
    Quit,
    ToggleShowFinished,
    Delete,
    NewTask,
    NewGroup,
    NewSubGroup,
    MoveDown,
    MovePageDown,
    MoveUp,
    MovePageUp,
    MoveInto,
    MoveOutOf,
    EditName,
    EditColor,
    EditDue,
    EditDescription,
    RandomColor,
    EditPriority,
    ToggleFinishTask,
}

/// What the application and its components send each other.
#[derive(Debug, Clone, PartialEq, Eq)]
pub enum Signal {
    Tick,
    Render,
    Resize(u16, u16),
    Resume,
    ClearScreen,
    Error(String),
    Select(NodeId),
    ScopeUpdate(NodeId),
    Update,
    /// Sent whenever something changed; components then redraw from the tree
    /// and raw text input ends.
    Refresh,
    RawText,
    EditDescriptionForTask(Task),
    Diff(Diff),
    /// An action the user asked for.
    Action(Action),
}

/// The key of a key press, as far as the components tell keys apart.
#[derive(Debug, Copy, Clone, PartialEq, Eq, Structural)]
pub enum KeyCode {
    Enter,
    Esc,
    Char(char),
    Other(u32),
}

/// A key press: its key and its modifier bits.
#[derive(Debug, Copy, Clone, PartialEq, Eq, Structural)]
pub struct Key {
    pub code: KeyCode,
    pub modifiers: u8,
}

} // verus!
