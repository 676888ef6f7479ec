//! The todo list component: the unfinished tasks of the scope, most urgent
//! first in the daemon's task order.
pub mod state;

use vstd::prelude::*;
use crate::action::{Action, Key, KeyCode, Mode, Signal};
use crate::components::{scroll_down, scroll_up};
use crate::tree::{TarsTree};
use crate::types::Id;
use std::collections::HashMap;
use id_tree::NodeId;
use state::{Selection, State};

verus! {

/// The todo list component.
#[derive(Debug)]
pub struct TodoList {
    pub state: State,
    /// How many rows to keep between the selection and the frame's edge.
    pub scroll_offset: u16,
}

impl TodoList {
    /// The scroll offset after moving down: one more when the selection is
    /// within the margin of the frame's bottom.
    pub open spec fn offset_after_down(&self) -> u16 {
        if self.state.selection.idx - self.state.scroll_y + self.scroll_offset >= self.state.frame_height {
            scroll_down(self.state.scroll_y)
        } else {
            self.state.scroll_y
        }
    }

    /// The scroll offset after moving up: one less when the selection is
    /// within the margin of the frame's top.
    pub open spec fn offset_after_up(&self) -> u16 {
        if self.state.selection.idx - self.state.scroll_y < self.scroll_offset {
            scroll_up(self.state.scroll_y)
        } else {
            self.state.scroll_y
        }
    }

    /// The position above the selection, or the first one.
    pub open spec fn above(&self) -> int {
        if self.state.selection.idx > 0 { self.state.selection.idx - 1 } else { 0 }
    }

    /// The mode of the todo list.
    pub fn mode(&self) -> (r: Mode)
        ensures
            r == Mode::TodoList,
    {
        Mode::TodoList
    }

    /// Starts the todo list: it is active when the application starts in
    /// its mode.
    pub fn init(&mut self, default_mode: Mode)
        ensures
            *final(self) == (TodoList {
                state: State { active: old(self).state.active || default_mode == Mode::TodoList, ..old(self).state },
                ..*old(self)
            }),
    {
        if default_mode == self.mode() {
            self.state.active = true;
        }
    }

    /// Takes the scrolling margin from the configuration.
    pub fn register_config_handler(&mut self, scroll_offset: u16)
        ensures
            *final(self) == (TodoList { scroll_offset, ..*old(self) }),
    {
        self.scroll_offset = scroll_offset;
    }

    /// A key press: Enter, while the todo list is active, asks to switch to
    /// the inspector.
    pub fn handle_key_event(&self, key: Key) -> (r: Option<Signal>)
        ensures
            r == (if self.state.active && key.code == KeyCode::Enter {
                Some(Signal::Action(Action::SwitchTo(Mode::Inspector)))
            } else {
                None
            }),
    {
        if !self.state.active {
            return None;
        }
        match key.code {
            KeyCode::Enter => Some(Signal::Action(Action::SwitchTo(Mode::Inspector))),
            _ => None,
        }
    }

    /// `post` is `pre` after moving the selection down one task, with the
    /// reply `r`.
    pub open spec fn moved_down(pre: &TodoList, post: &TodoList, r: Option<Signal>) -> bool {
        let idx = pre.state.selection.idx;
        let ts = pre.state.tasks@;
        if idx + 1 < ts.len() {
            &&& *post == (TodoList { state: State { scroll_y: pre.offset_after_down(), ..pre.state }, ..*pre })
            &&& r == Some(Signal::Select(ts[idx + 1].0))
        } else {
            *post == *pre && r is None
        }
    }

    /// `post` is `pre` after moving the selection up one task, with the reply
    /// `r`; with no task there, the list scrolls down when the selection is
    /// near the frame's bottom.
    pub open spec fn moved_up(pre: &TodoList, post: &TodoList, r: Option<Signal>) -> bool {
        let idx = pre.state.selection.idx;
        let ts = pre.state.tasks@;
        let j = pre.above();
        if j < ts.len() {
            &&& *post == (TodoList { state: State { scroll_y: pre.offset_after_up(), ..pre.state }, ..*pre })
            &&& r == Some(Signal::Select(ts[j].0))
        } else {
            &&& *post == (TodoList {
                state: State {
                    scroll_y: if idx + 10 >= pre.state.frame_height { scroll_down(pre.state.scroll_y) } else { pre.state.scroll_y },
                    ..pre.state
                },
                ..*pre
            })
            &&& r is None
        }
    }

    fn move_down(&mut self) -> (r: Option<Signal>)
        requires
            old(self).state.selection.idx < usize::MAX,
            old(self).state.selection.idx + 1 < old(self).state.tasks@.len() ==> {
                &&& old(self).state.scroll_y <= old(self).state.selection.idx
                &&& old(self).state.selection.idx + old(self).scroll_offset <= usize::MAX
            },
        ensures
            TodoList::moved_down(old(self), final(self), r),
    {
        let sel_idx = self.state.selection.idx;
        if sel_idx + 1 < self.state.tasks.len() {
            let next_id = self.state.tasks[sel_idx + 1].0.clone();
            let offset = self.state.scroll_y as usize;
            if sel_idx - offset + self.scroll_offset as usize >= self.state.frame_height as usize {
                self.state.scroll_y = self.state.scroll_y.saturating_add(1);
            }
            return Some(Signal::Select(next_id));
        }
        None
    }

    fn move_up(&mut self) -> (r: Option<Signal>)
        requires
            old(self).above() < old(self).state.tasks@.len() ==> old(self).state.scroll_y <= old(self).state.selection.idx,
            old(self).above() >= old(self).state.tasks@.len() ==> old(self).state.selection.idx + 10 <= usize::MAX,
        ensures
            TodoList::moved_up(old(self), final(self), r),
    {
        let sel_idx = self.state.selection.idx;
        let j = sel_idx.saturating_sub(1);
        if j < self.state.tasks.len() {
            let prev_id = self.state.tasks[j].0.clone();
            let offset = self.state.scroll_y as usize;
            if sel_idx - offset < self.scroll_offset as usize {
                self.state.scroll_y = self.state.scroll_y.saturating_sub(1);
            }
            return Some(Signal::Select(prev_id));
        }
        if sel_idx + 10 >= self.state.frame_height as usize {
            self.state.scroll_y = self.state.scroll_y.saturating_add(1);
        }
        None
    }

    /// The todo list can handle `signal` the way it expects to.
    pub open spec fn can_update(&self, signal: Signal, tree: &TarsTree) -> bool {
        let s = self.state;
        let idx = s.selection.idx;
        match signal {
            Signal::Select(_) => s.active ==> tree.wf() && tree.has(s.scope),
            Signal::ScopeUpdate(scope) => tree.wf() && tree.has(scope),
            Signal::Refresh => tree.wf() && tree.has(s.scope),
            Signal::Action(Action::SwitchTo(m)) => m != Mode::TodoList ==> tree.wf() && tree.has(s.scope),
            Signal::Action(Action::MoveDown) => s.active ==> {
                &&& idx < usize::MAX
                &&& idx + 1 < s.tasks@.len() ==> s.scroll_y <= idx && idx + self.scroll_offset <= usize::MAX
            },
            Signal::Action(Action::MoveUp) => s.active ==> if self.above() < s.tasks@.len() {
                s.scroll_y <= idx
            } else {
                idx + 10 <= usize::MAX
            },
            _ => true,
        }
    }

    /// `post` is `pre` after handling `signal`, with the reply `r`.
    pub open spec fn stepped(pre: &TodoList, post: &TodoList, signal: Signal, tree: &TarsTree, r: Option<Signal>) -> bool {
        let unchanged = *post == *pre && r is None;
        let redrawn_from = |s: State| State::redrawn(&s, &post.state, tree) && post.scroll_offset == pre.scroll_offset && r is None;
        match signal {
            Signal::Select(id) => if pre.state.active {
                redrawn_from(State { selection: Selection { id, idx: pre.state.selection.idx }, ..pre.state })
            } else {
                unchanged
            },
            Signal::ScopeUpdate(scope) => redrawn_from(State { scope, ..pre.state }),
            Signal::Refresh => redrawn_from(pre.state),
            Signal::Action(Action::SwitchTo(m)) => if m == Mode::TodoList {
                &&& *post == (TodoList { state: State { active: true, ..pre.state }, ..*pre })
                &&& r == Some(Signal::Select(pre.state.selection.id))
            } else {
                redrawn_from(State { active: false, ..pre.state })
            },
            Signal::Action(a) => if !pre.state.active {
                unchanged
            } else {
                match a {
                    Action::MoveDown => TodoList::moved_down(pre, post, r),
                    Action::MoveUp => TodoList::moved_up(pre, post, r),
                    _ => unchanged,
                }
            },
            _ => unchanged,
        }
    }

    /// Handles a signal: selections, scope changes, refreshes, mode switches
    /// and, while active, moving the selection.
    pub fn update(&mut self, signal: Signal, tree: &TarsTree) -> (r: Option<Signal>)
        requires
            old(self).can_update(signal, tree),
        ensures
            TodoList::stepped(old(self), final(self), signal, tree, r),
    {
        match signal {
            Signal::Select(id) => {
                if self.state.active {
                    self.state.set_selection(tree, id);
                }
                None
            },
            Signal::ScopeUpdate(scope) => {
                self.state.set_scope(tree, scope);
                None
            },
            Signal::Refresh => {
                self.state.calculate_draw_info(tree);
                None
            },
            Signal::Action(Action::SwitchTo(m)) => {
                match m {
                    Mode::TodoList => {
                        self.state.active = true;
                        Some(Signal::Select(self.state.selection.id.clone()))
                    },
                    _ => {
                        self.state.active = false;
                        self.state.calculate_draw_info(tree);
                        None
                    },
                }
            },
            Signal::Action(a) => {
                if !self.state.active {
                    return None;
                }
                match a {
                    Action::MoveDown => self.move_down(),
                    Action::MoveUp => self.move_up(),
                    _ => None,
                }
            },
            _ => None,
        }
    }

    /// The first selection of the todo list: the node after the root in
    /// pre-order, or the root when the tree holds nothing else.
    pub open spec fn first_selection(tree: &TarsTree) -> NodeId {
        let pot = tree.subtree(tree.root());
        if pot.len() >= 2 { pot[1] } else { pot[0] }
    }

    /// An inactive todo list scoped at the root of the tree.
    pub fn new(tree: &TarsTree, ranks: HashMap<Id, u64>) -> (r: TodoList)
        requires
            tree.wf(),
        ensures
            r.scroll_offset == 0,
            r.state.ranks@ == ranks@,
            State::redrawn(
                &State {
                    active: false,
                    scope: tree.root(),
                    selection: Selection { id: TodoList::first_selection(tree), idx: 0 },
                    draw_info: None,
                    tasks: r.state.tasks,
                    ranks: r.state.ranks,
                    scroll_y: 0,
                    frame_height: 50,
                },
                &r.state,
                tree,
            ),
    {
        let pot = tree.traverse_root();
        proof {
            tree.lemma_subtree(tree.root());
            tree.lemma_subtree_valid(tree.root());
        }
        let selection = if pot.len() >= 2 { pot[1].clone() } else { pot[0].clone() };
        let scope = tree.root_node_id();
        let state = State::new(false, scope, selection, ranks, tree);
        TodoList { state, scroll_offset: 0 }
    }
}

} // verus!
