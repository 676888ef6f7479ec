//! The explorer component: lets the user move through the tree, step into
//! and out of groups, and create or delete groups and tasks.
pub mod state;

use vstd::prelude::*;
use crate::action::{Action, Key, KeyCode, Mode, Signal};
use crate::components::{scroll_down, scroll_up};
use crate::tree::{node_id_eq, TarsKind, TarsTree};
use crate::types::{is_new_group_draft, is_new_task_draft, Group, GroupDraft, Id, Task, TaskDraft};
use id_tree::NodeId;
use state::{generate_render_list, lemma_listing_valid, render_list, Selection, State};

verus! {

/// What the explorer does on the next `Update` signal.
#[derive(Debug, PartialEq, Eq, Structural)]
pub enum OnUpdate {
    Idle,
    /// Select the node of the item with this id, once the tree holds it.
    Select(Id),
}

/// Work the explorer asks the daemon for.
#[derive(Debug)]
pub enum Request {
    DeleteTask(Task),
    DeleteGroup(Group),
    /// A new task, as the draft describes it.
    NewTask(TaskDraft),
    /// A new group, as the draft describes it.
    NewGroup(GroupDraft),
}

/// What the explorer answers to a signal: a signal to hand back, one to send
/// to all components, and work for the daemon.
#[derive(Debug)]
pub struct Outcome {
    pub reply: Option<Signal>,
    pub send: Option<Signal>,
    pub request: Option<Request>,
    /// For a deletion: the node to select once the daemon has deleted.
    pub then_select: Option<NodeId>,
}

/// Why the explorer could not handle a signal.
#[derive(Debug, PartialEq, Eq, Structural)]
pub enum ExplorerError {
    /// The item to select is not in the tree.
    MissingNode,
    /// The selection is no longer in the tree.
    InvalidSelection,
}

/// An outcome with nothing in it.
pub open spec fn quiet(out: Outcome) -> bool {
    out.reply is None && out.send is None && out.request is None && out.then_select is None
}

/// An outcome with only a request for a new task in the group `g`.
pub open spec fn asks_new_task(out: Outcome, g: Group) -> bool {
    &&& out.request matches Some(Request::NewTask(d)) && is_new_task_draft(d, g)
    &&& out.reply is None && out.send is None && out.then_select is None
}

/// An outcome with only a request for a new group under `parent`.
pub open spec fn asks_new_group(out: Outcome, parent: Option<Id>) -> bool {
    &&& out.request matches Some(Request::NewGroup(d)) && is_new_group_draft(d, parent)
    &&& out.reply is None && out.send is None && out.then_select is None
}

/// An outcome with only a reply.
pub open spec fn replies(out: Outcome, s: Signal) -> bool {
    out.reply == Some(s) && out.send is None && out.request is None && out.then_select is None
}

/// The explorer component.
#[derive(Debug)]
pub struct Explorer {
    pub state: State,
    pub on_update: OnUpdate,
    /// How many rows to keep between the selection and the frame's edge.
    pub scroll_offset: u16,
}

impl Explorer {
    /// The list can scroll from the selection: it is not above the top of
    /// the frame and its distance to the top plus the margin fits in a `usize`.
    pub open spec fn scroll_fits(&self) -> bool {
        &&& self.state.scroll_y <= self.state.selection.idx
        &&& self.state.selection.idx + self.scroll_offset <= usize::MAX
        &&& self.state.selection.idx < usize::MAX
    }

    /// The scroll offset after moving down: one more when the selection is
    /// within the margin of the frame's bottom.
    pub open spec fn offset_after_down(&self) -> u16 {
        if self.state.selection.idx - self.state.scroll_y + self.scroll_offset >= self.state.frame_height {
            scroll_down(self.state.scroll_y)
        } else {
            self.state.scroll_y
        }
    }

    /// The scroll offset after moving up: one less when the selection is
    /// within the margin of the frame's top.
    pub open spec fn offset_after_up(&self) -> u16 {
        if self.state.selection.idx - self.state.scroll_y < self.scroll_offset {
            scroll_up(self.state.scroll_y)
        } else {
            self.state.scroll_y
        }
    }

    fn offset_down(&self) -> (r: u16)
        requires
            self.scroll_fits(),
        ensures
            r == self.offset_after_down(),
    {
        let dist = self.state.selection.idx - self.state.scroll_y as usize + self.scroll_offset as usize;
        if dist >= self.state.frame_height as usize {
            self.state.scroll_y.saturating_add(1)
        } else {
            self.state.scroll_y
        }
    }

    fn offset_up(&self) -> (r: u16)
        requires
            self.scroll_fits(),
        ensures
            r == self.offset_after_up(),
    {
        if self.state.selection.idx - (self.state.scroll_y as usize) < self.scroll_offset as usize {
            self.state.scroll_y.saturating_sub(1)
        } else {
            self.state.scroll_y
        }
    }

    /// The mode of the explorer.
    pub fn mode(&self) -> (r: Mode)
        ensures
            r == Mode::Explorer,
    {
        Mode::Explorer
    }

    /// Starts the explorer: it is active when the application starts in its
    /// mode.
    pub fn init(&mut self, default_mode: Mode)
        ensures
            final(self).state.active == (old(self).state.active || default_mode == Mode::Explorer),
            final(self).state.scope == old(self).state.scope,
            final(self).state.selection == old(self).state.selection,
            final(self).state.show_completed == old(self).state.show_completed,
            final(self).state.draw_info == old(self).state.draw_info,
            final(self).state.scroll_y == old(self).state.scroll_y,
            final(self).state.frame_height == old(self).state.frame_height,
            final(self).on_update == old(self).on_update,
            final(self).scroll_offset == old(self).scroll_offset,
    {
        if default_mode == self.mode() {
            self.state.active = true;
        }
    }

    /// A key press: Enter, while the explorer is active, asks to switch to
    /// the inspector.
    pub fn handle_key_event(&self, key: Key) -> (r: Option<Signal>)
        ensures
            r == (if self.state.active && key.code == KeyCode::Enter {
                Some(Signal::Action(Action::SwitchTo(Mode::Inspector)))
            } else {
                None
            }),
    {
        if !self.state.active {
            return None;
        }
        match key.code {
            KeyCode::Enter => Some(Signal::Action(Action::SwitchTo(Mode::Inspector))),
            _ => None,
        }
    }

    /// `post` is `pre` after moving the selection down one entry.
    pub open spec fn moved_down(pre: &Explorer, post: &Explorer, tree: &TarsTree, out: Outcome) -> bool {
        let rl = pre.state.listing(tree);
        let i = pre.state.selection.idx;
        &&& post.on_update == pre.on_update
        &&& post.scroll_offset == pre.scroll_offset
        &&& if i + 1 < rl.len() {
            &&& State::redrawn(
                &State { selection: Selection { id: rl[i + 1], idx: i }, scroll_y: pre.offset_after_down(), ..pre.state },
                &post.state,
                tree,
            )
            &&& replies(out, Signal::Select(rl[i + 1]))
        } else {
            post.state == pre.state && quiet(out)
        }
    }

    /// Moves the selection to the next entry, scrolling when it nears the
    /// bottom of the frame.
    pub fn move_down(&mut self, tree: &TarsTree) -> (out: Outcome)
        requires
            old(self).state.drawable(tree),
            old(self).scroll_fits(),
        ensures
            Explorer::moved_down(old(self), final(self), tree, out),
    {
        let render_list = generate_render_list(tree, &self.state.scope, self.state.show_completed);
        proof {
            lemma_listing_valid(tree, self.state.scope, self.state.show_completed);
        }
        let sel_idx = self.state.selection.idx;
        if sel_idx + 1 < render_list.len() {
            let next_id = render_list[sel_idx + 1].clone();
            proof {
                assert(tree.has(render_list@[sel_idx + 1]));
            }
            self.state.scroll_y = self.offset_down();
            self.state.set_selection(tree, next_id.clone());
            return Outcome { reply: Some(Signal::Select(next_id)), send: None, request: None, then_select: None };
        }
        Outcome { reply: None, send: None, request: None, then_select: None }
    }

    /// `post` is `pre` after moving the selection up one entry.
    pub open spec fn moved_up(pre: &Explorer, post: &Explorer, tree: &TarsTree, out: Outcome) -> bool {
        let rl = pre.state.listing(tree);
        let i = pre.state.selection.idx;
        let scrolled = State { scroll_y: pre.offset_after_up(), ..pre.state };
        &&& post.on_update == pre.on_update
        &&& post.scroll_offset == pre.scroll_offset
        &&& if i >= 1 && i - 1 < rl.len() && rl[i - 1] != tree.root() {
            &&& State::redrawn(&State { selection: Selection { id: rl[i - 1], idx: i }, ..scrolled }, &post.state, tree)
            &&& replies(out, Signal::Select(rl[i - 1]))
        } else {
            post.state == scrolled && quiet(out)
        }
    }

    /// Moves the selection to the previous entry, scrolling when it nears the
    /// top of the frame.
    pub fn move_up(&mut self, tree: &TarsTree) -> (out: Outcome)
        requires
            old(self).state.drawable(tree),
            old(self).scroll_fits(),
        ensures
            Explorer::moved_up(old(self), final(self), tree, out),
    {
        let render_list = generate_render_list(tree, &self.state.scope, self.state.show_completed);
        proof {
            lemma_listing_valid(tree, self.state.scope, self.state.show_completed);
        }
        let sel_idx = self.state.selection.idx;
        self.state.scroll_y = self.offset_up();
        if sel_idx == 0 {
            return Outcome { reply: None, send: None, request: None, then_select: None };
        }
        let i = sel_idx - 1;
        if i < render_list.len() {
            let prev_id = &render_list[i];
            let root = tree.root_node_id();
            if node_id_eq(&root, prev_id) {
                return Outcome { reply: None, send: None, request: None, then_select: None };
            }
            proof {
                assert(tree.has(render_list@[i as int]));
            }
            self.state.set_selection(tree, prev_id.clone());
            return Outcome { reply: Some(Signal::Select(prev_id.clone())), send: None, request: None, then_select: None };
        }
        Outcome { reply: None, send: None, request: None, then_select: None }
    }

    /// `post` is `pre` after stepping into the selected entry, when it is a
    /// group: it becomes the scope and the selection.
    pub open spec fn moved_into(pre: &Explorer, post: &Explorer, tree: &TarsTree, out: Outcome) -> bool {
        let cur = pre.state.listing(tree)[pre.state.selection.idx as int];
        &&& post.on_update == pre.on_update
        &&& post.scroll_offset == pre.scroll_offset
        &&& if tree.node(cur).kind is Group {
            &&& exists|mid: State|
                #![trigger mid.scope]
                State::redrawn(&State { scope: cur, ..pre.state }, &mid, tree) && State::redrawn(
                    &State { selection: Selection { id: cur, idx: mid.selection.idx }, ..mid },
                    &post.state,
                    tree,
                )
            &&& replies(out, Signal::ScopeUpdate(cur))
        } else {
            post.state == pre.state && quiet(out)
        }
    }

    /// Steps into the selected group: it becomes the scope and stays
    /// selected.
    pub fn move_into(&mut self, tree: &TarsTree) -> (out: Outcome)
        requires
            old(self).state.drawable(tree),
            old(self).state.selection.idx < old(self).state.listing(tree).len(),
            (State { scope: old(self).state.listing(tree)[old(self).state.selection.idx as int], ..old(self).state }).drawable(tree),
        ensures
            Explorer::moved_into(old(self), final(self), tree, out),
    {
        let render_list = generate_render_list(tree, &self.state.scope, self.state.show_completed);
        proof {
            lemma_listing_valid(tree, self.state.scope, self.state.show_completed);
        }
        let curr_idx = self.state.selection.idx;
        let curr_id = &render_list[curr_idx];
        proof {
            assert(tree.has(render_list@[curr_idx as int]));
        }
        match tree.data(curr_id).kind {
            TarsKind::Group(_) => {
                self.state.set_scope(tree, curr_id.clone());
                let ghost mid = self.state;
                self.state.set_selection(tree, curr_id.clone());
                proof {
                    assert(State::redrawn(
                        &State { selection: Selection { id: *curr_id, idx: mid.selection.idx }, ..mid },
                        &self.state,
                        tree,
                    ));
                }
                Outcome { reply: Some(Signal::ScopeUpdate(curr_id.clone())), send: None, request: None, then_select: None }
            },
            _ => Outcome { reply: None, send: None, request: None, then_select: None },
        }
    }

    /// `post` is `pre` after stepping out of the scope, into its parent.
    pub open spec fn moved_out(pre: &Explorer, post: &Explorer, tree: &TarsTree, out: Outcome) -> bool {
        &&& post.on_update == pre.on_update
        &&& post.scroll_offset == pre.scroll_offset
        &&& match tree.parent(pre.state.scope) {
            Some(p) => State::redrawn(&State { scope: p, ..pre.state }, &post.state, tree) && replies(out, Signal::ScopeUpdate(p)),
            None => post.state == pre.state && quiet(out),
        }
    }

    /// Steps out of the scope: its parent becomes the scope.
    pub fn move_out_of(&mut self, tree: &TarsTree) -> (out: Outcome)
        requires
            old(self).state.drawable(tree),
            tree.parent(old(self).state.scope) matches Some(p) ==> (State { scope: p, ..old(self).state }).drawable(tree),
        ensures
            Explorer::moved_out(old(self), final(self), tree, out),
    {
        let ancestors = tree.ancestor_ids(&self.state.scope);
        proof {
            tree.lemma_ancestry(self.state.scope);
        }
        if ancestors.len() > 0 {
            let parent = &ancestors[0];
            proof {
                assert(tree.has(*parent));
            }
            self.state.set_scope(tree, parent.clone());
            return Outcome { reply: Some(Signal::ScopeUpdate(parent.clone())), send: None, request: None, then_select: None };
        }
        Outcome { reply: None, send: None, request: None, then_select: None }
    }

    /// The request deleting the selected item, with the node to select once
    /// it is gone: the next entry, else the previous one (the entry itself
    /// for the first).
    pub open spec fn delete_plan(pre: &Explorer, tree: &TarsTree, out: Outcome) -> bool {
        let rl = pre.state.listing(tree);
        let i = pre.state.selection.idx;
        let next = if i + 1 < rl.len() {
            Some(rl[i + 1])
        } else {
            let j = if i >= 1 { i - 1 } else { 0 };
            if j < rl.len() { Some(rl[j]) } else { None }
        };
        match tree.node(pre.state.selection.id).kind {
            TarsKind::Task(t) => out.request == Some(Request::DeleteTask(t)) && out.then_select == next
                && out.reply is None && out.send is None,
            TarsKind::Group(g) => out.request == Some(Request::DeleteGroup(g)) && out.then_select == next
                && out.reply is None && out.send is None,
            TarsKind::Root => quiet(out),
        }
    }

    /// Plans the deletion of the selected item.
    pub fn plan_delete(&self, tree: &TarsTree) -> (r: Result<Outcome, ExplorerError>)
        requires
            self.state.drawable(tree),
            self.state.selection.idx < usize::MAX,
        ensures
            match r {
                Ok(out) => tree.has(self.state.selection.id) && Explorer::delete_plan(self, tree, out),
                Err(e) => !tree.has(self.state.selection.id) && e == ExplorerError::InvalidSelection,
            },
    {
        if !tree.contains(&self.state.selection.id) {
            return Err(ExplorerError::InvalidSelection);
        }
        let render_list = generate_render_list(tree, &self.state.scope, self.state.show_completed);
        let request = match &tree.data(&self.state.selection.id).kind {
            TarsKind::Task(t) => Request::DeleteTask(t.duplicate()),
            TarsKind::Group(g) => Request::DeleteGroup(g.duplicate()),
            TarsKind::Root => {
                return Ok(Outcome { reply: None, send: None, request: None, then_select: None });
            },
        };
        let i = self.state.selection.idx;
        let next = if i + 1 < render_list.len() {
            Some(render_list[i + 1].clone())
        } else {
            let j = if i >= 1 { i - 1 } else { 0 };
            if j < render_list.len() { Some(render_list[j].clone()) } else { None }
        };
        Ok(Outcome { reply: None, send: None, request: Some(request), then_select: next })
    }

    /// The request creating a task in the group of the selected item.
    pub open spec fn new_task_plan(pre: &Explorer, tree: &TarsTree, out: Outcome) -> bool {
        match tree.node(pre.state.selection.id).kind {
            TarsKind::Task(t) => asks_new_task(out, t.group),
            TarsKind::Group(g) => asks_new_task(out, g),
            TarsKind::Root => quiet(out),
        }
    }

    /// Plans a new task in the selected group, or in the group of the
    /// selected task.
    pub fn plan_new_task(&self, tree: &TarsTree) -> (r: Result<Outcome, ExplorerError>)
        requires
            tree.wf(),
        ensures
            match r {
                Ok(out) => tree.has(self.state.selection.id) && Explorer::new_task_plan(self, tree, out),
                Err(e) => !tree.has(self.state.selection.id) && e == ExplorerError::InvalidSelection,
            },
    {
        if !tree.contains(&self.state.selection.id) {
            return Err(ExplorerError::InvalidSelection);
        }
        let parent = match &tree.data(&self.state.selection.id).kind {
            TarsKind::Task(t) => t.group.duplicate(),
            TarsKind::Group(g) => g.duplicate(),
            TarsKind::Root => {
                return Ok(Outcome { reply: None, send: None, request: None, then_select: None });
            },
        };
        Ok(Outcome { reply: None, send: None, request: Some(Request::NewTask(TaskDraft::new_task(&parent))), then_select: None })
    }

    /// The request creating a group in the scope.
    pub open spec fn new_group_plan(pre: &Explorer, tree: &TarsTree, out: Outcome) -> bool {
        match tree.node(pre.state.scope).kind {
            TarsKind::Root => asks_new_group(out, None),
            TarsKind::Group(g) => asks_new_group(out, Some(g.id)),
            TarsKind::Task(_) => quiet(out),
        }
    }

    /// Plans a new group in the scope.
    pub fn plan_new_group(&self, tree: &TarsTree) -> (r: Outcome)
        requires
            tree.wf(),
            tree.has(self.state.scope),
        ensures
            Explorer::new_group_plan(self, tree, r),
    {
        let parent = match &tree.data(&self.state.scope).kind {
            TarsKind::Root => None,
            TarsKind::Group(g) => Some(g.id),
            TarsKind::Task(_) => {
                return Outcome { reply: None, send: None, request: None, then_select: None };
            },
        };
        Outcome { reply: None, send: None, request: Some(Request::NewGroup(GroupDraft::new_group(parent))), then_select: None }
    }

    /// The request creating a group under the selected group, or under the
    /// group of the selected task.
    pub open spec fn new_sub_group_plan(pre: &Explorer, tree: &TarsTree, out: Outcome) -> bool {
        let parent = match tree.node(pre.state.selection.id).kind {
            TarsKind::Task(t) => Some(t.group.id),
            TarsKind::Group(g) => Some(g.id),
            TarsKind::Root => None,
        };
        asks_new_group(out, parent)
    }

    /// Plans a new group under the selected group, or under the group of the
    /// selected task.
    pub fn plan_new_sub_group(&self, tree: &TarsTree) -> (r: Result<Outcome, ExplorerError>)
        requires
            tree.wf(),
        ensures
            match r {
                Ok(out) => tree.has(self.state.selection.id) && Explorer::new_sub_group_plan(self, tree, out),
                Err(e) => !tree.has(self.state.selection.id) && e == ExplorerError::InvalidSelection,
            },
    {
        if !tree.contains(&self.state.selection.id) {
            return Err(ExplorerError::InvalidSelection);
        }
        let parent = match &tree.data(&self.state.selection.id).kind {
            TarsKind::Task(t) => Some(t.group.id),
            TarsKind::Group(g) => Some(g.id),
            TarsKind::Root => None,
        };
        Ok(Outcome { reply: None, send: None, request: Some(Request::NewGroup(GroupDraft::new_group(parent))), then_select: None })
    }

    /// The daemon created the item with id `id`: it is selected on the next
    /// update, and all components refresh.
    pub fn on_created(&mut self, id: Id) -> (r: Signal)
        ensures
            final(self).on_update == OnUpdate::Select(id),
            final(self).state == old(self).state,
            final(self).scroll_offset == old(self).scroll_offset,
            r == Signal::Refresh,
    {
        self.on_update = OnUpdate::Select(id);
        Signal::Refresh
    }

    /// The daemon deleted the item: the planned node, if any, is selected.
    pub fn after_delete(&mut self, tree: &TarsTree, then_select: Option<NodeId>)
        requires
            then_select matches Some(n) ==> (State { selection: Selection { id: n, idx: old(self).state.selection.idx }, ..old(self).state }).drawable(tree),
        ensures
            final(self).on_update == old(self).on_update,
            final(self).scroll_offset == old(self).scroll_offset,
            match then_select {
                Some(n) => State::redrawn(
                    &State { selection: Selection { id: n, idx: old(self).state.selection.idx }, ..old(self).state },
                    &final(self).state,
                    tree,
                ),
                None => final(self).state == old(self).state,
            },
    {
        match then_select {
            Some(n) => self.state.set_selection(tree, n),
            None => {},
        }
    }

    /// `post` is `pre` after an `Update` signal: a pending selection is
    /// sent once the tree holds its item, and the inspector takes over.
    pub open spec fn updated(pre: &Explorer, post: &Explorer, tree: &TarsTree, r: Result<Outcome, ExplorerError>) -> bool {
        &&& post.scroll_offset == pre.scroll_offset
        &&& match pre.on_update {
            OnUpdate::Idle => {
                &&& post.state == pre.state
                &&& post.on_update == pre.on_update
                &&& r matches Ok(out) && quiet(out)
            },
            OnUpdate::Select(id) => {
                &&& post.state == State { scroll_y: pre.offset_after_down(), ..pre.state }
                &&& if tree.index().contains_key(id) {
                    &&& post.on_update == OnUpdate::Idle
                    &&& r matches Ok(out)
                    &&& out.reply == Some(Signal::Action(Action::SwitchTo(Mode::Inspector)))
                    &&& out.send == Some(Signal::Select(tree.index()[id]))
                    &&& out.request is None && out.then_select is None
                } else {
                    post.on_update == pre.on_update && r == Err::<Outcome, ExplorerError>(ExplorerError::MissingNode)
                }
            },
        }
    }

    /// Handles an `Update` signal.
    pub fn on_update_signal(&mut self, tree: &TarsTree) -> (r: Result<Outcome, ExplorerError>)
        requires
            tree.wf(),
            old(self).on_update is Select ==> old(self).scroll_fits(),
        ensures
            Explorer::updated(old(self), final(self), tree, r),
    {
        match &self.on_update {
            OnUpdate::Select(id) => {
                let id = *id;
                self.state.scroll_y = self.offset_down();
                let node_id = match tree.translate_id_to_node_id(&id) {
                    Some(k) => k,
                    None => {
                        return Err(ExplorerError::MissingNode);
                    },
                };
                self.on_update = OnUpdate::Idle;
                Ok(Outcome {
                    reply: Some(Signal::Action(Action::SwitchTo(Mode::Inspector))),
                    send: Some(Signal::Select(node_id)),
                    request: None,
                    then_select: None,
                })
            },
            OnUpdate::Idle => Ok(Outcome { reply: None, send: None, request: None, then_select: None }),
        }
    }

    /// The explorer can handle `signal` the way it expects to.
    pub open spec fn can_update(&self, signal: Signal, tree: &TarsTree) -> bool {
        &&& tree.wf()
        &&& match signal {
            Signal::Select(id) => self.state.active ==> (State { selection: Selection { id, idx: self.state.selection.idx }, ..self.state }).drawable(tree),
            Signal::Update => self.on_update is Select ==> self.scroll_fits(),
            Signal::Refresh => self.state.drawable(tree),
            Signal::Action(Action::SwitchTo(_)) => true,
            Signal::Action(a) => self.state.active ==> match a {
                Action::ToggleShowFinished => self.state.can_toggle(tree),
                Action::Delete => self.state.drawable(tree) && self.state.selection.idx < usize::MAX,
                Action::NewGroup => tree.has(self.state.scope),
                Action::MoveDown => self.state.drawable(tree) && self.scroll_fits(),
                Action::MoveUp => self.state.drawable(tree) && self.scroll_fits(),
                Action::MoveInto => {
                    &&& self.state.drawable(tree)
                    &&& self.state.selection.idx < self.state.listing(tree).len()
                    &&& (State { scope: self.state.listing(tree)[self.state.selection.idx as int], ..self.state }).drawable(tree)
                },
                Action::MoveOutOf => self.state.drawable(tree) && (tree.parent(self.state.scope) matches Some(p) ==> (State {
                    scope: p,
                    ..self.state
                }).drawable(tree)),
                _ => true,
            },
            _ => true,
        }
    }

    /// `post` is `pre` after handling `signal`, with the result `r`.
    pub open spec fn stepped(pre: &Explorer, post: &Explorer, signal: Signal, tree: &TarsTree, r: Result<Outcome, ExplorerError>) -> bool {
        let unchanged = *post == *pre && (r matches Ok(out) && quiet(out));
        match signal {
            Signal::Select(id) => if pre.state.active {
                &&& State::redrawn(&State { selection: Selection { id, idx: pre.state.selection.idx }, ..pre.state }, &post.state, tree)
                &&& post.on_update == pre.on_update
                &&& post.scroll_offset == pre.scroll_offset
                &&& r matches Ok(out) && quiet(out)
            } else {
                unchanged
            },
            Signal::Update => Explorer::updated(pre, post, tree, r),
            Signal::Refresh => {
                &&& State::redrawn(&pre.state, &post.state, tree)
                &&& post.on_update == pre.on_update
                &&& post.scroll_offset == pre.scroll_offset
                &&& r matches Ok(out) && quiet(out)
            },
            Signal::Action(Action::SwitchTo(m)) => {
                &&& post.state == State { active: m == Mode::Explorer, ..pre.state }
                &&& post.on_update == pre.on_update
                &&& post.scroll_offset == pre.scroll_offset
                &&& r matches Ok(out) && if m == Mode::Explorer {
                    replies(out, Signal::Select(pre.state.selection.id))
                } else {
                    quiet(out)
                }
            },
            Signal::Action(a) => if !pre.state.active {
                unchanged
            } else {
                match a {
                    Action::ToggleShowFinished => {
                        &&& State::toggled(&pre.state, &post.state, tree)
                        &&& post.on_update == pre.on_update
                        &&& post.scroll_offset == pre.scroll_offset
                        &&& r matches Ok(out) && quiet(out)
                    },
                    Action::Delete => *post == *pre && match r {
                        Ok(out) => tree.has(pre.state.selection.id) && Explorer::delete_plan(pre, tree, out),
                        Err(e) => !tree.has(pre.state.selection.id) && e == ExplorerError::InvalidSelection,
                    },
                    Action::NewTask => *post == *pre && match r {
                        Ok(out) => tree.has(pre.state.selection.id) && Explorer::new_task_plan(pre, tree, out),
                        Err(e) => !tree.has(pre.state.selection.id) && e == ExplorerError::InvalidSelection,
                    },
                    Action::NewGroup => *post == *pre && (r matches Ok(out) && Explorer::new_group_plan(pre, tree, out)),
                    Action::NewSubGroup => *post == *pre && match r {
                        Ok(out) => tree.has(pre.state.selection.id) && Explorer::new_sub_group_plan(pre, tree, out),
                        Err(e) => !tree.has(pre.state.selection.id) && e == ExplorerError::InvalidSelection,
                    },
                    Action::MoveDown => r matches Ok(out) && Explorer::moved_down(pre, post, tree, out),
                    Action::MoveUp => r matches Ok(out) && Explorer::moved_up(pre, post, tree, out),
                    Action::MoveInto => r matches Ok(out) && Explorer::moved_into(pre, post, tree, out),
                    Action::MoveOutOf => r matches Ok(out) && Explorer::moved_out(pre, post, tree, out),
                    _ => unchanged,
                }
            },
            _ => unchanged,
        }
    }

    /// Handles a signal: selections, updates, refreshes, mode switches and,
    /// while active, the user's actions.
    pub fn update(&mut self, signal: Signal, tree: &TarsTree) -> (r: Result<Outcome, ExplorerError>)
        requires
            old(self).can_update(signal, tree),
        ensures
            Explorer::stepped(old(self), final(self), signal, tree, r),
    {
        let quiet_ok = Ok(Outcome { reply: None, send: None, request: None, then_select: None });
        match signal {
            Signal::Select(id) => {
                if self.state.active {
                    self.state.set_selection(tree, id);
                }
                quiet_ok
            },
            Signal::Update => self.on_update_signal(tree),
            Signal::Refresh => {
                self.state.calculate_draw_info(tree);
                quiet_ok
            },
            Signal::Action(Action::SwitchTo(m)) => {
                match m {
                    Mode::Explorer => {
                        self.state.active = true;
                        Ok(Outcome {
                            reply: Some(Signal::Select(self.state.selection.id.clone())),
                            send: None,
                            request: None,
                            then_select: None,
                        })
                    },
                    _ => {
                        self.state.active = false;
                        quiet_ok
                    },
                }
            },
            Signal::Action(a) => {
                if !self.state.active {
                    return quiet_ok;
                }
                match a {
                    Action::ToggleShowFinished => {
                        self.state.toggle_show_finished(tree);
                        quiet_ok
                    },
                    Action::Delete => self.plan_delete(tree),
                    Action::NewTask => self.plan_new_task(tree),
                    Action::NewGroup => Ok(self.plan_new_group(tree)),
                    Action::NewSubGroup => self.plan_new_sub_group(tree),
                    Action::MoveDown => Ok(self.move_down(tree)),
                    Action::MoveUp => Ok(self.move_up(tree)),
                    Action::MoveInto => Ok(self.move_into(tree)),
                    Action::MoveOutOf => Ok(self.move_out_of(tree)),
                    _ => quiet_ok,
                }
            },
            _ => quiet_ok,
        }
    }

    /// Every node of the tree fits twice its depth in a `u16`.
    pub open spec fn depths_fit(tree: &TarsTree) -> bool {
        forall|i: int| 0 <= i < tree.subtree(tree.root()).len() ==> #[trigger] tree.node(tree.subtree(tree.root())[i]).depth * 2 <= u16::MAX
    }

    /// The first selection of the explorer: the node after the root in
    /// pre-order, or the root when the tree holds nothing else.
    pub open spec fn first_selection(tree: &TarsTree) -> NodeId {
        let pot = tree.subtree(tree.root());
        if pot.len() >= 2 { pot[1] } else { pot[0] }
    }

    /// An inactive explorer scoped at the root of the tree.
    pub fn new(tree: &TarsTree) -> (r: Explorer)
        requires
            tree.wf(),
            Explorer::depths_fit(tree),
        ensures
            r.on_update == OnUpdate::Idle,
            r.scroll_offset == 0,
            State::redrawn(
                &State {
                    active: false,
                    show_completed: false,
                    scope: tree.root(),
                    selection: Selection { id: Explorer::first_selection(tree), idx: 0 },
                    draw_info: None,
                    scroll_y: 0,
                    frame_height: 80,
                },
                &r.state,
                tree,
            ),
    {
        let pot = tree.traverse_root();
        proof {
            tree.lemma_subtree(tree.root());
            tree.lemma_subtree_valid(tree.root());
            assert(pot@.len() > 0);
        }
        let selection = if pot.len() >= 2 { pot[1].clone() } else { pot[0].clone() };
        proof {
            assert(tree.has(selection));
        }
        let scope = tree.root_node_id();
        let state = State::new(false, scope, selection, tree);
        Explorer { state, on_update: OnUpdate::Idle, scroll_offset: 0 }
    }

    /// Takes the scrolling margin from the configuration.
    pub fn register_config_handler(&mut self, scroll_offset: u16)
        ensures
            final(self).scroll_offset == scroll_offset,
            final(self).state == old(self).state,
            final(self).on_update == old(self).on_update,
    {
        self.scroll_offset = scroll_offset;
    }
}

} // verus!
