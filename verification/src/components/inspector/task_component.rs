//! The task sheet of the inspector: shows a task and lets the user rename
//! it, change its priority and due date, edit its description and finish it.
use vstd::prelude::*;
use crate::action::{Action, Key, KeyCode, Signal};
use crate::components::inspector::{
    answered, ends_edit, fresh_text, EditOutcome, Field, InspectorError, InspectorOutcome, Request, TarsText,
};
use crate::components::todo_list::state::{priority_label, priority_name};
use crate::dates::{clock_text, format_timestamp};
use crate::tree::{TarsKind, TarsTree};
use crate::types::{Priority, Task};
use id_tree::NodeId;

verus! {

/// What the task sheet does on the next `Update` signal.
#[derive(Debug, PartialEq, Eq, Structural)]
pub enum OnUpdate {
    NoOp,
    /// Read the task again from the tree.
    ReRender,
}

/// The field being edited, if any.
#[derive(Debug, PartialEq, Eq, Structural)]
pub enum EditMode {
    Inactive,
    Name,
    Priority,
    Due,
}

/// The parts of the sheet that only change with the task: its group, the
/// group's color, the description and whether and when it was finished.
#[derive(Debug)]
pub struct TaskSheet {
    pub group: String,
    pub color: String,
    pub description: String,
    pub completion: String,
    pub finished: bool,
}

/// The text shown when a task is not finished.
pub open spec fn unfinished_text() -> Seq<char> {
    " ❌ Get to work cornball"@
}

/// The format of full dates in the inspector.
pub open spec fn full_date() -> Seq<char> {
    "%m/%d/%Y %I:%M:%S %p"@
}

/// The completion text: when the task was finished, or a nudge.
pub open spec fn completion_of(t: Task) -> Seq<char> {
    match t.finished_at {
        Some(time) => clock_text(time, full_date()) + " "@,
        None => unfinished_text(),
    }
}

/// `s` is the sheet of `t`.
pub open spec fn sheet_of(s: TaskSheet, t: Task) -> bool {
    &&& s.group == t.group.name
    &&& s.color == t.group.color
    &&& s.description == t.description
    &&& s.completion@ == completion_of(t)
    &&& s.finished == (t.finished_at is Some)
}

/// What the due field shows while empty: the due date, or "None".
pub open spec fn due_placeholder(t: Task) -> Seq<char> {
    match t.due {
        Some(d) => clock_text(d, full_date()),
        None => "None"@,
    }
}

/// The task sheet.
#[derive(Debug)]
pub struct TaskComponent {
    pub task: Task,
    pub description: String,
    pub edit_mode: EditMode,
    pub sheet: TaskSheet,
    pub name: TarsText,
    pub due: TarsText,
    pub priority: TarsText,
    pub on_update: OnUpdate,
    pub active: bool,
}

/// The sheet of a task.
fn sheet(t: &Task) -> (r: TaskSheet)
    ensures
        sheet_of(r, *t),
{
    let completion = match t.finished_at {
        Some(time) => format_timestamp(time, "%m/%d/%Y %I:%M:%S %p").concat(" "),
        None => " ❌ Get to work cornball".to_owned(),
    };
    TaskSheet {
        group: t.group.name.clone(),
        color: t.group.color.clone(),
        description: t.description.clone(),
        completion,
        finished: t.finished_at.is_some(),
    }
}

/// What the due field shows while empty.
fn due_text(t: &Task) -> (r: String)
    ensures
        r@ == due_placeholder(*t),
{
    match t.due {
        Some(d) => format_timestamp(d, "%m/%d/%Y %I:%M:%S %p"),
        None => "None".to_owned(),
    }
}

impl TaskComponent {
    /// The sheet displays `t`, with fresh fields.
    pub open spec fn displays(c: TaskComponent, t: Task) -> bool {
        &&& c.task == t
        &&& c.description == t.description
        &&& sheet_of(c.sheet, t)
        &&& fresh_text(c.name, t.name@)
        &&& fresh_text(c.priority, priority_label(t.priority))
        &&& fresh_text(c.due, due_placeholder(t))
    }

    /// The sheet shows `t`, with fresh fields; what else it holds is as in
    /// `pre`.
    pub open spec fn shows(post: &TaskComponent, pre: &TaskComponent, t: Task) -> bool {
        &&& TaskComponent::displays(*post, t)
        &&& post.edit_mode == pre.edit_mode
        &&& post.on_update == pre.on_update
        &&& post.active == pre.active
    }

    /// Shows `t`.
    fn load(&mut self, t: &Task)
        ensures
            TaskComponent::shows(final(self), old(self), *t),
    {
        self.task = t.duplicate();
        self.description = t.description.clone();
        self.sheet = sheet(t);
        self.name = TarsText::new(t.name.clone());
        self.priority = TarsText::new(priority_name(t.priority));
        self.due = TarsText::new(due_text(t));
    }

    /// A sheet for `t`, inactive and editing nothing.
    pub fn new(t: &Task) -> (r: TaskComponent)
        ensures
            TaskComponent::displays(r, *t),
            r.edit_mode == EditMode::Inactive,
            r.on_update == OnUpdate::NoOp,
            !r.active,
    {
        TaskComponent {
            task: t.duplicate(),
            description: t.description.clone(),
            edit_mode: EditMode::Inactive,
            sheet: sheet(t),
            name: TarsText::new(t.name.clone()),
            due: TarsText::new(due_text(t)),
            priority: TarsText::new(priority_name(t.priority)),
            on_update: OnUpdate::NoOp,
            active: false,
        }
    }

    /// The task as it is sent to the daemon: renamed when a name was typed.
    pub open spec fn synced_task(&self) -> Task {
        if self.name.line@.len() > 0 {
            Task { name: self.name.line, ..self.task }
        } else {
            self.task
        }
    }

    /// Takes the typed name and asks the daemon to store the task; the sheet
    /// reads the task again on the next update.
    fn sync(&mut self) -> (r: Request)
        ensures
            r == Request::SyncTask(old(self).synced_task()),
            *final(self) == (TaskComponent { task: old(self).synced_task(), on_update: OnUpdate::ReRender, ..*old(self) }),
    {
        if !self.name.line.as_str().is_empty() {
            self.task.name = self.name.line.clone();
        }
        self.on_update = OnUpdate::ReRender;
        Request::SyncTask(self.task.duplicate())
    }

    /// The sheet can handle `signal` the way it expects to.
    pub open spec fn can_update(&self, signal: Signal, tree: &TarsTree) -> bool {
        &&& tree.wf()
        &&& signal is Update && self.on_update is ReRender ==> tree.index().contains_key(self.task.id)
    }

    /// `post` is `pre` after handling `signal`, with the result `r`.
    pub open spec fn stepped(pre: &TaskComponent, post: &TaskComponent, signal: Signal, tree: &TarsTree, r: Result<InspectorOutcome, InspectorError>) -> bool {
        let unchanged = *post == *pre && answered(r, None, None);
        let reply = |s: Signal| answered(r, Some(s), None);
        match signal {
            Signal::Select(id) => if !tree.has(id) {
                *post == *pre && r == Err::<InspectorOutcome, InspectorError>(InspectorError::MissingNode)
            } else {
                &&& answered(r, None, None)
                &&& match tree.node(id).kind {
                    TarsKind::Task(t) => TaskComponent::shows(post, pre, t),
                    _ => *post == *pre,
                }
            },
            Signal::Update => match pre.on_update {
                OnUpdate::ReRender => {
                    let k = tree.index()[pre.task.id];
                    let mid = TaskComponent { on_update: OnUpdate::NoOp, ..*pre };
                    &&& answered(r, None, None)
                    &&& match tree.node(k).kind {
                        TarsKind::Task(t) => TaskComponent::shows(post, &mid, t),
                        _ => *post == mid,
                    }
                },
                OnUpdate::NoOp => unchanged,
            },
            Signal::Action(a) => if !pre.active {
                unchanged
            } else {
                match a {
                    Action::EditName => {
                        &&& *post == (TaskComponent { name: TarsText { active: true, ..pre.name }, edit_mode: EditMode::Name, ..*pre })
                        &&& reply(Signal::RawText)
                    },
                    Action::EditPriority => {
                        &&& *post == (TaskComponent {
                            priority: TarsText { active: true, ..pre.priority },
                            edit_mode: EditMode::Priority,
                            ..*pre
                        })
                        &&& reply(Signal::RawText)
                    },
                    Action::EditDue => {
                        &&& *post == (TaskComponent { due: TarsText { active: true, ..pre.due }, edit_mode: EditMode::Due, ..*pre })
                        &&& reply(Signal::RawText)
                    },
                    Action::EditDescription => {
                        &&& *post == (TaskComponent { on_update: OnUpdate::ReRender, ..*pre })
                        &&& reply(Signal::EditDescriptionForTask(pre.task))
                    },
                    Action::ToggleFinishTask => {
                        &&& *post == (TaskComponent { on_update: OnUpdate::ReRender, ..*pre })
                        &&& answered(r, None, Some(Request::ToggleFinish(pre.task)))
                    },
                    _ => unchanged,
                }
            },
            _ => unchanged,
        }
    }

    /// Handles a signal: a selection or an update reloads the task, and,
    /// while active, the user's actions start editing a field, open the
    /// description or toggle the task finished.
    pub fn update(&mut self, signal: Signal, tree: &TarsTree) -> (r: Result<InspectorOutcome, InspectorError>)
        requires
            old(self).can_update(signal, tree),
        ensures
            TaskComponent::stepped(old(self), final(self), signal, tree, r),
    {
        match signal {
            Signal::Select(id) => {
                if !tree.contains(&id) {
                    return Err(InspectorError::MissingNode);
                }
                if let TarsKind::Task(t) = &tree.data(&id).kind {
                    self.load(t);
                }
                Ok(InspectorOutcome::none())
            },
            Signal::Update => {
                match self.on_update {
                    OnUpdate::ReRender => {
                        let node = tree.get_by_tars_id(&self.task.id).unwrap();
                        self.on_update = OnUpdate::NoOp;
                        if let TarsKind::Task(t) = &node.kind {
                            self.load(t);
                        }
                        Ok(InspectorOutcome::none())
                    },
                    OnUpdate::NoOp => Ok(InspectorOutcome::none()),
                }
            },
            Signal::Action(a) => {
                if !self.active {
                    return Ok(InspectorOutcome::none());
                }
                match a {
                    Action::EditName => {
                        self.name.activate();
                        self.edit_mode = EditMode::Name;
                        Ok(InspectorOutcome { reply: Some(Signal::RawText), request: None })
                    },
                    Action::EditPriority => {
                        self.priority.activate();
                        self.edit_mode = EditMode::Priority;
                        Ok(InspectorOutcome { reply: Some(Signal::RawText), request: None })
                    },
                    Action::EditDescription => {
                        self.on_update = OnUpdate::ReRender;
                        Ok(InspectorOutcome { reply: Some(Signal::EditDescriptionForTask(self.task.duplicate())), request: None })
                    },
                    Action::ToggleFinishTask => {
                        self.on_update = OnUpdate::ReRender;
                        Ok(InspectorOutcome { reply: None, request: Some(Request::ToggleFinish(self.task.duplicate())) })
                    },
                    Action::EditDue => {
                        self.due.activate();
                        self.edit_mode = EditMode::Due;
                        Ok(InspectorOutcome { reply: Some(Signal::RawText), request: None })
                    },
                    _ => Ok(InspectorOutcome::none()),
                }
            },
            _ => Ok(InspectorOutcome::none()),
        }
    }

    /// `post` is `pre` after the key press `key`, with the outcome `out`.
    pub open spec fn keyed(pre: &TaskComponent, post: &TaskComponent, key: Key, out: EditOutcome) -> bool {
        let done = |p: TaskComponent, request: Option<Request>| {
            &&& *post == p
            &&& out == EditOutcome::Done { request }
        };
        let synced = TaskComponent { task: pre.synced_task(), on_update: OnUpdate::ReRender, ..*pre };
        match pre.edit_mode {
            EditMode::Inactive => *post == *pre && out == EditOutcome::Ignored,
            EditMode::Name => if ends_edit(key) {
                done(
                    TaskComponent { name: TarsText { active: false, ..pre.name }, edit_mode: EditMode::Inactive, ..synced },
                    Some(Request::SyncTask(pre.synced_task())),
                )
            } else {
                *post == *pre && out == EditOutcome::Forward(Field::Name)
            },
            EditMode::Priority => if ends_edit(key) {
                let base = if pre.priority.is_valid { synced } else { *pre };
                let request = if pre.priority.is_valid { Some(Request::SyncTask(pre.synced_task())) } else { None };
                &&& post.priority.placeholder@ == priority_label(base.task.priority)
                &&& done(
                    TaskComponent {
                        priority: TarsText { active: false, placeholder: post.priority.placeholder, ..pre.priority },
                        edit_mode: EditMode::Inactive,
                        ..base
                    },
                    request,
                )
            } else {
                *post == *pre && out == EditOutcome::Forward(Field::Priority)
            },
            EditMode::Due => if ends_edit(key) {
                let base = if pre.due.is_valid { synced } else { *pre };
                let request = if pre.due.is_valid { Some(Request::SyncTask(pre.synced_task())) } else { None };
                done(TaskComponent { due: TarsText { active: false, ..pre.due }, edit_mode: EditMode::Inactive, ..base }, request)
            } else {
                *post == *pre && out == EditOutcome::Forward(Field::Due)
            },
        }
    }

    /// A key press while a field is edited: Esc or Enter ends the edit,
    /// stores the task when what was typed is valid and asks for a refresh;
    /// any other key goes to the field.
    pub fn handle_key_event(&mut self, key: Key) -> (out: EditOutcome)
        ensures
            TaskComponent::keyed(old(self), final(self), key, out),
    {
        let ends = match key.code {
            KeyCode::Esc => true,
            KeyCode::Enter => true,
            _ => false,
        };
        match self.edit_mode {
            EditMode::Inactive => EditOutcome::Ignored,
            EditMode::Name => {
                if !ends {
                    return EditOutcome::Forward(Field::Name);
                }
                self.name.deactivate();
                let request = self.sync();
                self.edit_mode = EditMode::Inactive;
                EditOutcome::Done { request: Some(request) }
            },
            EditMode::Priority => {
                if !ends {
                    return EditOutcome::Forward(Field::Priority);
                }
                self.priority.deactivate();
                let request = if self.priority.is_valid { Some(self.sync()) } else { None };
                self.priority.placeholder = priority_name(self.task.priority);
                self.edit_mode = EditMode::Inactive;
                EditOutcome::Done { request }
            },
            EditMode::Due => {
                if !ends {
                    return EditOutcome::Forward(Field::Due);
                }
                self.due.deactivate();
                let request = if self.due.is_valid { Some(self.sync()) } else { None };
                self.edit_mode = EditMode::Inactive;
                EditOutcome::Done { request }
            },
        }
    }

    /// The user typed in the name field: `line` is its text now.
    pub fn name_edited(&mut self, line: String)
        ensures
            *final(self) == (TaskComponent { name: TarsText { line, ..old(self).name }, ..*old(self) }),
    {
        self.name.line = line;
    }

    /// The user changed the text of the priority field to `line`, which the
    /// daemon's parser read as `parsed`: a priority takes effect at once,
    /// and the field is valid exactly when there is one.
    pub fn priority_edited(&mut self, line: String, parsed: Option<Priority>)
        ensures
            *final(self) == (TaskComponent {
                task: match parsed {
                    Some(p) => Task { priority: p, ..old(self).task },
                    None => old(self).task,
                },
                priority: TarsText { line, is_valid: parsed is Some, ..old(self).priority },
                ..*old(self)
            }),
    {
        self.priority.line = line;
        match parsed {
            Some(p) => {
                self.task.priority = p;
                self.priority.is_valid = true;
            },
            None => {
                self.priority.is_valid = false;
            },
        }
    }

    /// The user changed the text of the due field to `line`, which the
    /// daemon's parser read as `parsed`: a date takes effect at once, an
    /// empty field clears the due date, anything else is invalid.
    pub fn due_edited(&mut self, line: String, parsed: Option<i64>)
        ensures
            match parsed {
                Some(d) => *final(self) == (TaskComponent {
                    task: Task { due: Some(d), ..old(self).task },
                    due: TarsText { line, is_valid: true, ..old(self).due },
                    ..*old(self)
                }),
                None => if line@.len() == 0 {
                    &&& final(self).due.placeholder@ == "None"@
                    &&& *final(self) == (TaskComponent {
                        task: Task { due: None, ..old(self).task },
                        due: TarsText { line, is_valid: true, placeholder: final(self).due.placeholder, ..old(self).due },
                        ..*old(self)
                    })
                } else {
                    *final(self) == (TaskComponent { due: TarsText { line, is_valid: false, ..old(self).due }, ..*old(self) })
                },
            },
    {
        let empty = line.as_str().is_empty();
        self.due.line = line;
        match parsed {
            Some(d) => {
                self.task.due = Some(d);
                self.due.is_valid = true;
            },
            None => {
                if empty {
                    self.task.due = None;
                    self.due.is_valid = true;
                    self.due.placeholder = "None".to_owned();
                } else {
                    self.due.is_valid = false;
                }
            },
        }
    }
}

} // verus!
