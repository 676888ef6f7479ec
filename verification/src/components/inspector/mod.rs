//! The inspector component: shows the selected task or group in detail and
//! lets the user edit it.
pub mod group_component;
pub mod task_component;

use vstd::prelude::*;
use crate::action::{Action, Key, KeyCode, Mode, Signal};
use crate::tree::{TarsKind, TarsTree};
use crate::types::{is_new_task_draft, Group, Priority, Task, TaskDraft};
use group_component::{GroupComponent, SyncError};
use id_tree::NodeId;
use task_component::TaskComponent;

verus! {

/// A text field of the inspector: what it shows while empty, what the user
/// typed on its first line, whether it takes keys, and whether what was typed
/// is acceptable.
#[derive(Debug)]
pub struct TarsText {
    pub placeholder: String,
    pub line: String,
    pub active: bool,
    pub is_valid: bool,
}

/// `f` is a field just made with the placeholder `placeholder`.
pub open spec fn fresh_text(f: TarsText, placeholder: Seq<char>) -> bool {
    &&& f.placeholder@ == placeholder
    &&& f.line@.len() == 0
    &&& !f.active
    &&& f.is_valid
}

impl TarsText {
    /// An empty, inactive, valid field showing `placeholder`.
    pub fn new(placeholder: String) -> (r: TarsText)
        ensures
            fresh_text(r, placeholder@),
            r.placeholder == placeholder,
    {
        let mut text = TarsText { placeholder, line: String::new(), active: true, is_valid: true };
        text.deactivate();
        text
    }

    /// The field stops taking keys.
    pub fn deactivate(&mut self)
        ensures
            *final(self) == (TarsText { active: false, ..*old(self) }),
    {
        self.active = false;
    }

    /// The field takes keys.
    pub fn activate(&mut self)
        ensures
            *final(self) == (TarsText { active: true, ..*old(self) }),
    {
        self.active = true;
    }
}

/// A field of a sheet.
#[derive(Debug, Clone, Copy, PartialEq, Eq, Structural)]
pub enum Field {
    Name,
    Priority,
    Due,
    Color,
}

/// Work a sheet asks of the daemon or of the application.
#[derive(Debug)]
pub enum Request {
    /// Store the task as it is.
    SyncTask(Task),
    /// Mark the task finished, or unfinished if it was.
    ToggleFinish(Task),
    /// Store the group as it is.
    SyncGroup(Group),
    /// Create the task the draft describes.
    NewTask(TaskDraft),
    /// Pick a random color and hand it to the group sheet.
    RandomColor,
}

/// What a sheet answers to a signal: a signal to hand back and work to do.
#[derive(Debug)]
pub struct InspectorOutcome {
    pub reply: Option<Signal>,
    pub request: Option<Request>,
}

impl InspectorOutcome {
    /// The outcome with nothing in it.
    pub open spec fn quiet() -> InspectorOutcome {
        InspectorOutcome { reply: None, request: None }
    }

    /// The outcome with nothing in it.
    pub fn none() -> (r: InspectorOutcome)
        ensures
            r == InspectorOutcome::quiet(),
    {
        InspectorOutcome { reply: None, request: None }
    }
}

/// `r` is a success with the reply `reply` and the request `request`.
pub open spec fn answered(r: Result<InspectorOutcome, InspectorError>, reply: Option<Signal>, request: Option<Request>) -> bool {
    r == Ok::<InspectorOutcome, InspectorError>(InspectorOutcome { reply, request })
}

/// `r` is a success with only a request for a new task in the group `g`.
pub open spec fn asks_new_task(r: Result<InspectorOutcome, InspectorError>, g: Group) -> bool {
    r matches Ok(out) && out.reply is None && (out.request matches Some(Request::NewTask(d)) && is_new_task_draft(d, g))
}

/// Why the inspector could not handle a signal.
#[derive(Debug, PartialEq, Eq, Structural)]
pub enum InspectorError {
    /// The node to show is not in the tree.
    MissingNode,
}

/// What a key press did to a sheet.
#[derive(Debug)]
pub enum EditOutcome {
    /// No field is being edited.
    Ignored,
    /// The key goes to the field being edited.
    Forward(Field),
    /// The edit ended: everything is to be refreshed, and the request, if
    /// any, sent to the daemon.
    Done { request: Option<Request> },
}

/// What the daemon's parsers made of the color and priority fields of the
/// group sheet: `None` where the text is not a color or a priority.
#[derive(Debug)]
pub struct Readings {
    pub color: Option<String>,
    pub priority: Option<Priority>,
}

/// Esc and Enter end an edit.
pub open spec fn ends_edit(key: Key) -> bool {
    key.code == KeyCode::Esc || key.code == KeyCode::Enter
}

/// Which sheet the inspector shows.
#[derive(Debug, Clone, Copy, PartialEq, Eq, Structural)]
pub enum RenderedComponentKind {
    Task,
    Group,
    Blank,
}

/// The sheets of the inspector, made the first time a task or a group is
/// selected, and the one shown.
#[derive(Debug)]
pub struct RenderedComponent {
    pub active_component: RenderedComponentKind,
    pub task_component: Option<TaskComponent>,
    pub group_component: Option<GroupComponent>,
}

/// The inspector component.
#[derive(Debug)]
pub struct Inspector {
    pub active: bool,
    pub rendered_component: RenderedComponent,
}

impl Inspector {
    /// The sheet shown exists.
    pub open spec fn wf(&self) -> bool {
        let rc = self.rendered_component;
        &&& rc.active_component == RenderedComponentKind::Task ==> rc.task_component is Some
        &&& rc.active_component == RenderedComponentKind::Group ==> rc.group_component is Some
    }

    /// An inactive inspector showing nothing.
    pub fn new() -> (r: Inspector)
        ensures
            r.wf(),
            !r.active,
            r.rendered_component.active_component == RenderedComponentKind::Blank,
            r.rendered_component.task_component is None,
            r.rendered_component.group_component is None,
    {
        Inspector {
            active: false,
            rendered_component: RenderedComponent {
                active_component: RenderedComponentKind::Blank,
                task_component: None,
                group_component: None,
            },
        }
    }

    /// The mode of the inspector.
    pub fn mode(&self) -> (r: Mode)
        ensures
            r == Mode::Inspector,
    {
        Mode::Inspector
    }

    /// Starts the inspector: it is active when the application starts in
    /// its mode.
    pub fn init(&mut self, default_mode: Mode)
        ensures
            *final(self) == (Inspector { active: old(self).active || default_mode == Mode::Inspector, ..*old(self) }),
    {
        if default_mode == self.mode() {
            self.active = true;
        }
    }

    /// The inspector with the sheet of kind `kind`, if there is one, made
    /// active or inactive as `on` says.
    pub open spec fn with_sheet_active(&self, kind: RenderedComponentKind, on: bool) -> Inspector {
        let rc = self.rendered_component;
        Inspector {
            rendered_component: RenderedComponent {
                task_component: if kind == RenderedComponentKind::Task {
                    match rc.task_component {
                        Some(c) => Some(TaskComponent { active: on, ..c }),
                        None => None,
                    }
                } else {
                    rc.task_component
                },
                group_component: if kind == RenderedComponentKind::Group {
                    match rc.group_component {
                        Some(c) => Some(GroupComponent { active: on, ..c }),
                        None => None,
                    }
                } else {
                    rc.group_component
                },
                ..rc
            },
            ..*self
        }
    }

    /// The inspector after switching to its mode: active, with the sheet
    /// shown active.
    pub open spec fn switched_on(&self) -> Inspector {
        Inspector { active: true, ..self.with_sheet_active(self.rendered_component.active_component, true) }
    }

    /// The inspector after switching to another mode: inactive, with both
    /// sheets inactive.
    pub open spec fn switched_off(&self) -> Inspector {
        Inspector {
            active: false,
            ..self.with_sheet_active(RenderedComponentKind::Task, false).with_sheet_active(RenderedComponentKind::Group, false)
        }
    }

    /// `post` is `pre` after selecting the node `id`: the sheet of its task
    /// or group, made when there was none, shows it and is active when the
    /// inspector is; the other sheet is inactive. Selecting the root changes
    /// nothing.
    pub open spec fn selected(pre: &Inspector, post: &Inspector, id: NodeId, tree: &TarsTree) -> bool {
        let rc = pre.rendered_component;
        let pc = post.rendered_component;
        match tree.node(id).kind {
            TarsKind::Task(t) => {
                &&& post.active == pre.active
                &&& pc.active_component == RenderedComponentKind::Task
                &&& pc.group_component == pre.with_sheet_active(RenderedComponentKind::Group, false).rendered_component.group_component
                &&& pc.task_component matches Some(c) && {
                    &&& TaskComponent::displays(c, t)
                    &&& match rc.task_component {
                        Some(o) => c.edit_mode == o.edit_mode && c.on_update == o.on_update && c.active == (pre.active || o.active),
                        None => c.edit_mode == task_component::EditMode::Inactive && c.on_update == task_component::OnUpdate::NoOp
                            && c.active == pre.active,
                    }
                }
            },
            TarsKind::Group(g) => {
                &&& post.active == pre.active
                &&& pc.active_component == RenderedComponentKind::Group
                &&& pc.task_component == pre.with_sheet_active(RenderedComponentKind::Task, false).rendered_component.task_component
                &&& pc.group_component matches Some(c) && {
                    &&& c.group == g
                    &&& fresh_text(c.name, g.name@)
                    &&& fresh_text(c.color, g.color@)
                    &&& fresh_text(c.priority, crate::components::todo_list::state::priority_label(g.priority))
                    &&& match rc.group_component {
                        Some(o) => c.edit_mode == o.edit_mode && c.on_update == o.on_update && c.active
                            == (pre.active || o.active),
                        None => c.edit_mode == group_component::EditMode::Inactive && c.on_update
                            == group_component::OnUpdate::NoOp && c.active == pre.active,
                    }
                }
            },
            TarsKind::Root => *post == *pre,
        }
    }

    /// `post` is `mid` after the sheet shown handled `signal`, with the
    /// result `r`.
    pub open spec fn delegated(mid: &Inspector, post: &Inspector, signal: Signal, tree: &TarsTree, r: Result<InspectorOutcome, InspectorError>) -> bool {
        let rc = mid.rendered_component;
        let pc = post.rendered_component;
        &&& post.active == mid.active
        &&& pc.active_component == rc.active_component
        &&& match rc.active_component {
            RenderedComponentKind::Task => {
                &&& pc.group_component == rc.group_component
                &&& pc.task_component matches Some(c) && TaskComponent::stepped(&rc.task_component.unwrap(), &c, signal, tree, r)
            },
            RenderedComponentKind::Group => {
                &&& pc.task_component == rc.task_component
                &&& pc.group_component matches Some(c) && GroupComponent::stepped(&rc.group_component.unwrap(), &c, signal, tree, r)
            },
            RenderedComponentKind::Blank => *post == *mid && answered(r, None, None),
        }
    }

    /// The inspector can handle `signal` the way it expects to.
    pub open spec fn can_update(&self, signal: Signal, tree: &TarsTree) -> bool {
        let rc = self.rendered_component;
        &&& self.wf()
        &&& tree.wf()
        &&& rc.task_component matches Some(c) ==> c.can_update(signal, tree)
        &&& rc.group_component matches Some(c) ==> c.can_update(signal, tree)
    }

    /// `post` is `pre` after handling `signal`, with the result `r`.
    pub open spec fn stepped(pre: &Inspector, post: &Inspector, signal: Signal, tree: &TarsTree, r: Result<InspectorOutcome, InspectorError>) -> bool {
        match signal {
            Signal::Action(Action::SwitchTo(m)) => if m == Mode::Inspector {
                Inspector::delegated(&pre.switched_on(), post, signal, tree, r)
            } else {
                Inspector::delegated(&pre.switched_off(), post, signal, tree, r)
            },
            Signal::Select(id) => if !tree.has(id) {
                *post == *pre && r == Err::<InspectorOutcome, InspectorError>(InspectorError::MissingNode)
            } else {
                Inspector::selected(pre, post, id, tree) && answered(r, None, None)
            },
            _ => Inspector::delegated(pre, post, signal, tree, r),
        }
    }

    fn set_task_active(&mut self, on: bool)
        ensures
            *final(self) == old(self).with_sheet_active(RenderedComponentKind::Task, on),
    {
        match self.rendered_component.task_component.take() {
            Some(mut c) => {
                c.active = on;
                self.rendered_component.task_component = Some(c);
            },
            None => {},
        }
    }

    fn set_group_active(&mut self, on: bool)
        ensures
            *final(self) == old(self).with_sheet_active(RenderedComponentKind::Group, on),
    {
        match self.rendered_component.group_component.take() {
            Some(mut c) => {
                c.active = on;
                self.rendered_component.group_component = Some(c);
            },
            None => {},
        }
    }

    /// Handles a signal: switching modes activates or deactivates the
    /// inspector and its sheets, selecting a task or a group picks the sheet
    /// to show; then the sheet shown handles the signal.
    pub fn update(&mut self, signal: Signal, tree: &TarsTree) -> (r: Result<InspectorOutcome, InspectorError>)
        requires
            old(self).can_update(signal, tree),
        ensures
            final(self).wf(),
            Inspector::stepped(old(self), final(self), signal, tree, r),
    {
        match &signal {
            Signal::Action(Action::SwitchTo(m)) => {
                match m {
                    Mode::Inspector => {
                        self.active = true;
                        match self.rendered_component.active_component {
                            RenderedComponentKind::Task => self.set_task_active(true),
                            RenderedComponentKind::Group => self.set_group_active(true),
                            RenderedComponentKind::Blank => {},
                        }
                    },
                    _ => {
                        self.active = false;
                        self.set_task_active(false);
                        self.set_group_active(false);
                    },
                }
            },
            Signal::Select(id) => {
                if !tree.contains(id) {
                    return Err(InspectorError::MissingNode);
                }
                match &tree.data(id).kind {
                    TarsKind::Task(t) => {
                        if self.rendered_component.task_component.is_none() {
                            self.rendered_component.task_component = Some(TaskComponent::new(t));
                        }
                        self.set_group_active(false);
                        if self.active {
                            self.set_task_active(true);
                        }
                        self.rendered_component.active_component = RenderedComponentKind::Task;
                    },
                    TarsKind::Group(g) => {
                        if self.rendered_component.group_component.is_none() {
                            self.rendered_component.group_component = Some(GroupComponent::new(g));
                        }
                        self.set_task_active(false);
                        if self.active {
                            self.set_group_active(true);
                        }
                        self.rendered_component.active_component = RenderedComponentKind::Group;
                    },
                    TarsKind::Root => {},
                }
            },
            _ => {},
        }
        match self.rendered_component.active_component {
            RenderedComponentKind::Task => {
                let mut c = self.rendered_component.task_component.take().unwrap();
                let r = c.update(signal, tree);
                self.rendered_component.task_component = Some(c);
                r
            },
            RenderedComponentKind::Group => {
                let mut c = self.rendered_component.group_component.take().unwrap();
                let r = c.update(signal, tree);
                self.rendered_component.group_component = Some(c);
                r
            },
            RenderedComponentKind::Blank => Ok(InspectorOutcome::none()),
        }
    }

    /// A key press goes, while the inspector is active, to the sheet shown;
    /// `readings` are what the daemon's parsers made of the group sheet's
    /// color and priority fields.
    pub fn handle_key_event(&mut self, key: Key, readings: &Readings) -> (r: Result<EditOutcome, SyncError>)
        requires
            old(self).wf(),
        ensures
            final(self).wf(),
            final(self).active == old(self).active,
            final(self).rendered_component.active_component == old(self).rendered_component.active_component,
            !old(self).active ==> *final(self) == *old(self) && r == Ok::<EditOutcome, SyncError>(EditOutcome::Ignored),
            old(self).active ==> match old(self).rendered_component.active_component {
                RenderedComponentKind::Task => {
                    &&& final(self).rendered_component.group_component == old(self).rendered_component.group_component
                    &&& final(self).rendered_component.task_component matches Some(post) && r matches Ok(out)
                        && TaskComponent::keyed(&old(self).rendered_component.task_component.unwrap(), &post, key, out)
                },
                RenderedComponentKind::Group => {
                    &&& final(self).rendered_component.task_component == old(self).rendered_component.task_component
                    &&& final(self).rendered_component.group_component matches Some(post) && GroupComponent::keyed(
                        &old(self).rendered_component.group_component.unwrap(),
                        &post,
                        key,
                        *readings,
                        r,
                    )
                },
                RenderedComponentKind::Blank => *final(self) == *old(self) && r == Ok::<EditOutcome, SyncError>(EditOutcome::Ignored),
            },
    {
        if !self.active {
            return Ok(EditOutcome::Ignored);
        }
        match self.rendered_component.active_component {
            RenderedComponentKind::Task => {
                let mut c = self.rendered_component.task_component.take().unwrap();
                let out = c.handle_key_event(key);
                self.rendered_component.task_component = Some(c);
                Ok(out)
            },
            RenderedComponentKind::Group => {
                let mut c = self.rendered_component.group_component.take().unwrap();
                let out = c.handle_key_event(key, readings);
                self.rendered_component.group_component = Some(c);
                out
            },
            RenderedComponentKind::Blank => Ok(EditOutcome::Ignored),
        }
    }
}

} // verus!
