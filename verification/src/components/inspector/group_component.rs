//! The group sheet of the inspector: shows a group and lets the user rename
//! it, recolor it, change its priority and add a task to it.
use vstd::prelude::*;
use crate::action::{Action, Key, KeyCode, Signal};
use crate::components::inspector::{
    answered, asks_new_task, ends_edit, fresh_text, EditOutcome, Field, InspectorError, InspectorOutcome, Readings, Request, TarsText,
};
use crate::components::todo_list::state::{priority_label, priority_name};
use crate::tree::{TarsKind, TarsTree};
use crate::types::{Group, Id, Priority, TaskDraft};
use id_tree::NodeId;

verus! {

/// What the group sheet does on the next `Update` signal.
#[derive(Debug, PartialEq, Eq, Structural)]
pub enum OnUpdate {
    NoOp,
    /// Read the group again from the tree.
    ReRender,
    /// Select the task with this id, which the daemon just created.
    NewTask(Id),
}

/// The field being edited, if any.
#[derive(Debug, PartialEq, Eq, Structural)]
pub enum EditMode {
    Inactive,
    Name,
    Color,
    Priority,
}

/// The group sheet.
#[derive(Debug)]
pub struct GroupComponent {
    pub group: Group,
    pub edit_mode: EditMode,
    pub name: TarsText,
    pub color: TarsText,
    pub priority: TarsText,
    pub on_update: OnUpdate,
    pub active: bool,
}

/// Why storing a group failed: what was typed in a field does not parse.
#[derive(Debug, PartialEq, Eq, Structural)]
pub enum SyncError {
    BadColor,
    BadPriority,
}

impl GroupComponent {
    /// The sheet shows `g` in all three fields.
    pub open spec fn shows(post: &GroupComponent, pre: &GroupComponent, g: Group) -> bool {
        &&& post.group == g
        &&& fresh_text(post.name, g.name@)
        &&& fresh_text(post.color, g.color@)
        &&& fresh_text(post.priority, priority_label(g.priority))
        &&& post.edit_mode == pre.edit_mode
        &&& post.on_update == pre.on_update
        &&& post.active == pre.active
    }

    /// A sheet for `g`, inactive and editing nothing.
    pub fn new(g: &Group) -> (r: GroupComponent)
        ensures
            GroupComponent::shows(&r, &r, *g),
            r.edit_mode == EditMode::Inactive,
            r.on_update == OnUpdate::NoOp,
            !r.active,
    {
        GroupComponent {
            group: g.duplicate(),
            edit_mode: EditMode::Inactive,
            name: TarsText::new(g.name.clone()),
            color: TarsText::new(g.color.clone()),
            priority: TarsText::new(priority_name(g.priority)),
            on_update: OnUpdate::NoOp,
            active: false,
        }
    }

    /// Storing the group: the typed name replaces the name; a typed color or
    /// priority replaces the group's when the daemon's parser read one (the
    /// readings), and stops the storing when it did not.
    pub open spec fn synced(&self, readings: Readings) -> Result<Group, SyncError> {
        let named = if self.name.line@.len() > 0 { Group { name: self.name.line, ..self.group } } else { self.group };
        if self.color.line@.len() > 0 && readings.color is None {
            Err(SyncError::BadColor)
        } else {
            let colored = if self.color.line@.len() > 0 { Group { color: readings.color.unwrap(), ..named } } else { named };
            if self.priority.line@.len() > 0 && readings.priority is None {
                Err(SyncError::BadPriority)
            } else if self.priority.line@.len() > 0 {
                Ok(Group { priority: readings.priority.unwrap(), ..colored })
            } else {
                Ok(colored)
            }
        }
    }

    /// The sheet after storing the group with `readings`, and the request
    /// to the daemon or why there is none: the group as far as the fields
    /// parsed, to be read again on the next update when all did.
    pub open spec fn after_sync(pre: GroupComponent, readings: Readings) -> (GroupComponent, Result<Request, SyncError>) {
        let named = if pre.name.line@.len() > 0 { Group { name: pre.name.line, ..pre.group } } else { pre.group };
        let colored = if pre.color.line@.len() > 0 { Group { color: readings.color.unwrap(), ..named } } else { named };
        match pre.synced(readings) {
            Ok(g) => (GroupComponent { group: g, on_update: OnUpdate::ReRender, ..pre }, Ok(Request::SyncGroup(g))),
            Err(e) => (
                GroupComponent { group: if e == SyncError::BadColor { named } else { colored }, ..pre },
                Err(e),
            ),
        }
    }

    /// Stores the group: see `synced`.
    pub fn sync(&mut self, readings: &Readings) -> (r: Result<Request, SyncError>)
        ensures
            (*final(self), r) == GroupComponent::after_sync(*old(self), *readings),
    {
        if !self.name.line.as_str().is_empty() {
            self.group.name = self.name.line.clone();
        }
        if !self.color.line.as_str().is_empty() {
            match &readings.color {
                Some(c) => {
                    self.group.color = c.clone();
                },
                None => {
                    return Err(SyncError::BadColor);
                },
            }
        }
        if !self.priority.line.as_str().is_empty() {
            match readings.priority {
                Some(p) => {
                    self.group.priority = p;
                },
                None => {
                    return Err(SyncError::BadPriority);
                },
            }
        }
        self.on_update = OnUpdate::ReRender;
        Ok(Request::SyncGroup(self.group.duplicate()))
    }

    /// The sheet can handle `signal` the way it expects to.
    pub open spec fn can_update(&self, signal: Signal, tree: &TarsTree) -> bool {
        &&& tree.wf()
        &&& signal is Update && self.on_update is ReRender ==> tree.index().contains_key(self.group.id)
    }

    /// `post` is `pre` after handling `signal`, with the result `r`.
    pub open spec fn stepped(pre: &GroupComponent, post: &GroupComponent, signal: Signal, tree: &TarsTree, r: Result<InspectorOutcome, InspectorError>) -> bool {
        let unchanged = *post == *pre && answered(r, None, None);
        let reply = |s: Signal| answered(r, Some(s), None);
        match signal {
            Signal::Select(id) => if !tree.has(id) {
                *post == *pre && r == Err::<InspectorOutcome, InspectorError>(InspectorError::MissingNode)
            } else {
                &&& answered(r, None, None)
                &&& match tree.node(id).kind {
                    TarsKind::Group(g) => GroupComponent::shows(post, pre, g),
                    _ => *post == *pre,
                }
            },
            Signal::Update => match pre.on_update {
                OnUpdate::ReRender => {
                    let k = tree.index()[pre.group.id];
                    let mid = GroupComponent { on_update: OnUpdate::NoOp, ..*pre };
                    &&& answered(r, None, None)
                    &&& match tree.node(k).kind {
                        TarsKind::Group(g) => GroupComponent::shows(post, &mid, g),
                        _ => *post == mid,
                    }
                },
                OnUpdate::NewTask(id) => match tree.index().get(id) {
                    Some(k) => *post == (GroupComponent { on_update: OnUpdate::NoOp, ..*pre }) && reply(Signal::Select(k)),
                    None => *post == *pre && r == Err::<InspectorOutcome, InspectorError>(InspectorError::MissingNode),
                },
                OnUpdate::NoOp => unchanged,
            },
            Signal::Action(a) => if !pre.active {
                unchanged
            } else {
                match a {
                    Action::EditName => {
                        &&& *post == (GroupComponent { name: TarsText { active: true, ..pre.name }, edit_mode: EditMode::Name, ..*pre })
                        &&& reply(Signal::RawText)
                    },
                    Action::EditColor => {
                        &&& *post == (GroupComponent { color: TarsText { active: true, ..pre.color }, edit_mode: EditMode::Color, ..*pre })
                        &&& reply(Signal::RawText)
                    },
                    Action::EditPriority => {
                        &&& *post == (GroupComponent {
                            priority: TarsText { active: true, ..pre.priority },
                            edit_mode: EditMode::Priority,
                            ..*pre
                        })
                        &&& reply(Signal::RawText)
                    },
                    Action::NewTask => *post == *pre && asks_new_task(r, pre.group),
                    Action::RandomColor => *post == *pre && answered(r, None, Some(Request::RandomColor)),
                    _ => unchanged,
                }
            },
            _ => unchanged,
        }
    }

    /// Handles a signal: a selection or an update reloads the group, a
    /// created task gets selected, and, while active, the user's actions
    /// start editing a field or ask the daemon for a new task or a random
    /// color.
    pub fn update(&mut self, signal: Signal, tree: &TarsTree) -> (r: Result<InspectorOutcome, InspectorError>)
        requires
            old(self).can_update(signal, tree),
        ensures
            GroupComponent::stepped(old(self), final(self), signal, tree, r),
    {
        match signal {
            Signal::Select(id) => {
                if !tree.contains(&id) {
                    return Err(InspectorError::MissingNode);
                }
                if let TarsKind::Group(g) = &tree.data(&id).kind {
                    self.group = g.duplicate();
                    self.color = TarsText::new(g.color.clone());
                    self.name = TarsText::new(g.name.clone());
                    self.priority = TarsText::new(priority_name(g.priority));
                }
                Ok(InspectorOutcome::none())
            },
            Signal::Update => {
                match self.on_update {
                    OnUpdate::ReRender => {
                        let node = tree.get_by_tars_id(&self.group.id).unwrap();
                        self.on_update = OnUpdate::NoOp;
                        if let TarsKind::Group(g) = &node.kind {
                            self.group = g.duplicate();
                            self.name = TarsText::new(g.name.clone());
                            self.color = TarsText::new(g.color.clone());
                            self.priority = TarsText::new(priority_name(g.priority));
                        }
                        Ok(InspectorOutcome::none())
                    },
                    OnUpdate::NewTask(id) => {
                        match tree.translate_id_to_node_id(&id) {
                            Some(k) => {
                                self.on_update = OnUpdate::NoOp;
                                Ok(InspectorOutcome { reply: Some(Signal::Select(k)), request: None })
                            },
                            None => Err(InspectorError::MissingNode),
                        }
                    },
                    OnUpdate::NoOp => Ok(InspectorOutcome::none()),
                }
            },
            Signal::Action(a) => {
                if !self.active {
                    return Ok(InspectorOutcome::none());
                }
                match a {
                    Action::EditName => {
                        self.name.activate();
                        self.edit_mode = EditMode::Name;
                        Ok(InspectorOutcome { reply: Some(Signal::RawText), request: None })
                    },
                    Action::EditColor => {
                        self.color.activate();
                        self.edit_mode = EditMode::Color;
                        Ok(InspectorOutcome { reply: Some(Signal::RawText), request: None })
                    },
                    Action::EditPriority => {
                        self.priority.activate();
                        self.edit_mode = EditMode::Priority;
                        Ok(InspectorOutcome { reply: Some(Signal::RawText), request: None })
                    },
                    Action::NewTask => Ok(InspectorOutcome { reply: None, request: Some(Request::NewTask(TaskDraft::new_task(&self.group))) }),
                    Action::RandomColor => Ok(InspectorOutcome { reply: None, request: Some(Request::RandomColor) }),
                    _ => Ok(InspectorOutcome::none()),
                }
            },
            _ => Ok(InspectorOutcome::none()),
        }
    }

    /// The daemon created the task with id `id` in this group: it gets
    /// selected on the next update.
    pub fn on_task_created(&mut self, id: Id)
        ensures
            *final(self) == (GroupComponent { on_update: OnUpdate::NewTask(id), ..*old(self) }),
    {
        self.on_update = OnUpdate::NewTask(id);
    }

    /// Gives the group the color `color`, picked at random, and stores it.
    pub fn recolor(&mut self, color: String, readings: &Readings) -> (r: Result<Request, SyncError>)
        ensures
            (*final(self), r) == GroupComponent::after_sync(
                GroupComponent { group: Group { color, ..old(self).group }, ..*old(self) },
                *readings,
            ),
    {
        self.group.color = color;
        self.sync(readings)
    }

    /// `post` is `pre` after the key press `key`, with the outcome `out`;
    /// `readings` are what the daemon's parser made of the color and the
    /// priority fields.
    pub open spec fn keyed(pre: &GroupComponent, post: &GroupComponent, key: Key, readings: Readings, out: Result<EditOutcome, SyncError>) -> bool {
        let done = |p: GroupComponent, request: Option<Request>| {
            *post == p && out == Ok::<EditOutcome, SyncError>(EditOutcome::Done { request })
        };
        let forward = |f: Field| *post == *pre && out == Ok::<EditOutcome, SyncError>(EditOutcome::Forward(f));
        match pre.edit_mode {
            EditMode::Inactive => *post == *pre && out == Ok::<EditOutcome, SyncError>(EditOutcome::Ignored),
            EditMode::Name => if ends_edit(key) {
                let (fin, sr) = GroupComponent::after_sync(GroupComponent { name: TarsText { active: false, ..pre.name }, ..*pre }, readings);
                match sr {
                    Ok(req) => done(GroupComponent { edit_mode: EditMode::Inactive, ..fin }, Some(req)),
                    Err(e) => *post == fin && out == Err::<EditOutcome, SyncError>(e),
                }
            } else {
                forward(Field::Name)
            },
            EditMode::Color => if ends_edit(key) {
                let mid = GroupComponent { color: TarsText { active: false, ..pre.color }, ..*pre };
                if pre.color.is_valid {
                    let (fin, sr) = GroupComponent::after_sync(mid, readings);
                    match sr {
                        Ok(req) => done(GroupComponent { edit_mode: EditMode::Inactive, ..fin }, Some(req)),
                        Err(e) => *post == fin && out == Err::<EditOutcome, SyncError>(e),
                    }
                } else {
                    done(GroupComponent { edit_mode: EditMode::Inactive, ..mid }, None)
                }
            } else {
                forward(Field::Color)
            },
            EditMode::Priority => if ends_edit(key) {
                let mid = GroupComponent { priority: TarsText { active: false, ..pre.priority }, ..*pre };
                let (fin, sr) = if pre.priority.is_valid {
                    GroupComponent::after_sync(mid, readings)
                } else {
                    (mid, Err(SyncError::BadPriority))
                };
                let relabeled = GroupComponent {
                    priority: TarsText { placeholder: post.priority.placeholder, ..fin.priority },
                    edit_mode: EditMode::Inactive,
                    ..fin
                };
                if pre.priority.is_valid {
                    match sr {
                        Ok(req) => post.priority.placeholder@ == priority_label(fin.group.priority) && done(relabeled, Some(req)),
                        Err(e) => *post == fin && out == Err::<EditOutcome, SyncError>(e),
                    }
                } else {
                    post.priority.placeholder@ == priority_label(fin.group.priority) && done(relabeled, None)
                }
            } else {
                forward(Field::Priority)
            },
        }
    }

    /// A key press while a field is edited: Esc or Enter ends the edit and,
    /// when what was typed is valid, stores the group; any other key goes to
    /// the field.
    pub fn handle_key_event(&mut self, key: Key, readings: &Readings) -> (out: Result<EditOutcome, SyncError>)
        ensures
            GroupComponent::keyed(old(self), final(self), key, *readings, out),
    {
        let ends = match key.code {
            KeyCode::Esc => true,
            KeyCode::Enter => true,
            _ => false,
        };
        match self.edit_mode {
            EditMode::Inactive => Ok(EditOutcome::Ignored),
            EditMode::Name => {
                if !ends {
                    return Ok(EditOutcome::Forward(Field::Name));
                }
                self.name.deactivate();
                match self.sync(readings) {
                    Ok(request) => {
                        self.edit_mode = EditMode::Inactive;
                        Ok(EditOutcome::Done { request: Some(request) })
                    },
                    Err(e) => Err(e),
                }
            },
            EditMode::Color => {
                if !ends {
                    return Ok(EditOutcome::Forward(Field::Color));
                }
                self.color.deactivate();
                let request = if self.color.is_valid {
                    match self.sync(readings) {
                        Ok(request) => Some(request),
                        Err(e) => {
                            return Err(e);
                        },
                    }
                } else {
                    None
                };
                self.edit_mode = EditMode::Inactive;
                Ok(EditOutcome::Done { request })
            },
            EditMode::Priority => {
                if !ends {
                    return Ok(EditOutcome::Forward(Field::Priority));
                }
                self.priority.deactivate();
                let request = if self.priority.is_valid {
                    match self.sync(readings) {
                        Ok(request) => Some(request),
                        Err(e) => {
                            return Err(e);
                        },
                    }
                } else {
                    None
                };
                self.priority.placeholder = priority_name(self.group.priority);
                self.edit_mode = EditMode::Inactive;
                Ok(EditOutcome::Done { request })
            },
        }
    }

    /// The user typed in the name field: `line` is its text now.
    pub fn name_edited(&mut self, line: String)
        ensures
            *final(self) == (GroupComponent { name: TarsText { line, ..old(self).name }, ..*old(self) }),
    {
        self.name.line = line;
    }

    /// The user changed the text of the color field to `line`, which the
    /// daemon's parser read as `parsed`: the field is valid exactly when it
    /// names a color; the group takes it when stored.
    pub fn color_edited(&mut self, line: String, parsed: Option<String>)
        ensures
            *final(self) == (GroupComponent { color: TarsText { line, is_valid: parsed is Some, ..old(self).color }, ..*old(self) }),
    {
        self.color.line = line;
        self.color.is_valid = parsed.is_some();
    }

    /// The user changed the text of the priority field to `line`, which the
    /// daemon's parser read as `parsed`: a priority takes effect at once,
    /// and the field is valid exactly when there is one.
    pub fn priority_edited(&mut self, line: String, parsed: Option<Priority>)
        ensures
            *final(self) == (GroupComponent {
                group: match parsed {
                    Some(p) => Group { priority: p, ..old(self).group },
                    None => old(self).group,
                },
                priority: TarsText { line, is_valid: parsed is Some, ..old(self).priority },
                ..*old(self)
            }),
    {
        self.priority.line = line;
        match parsed {
            Some(p) => {
                self.group.priority = p;
                self.priority.is_valid = true;
            },
            None => {
                self.priority.is_valid = false;
            },
        }
    }
}

} // verus!
