//! The records the daemon keeps: groups, tasks and the diffs it broadcasts.
use vstd::prelude::*;

verus! {

/// Identifier the daemon gives to a group or a task.
pub type Id = u64;

/// How urgent a group or a task is, from least to most urgent.
#[derive(Clone, Copy, Debug, PartialEq, Eq, Structural)]
pub enum Priority {
    Far,
    Low,
    Medium,
    High,
    Asap,
}

/// A group of tasks; groups nest through `parent_id`.
#[derive(Debug, Clone, PartialEq, Eq)]
pub struct Group {
    pub id: Id,
    pub name: String,
    pub parent_id: Option<Id>,
    pub color: String,
    pub priority: Priority,
}

impl Group {
    /// A copy of the group.
    pub fn duplicate(&self) -> (r: Group)
        ensures
            r == *self,
    {
        Group {
            id: self.id,
            name: self.name.clone(),
            parent_id: self.parent_id,
            color: self.color.clone(),
            priority: self.priority,
        }
    }
}

/// A task; `group` is the group it belongs to, `due` and `finished_at` are
/// timestamps in seconds.
#[derive(Debug, Clone, PartialEq, Eq)]
pub struct Task {
    pub id: Id,
    pub name: String,
    pub group: Group,
    pub priority: Priority,
    pub description: String,
    pub due: Option<i64>,
    pub finished_at: Option<i64>,
}

impl Task {
    /// A copy of the task.
    pub fn duplicate(&self) -> (r: Task)
        ensures
            r == *self,
    {
        Task {
            id: self.id,
            name: self.name.clone(),
            group: self.group.duplicate(),
            priority: self.priority,
            description: self.description.clone(),
            due: self.due,
            finished_at: self.finished_at,
        }
    }
}

/// The item a diff is about.
#[derive(Debug, Clone, PartialEq, Eq)]
pub enum DiffInner {
    Task(Task),
    Group(Group),
}

/// A change the daemon broadcasts.
#[derive(Debug, Clone, PartialEq, Eq)]
pub enum Diff {
    Added(DiffInner),
    Updated(DiffInner),
    Deleted(Id),
}

/// A task the daemon is asked to create.
#[derive(Debug, Clone, PartialEq, Eq)]
pub struct TaskDraft {
    pub group: Group,
    pub name: String,
    pub priority: Priority,
    pub description: String,
    pub due: Option<i64>,
}

/// `d` asks for a task named "new task" in the group `g`, of medium
/// priority, without description or due date.
pub open spec fn is_new_task_draft(d: TaskDraft, g: Group) -> bool {
    &&& d.group == g
    &&& d.name@ == "new task"@
    &&& d.priority == Priority::Medium
    &&& d.description@.len() == 0
    &&& d.due is None
}

impl TaskDraft {
    /// The task created when the user asks for a new one in the group `g`.
    pub fn new_task(g: &Group) -> (r: TaskDraft)
        ensures
            is_new_task_draft(r, *g),
    {
        TaskDraft {
            group: g.duplicate(),
            name: "new task".to_owned(),
            priority: Priority::Medium,
            description: String::new(),
            due: None,
        }
    }
}

/// A group the daemon is asked to create: its name and its parent group.
/// The daemon gives it its default priority, and a color drawn at random
/// when it is created.
#[derive(Debug, Clone, PartialEq, Eq)]
pub struct GroupDraft {
    pub name: String,
    pub parent_id: Option<Id>,
}

/// `d` asks for a group named "new_group" under `parent`.
pub open spec fn is_new_group_draft(d: GroupDraft, parent: Option<Id>) -> bool {
    &&& d.name@ == "new_group"@
    &&& d.parent_id == parent
}

impl GroupDraft {
    /// The group created when the user asks for a new one under `parent`.
    pub fn new_group(parent: Option<Id>) -> (r: GroupDraft)
        ensures
            is_new_group_draft(r, parent),
    {
        GroupDraft { name: "new_group".to_owned(), parent_id: parent }
    }
}

} // verus!
