//! Properties of the library as a whole: what the tree gives back after a
//! diff, what the views list, and how keys, raw text and modes interact.
use vstd::prelude::*;
use crate::action::{mode_number, Action, Key, KeyCode, Mode, Signal};
use crate::app::{bound_action, mode_keymap, App, Keymap, Step, AppError};
use crate::components::explorer::state::{lemma_listing_valid, listed, render_list, State as ExplorerState};
use crate::components::explorer::{Explorer, ExplorerError, Outcome, Request as ExplorerRequest};
use crate::components::inspector::task_component::{EditMode as TaskEditMode, TaskComponent};
use crate::components::todo_list::TodoList;
use crate::components::todo_list::state::{due_label, State as TodoState};
use crate::components::inspector::{EditOutcome, Inspector, InspectorError, InspectorOutcome, RenderedComponentKind, Request, TarsText};
use crate::components::todo_list::state::{priority_label, open_entries, open_task, orders_by, task_entry, urgency, urgency_order};
use crate::tree::{children_of, data_of, valid, TarsKind, TarsTree};
use crate::types::{Diff, DiffInner, Group, Id, Task};
use id_tree::NodeId;

verus! {

/// After a diff that adds a task, the tree holds the task under its id, as
/// a child of its group.
pub proof fn law_added_task_found(pre: &TarsTree, post: &TarsTree, t: Task)
    requires
        pre.wf(),
        pre.diff_applies(Diff::Added(DiffInner::Task(t))),
        TarsTree::diff_effect(pre, post, Diff::Added(DiffInner::Task(t))),
    ensures
        post.index().contains_key(t.id),
        post.has(post.index()[t.id]),
        post.node(post.index()[t.id]).kind == TarsKind::Task(t),
        post.parent(post.index()[t.id]) == Some(pre.index()[t.group.id]),
{
}

/// After a diff that adds a group, the tree holds the group under its id,
/// as a child of its parent group, or of the root for a group without one.
pub proof fn law_added_group_found(pre: &TarsTree, post: &TarsTree, g: Group)
    requires
        pre.wf(),
        pre.diff_applies(Diff::Added(DiffInner::Group(g))),
        TarsTree::diff_effect(pre, post, Diff::Added(DiffInner::Group(g))),
    ensures
        post.index().contains_key(g.id),
        post.has(post.index()[g.id]),
        post.node(post.index()[g.id]).kind == TarsKind::Group(g),
        post.children(pre.group_node(g.parent_id)).contains(post.index()[g.id]),
{
    let n = post.index()[g.id];
    let p = pre.group_node(g.parent_id);
    assert(post.children(p)[post.children(p).len() - 1] == n);
}

/// After a diff that updates a task, the tree holds the new task under its
/// id, as a child of its group.
pub proof fn law_updated_task_found(pre: &TarsTree, post: &TarsTree, t: Task)
    requires
        pre.wf(),
        pre.diff_applies(Diff::Updated(DiffInner::Task(t))),
        TarsTree::diff_effect(pre, post, Diff::Updated(DiffInner::Task(t))),
    ensures
        post.index().contains_key(t.id),
        post.has(post.index()[t.id]),
        post.node(post.index()[t.id]).kind == TarsKind::Task(t),
        post.parent(post.index()[t.id]) == Some(pre.index()[t.group.id]),
{
}

/// After a diff that updates a group, the group keeps its node; the node
/// holds the new group unless the group moved to another parent, and the
/// tasks right under it are filed under the new group.
pub proof fn law_updated_group_found(pre: &TarsTree, post: &TarsTree, g: Group)
    requires
        pre.wf(),
        post.wf(),
        pre.diff_applies(Diff::Updated(DiffInner::Group(g))),
        TarsTree::diff_effect(pre, post, Diff::Updated(DiffInner::Group(g))),
    ensures
        post.index().contains_key(g.id),
        post.index()[g.id] == pre.index()[g.id],
        g.parent_id == pre.parent_item_id(pre.index()[g.id]) ==> post.node(post.index()[g.id]).kind == TarsKind::Group(g),
        forall|i: int|
            0 <= i < post.children(post.index()[g.id]).len() ==> (#[trigger] post.node(post.children(post.index()[g.id])[i]).kind matches TarsKind::Task(t)
                ==> t.group == g),
{
    let k = pre.index()[g.id];
    assert forall|i: int|
        0 <= i < post.children(k).len() implies (#[trigger] post.node(post.children(k)[i]).kind matches TarsKind::Task(t) ==> t.group
        == g) by {
        let q = post.children(k)[i];
        assert(valid(post.slots(), k));
        assert(valid(post.slots(), q));
    }
}

/// After a diff that deletes an item, the tree no longer holds it.
pub proof fn law_deleted_gone(pre: &TarsTree, post: &TarsTree, x: Id)
    requires
        pre.wf(),
        pre.diff_applies(Diff::Deleted(x)),
        TarsTree::diff_effect(pre, post, Diff::Deleted(x)),
    ensures
        !post.index().contains_key(x),
        !post.has(pre.index()[x]),
{
}

/// The id of the item a diff is about.
pub open spec fn diff_item(d: Diff) -> Id {
    match d {
        Diff::Added(DiffInner::Task(t)) => t.id,
        Diff::Added(DiffInner::Group(g)) => g.id,
        Diff::Updated(DiffInner::Task(t)) => t.id,
        Diff::Updated(DiffInner::Group(g)) => g.id,
        Diff::Deleted(x) => x,
    }
}

/// A diff leaves every other item where it was.
pub proof fn law_diff_keeps_other_items(pre: &TarsTree, post: &TarsTree, d: Diff, y: Id)
    requires
        pre.wf(),
        pre.diff_applies(d),
        TarsTree::diff_effect(pre, post, d),
        y != diff_item(d),
    ensures
        post.index().contains_key(y) == pre.index().contains_key(y),
        pre.index().contains_key(y) ==> post.index()[y] == pre.index()[y],
{
}

/// The explorer lists only nodes under its scope: tasks, unfinished unless
/// finished items are shown, and groups.
pub proof fn law_explorer_lists_scope(tree: &TarsTree, scope: NodeId, show_completed: bool)
    requires
        tree.wf(),
        tree.has(scope),
    ensures
        forall|j: int| 0 <= j < render_list(tree, scope, show_completed).len() ==> {
            let k = #[trigger] render_list(tree, scope, show_completed)[j];
            &&& tree.subtree(scope).contains(k)
            &&& !(tree.node(k).kind is Root)
            &&& (!show_completed ==> (tree.node(k).kind matches TarsKind::Task(t) ==> t.finished_at is None))
        },
{
    lemma_listing_valid(tree, scope, show_completed);
    assert forall|j: int| 0 <= j < render_list(tree, scope, show_completed).len() implies {
        let k = #[trigger] render_list(tree, scope, show_completed)[j];
        &&& tree.subtree(scope).contains(k)
        &&& !(tree.node(k).kind is Root)
        &&& (!show_completed ==> (tree.node(k).kind matches TarsKind::Task(t) ==> t.finished_at is None))
    } by {
        assert(tree.has(render_list(tree, scope, show_completed)[j]));
        assert(listed(tree, render_list(tree, scope, show_completed)[j], show_completed));
    }
}

/// The todo list holds unfinished tasks under its scope, each with the task
/// its node holds, from most to least urgent in the daemon's task order.
pub proof fn law_todo_list_open_tasks(tree: &TarsTree, scope: NodeId, ranks: Map<Id, u64>, ts: Seq<(NodeId, Task)>)
    requires
        tree.wf(),
        tree.has(scope),
        urgency_order(ranks, open_entries(tree, scope), ts),
    ensures
        forall|j: int| 0 <= j < ts.len() ==> {
            &&& tree.subtree(scope).contains(#[trigger] ts[j].0)
            &&& open_task(tree, ts[j].0)
            &&& ts[j] == task_entry(tree, ts[j].0)
        },
        forall|a: int, b: int| 0 <= a < b < ts.len() ==> urgency(ranks, ts[a]) >= urgency(ranks, ts[b]),
{
    let inp = open_entries(tree, scope);
    let sub = tree.subtree(scope);
    let kept = sub.filter(|k: NodeId| open_task(tree, k));
    let p = choose|p: Seq<int>| #[trigger] orders_by(ranks, inp, ts, p);
    assert forall|j: int| 0 <= j < ts.len() implies {
        &&& tree.subtree(scope).contains(#[trigger] ts[j].0)
        &&& open_task(tree, ts[j].0)
        &&& ts[j] == task_entry(tree, ts[j].0)
    } by {
        let i = p[j];
        assert(0 <= i < inp.len() && ts[j] == inp[i]);
        assert(inp[i] == task_entry(tree, kept[i]));
        sub.lemma_filter_pred(|k: NodeId| open_task(tree, k), i);
        assert(kept.contains(kept[i]));
        sub.lemma_filter_contains_rev(|k: NodeId| open_task(tree, k), kept[i]);
    }
}

/// Mode numbers tell the modes apart: 1, 2 and 3.
pub proof fn law_mode_numbers(a: Mode, b: Mode)
    ensures
        1 <= mode_number(a) <= 3,
        a != b ==> mode_number(a) != mode_number(b),
{
}

/// Toggling twice whether finished items are shown shows them as before:
/// the flag, the scope and the listed nodes come back.
pub proof fn law_toggle_twice(a: &ExplorerState, b: &ExplorerState, c: &ExplorerState, tree: &TarsTree)
    requires
        ExplorerState::toggled(a, b, tree),
        ExplorerState::toggled(b, c, tree),
    ensures
        c.show_completed == a.show_completed,
        b.show_completed != a.show_completed,
        c.scope == a.scope,
        c.listing(tree) == a.listing(tree),
{
}

/// While keys go to a text field, no key press triggers an action.
pub proof fn law_raw_text_suppresses_actions(pre: &App, post: &App, key: Key, r: Option<Signal>)
    requires
        pre.raw_text,
        App::keyed(pre, post, key, r),
    ensures
        r is None,
        post.raw_text,
{
}

/// A refresh ends raw text: a key bound on its own in the mode triggers
/// its action again.
pub proof fn law_refresh_restores_bindings(
    pre: &App,
    mid: &App,
    post: &App,
    tree: &TarsTree,
    r0: Result<Step, AppError>,
    key: Key,
    r: Option<Signal>,
    keymap: Keymap,
    a: Action,
)
    requires
        App::handled(pre, mid, Signal::Refresh, tree, tree, r0),
        App::keyed(mid, post, key, r),
        mode_keymap(pre.keybindings@, pre.mode) == Some(keymap),
        bound_action(keymap@, seq![key]) == Some(a),
    ensures
        r == Some(Signal::Action(a)),
{
}

/// Two keys pressed within a tick trigger the action bound to the pair,
/// when neither is bound on its own and no text field takes keys.
pub proof fn law_key_sequence(pre: &App, mid: &App, post: &App, k1: Key, k2: Key, r1: Option<Signal>, r2: Option<Signal>, keymap: Keymap, a: Action)
    requires
        !pre.raw_text,
        pre.last_tick_key_events@.len() == 0,
        mode_keymap(pre.keybindings@, pre.mode) == Some(keymap),
        bound_action(keymap@, seq![k1]) is None,
        bound_action(keymap@, seq![k2]) is None,
        bound_action(keymap@, seq![k1, k2]) == Some(a),
        App::keyed(pre, mid, k1, r1),
        App::keyed(mid, post, k2, r2),
    ensures
        r2 == Some(Signal::Action(a)),
{
    assert(seq![k1] == Seq::<Key>::empty().push(k1));
    assert(pre.last_tick_key_events@.push(k1) =~= seq![k1]);
    assert(mid.last_tick_key_events@.push(k2) =~= seq![k1, k2]);
}

/// Selecting a group makes the inspector show it: its name, color and
/// priority.
pub proof fn law_inspector_shows_selected_group(
    pre: &Inspector,
    post: &Inspector,
    id: NodeId,
    tree: &TarsTree,
    r: Result<InspectorOutcome, InspectorError>,
    g: Group,
)
    requires
        Inspector::stepped(pre, post, Signal::Select(id), tree, r),
        tree.has(id),
        tree.node(id).kind == TarsKind::Group(g),
    ensures
        post.rendered_component.active_component == RenderedComponentKind::Group,
        post.rendered_component.group_component matches Some(c) && {
            &&& c.group == g
            &&& c.name.placeholder@ == g.name@
            &&& c.color.placeholder@ == g.color@
            &&& c.priority.placeholder@ == priority_label(g.priority)
        },
        r is Ok,
{
}

/// A mode switch leaves exactly the component of the new mode active.
pub proof fn law_switch_activates_one(
    m: Mode,
    tree: &TarsTree,
    e0: &Explorer,
    e1: &Explorer,
    re: Result<Outcome, ExplorerError>,
    t0: &TodoList,
    t1: &TodoList,
    rt: Option<Signal>,
    i0: &Inspector,
    i1: &Inspector,
    ri: Result<InspectorOutcome, InspectorError>,
)
    requires
        Explorer::stepped(e0, e1, Signal::Action(Action::SwitchTo(m)), tree, re),
        TodoList::stepped(t0, t1, Signal::Action(Action::SwitchTo(m)), tree, rt),
        Inspector::stepped(i0, i1, Signal::Action(Action::SwitchTo(m)), tree, ri),
    ensures
        e1.state.active == (m == Mode::Explorer),
        t1.state.active == (m == Mode::TodoList),
        i1.active == (m == Mode::Inspector),
{
}

/// Selecting a task makes the inspector show it.
pub proof fn law_inspector_shows_selected_task(
    pre: &Inspector,
    post: &Inspector,
    id: NodeId,
    tree: &TarsTree,
    r: Result<InspectorOutcome, InspectorError>,
    t: Task,
)
    requires
        Inspector::stepped(pre, post, Signal::Select(id), tree, r),
        tree.has(id),
        tree.node(id).kind == TarsKind::Task(t),
    ensures
        post.rendered_component.active_component == RenderedComponentKind::Task,
        post.rendered_component.task_component matches Some(c) && c.task == t,
        r is Ok,
{
}

/// Stepping into a group listed right under the scope, then out again,
/// comes back to the scope.
pub proof fn law_step_in_then_out(a: &Explorer, b: &Explorer, c: &Explorer, tree: &TarsTree, o1: Outcome, o2: Outcome)
    requires
        tree.wf(),
        Explorer::moved_into(a, b, tree, o1),
        Explorer::moved_out(b, c, tree, o2),
        a.state.selection.idx < a.state.listing(tree).len(),
        tree.node(a.state.listing(tree)[a.state.selection.idx as int]).kind is Group,
        tree.parent(a.state.listing(tree)[a.state.selection.idx as int]) == Some(a.state.scope),
    ensures
        c.state.scope == a.state.scope,
{
}

/// A name typed into the task sheet is the name stored when the edit ends.
pub proof fn law_typed_name_is_stored(
    a: &TaskComponent,
    b: &TaskComponent,
    c: &TaskComponent,
    line: String,
    key: Key,
    out: EditOutcome,
)
    requires
        a.edit_mode == TaskEditMode::Name,
        *b == (TaskComponent { name: TarsText { line, ..a.name }, ..*a }),
        line@.len() > 0,
        key.code == KeyCode::Enter,
        TaskComponent::keyed(b, c, key, out),
    ensures
        out matches EditOutcome::Done { request: Some(Request::SyncTask(t)) } && t.name == line && t.id == a.task.id,
        c.task.name == line,
        c.edit_mode == TaskEditMode::Inactive,
{
}

/// A diff deleting an item the tree holds, task or group, is applied when
/// the item holds nothing: the application takes it, the item's node leaves
/// the tree, its id leaves the index, and an update and a refresh follow.
pub proof fn law_empty_item_deleted(pre: &App, post: &App, tree: &TarsTree, tree2: &TarsTree, x: Id, r: Result<Step, AppError>)
    requires
        tree.wf(),
        tree.index().contains_key(x),
        tree.children(tree.index()[x]).len() == 0,
        App::handled(pre, post, Signal::Diff(Diff::Deleted(x)), tree, tree2, r),
    ensures
        tree.diff_applies(Diff::Deleted(x)),
        tree2.wf(),
        !tree2.index().contains_key(x),
        !tree2.has(tree.index()[x]),
        forall|y: Id| y != x ==> (#[trigger] tree2.index().contains_key(y) == tree.index().contains_key(y)),
        r matches Ok(step) && step.send@ == seq![Signal::Update, Signal::Refresh],
{
}

/// With finished items hidden, a group that holds nothing is listed, as is
/// every such group under the scope.
pub proof fn law_empty_group_listed(tree: &TarsTree, scope: NodeId, k: NodeId)
    requires
        tree.wf(),
        tree.has(k),
        tree.node(k).kind is Group,
        tree.children(k).len() == 0,
    ensures
        listed(tree, k, false),
        tree.has(scope) && tree.subtree(scope).contains(k) ==> render_list(tree, scope, false).contains(k),
{
    assert(tree.heights()[k] < tree.bound());
    if tree.has(scope) && tree.subtree(scope).contains(k) {
        let sub = tree.subtree(scope);
        let i = sub.index_of(k);
        sub.lemma_filter_contains(|q: NodeId| listed(tree, q, false), i);
    }
}

/// Each line of the todo list shows its task's due date when the task has
/// one, and the task's priority only when it has none.
pub proof fn law_todo_lines_show_due_dates(pre: &TodoState, post: &TodoState, tree: &TarsTree)
    requires
        TodoState::redrawn(pre, post, tree),
    ensures
        forall|i: int| 0 <= i < post.tasks@.len() ==> {
            &&& (#[trigger] post.tasks@[i]).1.due matches Some(secs) ==> post.draw_info.unwrap().lines@[i].prio_date@ == due_label(secs)
            &&& post.tasks@[i].1.due is None ==> post.draw_info.unwrap().lines@[i].prio_date@ == priority_label(post.tasks@[i].1.priority)
        },
{
}

/// A new group made from the explorer goes inside the scope when the scope
/// is a group, and at the top level when the scope is the root.
pub proof fn law_new_group_in_scope(pre: &Explorer, post: &Explorer, tree: &TarsTree, r: Result<Outcome, ExplorerError>)
    requires
        pre.state.active,
        Explorer::stepped(pre, post, Signal::Action(Action::NewGroup), tree, r),
    ensures
        *post == *pre,
        tree.node(pre.state.scope).kind matches TarsKind::Group(g) ==> (r matches Ok(out) && out.request matches Some(
            ExplorerRequest::NewGroup(d),
        ) && d.parent_id == Some(g.id) && d.name@ == "new_group"@),
        tree.node(pre.state.scope).kind is Root ==> (r matches Ok(out) && out.request matches Some(ExplorerRequest::NewGroup(d))
            && d.parent_id is None),
{
}

/// Ending an edit of a task stores the task as it was with only its name
/// changed, and the name only when one was typed: otherwise the task keeps
/// its name.
pub proof fn law_stored_task_keeps_untyped_name(pre: &TaskComponent, post: &TaskComponent, key: Key, t: Task)
    requires
        TaskComponent::keyed(pre, post, key, EditOutcome::Done { request: Some(Request::SyncTask(t)) }),
    ensures
        pre.name.line@.len() == 0 ==> t == pre.task,
        pre.name.line@.len() > 0 ==> t == (Task { name: pre.name.line, ..pre.task }),
        t.id == pre.task.id,
        t.priority == pre.task.priority,
        t.due == pre.task.due,
{
}

} // verus!
