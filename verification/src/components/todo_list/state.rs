//! The state of the todo list: the unfinished tasks under the scope, ordered
//! from most to least urgent by their ranks in the daemon's task order, and
//! the selection among them.
use vstd::prelude::*;
use crate::tree::{node_id_eq, TarsKind, TarsTree};
use crate::types::{Id, Priority, Task};
use std::collections::HashMap;
use crate::util::lemma_filter_take_step;
use crate::dates::{clock_text, format_timestamp};
use id_tree::NodeId;

verus! {

/// The rank of a task in the daemon's task order, as handed in: tasks
/// higher in that order have higher ranks, tasks the order holds equal have
/// the same rank, and a task without a rank counts as rank 0.
pub open spec fn rank_in(ranks: Map<Id, u64>, t: Task) -> u64 {
    if ranks.contains_key(t.id) {
        ranks[t.id]
    } else {
        0
    }
}

/// How urgent a listed task is: its rank in the daemon's task order.
pub open spec fn urgency(ranks: Map<Id, u64>, e: (NodeId, Task)) -> nat {
    rank_in(ranks, e.1) as nat
}

/// `out` orders the entries of `inp` from most to least urgent; entries as
/// urgent as each other come last-listed first.
pub open spec fn urgency_order(ranks: Map<Id, u64>, inp: Seq<(NodeId, Task)>, out: Seq<(NodeId, Task)>) -> bool {
    exists|p: Seq<int>| #[trigger] orders_by(ranks, inp, out, p)
}

/// `p` maps each position of `out` to the position of `inp` it comes from,
/// as `urgency_order` requires.
pub open spec fn orders_by(ranks: Map<Id, u64>, inp: Seq<(NodeId, Task)>, out: Seq<(NodeId, Task)>, p: Seq<int>) -> bool {
    &&& out.len() == inp.len()
    &&& p.len() == out.len()
    &&& forall|j: int| 0 <= j < out.len() ==> 0 <= #[trigger] p[j] < inp.len() && out[j] == inp[p[j]]
    &&& forall|a: int, b: int| 0 <= a < b < out.len() ==> p[a] != p[b]
    &&& forall|a: int, b: int| 0 <= a < b < out.len() ==> urgency(ranks, out[a]) >= urgency(ranks, out[b])
    &&& forall|a: int, b: int| 0 <= a < b < out.len() && urgency(ranks, out[a]) == urgency(ranks, out[b]) ==> p[a] > p[b]
}

/// The rank of `t` in `ranks`, 0 when it has none.
pub fn rank_of(ranks: &HashMap<Id, u64>, t: &Task) -> (r: u64)
    ensures
        r == rank_in(ranks@, *t),
{
    broadcast use vstd::std_specs::hash::group_hash_axioms;
    match ranks.get(&t.id) {
        Some(r) => *r,
        None => 0,
    }
}

/// Orders entries from most to least urgent by their ranks, the later of
/// two equally ranked entries first: a stable sort from least to most
/// urgent, reversed.
pub fn sort_by_urgency(v: &Vec<(NodeId, Task)>, ranks: &HashMap<Id, u64>) -> (r: Vec<(NodeId, Task)>)
    ensures
        urgency_order(ranks@, v@, r@),
{
    let mut out: Vec<(NodeId, Task)> = Vec::new();
    let ghost mut p: Seq<int> = Seq::empty();
    let n = v.len();
    let mut i: usize = 0;
    while i < n
        invariant
            n == v@.len(),
            0 <= i <= n,
            orders_by(ranks@, v@.take(i as int), out@, p),
        decreases n - i,
    {
        let x = (v[i].0.clone(), v[i].1.duplicate());
        let rank = rank_of(ranks, &x.1);
        let mut pos: usize = 0;
        while pos < out.len() && rank_of(ranks, &out[pos].1) > rank
            invariant
                0 <= pos <= out@.len(),
                forall|j: int| 0 <= j < pos ==> urgency(ranks@, #[trigger] out@[j]) > rank,
            decreases out@.len() - pos,
        {
            pos = pos + 1;
        }
        let ghost old_out = out@;
        let ghost old_p = p;
        out.insert(pos, x);
        proof {
            p = old_p.insert(pos as int, i as int);
            let inp = v@.take(i + 1);
            let prev = v@.take(i as int);
            assert(x == v@[i as int]);
            assert forall|j: int| 0 <= j < out@.len() implies 0 <= #[trigger] p[j] < inp.len() && out@[j] == inp[p[j]] by {
                if j < pos {
                    assert(out@[j] == old_out[j] && p[j] == old_p[j]);
                    assert(prev[old_p[j]] == inp[old_p[j]]);
                } else if j == pos {
                } else {
                    assert(out@[j] == old_out[j - 1] && p[j] == old_p[j - 1]);
                    assert(prev[old_p[j - 1]] == inp[old_p[j - 1]]);
                }
            }
            assert forall|a: int, b: int| 0 <= a < b < out@.len() implies p[a] != p[b] by {
                if a < pos && b > pos {
                    assert(p[b] == old_p[b - 1]);
                } else if a < pos && b == pos {
                } else if a == pos {
                    assert(p[b] == old_p[b - 1]);
                    assert(old_p[b - 1] < i);
                } else if b < pos {
                } else {
                    assert(p[a] == old_p[a - 1] && p[b] == old_p[b - 1]);
                }
            }
            assert forall|a: int, b: int| 0 <= a < b < out@.len() implies urgency(ranks@, out@[a]) >= urgency(ranks@, out@[b]) by {
                if a < pos && b > pos {
                    assert(out@[a] == old_out[a] && out@[b] == old_out[b - 1]);
                } else if a < pos && b == pos {
                } else if a == pos {
                    assert(out@[b] == old_out[b - 1]);
                    assert(!(urgency(ranks@, old_out[pos as int]) > rank));
                    if b - 1 > pos {
                        assert(urgency(ranks@, old_out[pos as int]) >= urgency(ranks@, old_out[b - 1]));
                    }
                } else if b < pos {
                    assert(out@[a] == old_out[a] && out@[b] == old_out[b]);
                } else {
                    assert(out@[a] == old_out[a - 1] && out@[b] == old_out[b - 1]);
                }
            }
            assert forall|a: int, b: int| 0 <= a < b < out@.len() && urgency(ranks@, out@[a]) == urgency(ranks@, out@[b]) implies p[a] > p[b] by {
                if a < pos && b > pos {
                    assert(out@[a] == old_out[a] && out@[b] == old_out[b - 1]);
                    assert(urgency(ranks@, out@[a]) > rank);
                    assert(urgency(ranks@, old_out[pos as int]) >= urgency(ranks@, old_out[b - 1]));
                } else if a < pos && b == pos {
                    assert(urgency(ranks@, out@[a]) > rank);
                } else if a == pos {
                    assert(p[b] == old_p[b - 1]);
                    assert(old_p[b - 1] < i);
                } else if b < pos {
                    assert(p[a] == old_p[a] && p[b] == old_p[b]);
                } else {
                    assert(p[a] == old_p[a - 1] && p[b] == old_p[b - 1]);
                }
            }
            assert(orders_by(ranks@, inp, out@, p));
        }
        i = i + 1;
    }
    proof {
        assert(v@.take(n as int) =~= v@);
        assert(orders_by(ranks@, v@, out@, p));
    }
    out
}


/// The due date as the todo list shows it: month and day for a task due at
/// the last second of a day, else also the time.
pub open spec fn due_label(secs: i64) -> Seq<char> {
    if clock_text(secs, "%I:%M:%S %p"@) == "11:59:59 PM"@ {
        clock_text(secs, "%m/%d"@)
    } else {
        clock_text(secs, "%m/%d %I:%M %p"@)
    }
}

/// The name of a priority.
pub open spec fn priority_label(p: Priority) -> Seq<char> {
    match p {
        Priority::Far => "Far"@,
        Priority::Low => "Low"@,
        Priority::Medium => "Medium"@,
        Priority::High => "High"@,
        Priority::Asap => "Asap"@,
    }
}

/// The name of a priority.
pub fn priority_name(p: Priority) -> (r: String)
    ensures
        r@ == priority_label(p),
{
    match p {
        Priority::Far => "Far".to_owned(),
        Priority::Low => "Low".to_owned(),
        Priority::Medium => "Medium".to_owned(),
        Priority::High => "High".to_owned(),
        Priority::Asap => "Asap".to_owned(),
    }
}

/// The due date as the todo list shows it.
pub fn due_text(secs: i64) -> (r: String)
    ensures
        r@ == due_label(secs),
{
    let time = format_timestamp(secs, "%I:%M:%S %p");
    if time == "11:59:59 PM".to_owned() {
        format_timestamp(secs, "%m/%d")
    } else {
        format_timestamp(secs, "%m/%d %I:%M %p")
    }
}

/// The third column of a line: the due date, or the priority when there is
/// none.
pub open spec fn prio_date_of(t: Task) -> Seq<char> {
    match t.due {
        Some(secs) => due_label(secs),
        None => priority_label(t.priority),
    }
}

/// Whether the node `k` holds an unfinished task.
pub open spec fn open_task(tree: &TarsTree, k: NodeId) -> bool {
    tree.node(k).kind matches TarsKind::Task(t) && t.finished_at is None
}

/// `open_task`, as a predicate on nodes.
pub open spec fn open_task_pred(tree: &TarsTree) -> spec_fn(NodeId) -> bool {
    |k: NodeId| open_task(tree, k)
}

/// The node `k` with the task it holds.
pub open spec fn task_entry(tree: &TarsTree, k: NodeId) -> (NodeId, Task) {
    (k, tree.node(k).kind->Task_0)
}

/// The unfinished tasks under `scope`, in pre-order.
pub open spec fn open_entries(tree: &TarsTree, scope: NodeId) -> Seq<(NodeId, Task)> {
    tree.subtree(scope).filter(open_task_pred(tree)).map_values(|k: NodeId| task_entry(tree, k))
}

/// How a line is shaded: the selection, brighter while the list is active.
#[derive(Debug, PartialEq, Eq, Structural)]
pub enum Shade {
    Active,
    Dim,
    Plain,
}

/// A line of the todo list: the task's name, its group's name, the due date
/// or priority, the group's color and the shading.
#[derive(Debug)]
pub struct LineEntry {
    pub task: String,
    pub group: String,
    pub prio_date: String,
    pub color: String,
    pub shade: Shade,
}

/// What the todo list draws.
#[derive(Debug)]
pub struct DrawInfo {
    pub lines: Vec<LineEntry>,
}

/// The selected task and its position in the list.
#[derive(Debug)]
pub struct Selection {
    pub id: NodeId,
    pub idx: usize,
}

/// The state of the todo list.
#[derive(Debug)]
pub struct State {
    pub active: bool,
    pub scope: NodeId,
    pub selection: Selection,
    pub draw_info: Option<DrawInfo>,
    pub tasks: Vec<(NodeId, Task)>,
    /// The rank of each task in the daemon's task order, by task id.
    pub ranks: HashMap<Id, u64>,
    /// The vertical offset of the scrolled list.
    pub scroll_y: u16,
    /// The height of the list on screen.
    pub frame_height: u16,
}

/// `line` is what the todo list draws for `e`, the selection or not.
pub open spec fn draws_line(line: LineEntry, e: (NodeId, Task), selected: bool, active: bool) -> bool {
    &&& line.task == e.1.name
    &&& line.group == e.1.group.name
    &&& line.prio_date@ == prio_date_of(e.1)
    &&& line.color == e.1.group.color
    &&& line.shade == if selected { if active { Shade::Active } else { Shade::Dim } } else { Shade::Plain }
}

impl State {
    /// `post` is `pre` with its tasks read again from `tree` and redrawn.
    pub open spec fn redrawn(pre: &State, post: &State, tree: &TarsTree) -> bool {
        let ts = post.tasks@;
        let sel = pre.selection.id;
        &&& post.active == pre.active
        &&& post.scope == pre.scope
        &&& post.selection.id == sel
        &&& post.scroll_y == pre.scroll_y
        &&& post.frame_height == pre.frame_height
        &&& post.ranks@ == pre.ranks@
        &&& urgency_order(pre.ranks@, open_entries(tree, pre.scope), ts)
        &&& (if exists|j: int| 0 <= j < ts.len() && ts[j].0 == sel {
            &&& post.selection.idx < ts.len()
            &&& ts[post.selection.idx as int].0 == sel
            &&& forall|j: int| post.selection.idx < j < ts.len() ==> ts[j].0 != sel
        } else {
            post.selection.idx == pre.selection.idx
        })
        &&& post.draw_info matches Some(info) && {
            &&& info.lines@.len() == ts.len()
            &&& forall|i: int| 0 <= i < ts.len() ==> draws_line(#[trigger] info.lines@[i], ts[i], ts[i].0 == sel, pre.active)
        }
    }

    /// Reads the unfinished tasks under the scope from the tree, most urgent
    /// first by their ranks.
    pub fn refresh_tasks(&mut self, tree: &TarsTree)
        requires
            tree.wf(),
            tree.has(old(self).scope),
        ensures
            urgency_order(old(self).ranks@, open_entries(tree, old(self).scope), final(self).tasks@),
            final(self).ranks@ == old(self).ranks@,
            final(self).active == old(self).active,
            final(self).scope == old(self).scope,
            final(self).selection == old(self).selection,
            final(self).draw_info == old(self).draw_info,
            final(self).scroll_y == old(self).scroll_y,
            final(self).frame_height == old(self).frame_height,
    {
        let pot = tree.traverse(&self.scope);
        let ghost pred = open_task_pred(tree);
        let ghost f = |k: NodeId| task_entry(tree, k);
        proof {
            tree.lemma_subtree_valid(self.scope);
            reveal(Seq::filter);
            assert(pot@.take(0).filter(pred).map_values(f) =~= Seq::<(NodeId, Task)>::empty());
        }
        let mut tasks_in_scope: Vec<(NodeId, Task)> = Vec::new();
        let n = pot.len();
        let mut i: usize = 0;
        while i < n
            invariant
                tree.wf(),
                n == pot@.len(),
                pot@ == tree.subtree(self.scope),
                forall|j: int| 0 <= j < pot@.len() ==> #[trigger] tree.has(pot@[j]),
                pred == open_task_pred(tree),
                f == (|k: NodeId| task_entry(tree, k)),
                0 <= i <= n,
                tasks_in_scope@ == pot@.take(i as int).filter(pred).map_values(f),
            decreases n - i,
        {
            let k = &pot[i];
            proof {
                assert(tree.has(pot@[i as int]));
                lemma_filter_take_step(pot@, pred, i as int);
            }
            match &tree.data(k).kind {
                TarsKind::Task(t) => {
                    if t.finished_at.is_none() {
                        tasks_in_scope.push((k.clone(), t.duplicate()));
                        proof {
                            assert(tasks_in_scope@ =~= pot@.take(i + 1).filter(pred).map_values(f));
                        }
                    }
                },
                _ => {},
            }
            i = i + 1;
        }
        proof {
            assert(pot@.take(n as int) =~= pot@);
        }
        self.tasks = sort_by_urgency(&tasks_in_scope, &self.ranks);
    }
    /// The line drawn for the entry `e`.
    fn line(e: &(NodeId, Task), selected: bool, active: bool) -> (r: LineEntry)
        ensures
            draws_line(r, *e, selected, active),
    {
        let t = &e.1;
        let prio_date = match t.due {
            Some(secs) => due_text(secs),
            None => priority_name(t.priority),
        };
        let shade = if selected {
            if active { Shade::Active } else { Shade::Dim }
        } else {
            Shade::Plain
        };
        LineEntry {
            task: t.name.clone(),
            group: t.group.name.clone(),
            prio_date,
            color: t.group.color.clone(),
            shade,
        }
    }

    /// Reads the tasks again and recomputes the lines and the position of
    /// the selection among them.
    pub fn calculate_draw_info(&mut self, tree: &TarsTree)
        requires
            tree.wf(),
            tree.has(old(self).scope),
        ensures
            State::redrawn(old(self), final(self), tree),
    {
        let ghost pre = *self;
        self.refresh_tasks(tree);
        let ghost ts = self.tasks@;
        let ghost sel = self.selection.id;
        let mut new_sel_idx = self.selection.idx;
        let mut lines: Vec<LineEntry> = Vec::new();
        let n = self.tasks.len();
        let mut i: usize = 0;
        while i < n
            invariant
                n == ts.len(),
                ts == self.tasks@,
                sel == self.selection.id,
                self.active == pre.active,
                0 <= i <= n,
                lines@.len() == i,
                forall|j: int| 0 <= j < i ==> draws_line(#[trigger] lines@[j], ts[j], ts[j].0 == sel, pre.active),
                (exists|j: int| 0 <= j < i && ts[j].0 == sel) ==> {
                    &&& new_sel_idx < i
                    &&& ts[new_sel_idx as int].0 == sel
                    &&& forall|j: int| new_sel_idx < j < i ==> ts[j].0 != sel
                },
                !(exists|j: int| 0 <= j < i && ts[j].0 == sel) ==> new_sel_idx == pre.selection.idx,
            decreases n - i,
        {
            let selected = node_id_eq(&self.tasks[i].0, &self.selection.id);
            if selected {
                new_sel_idx = i;
            }
            lines.push(State::line(&self.tasks[i], selected, self.active));
            proof {
                if exists|j: int| 0 <= j < i + 1 && ts[j].0 == sel {
                    if !selected {
                        let j = choose|j: int| 0 <= j < i + 1 && ts[j].0 == sel;
                        assert(j < i);
                    }
                }
            }
            i = i + 1;
        }
        self.selection.idx = new_sel_idx;
        self.draw_info = Some(DrawInfo { lines });
    }
    /// A new todo-list state over `tree`, drawn once.
    pub fn new(active: bool, scope: NodeId, selection: NodeId, ranks: HashMap<Id, u64>, tree: &TarsTree) -> (r: State)
        requires
            tree.wf(),
            tree.has(scope),
        ensures
            r.ranks@ == ranks@,
            State::redrawn(
                &State {
                    active,
                    scope,
                    selection: Selection { id: selection, idx: 0 },
                    draw_info: None,
                    tasks: r.tasks,
                    ranks: r.ranks,
                    scroll_y: 0,
                    frame_height: 50,
                },
                &r,
                tree,
            ),
    {
        let mut state = State {
            active,
            scope,
            selection: Selection { id: selection, idx: 0 },
            draw_info: None,
            tasks: Vec::new(),
            ranks,
            scroll_y: 0,
            frame_height: 50,
        };
        state.calculate_draw_info(tree);
        state
    }

    /// The listed tasks, most urgent first.
    pub fn get_tasks(&self) -> (r: &Vec<(NodeId, Task)>)
        ensures
            r@ == self.tasks@,
    {
        &self.tasks
    }

    /// The scope of the todo list.
    pub fn get_scope(&self) -> (r: &NodeId)
        ensures
            *r == self.scope,
    {
        &self.scope
    }

    /// Changes the scope and redraws.
    pub fn set_scope(&mut self, tree: &TarsTree, scope: NodeId)
        requires
            tree.wf(),
            tree.has(scope),
        ensures
            State::redrawn(&State { scope, ..*old(self) }, final(self), tree),
    {
        self.scope = scope;
        self.calculate_draw_info(tree);
    }

    /// The selected task.
    pub fn get_selected_id(&self) -> (r: &NodeId)
        ensures
            *r == self.selection.id,
    {
        &self.selection.id
    }

    /// The position of the selected task in the list.
    pub fn get_selected_idx(&self) -> (r: &usize)
        ensures
            *r == self.selection.idx,
    {
        &self.selection.idx
    }

    /// Changes the selection and redraws.
    pub fn set_selection(&mut self, tree: &TarsTree, selection: NodeId)
        requires
            tree.wf(),
            tree.has(old(self).scope),
        ensures
            State::redrawn(
                &State { selection: Selection { id: selection, idx: old(self).selection.idx }, ..*old(self) },
                final(self),
                tree,
            ),
    {
        self.selection.id = selection;
        self.calculate_draw_info(tree);
    }

    /// What the todo list draws.
    pub fn get_draw_info(&self) -> (r: &DrawInfo)
        requires
            self.draw_info is Some,
        ensures
            *r == self.draw_info.unwrap(),
    {
        self.draw_info.as_ref().unwrap()
    }
}

} // verus!
