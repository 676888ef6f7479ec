//! The explorer: a scoped, scrollable view of the tree that shows groups and
//! tasks in pre-order and lets the user move through them.
use vstd::prelude::*;
use crate::tree::{children_of, clone_opt_node_id, data_of, node_id_eq, Slot, TarsKind, TarsNode, TarsTree};
use crate::util::lemma_filter_take_step;
use id_tree::NodeId;

verus! {

/// Whether the child `c` keeps its parent group on screen when finished
/// items are hidden: an unfinished task, or a group that is itself shown.
pub open spec fn keeps_shown(s: Map<NodeId, Option<Slot>>, c: NodeId, f: nat) -> bool
    decreases f, 1nat,
{
    match data_of(s, c).kind {
        TarsKind::Task(t) => t.finished_at is None,
        TarsKind::Group(_) => shown_within(s, c, f),
        TarsKind::Root => false,
    }
}

/// Whether one of the children `cs` keeps their parent group shown.
pub open spec fn shown_list(s: Map<NodeId, Option<Slot>>, cs: Seq<NodeId>, f: nat) -> bool
    decreases f, cs.len() + 1,
{
    if cs.len() == 0 {
        false
    } else {
        keeps_shown(s, cs[0], f) || shown_list(s, cs.drop_first(), f)
    }
}

/// Whether the group `g` is shown when finished items are hidden: it is
/// empty, or one of its children keeps it shown (looking `f` levels down).
pub open spec fn shown_within(s: Map<NodeId, Option<Slot>>, g: NodeId, f: nat) -> bool
    decreases f, 0nat,
{
    if f == 0 {
        false
    } else {
        children_of(s, g).len() == 0 || shown_list(s, children_of(s, g), (f - 1) as nat)
    }
}

/// `shown_list` holds when one of the children keeps the group shown.
pub proof fn lemma_shown_list(s: Map<NodeId, Option<Slot>>, cs: Seq<NodeId>, f: nat)
    ensures
        shown_list(s, cs, f) == exists|j: int| 0 <= j < cs.len() && #[trigger] keeps_shown(s, cs[j], f),
    decreases cs.len(),
{
    if cs.len() > 0 {
        assert(shown_list(s, cs, f) == (keeps_shown(s, cs[0], f) || shown_list(s, cs.drop_first(), f)));
        lemma_shown_list(s, cs.drop_first(), f);
        if keeps_shown(s, cs[0], f) {
            assert(0 <= 0 < cs.len() && keeps_shown(s, cs[0], f));
        }
        if shown_list(s, cs.drop_first(), f) {
            let j = choose|j: int| 0 <= j < cs.drop_first().len() && #[trigger] keeps_shown(s, cs.drop_first()[j], f);
            assert(keeps_shown(s, cs[j + 1], f));
        }
        if exists|j: int| 0 <= j < cs.len() && #[trigger] keeps_shown(s, cs[j], f) {
            let j = choose|j: int| 0 <= j < cs.len() && #[trigger] keeps_shown(s, cs[j], f);
            if j > 0 {
                assert(keeps_shown(s, cs.drop_first()[j - 1], f));
            }
        }
    }
}

/// Whether the group at `g` is shown when finished items are hidden.
pub open spec fn group_shown(tree: &TarsTree, g: NodeId) -> bool {
    shown_within(tree.slots(), g, (tree.bound() - tree.heights()[g]) as nat)
}

/// Whether the group at node `g` has to be shown when finished items are
/// hidden: it has no children, or holds an unfinished task at some depth, or
/// a group without children at some depth.
pub fn render_group(tree: &TarsTree, g: &NodeId) -> (r: bool)
    requires
        tree.wf(),
        tree.has(*g),
    ensures
        r == group_shown(tree, *g),
    decreases tree.bound() - tree.heights()[*g],
{
    let ghost s = tree.slots();
    let ghost f = (tree.bound() - tree.heights()[*g]) as nat;
    let children = tree.children_ids(g);
    let n = children.len();
    proof {
        assert(tree.heights()[*g] < tree.bound());
    }
    if n == 0 {
        return true;
    }
    let mut exists_uncompleted = false;
    let mut i: usize = 0;
    while i < n
        invariant
            tree.wf(),
            tree.has(*g),
            s == tree.slots(),
            f == (tree.bound() - tree.heights()[*g]) as nat,
            f >= 1,
            n == children@.len(),
            children@ == children_of(s, *g),
            0 <= i <= n,
            exists_uncompleted == exists|j: int| 0 <= j < i && #[trigger] keeps_shown(s, children@[j], (f - 1) as nat),
        decreases n - i,
    {
        let c = &children[i];
        proof {
            assert(tree.has(*c) && tree.parent(*c) == Some(*g));
        }
        match &tree.data(c).kind {
            TarsKind::Task(t) => {
                if t.finished_at.is_none() {
                    exists_uncompleted = true;
                }
            },
            TarsKind::Group(_) => {
                if !exists_uncompleted {
                    exists_uncompleted = render_group(tree, c);
                }
            },
            TarsKind::Root => {
                proof {
                    assert(*c != tree.root());
                }
            },
        }
        proof {
            assert(keeps_shown(s, children@[i as int], (f - 1) as nat) == (match data_of(s, *c).kind {
                TarsKind::Task(t) => t.finished_at is None,
                TarsKind::Group(_) => group_shown(tree, *c),
                TarsKind::Root => false,
            }));
        }
        i = i + 1;
    }
    proof {
        lemma_shown_list(s, children@, (f - 1) as nat);
    }
    exists_uncompleted
}


/// Whether the node `k` is listed by the explorer: tasks that are unfinished,
/// groups that are shown, or anything when finished items are shown; never
/// the root.
pub open spec fn listed(tree: &TarsTree, k: NodeId, show_completed: bool) -> bool {
    match tree.node(k).kind {
        TarsKind::Root => false,
        TarsKind::Task(t) => show_completed || t.finished_at is None,
        TarsKind::Group(_) => show_completed || group_shown(tree, k),
    }
}

/// `listed`, as a predicate on nodes.
pub open spec fn listed_pred(tree: &TarsTree, show_completed: bool) -> spec_fn(NodeId) -> bool {
    |k: NodeId| listed(tree, k, show_completed)
}

/// The nodes the explorer lists under `scope`, in pre-order.
pub open spec fn render_list(tree: &TarsTree, scope: NodeId, show_completed: bool) -> Seq<NodeId> {
    tree.subtree(scope).filter(listed_pred(tree, show_completed))
}

/// The nodes under `scope` the explorer lists, in pre-order.
pub fn generate_render_list(tree: &TarsTree, scope: &NodeId, show_completed: bool) -> (r: Vec<NodeId>)
    requires
        tree.wf(),
        tree.has(*scope),
    ensures
        r@ == render_list(tree, *scope, show_completed),
{
    let pot = tree.traverse(scope);
    let ghost pred = listed_pred(tree, show_completed);
    proof {
        tree.lemma_subtree_valid(*scope);
        assert(pot@.take(0) =~= Seq::<NodeId>::empty());
        reveal(Seq::filter);
    }
    let mut out: Vec<NodeId> = Vec::new();
    let n = pot.len();
    let mut i: usize = 0;
    while i < n
        invariant
            tree.wf(),
            n == pot@.len(),
            pot@ == tree.subtree(*scope),
            forall|j: int| 0 <= j < pot@.len() ==> #[trigger] tree.has(pot@[j]),
            pred == listed_pred(tree, show_completed),
            0 <= i <= n,
            out@ == pot@.take(i as int).filter(pred),
        decreases n - i,
    {
        let k = &pot[i];
        proof {
            assert(tree.has(pot@[i as int]));
        }
        let keep = match &tree.data(k).kind {
            TarsKind::Root => false,
            TarsKind::Task(t) => show_completed || t.finished_at.is_none(),
            TarsKind::Group(_) => show_completed || render_group(tree, k),
        };
        proof {
            lemma_filter_take_step(pot@, pred, i as int);
            assert(keep == pred(pot@[i as int]));
        }
        if keep {
            out.push(k.clone());
        }
        i = i + 1;
    }
    proof {
        assert(pot@.take(n as int) =~= pot@);
    }
    out
}

/// The nodes the explorer lists are in the tree and pass the filter.
pub proof fn lemma_listing_valid(tree: &TarsTree, scope: NodeId, show_completed: bool)
    requires
        tree.wf(),
        tree.has(scope),
    ensures
        forall|j: int| 0 <= j < render_list(tree, scope, show_completed).len() ==> #[trigger] tree.has(render_list(tree, scope, show_completed)[j])
            && listed(tree, render_list(tree, scope, show_completed)[j], show_completed)
            && tree.subtree(scope).contains(render_list(tree, scope, show_completed)[j]),
{
    let rl = render_list(tree, scope, show_completed);
    let pred = listed_pred(tree, show_completed);
    tree.lemma_subtree_valid(scope);
    assert forall|j: int| 0 <= j < rl.len() implies #[trigger] tree.has(rl[j]) && listed(tree, rl[j], show_completed)
        && tree.subtree(scope).contains(rl[j]) by {
        tree.subtree(scope).lemma_filter_pred(pred, j);
        assert(rl.contains(rl[j]));
        tree.subtree(scope).lemma_filter_contains_rev(pred, rl[j]);
        let m = choose|m: int| 0 <= m < tree.subtree(scope).len() && tree.subtree(scope)[m] == rl[j];
        assert(tree.has(tree.subtree(scope)[m]));
    }
}

/// How an entry of the explorer looks.
#[derive(Debug, PartialEq, Eq)]
pub enum EntryLook {
    /// A task: its name, the color of its group and whether it is finished.
    Task { name: String, color: String, finished: bool },
    /// A group: its name and color.
    Group { name: String, color: String },
}

/// A row of the explorer.
#[derive(Debug)]
pub struct DrawEntry {
    pub id: NodeId,
    pub look: EntryLook,
    pub selected: bool,
    /// Columns of padding before the entry.
    pub indent: u16,
}

/// A breadcrumb: the root, or a group with its name and color.
#[derive(Debug, PartialEq, Eq)]
pub enum Crumb {
    Home,
    Group { name: String, color: String },
}

/// What the explorer draws: its rows and the breadcrumbs of its scope, the
/// root first.
#[derive(Debug)]
pub struct DrawInfo {
    pub entries: Vec<DrawEntry>,
    pub breadcrumbs: Vec<Crumb>,
}

/// The selected node and its position in the list.
#[derive(Debug)]
pub struct Selection {
    pub id: NodeId,
    pub idx: usize,
}

/// How the node `k` looks in the explorer.
pub open spec fn look_of(d: TarsNode) -> EntryLook {
    match d.kind {
        TarsKind::Task(t) => EntryLook::Task { name: t.name, color: t.group.color, finished: t.finished_at is Some },
        TarsKind::Group(g) => EntryLook::Group { name: g.name, color: g.color },
        TarsKind::Root => EntryLook::Group { name: d.kind->Group_0.name, color: d.kind->Group_0.color },
    }
}

/// The breadcrumb for an ancestor of the scope.
pub open spec fn crumb_of(d: TarsNode) -> Crumb {
    match d.kind {
        TarsKind::Group(g) => Crumb::Group { name: g.name, color: g.color },
        _ => Crumb::Home,
    }
}

/// The padding of a row at `depth` in a scope at `rel_depth`: twice the
/// depth, less the depth of the scope, and never below zero.
pub open spec fn indent_of(depth: u16, rel_depth: u16) -> u16 {
    if depth * 2 >= rel_depth { (depth * 2 - rel_depth) as u16 } else { 0 }
}

/// The state of the explorer.
#[derive(Debug)]
pub struct State {
    pub active: bool,
    pub show_completed: bool,
    pub scope: NodeId,
    pub selection: Selection,
    pub draw_info: Option<DrawInfo>,
    /// The vertical offset of the scrolled list.
    pub scroll_y: u16,
    /// The height of the list on screen.
    pub frame_height: u16,
}

impl State {
    /// The nodes the explorer currently lists.
    pub open spec fn listing(&self, tree: &TarsTree) -> Seq<NodeId> {
        render_list(tree, self.scope, self.show_completed)
    }

    /// Every node under the scope fits twice its depth in a `u16`.
    pub open spec fn depths_fit(&self, tree: &TarsTree) -> bool {
        forall|i: int| 0 <= i < tree.subtree(self.scope).len() ==> #[trigger] tree.node(tree.subtree(self.scope)[i]).depth * 2 <= u16::MAX
    }

    /// No ancestor of the scope is a task, so that each has a breadcrumb.
    pub open spec fn crumbs_drawable(&self, tree: &TarsTree) -> bool {
        forall|j: int| 0 <= j < tree.ancestry(self.scope).len() ==> !(#[trigger] tree.node(tree.ancestry(self.scope)[j]).kind is Task)
    }

    /// The state can be redrawn: the scope is in the tree below groups only,
    /// and the selection is in the tree or the list is not empty.
    pub open spec fn drawable(&self, tree: &TarsTree) -> bool {
        &&& tree.wf()
        &&& tree.has(self.scope)
        &&& self.crumbs_drawable(tree)
        &&& (tree.has(self.selection.id) || self.listing(tree).len() > 0)
        &&& self.depths_fit(tree)
    }

    /// The selection after redrawing: kept while it is in the tree, else the
    /// entry before its old position, or the last entry.
    pub open spec fn revised_selection(&self, tree: &TarsTree) -> NodeId {
        let rl = self.listing(tree);
        if tree.has(self.selection.id) {
            self.selection.id
        } else {
            let i = if self.selection.idx >= 1 { self.selection.idx - 1 } else { 0 };
            if i < rl.len() { rl[i] } else { rl.last() }
        }
    }

    /// `post` is `pre` redrawn against `tree`.
    pub open spec fn redrawn(pre: &State, post: &State, tree: &TarsTree) -> bool {
        let rl = pre.listing(tree);
        let sel = pre.revised_selection(tree);
        let rel = tree.node(pre.scope).depth;
        &&& post.scope == pre.scope
        &&& post.show_completed == pre.show_completed
        &&& post.active == pre.active
        &&& post.scroll_y == pre.scroll_y
        &&& post.frame_height == pre.frame_height
        &&& post.selection.id == sel
        &&& (if rl.contains(sel) {
            &&& post.selection.idx < rl.len()
            &&& rl[post.selection.idx as int] == sel
            &&& forall|j: int| post.selection.idx < j < rl.len() ==> rl[j] != sel
        } else {
            post.selection.idx == pre.selection.idx
        })
        &&& post.draw_info matches Some(info) && {
            &&& info.entries@.len() == rl.len()
            &&& forall|i: int| 0 <= i < rl.len() ==> {
                let e = #[trigger] info.entries@[i];
                &&& e.id == rl[i]
                &&& e.look == look_of(tree.node(rl[i]))
                &&& e.selected == (rl[i] == sel)
                &&& e.indent == indent_of(tree.node(rl[i]).depth, rel)
            }
            &&& info.breadcrumbs@.len() == tree.ancestry(pre.scope).len()
            &&& forall|i: int| 0 <= i < info.breadcrumbs@.len() ==> #[trigger] info.breadcrumbs@[i] == crumb_of(
                tree.node(tree.ancestry(pre.scope)[tree.ancestry(pre.scope).len() - 1 - i]),
            )
        }
    }

    /// How a node looks in the explorer.
    fn look(d: &TarsNode) -> (r: EntryLook)
        requires
            !(d.kind is Root),
        ensures
            r == look_of(*d),
    {
        match &d.kind {
            TarsKind::Task(t) => EntryLook::Task {
                name: t.name.clone(),
                color: t.group.color.clone(),
                finished: t.finished_at.is_some(),
            },
            TarsKind::Group(g) => EntryLook::Group { name: g.name.clone(), color: g.color.clone() },
            TarsKind::Root => EntryLook::Group { name: String::new(), color: String::new() },
        }
    }

    /// Recomputes what the explorer draws: the breadcrumbs of the scope, the
    /// listed nodes and the selection among them.
    pub fn calculate_draw_info(&mut self, tree: &TarsTree)
        requires
            old(self).drawable(tree),
        ensures
            State::redrawn(old(self), final(self), tree),
    {
        let ghost pre = *self;
        let ancestors = tree.ancestor_ids(&self.scope);
        proof {
            tree.lemma_ancestry(self.scope);
        }
        let ghost anc = ancestors@;
        let mut breadcrumbs: Vec<Crumb> = Vec::new();
        let na = ancestors.len();
        let mut i: usize = na;
        while i > 0
            invariant
                tree.wf(),
                na == anc.len(),
                anc == ancestors@,
                anc == tree.ancestry(pre.scope),
                forall|j: int| 0 <= j < anc.len() ==> #[trigger] tree.has(anc[j]) && !(tree.node(anc[j]).kind is Task),
                0 <= i <= na,
                breadcrumbs@.len() == na - i,
                forall|j: int| 0 <= j < breadcrumbs@.len() ==> #[trigger] breadcrumbs@[j] == crumb_of(tree.node(anc[na - 1 - j])),
            decreases i,
        {
            i = i - 1;
            let a = &ancestors[i];
            proof {
                assert(tree.has(anc[i as int]));
            }
            let crumb = match &tree.data(a).kind {
                TarsKind::Group(g) => Crumb::Group { name: g.name.clone(), color: g.color.clone() },
                _ => Crumb::Home,
            };
            breadcrumbs.push(crumb);
        }
        let rl = generate_render_list(tree, &self.scope, self.show_completed);
        proof {
            lemma_listing_valid(tree, self.scope, self.show_completed);
            assert(rl@ == render_list(tree, pre.scope, pre.show_completed));
            assert forall|j: int| 0 <= j < rl@.len() implies #[trigger] tree.has(rl@[j]) && listed(tree, rl@[j], pre.show_completed)
                && tree.subtree(pre.scope).contains(rl@[j]) by {
                assert(tree.has(render_list(tree, pre.scope, pre.show_completed)[j]));
            }
        }
        if !tree.contains(&self.selection.id) {
            let i = if self.selection.idx >= 1 { self.selection.idx - 1 } else { 0 };
            let fallback = if i < rl.len() { rl[i].clone() } else { rl[rl.len() - 1].clone() };
            self.selection.id = fallback;
        }
        let ghost sel = self.selection.id;
        proof {
            assert(sel == pre.revised_selection(tree));
        }
        let rel_depth = tree.data(&self.scope).depth;
        let mut entries: Vec<DrawEntry> = Vec::new();
        let n = rl.len();
        let mut i: usize = 0;
        while i < n
            invariant
                tree.wf(),
                n == rl@.len(),
                rl@ == pre.listing(tree),
                pre.depths_fit(tree),
                forall|j: int| 0 <= j < rl@.len() ==> #[trigger] tree.has(rl@[j]) && listed(tree, rl@[j], pre.show_completed)
                    && tree.subtree(pre.scope).contains(rl@[j]),
                self.selection.id == sel,
                self.scope == pre.scope,
                self.show_completed == pre.show_completed,
                self.active == pre.active,
                self.scroll_y == pre.scroll_y,
                self.frame_height == pre.frame_height,
                rel_depth == tree.node(pre.scope).depth,
                0 <= i <= n,
                entries@.len() == i,
                forall|j: int| 0 <= j < i ==> {
                    let e = #[trigger] entries@[j];
                    &&& e.id == rl@[j]
                    &&& e.look == look_of(tree.node(rl@[j]))
                    &&& e.selected == (rl@[j] == sel)
                    &&& e.indent == indent_of(tree.node(rl@[j]).depth, rel_depth)
                },
                (exists|j: int| 0 <= j < i && rl@[j] == sel) ==> {
                    &&& self.selection.idx < i
                    &&& rl@[self.selection.idx as int] == sel
                    &&& forall|j: int| self.selection.idx < j < i ==> rl@[j] != sel
                },
                !(exists|j: int| 0 <= j < i && rl@[j] == sel) ==> self.selection.idx == pre.selection.idx,
            decreases n - i,
        {
            let k = &rl[i];
            proof {
                assert(tree.has(rl@[i as int]) && listed(tree, rl@[i as int], pre.show_completed));
                let m = choose|m: int| 0 <= m < tree.subtree(pre.scope).len() && tree.subtree(pre.scope)[m] == rl@[i as int];
                assert(tree.node(tree.subtree(pre.scope)[m]).depth * 2 <= u16::MAX);
            }
            let selected = node_id_eq(&self.selection.id, k);
            if selected {
                self.selection.idx = i;
            }
            let d = tree.data(k);
            let doubled = d.depth * 2;
            let indent = if doubled >= rel_depth { doubled - rel_depth } else { 0 };
            entries.push(DrawEntry { id: k.clone(), look: State::look(d), selected, indent });
            proof {
                if exists|j: int| 0 <= j < i + 1 && rl@[j] == sel {
                    if !selected {
                        let j = choose|j: int| 0 <= j < i + 1 && rl@[j] == sel;
                        assert(j < i);
                    }
                }
            }
            i = i + 1;
        }
        proof {
            if rl@.contains(sel) {
                let j = choose|j: int| 0 <= j < rl@.len() && rl@[j] == sel;
                assert(exists|j: int| 0 <= j < n && rl@[j] == sel);
            }
        }
        self.draw_info = Some(DrawInfo { entries, breadcrumbs });
    }

    /// A new explorer state over `tree`, drawn once.
    pub fn new(active: bool, scope: NodeId, selection: NodeId, tree: &TarsTree) -> (r: State)
        requires
            (State {
                active,
                show_completed: false,
                scope,
                selection: Selection { id: selection, idx: 0 },
                draw_info: None,
                scroll_y: 0,
                frame_height: 80,
            }).drawable(tree),
        ensures
            State::redrawn(
                &State {
                    active,
                    show_completed: false,
                    scope,
                    selection: Selection { id: selection, idx: 0 },
                    draw_info: None,
                    scroll_y: 0,
                    frame_height: 80,
                },
                &r,
                tree,
            ),
    {
        let mut state = State {
            active,
            show_completed: false,
            scope,
            selection: Selection { id: selection, idx: 0 },
            draw_info: None,
            scroll_y: 0,
            frame_height: 80,
        };
        state.calculate_draw_info(tree);
        state
    }

    /// The scope of the explorer.
    pub fn get_scope(&self) -> (r: &NodeId)
        ensures
            *r == self.scope,
    {
        &self.scope
    }

    /// The selected node.
    pub fn get_selected_id(&self) -> (r: &NodeId)
        ensures
            *r == self.selection.id,
    {
        &self.selection.id
    }

    /// The position of the selected node in the list.
    pub fn get_selected_idx(&self) -> (r: &usize)
        ensures
            *r == self.selection.idx,
    {
        &self.selection.idx
    }

    /// What the explorer draws.
    pub fn get_draw_info(&self) -> (r: &DrawInfo)
        requires
            self.draw_info is Some,
        ensures
            *r == self.draw_info.unwrap(),
    {
        self.draw_info.as_ref().unwrap()
    }

    /// Changes the scope and redraws.
    pub fn set_scope(&mut self, tree: &TarsTree, scope: NodeId)
        requires
            (State { scope, ..*old(self) }).drawable(tree),
        ensures
            State::redrawn(&State { scope, ..*old(self) }, final(self), tree),
    {
        self.scope = scope;
        self.calculate_draw_info(tree);
    }

    /// Changes the selection and redraws.
    pub fn set_selection(&mut self, tree: &TarsTree, selection: NodeId)
        requires
            (State { selection: Selection { id: selection, idx: old(self).selection.idx }, ..*old(self) }).drawable(tree),
        ensures
            State::redrawn(&State { selection: Selection { id: selection, idx: old(self).selection.idx }, ..*old(self) }, final(self), tree),
    {
        self.selection.id = selection;
        self.calculate_draw_info(tree);
    }
}


/// The unfinished task found among the children `cs`, front to back: the
/// first unfinished task, unless a group comes before it, in which case the
/// search goes into that group (`f` levels down at most).
pub open spec fn down_search_list(s: Map<NodeId, Option<Slot>>, cs: Seq<NodeId>, f: nat) -> Option<NodeId>
    decreases f, cs.len() + 1,
{
    if cs.len() == 0 {
        None
    } else {
        match data_of(s, cs[0]).kind {
            TarsKind::Task(t) => if t.finished_at is None {
                Some(cs[0])
            } else {
                down_search_list(s, cs.drop_first(), f)
            },
            TarsKind::Group(_) => down_search(s, cs[0], f),
            TarsKind::Root => None,
        }
    }
}

/// The unfinished task found below the group `g` (nothing for a task or the
/// root).
pub open spec fn down_search(s: Map<NodeId, Option<Slot>>, g: NodeId, f: nat) -> Option<NodeId>
    decreases f, 0nat,
{
    if f == 0 {
        None
    } else {
        match data_of(s, g).kind {
            TarsKind::Group(_) => down_search_list(s, children_of(s, g), (f - 1) as nat),
            _ => None,
        }
    }
}

/// The unfinished task found below the node `g` of the tree.
pub open spec fn found_below(tree: &TarsTree, g: NodeId) -> Option<NodeId> {
    down_search(tree.slots(), g, (tree.bound() - tree.heights()[g]) as nat)
}

/// The first unfinished task among `cs`.
pub open spec fn first_open_task(s: Map<NodeId, Option<Slot>>, cs: Seq<NodeId>) -> Option<NodeId>
    decreases cs.len(),
{
    if cs.len() == 0 {
        None
    } else {
        match data_of(s, cs[0]).kind {
            TarsKind::Task(t) => if t.finished_at is None {
                Some(cs[0])
            } else {
                first_open_task(s, cs.drop_first())
            },
            _ => first_open_task(s, cs.drop_first()),
        }
    }
}

/// The unfinished task found above the node `n`: for a group, the first
/// unfinished task of the group its data names as parent, else the search
/// goes on from that group's parent node; nothing for the root or a group
/// without parent. `None` when `f` steps do not suffice, and when the search
/// reaches a task, where it has no way to go on.
pub open spec fn up_search(tree: &TarsTree, n: NodeId, f: nat) -> Option<Option<NodeId>>
    decreases f,
{
    if f == 0 {
        None
    } else {
        match tree.node(n).kind {
            TarsKind::Group(g) => match g.parent_id {
                None => Some(None),
                Some(pid) => if !tree.index().contains_key(pid) {
                    Some(None)
                } else {
                    let p = tree.index()[pid];
                    match first_open_task(tree.slots(), tree.children(p)) {
                        Some(t) => Some(Some(t)),
                        None => match tree.parent(p) {
                            Some(pp) => up_search(tree, pp, (f - 1) as nat),
                            None => Some(None),
                        },
                    }
                },
            },
            TarsKind::Root => Some(None),
            TarsKind::Task(_) => None,
        }
    }
}

/// The search above `n` ends.
pub open spec fn up_search_ends(tree: &TarsTree, n: NodeId) -> bool {
    exists|f: nat| #[trigger] up_search(tree, n, f) is Some
}

/// The unfinished task found above `n`, when the search ends.
pub open spec fn found_above(tree: &TarsTree, n: NodeId) -> Option<NodeId> {
    up_search(tree, n, choose|f: nat| #[trigger] up_search(tree, n, f) is Some).unwrap()
}

/// Two searches that both end agree.
pub proof fn lemma_up_search_fuel(tree: &TarsTree, n: NodeId, f1: nat, f2: nat)
    requires
        up_search(tree, n, f1) is Some,
        up_search(tree, n, f2) is Some,
    ensures
        up_search(tree, n, f1) == up_search(tree, n, f2),
    decreases f1,
{
    match tree.node(n).kind {
        TarsKind::Group(g) => match g.parent_id {
            Some(pid) => if tree.index().contains_key(pid) {
                let p = tree.index()[pid];
                if first_open_task(tree.slots(), tree.children(p)) is None {
                    if let Some(pp) = tree.parent(p) {
                        lemma_up_search_fuel(tree, pp, (f1 - 1) as nat, (f2 - 1) as nat);
                    }
                }
            },
            None => {},
        },
        _ => {},
    }
}

/// The unfinished task found below the node `g`: the first unfinished task
/// among its children, unless a group comes before it, in which case the
/// search goes into that group.
pub fn group_child_has_unfinished_task(tree: &TarsTree, g: &NodeId) -> (r: Option<NodeId>)
    requires
        tree.wf(),
        tree.has(*g),
    ensures
        r == found_below(tree, *g),
    decreases tree.bound() - tree.heights()[*g],
{
    let ghost s = tree.slots();
    let ghost f = (tree.bound() - tree.heights()[*g]) as nat;
    proof {
        assert(tree.heights()[*g] < tree.bound());
    }
    match tree.data(g).kind {
        TarsKind::Group(_) => {},
        _ => {
            return None;
        },
    }
    let children = tree.children_ids(g);
    let ghost cs = children@;
    let n = children.len();
    let mut id: Option<NodeId> = None;
    let mut i: usize = n;
    proof {
        assert(cs.subrange(n as int, n as int) =~= Seq::<NodeId>::empty());
    }
    while i > 0
        invariant
            tree.wf(),
            tree.has(*g),
            s == tree.slots(),
            f == (tree.bound() - tree.heights()[*g]) as nat,
            f >= 1,
            n == cs.len(),
            cs == children@,
            cs == children_of(s, *g),
            0 <= i <= n,
            id == down_search_list(s, cs.subrange(i as int, n as int), (f - 1) as nat),
        decreases i,
    {
        i = i - 1;
        let c = &children[i];
        proof {
            assert(tree.has(*c) && tree.parent(*c) == Some(*g));
            assert(cs.subrange(i as int, n as int).drop_first() =~= cs.subrange(i + 1, n as int));
            assert(cs.subrange(i as int, n as int)[0] == *c);
        }
        match &tree.data(c).kind {
            TarsKind::Task(t) => {
                if t.finished_at.is_none() {
                    id = Some(c.clone());
                }
            },
            TarsKind::Group(_) => {
                id = group_child_has_unfinished_task(tree, c);
            },
            TarsKind::Root => {
                proof {
                    assert(*c != tree.root());
                }
                return None;
            },
        }
    }
    proof {
        assert(cs.subrange(0, n as int) =~= cs);
    }
    id
}

/// The first unfinished task among the children of `p`.
fn first_unfinished_child(tree: &TarsTree, p: &NodeId) -> (r: Option<NodeId>)
    requires
        tree.wf(),
        tree.has(*p),
    ensures
        r == first_open_task(tree.slots(), tree.children(*p)),
{
    let ghost s = tree.slots();
    let children = tree.children_ids(p);
    let ghost cs = children@;
    let n = children.len();
    let mut id: Option<NodeId> = None;
    let mut i: usize = n;
    proof {
        assert(cs.subrange(n as int, n as int) =~= Seq::<NodeId>::empty());
    }
    while i > 0
        invariant
            tree.wf(),
            tree.has(*p),
            s == tree.slots(),
            n == cs.len(),
            cs == children@,
            cs == children_of(s, *p),
            0 <= i <= n,
            id == first_open_task(s, cs.subrange(i as int, n as int)),
        decreases i,
    {
        i = i - 1;
        let c = &children[i];
        proof {
            assert(tree.has(*c));
            assert(cs.subrange(i as int, n as int).drop_first() =~= cs.subrange(i + 1, n as int));
            assert(cs.subrange(i as int, n as int)[0] == *c);
        }
        match &tree.data(c).kind {
            TarsKind::Task(t) => {
                if t.finished_at.is_none() {
                    id = Some(c.clone());
                }
            },
            _ => {},
        }
    }
    proof {
        assert(cs.subrange(0, n as int) =~= cs);
    }
    id
}

/// The unfinished task found above the node `n`: for a group, the first
/// unfinished task of the group its data names as parent, else the search
/// goes on from that group's parent node.
pub fn group_parent_has_unfinished_task(tree: &TarsTree, n: &NodeId, Ghost(f): Ghost<nat>) -> (r: Option<NodeId>)
    requires
        tree.wf(),
        tree.has(*n),
        up_search(tree, *n, f) is Some,
    ensures
        r == up_search(tree, *n, f).unwrap(),
    decreases f,
{
    match &tree.data(n).kind {
        TarsKind::Group(g) => {
            let parent_id = match g.parent_id {
                Some(x) => x,
                None => {
                    return None;
                },
            };
            let parent_node = match tree.translate_id_to_node_id(&parent_id) {
                Some(k) => k,
                None => {
                    return None;
                },
            };
            proof {
                assert(tree.has(parent_node));
            }
            let id = first_unfinished_child(tree, &parent_node);
            match (&id, tree.parent_id(&parent_node)) {
                (Some(_), _) => id,
                (None, Some(pp)) => {
                    proof {
                        assert(tree.has(pp));
                        assert(tree.children(pp).contains(parent_node));
                    }
                    group_parent_has_unfinished_task(tree, &pp, Ghost((f - 1) as nat))
                },
                _ => None,
            }
        },
        _ => None,
    }
}


/// What the downward search finds is a node of the tree.
pub proof fn lemma_down_valid(tree: &TarsTree, g: NodeId, f: nat)
    requires
        tree.wf(),
        tree.has(g),
    ensures
        down_search(tree.slots(), g, f) matches Some(t) ==> tree.has(t),
    decreases f, 0nat,
{
    if f > 0 {
        if tree.node(g).kind is Group {
            let cs = tree.children(g);
            assert forall|i: int| 0 <= i < cs.len() implies #[trigger] tree.has(cs[i]) by {
                assert(tree.has(children_of(tree.slots(), g)[i]));
            }
            lemma_down_list_valid(tree, cs, (f - 1) as nat);
        }
    }
}

proof fn lemma_down_list_valid(tree: &TarsTree, cs: Seq<NodeId>, f: nat)
    requires
        tree.wf(),
        forall|i: int| 0 <= i < cs.len() ==> #[trigger] tree.has(cs[i]),
    ensures
        down_search_list(tree.slots(), cs, f) matches Some(t) ==> tree.has(t),
    decreases f, cs.len() + 1,
{
    if cs.len() > 0 {
        assert(tree.has(cs[0]));
        lemma_down_valid(tree, cs[0], f);
        assert forall|i: int| 0 <= i < cs.drop_first().len() implies #[trigger] tree.has(cs.drop_first()[i]) by {
            assert(tree.has(cs[i + 1]));
        }
        lemma_down_list_valid(tree, cs.drop_first(), f);
    }
}

proof fn lemma_first_open_valid(tree: &TarsTree, cs: Seq<NodeId>)
    requires
        tree.wf(),
        forall|i: int| 0 <= i < cs.len() ==> #[trigger] tree.has(cs[i]),
    ensures
        first_open_task(tree.slots(), cs) matches Some(t) ==> tree.has(t),
    decreases cs.len(),
{
    if cs.len() > 0 {
        assert(tree.has(cs[0]));
        assert forall|i: int| 0 <= i < cs.drop_first().len() implies #[trigger] tree.has(cs.drop_first()[i]) by {
            assert(tree.has(cs[i + 1]));
        }
        lemma_first_open_valid(tree, cs.drop_first());
    }
}

/// What the upward search finds is a node of the tree.
pub proof fn lemma_up_valid(tree: &TarsTree, n: NodeId, f: nat)
    requires
        tree.wf(),
        tree.has(n),
        up_search(tree, n, f) is Some,
    ensures
        up_search(tree, n, f).unwrap() matches Some(t) ==> tree.has(t),
    decreases f,
{
    if let TarsKind::Group(g) = tree.node(n).kind {
        if let Some(pid) = g.parent_id {
            if tree.index().contains_key(pid) {
                let p = tree.index()[pid];
                let cs = tree.children(p);
                assert forall|i: int| 0 <= i < cs.len() implies #[trigger] tree.has(cs[i]) by {
                    assert(tree.has(children_of(tree.slots(), p)[i]));
                }
                lemma_first_open_valid(tree, cs);
                if first_open_task(tree.slots(), cs) is None {
                    if let Some(pp) = tree.parent(p) {
                        lemma_up_valid(tree, pp, (f - 1) as nat);
                    }
                }
            }
        }
    }
}

/// The task toggling moves the selection to is a node of the tree.
pub proof fn lemma_toggle_target_valid(tree: &TarsTree, p: NodeId)
    requires
        tree.wf(),
        tree.has(p),
        found_below(tree, p) is None ==> up_search_ends(tree, p),
    ensures
        toggle_target(tree, p) matches Some(t) ==> tree.has(t),
{
    lemma_down_valid(tree, p, (tree.bound() - tree.heights()[p]) as nat);
    if found_below(tree, p) is None {
        let f = choose|f: nat| #[trigger] up_search(tree, p, f) is Some;
        lemma_up_valid(tree, p, f);
    }
}

/// The scroll offset that brings the entry at `idx` into a frame of
/// `height` rows: `idx - height`, or zero, cut to 16 bits.
pub open spec fn scroll_for(idx: usize, height: u16) -> u16 {
    (if idx >= height { idx - height } else { 0int }) as u16
}

/// The task the selection moves to when finished items are toggled: the one
/// found below the node `p`, else the one found above it.
pub open spec fn toggle_target(tree: &TarsTree, p: NodeId) -> Option<NodeId> {
    match found_below(tree, p) {
        Some(t) => Some(t),
        None => found_above(tree, p),
    }
}

impl State {
    /// Toggling can be done: the selection is in the tree, and the node its
    /// data names as parent, if any, is a group or the root of the tree,
    /// above which the search ends.
    pub open spec fn can_toggle(&self, tree: &TarsTree) -> bool {
        &&& self.drawable(tree)
        &&& tree.has(self.selection.id)
        &&& match tree.node(self.selection.id).parent {
            None => true,
            Some(p) => tree.has(p) && !(tree.node(p).kind is Task) && (found_below(tree, p) is None
                ==> up_search_ends(tree, p)),
        }
    }

    /// `post` is `pre` after toggling whether finished items are shown.
    pub open spec fn toggled(pre: &State, post: &State, tree: &TarsTree) -> bool {
        let flipped = State { show_completed: !pre.show_completed, ..*pre };
        match tree.node(pre.selection.id).parent {
            None => State::redrawn(&flipped, post, tree),
            Some(p) => exists|mid: State|
                #![trigger mid.selection]
                (match toggle_target(tree, p) {
                    Some(n) => State::redrawn(
                        &State { selection: Selection { id: n, idx: flipped.selection.idx }, ..flipped },
                        &mid,
                        tree,
                    ),
                    None => mid == flipped,
                }) && State::redrawn(
                    &State { scroll_y: scroll_for(mid.selection.idx, mid.frame_height), ..mid },
                    post,
                    tree,
                ),
        }
    }

    /// Shows or hides finished items; when the selected node has a parent,
    /// the selection moves to an unfinished task near it, and the list
    /// scrolls to the selection.
    pub fn toggle_show_finished(&mut self, tree: &TarsTree)
        requires
            old(self).can_toggle(tree),
        ensures
            State::toggled(old(self), final(self), tree),
    {
        let ghost pre = *self;
        self.show_completed = !self.show_completed;
        let ghost flipped = *self;
        let parent = clone_opt_node_id(&tree.data(&self.selection.id).parent);
        match parent {
            None => {
                self.calculate_draw_info(tree);
            },
            Some(p) => {
                let found = match group_child_has_unfinished_task(tree, &p) {
                    Some(t) => Some(t),
                    None => {
                        let ghost f = choose|f: nat| #[trigger] up_search(tree, p, f) is Some;
                        group_parent_has_unfinished_task(tree, &p, Ghost(f))
                    },
                };
                proof {
                    assert(found == toggle_target(tree, p));
                }
                match found {
                    Some(n) => {
                        proof {
                            lemma_toggle_target_valid(tree, p);
                        }
                        self.set_selection(tree, n);
                    },
                    None => {},
                }
                let ghost mid = *self;
                let sel_idx = self.selection.idx;
                let height = self.frame_height as usize;
                let offset = if sel_idx >= height { sel_idx - height } else { 0 };
                self.scroll_y = offset as u16;
                self.calculate_draw_info(tree);
                proof {
                    assert(State::redrawn(&State { scroll_y: scroll_for(mid.selection.idx, mid.frame_height), ..mid }, self, tree));
                }
            },
        }
    }
}

} // verus!
