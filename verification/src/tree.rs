//! The tree of groups and tasks under a single root, held in an `id_tree`
//! tree, with a map from daemon ids to the nodes that hold them.
use vstd::prelude::*;
use crate::types::{Diff, DiffInner, Group, Id, Task};
use id_tree::{InsertBehavior, MoveBehavior, Node, NodeId, NodeIdError, RemoveBehavior, Tree};
use std::collections::HashMap;
use crate::util::lemma_filter_take_step;

verus! {

/// `id_tree::NodeId`, the id of a node: opaque; ids are compared by `==`.
#[verifier::external_type_specification]
#[verifier::external_body]
pub struct ExNodeId(id_tree::NodeId);

/// `id_tree::NodeIdError`, the error of a tree operation on a bad id: opaque.
#[verifier::external_type_specification]
#[verifier::external_body]
pub struct ExNodeIdError(id_tree::NodeIdError);

/// `id_tree::Tree`: opaque; what it holds is named by `tree_slots` and
/// `tree_root`.
#[verifier::external_type_specification]
#[verifier::external_body]
#[verifier::reject_recursive_types(T)]
pub struct ExTree<T>(id_tree::Tree<T>);

/// What a node of the tree holds.
#[derive(Debug, Clone, PartialEq, Eq)]
pub enum TarsKind {
    Root,
    Task(Task),
    Group(Group),
}

impl TarsKind {
    /// The daemon id of the item, `None` for the root.
    pub open spec fn spec_id(&self) -> Option<Id> {
        match self {
            TarsKind::Root => None,
            TarsKind::Task(t) => Some(t.id),
            TarsKind::Group(g) => Some(g.id),
        }
    }

    /// The daemon id of the item, `None` for the root.
    pub fn id(&self) -> (r: Option<Id>)
        ensures
            r == self.spec_id(),
    {
        match self {
            TarsKind::Root => None,
            TarsKind::Task(t) => Some(t.id),
            TarsKind::Group(g) => Some(g.id),
        }
    }
}

/// The data of a node: the item, the node it was attached under and its depth.
#[derive(Debug, Clone, PartialEq, Eq)]
pub struct TarsNode {
    pub kind: TarsKind,
    pub parent: Option<NodeId>,
    pub depth: u16,
}

/// A slot of the tree: the data, the parent and the children of a node.
pub type Slot = (TarsNode, Option<NodeId>, Seq<NodeId>);

/// The slots of a tree, one for each node id the tree has handed out; the
/// slot of a removed node is `None`.
pub uninterp spec fn tree_slots(t: Tree<TarsNode>) -> Map<NodeId, Option<Slot>>;

/// The root of a tree.
pub uninterp spec fn tree_root(t: Tree<TarsNode>) -> Option<NodeId>;

/// `k` names a node that is in the tree.
pub open spec fn valid(s: Map<NodeId, Option<Slot>>, k: NodeId) -> bool {
    s.contains_key(k) && s[k] is Some
}

pub open spec fn data_of(s: Map<NodeId, Option<Slot>>, k: NodeId) -> TarsNode {
    s[k].unwrap().0
}

pub open spec fn parent_of(s: Map<NodeId, Option<Slot>>, k: NodeId) -> Option<NodeId> {
    s[k].unwrap().1
}

pub open spec fn children_of(s: Map<NodeId, Option<Slot>>, k: NodeId) -> Seq<NodeId> {
    s[k].unwrap().2
}

/// `k` is an id the tree has not handed out, or one of a removed node.
pub open spec fn fresh(s: Map<NodeId, Option<Slot>>, k: NodeId) -> bool {
    !s.contains_key(k) || s[k] is None
}

/// Keeps the ids other than `k`.
pub open spec fn other_than(k: NodeId) -> spec_fn(NodeId) -> bool {
    |c: NodeId| c != k
}

/// The node `n` steps up the parent chain from `k` (`k` itself for `n == 0`).
pub open spec fn anc(s: Map<NodeId, Option<Slot>>, k: NodeId, n: nat) -> Option<NodeId>
    decreases n,
{
    if n == 0 {
        Some(k)
    } else if !valid(s, k) {
        None
    } else {
        match parent_of(s, k) {
            Some(p) => anc(s, p, (n - 1) as nat),
            None => None,
        }
    }
}

/// `a` is `k` or one of its ancestors.
pub open spec fn is_ancestor_or_self(s: Map<NodeId, Option<Slot>>, a: NodeId, k: NodeId) -> bool {
    exists|n: nat| #[trigger] anc(s, k, n) == Some(a)
}

/// Parents and children agree, and every parent chain ends.
pub open spec fn consistent(s: Map<NodeId, Option<Slot>>) -> bool {
    &&& forall|k: NodeId| #[trigger] valid(s, k) ==> match parent_of(s, k) {
        Some(p) => valid(s, p) && children_of(s, p).contains(k),
        None => true,
    }
    &&& forall|k: NodeId, i: int|
        #![trigger children_of(s, k)[i]]
        valid(s, k) && 0 <= i < children_of(s, k).len() ==> valid(s, children_of(s, k)[i])
            && parent_of(s, children_of(s, k)[i]) == Some(k)
    &&& forall|k: NodeId| #[trigger] valid(s, k) ==> children_of(s, k).no_duplicates()
    &&& forall|k: NodeId| #[trigger] valid(s, k) ==> exists|n: nat| #[trigger] anc(s, k, n) is None
}

/// The pre-order of the subtree under `n`, if `f` levels are enough to reach
/// all of it.
pub open spec fn preorder(s: Map<NodeId, Option<Slot>>, n: NodeId, f: nat) -> Option<Seq<NodeId>>
    decreases f, 0nat,
{
    if f == 0 {
        None
    } else {
        match preorder_list(s, children_of(s, n), (f - 1) as nat) {
            Some(rest) => Some(seq![n] + rest),
            None => None,
        }
    }
}

/// The pre-orders of the subtrees under `cs`, one after another.
pub open spec fn preorder_list(s: Map<NodeId, Option<Slot>>, cs: Seq<NodeId>, f: nat) -> Option<Seq<NodeId>>
    decreases f, cs.len() + 1,
{
    if cs.len() == 0 {
        Some(Seq::empty())
    } else {
        match (preorder(s, cs[0], f), preorder_list(s, cs.drop_first(), f)) {
            (Some(a), Some(b)) => Some(a + b),
            _ => None,
        }
    }
}

/// The ancestors of `k`, parent first, if `f` steps are enough to reach the top.
pub open spec fn ancestors(s: Map<NodeId, Option<Slot>>, k: NodeId, f: nat) -> Option<Seq<NodeId>>
    decreases f,
{
    if f == 0 {
        None
    } else {
        match parent_of(s, k) {
            None => Some(Seq::empty()),
            Some(p) => match ancestors(s, p, (f - 1) as nat) {
                Some(rest) => Some(seq![p] + rest),
                None => None,
            },
        }
    }
}

/// `Tree::new`: a tree with no node.
#[verifier::external_body]
fn tree_new() -> (r: Tree<TarsNode>)
    ensures
        tree_slots(r) =~= Map::empty(),
        tree_root(r) is None,
{
    Tree::new()
}

/// `Tree::insert` with `InsertBehavior::AsRoot` on a tree without a root: the
/// node is stored in a fresh slot, without parent or children, and becomes the
/// root; the call does not fail.
#[verifier::external_body]
fn tree_insert_root(t: &mut Tree<TarsNode>, data: TarsNode) -> (r: Result<NodeId, NodeIdError>)
    requires
        tree_root(*old(t)) is None,
    ensures
        r matches Ok(id) && fresh(tree_slots(*old(t)), id) && tree_slots(*final(t)) == tree_slots(
            *old(t),
        ).insert(id, Some((data, None, Seq::empty()))) && tree_root(*final(t)) == Some(id),
{
    t.insert(Node::new(data), InsertBehavior::AsRoot)
}

/// `Tree::insert` with `InsertBehavior::UnderNode`: the node is stored in a
/// fresh slot with `parent` as its parent, and appended to the children of
/// `parent`; the call does not fail for a node of the tree.
#[verifier::external_body]
fn tree_insert_under(t: &mut Tree<TarsNode>, data: TarsNode, parent: &NodeId) -> (r: Result<NodeId, NodeIdError>)
    requires
        valid(tree_slots(*old(t)), *parent),
    ensures
        r matches Ok(id) && fresh(tree_slots(*old(t)), id) && tree_slots(*final(t)) == tree_slots(
            *old(t),
        ).insert(
            *parent,
            Some(
                (
                    data_of(tree_slots(*old(t)), *parent),
                    parent_of(tree_slots(*old(t)), *parent),
                    children_of(tree_slots(*old(t)), *parent).push(id),
                ),
            ),
        ).insert(id, Some((data, Some(*parent), Seq::empty()))) && tree_root(*final(t)) == tree_root(
            *old(t),
        ),
{
    t.insert(Node::new(data), InsertBehavior::UnderNode(parent))
}

/// `Tree::get` followed by `Node::data`: the data of a node of the tree.
#[verifier::external_body]
fn tree_data<'a>(t: &'a Tree<TarsNode>, id: &NodeId) -> (r: &'a TarsNode)
    requires
        valid(tree_slots(*t), *id),
    ensures
        *r == data_of(tree_slots(*t), *id),
{
    t.get(id).unwrap().data()
}

/// `Tree::get` followed by `Node::parent`: the parent of a node of the tree.
#[verifier::external_body]
fn tree_parent(t: &Tree<TarsNode>, id: &NodeId) -> (r: Option<NodeId>)
    requires
        valid(tree_slots(*t), *id),
    ensures
        r == parent_of(tree_slots(*t), *id),
{
    t.get(id).unwrap().parent().cloned()
}

/// `Tree::get` followed by `Node::children`: the children of a node of the
/// tree, in order.
#[verifier::external_body]
fn tree_children(t: &Tree<TarsNode>, id: &NodeId) -> (r: Vec<NodeId>)
    requires
        valid(tree_slots(*t), *id),
    ensures
        r@ == children_of(tree_slots(*t), *id),
{
    t.get(id).unwrap().children().clone()
}

/// `Tree::get` on any node id: `Ok` exactly when the node is still in the
/// tree. An id carries the id of the tree that handed it out: one of another
/// tree gives an error, and one of this tree indexes its node vector, which
/// never shrinks, so the call does not panic.
#[verifier::external_body]
fn tree_contains(t: &Tree<TarsNode>, id: &NodeId) -> (r: bool)
    ensures
        r == valid(tree_slots(*t), *id),
{
    t.get(id).is_ok()
}

/// `Tree::get_mut` followed by `Node::replace_data`: the data of a node is
/// replaced, nothing else changes.
#[verifier::external_body]
fn tree_set_data(t: &mut Tree<TarsNode>, id: &NodeId, data: TarsNode)
    requires
        valid(tree_slots(*old(t)), *id),
    ensures
        tree_slots(*final(t)) == tree_slots(*old(t)).insert(
            *id,
            Some((data, parent_of(tree_slots(*old(t)), *id), children_of(tree_slots(*old(t)), *id))),
        ),
        tree_root(*final(t)) == tree_root(*old(t)),
{
    t.get_mut(id).unwrap().replace_data(data);
}

/// `Tree::remove_node` with `RemoveBehavior::DropChildren` on a node without
/// children that is not the root: its slot is emptied and it leaves the
/// children of its parent.
#[verifier::external_body]
fn tree_remove_leaf(t: &mut Tree<TarsNode>, id: NodeId)
    requires
        valid(tree_slots(*old(t)), id),
        children_of(tree_slots(*old(t)), id).len() == 0,
        tree_root(*old(t)) != Some(id),
        parent_of(tree_slots(*old(t)), id) matches Some(p) && valid(tree_slots(*old(t)), p) && p != id,
    ensures
        ({
            let s = tree_slots(*old(t));
            let p = parent_of(s, id).unwrap();
            tree_slots(*final(t)) == s.insert(
                p,
                Some((data_of(s, p), parent_of(s, p), children_of(s, p).filter(other_than(id)))),
            ).insert(id, None)
        }),
        tree_root(*final(t)) == tree_root(*old(t)),
{
    let _ = t.remove_node(id, RemoveBehavior::DropChildren);
}

/// `Tree::move_node` with `MoveBehavior::ToParent`, where `id` is not the
/// root and not `new_parent`. When `id` is not above `new_parent`, `id`
/// leaves the children of its old parent, is appended to those of
/// `new_parent` and gets it as its parent. When it is above, the child of
/// `id` on the way to `new_parent` first takes the place of `id` at the end
/// of the children of `id`'s parent (see `moved_down`).
#[verifier::external_body]
fn tree_move(t: &mut Tree<TarsNode>, id: &NodeId, new_parent: &NodeId)
    requires
        consistent(tree_slots(*old(t))),
        valid(tree_slots(*old(t)), *id),
        valid(tree_slots(*old(t)), *new_parent),
        *id != *new_parent,
        tree_root(*old(t)) != Some(*id),
        parent_of(tree_slots(*old(t)), *id) is Some,
    ensures
        !is_ancestor_or_self(tree_slots(*old(t)), *id, *new_parent) ==> ({
            let s = tree_slots(*old(t));
            let op = parent_of(s, *id).unwrap();
            let s1 = s.insert(
                op,
                Some((data_of(s, op), parent_of(s, op), children_of(s, op).filter(other_than(*id)))),
            );
            let s2 = s1.insert(
                *new_parent,
                Some((data_of(s1, *new_parent), parent_of(s1, *new_parent), children_of(s1, *new_parent).push(*id))),
            );
            tree_slots(*final(t)) == s2.insert(
                *id,
                Some((data_of(s, *id), Some(*new_parent), children_of(s, *id))),
            )
        }),
        forall|f: nat| #[trigger] between(tree_slots(*old(t)), *new_parent, *id, f) is Some ==> tree_slots(*final(t))
            == moved_down(tree_slots(*old(t)), *id, *new_parent, between(tree_slots(*old(t)), *new_parent, *id, f).unwrap()),
        tree_root(*final(t)) == tree_root(*old(t)),
{
    t.move_node(id, MoveBehavior::ToParent(new_parent)).unwrap();
}

/// `Tree::root_node_id`.
#[verifier::external_body]
fn tree_root_id(t: &Tree<TarsNode>) -> (r: Option<NodeId>)
    ensures
        r == tree_root(*t),
{
    t.root_node_id().cloned()
}

/// `Tree::traverse_pre_order_ids`, collected: the ids of the subtree under
/// `id` in pre-order.
#[verifier::external_body]
fn tree_pre_order(t: &Tree<TarsNode>, id: &NodeId) -> (r: Vec<NodeId>)
    requires
        consistent(tree_slots(*t)),
        valid(tree_slots(*t), *id),
    ensures
        forall|f: nat| #[trigger] preorder(tree_slots(*t), *id, f) is Some ==> r@ == preorder(
            tree_slots(*t),
            *id,
            f,
        ).unwrap(),
{
    t.traverse_pre_order_ids(id).unwrap().collect()
}

/// `Tree::ancestor_ids`, collected: the ancestors of `id`, parent first.
#[verifier::external_body]
fn tree_ancestor_ids(t: &Tree<TarsNode>, id: &NodeId) -> (r: Vec<NodeId>)
    requires
        consistent(tree_slots(*t)),
        valid(tree_slots(*t), *id),
    ensures
        forall|f: nat| #[trigger] ancestors(tree_slots(*t), *id, f) is Some ==> r@ == ancestors(
            tree_slots(*t),
            *id,
            f,
        ).unwrap(),
{
    t.ancestor_ids(id).unwrap().cloned().collect()
}

/// `NodeId`'s `==`: the two ids are the same.
#[verifier::external_body]
pub fn node_id_eq(a: &NodeId, b: &NodeId) -> (r: bool)
    ensures
        r == (*a == *b),
{
    a == b
}

/// `NodeId`'s `clone`, which the derived impl writes: the same id.
pub assume_specification[ <NodeId as Clone>::clone ](a: &NodeId) -> (r: NodeId)
    ensures
        r == *a,
;


/// The invariant of a tree of groups and tasks, over its slots `s`, its root
/// `r`, a height for each node `h` below `bound`, and its id index `ix`.
pub open spec fn tree_wf(
    s: Map<NodeId, Option<Slot>>,
    r: Option<NodeId>,
    h: Map<NodeId, nat>,
    bound: nat,
    ix: Map<Id, NodeId>,
) -> bool {
    &&& r is Some
    &&& valid(s, r.unwrap())
    &&& data_of(s, r.unwrap()).kind is Root
    &&& parent_of(s, r.unwrap()) is None
    &&& consistent(s)
    &&& forall|k: NodeId| #[trigger] valid(s, k) && k != r.unwrap() ==> parent_of(s, k) is Some && !(data_of(s, k).kind is Root)
    &&& forall|k: NodeId| #[trigger] valid(s, k) ==> h.contains_key(k) && h[k] < bound
    &&& h[r.unwrap()] == 0
    &&& forall|k: NodeId| #[trigger] valid(s, k) && parent_of(s, k) is Some ==> h[k] == h[parent_of(s, k).unwrap()] + 1
    &&& forall|x: Id| #[trigger] ix.contains_key(x) ==> valid(s, ix[x]) && data_of(s, ix[x]).kind.spec_id() == Some(x)
    &&& forall|k: NodeId| #[trigger] valid(s, k) && data_of(s, k).kind.spec_id() is Some ==> ix.contains_key(data_of(s, k).kind.spec_id().unwrap())
        && ix[data_of(s, k).kind.spec_id().unwrap()] == k
}

/// When every node sits one level below its parent, every parent chain ends.
pub proof fn lemma_chains_end(s: Map<NodeId, Option<Slot>>, h: Map<NodeId, nat>)
    requires
        forall|k: NodeId| #[trigger] valid(s, k) ==> h.contains_key(k) && match parent_of(s, k) {
            Some(p) => valid(s, p) && h[k] == h[p] + 1,
            None => true,
        },
    ensures
        forall|k: NodeId| #[trigger] valid(s, k) ==> exists|n: nat| #[trigger] anc(s, k, n) is None,
{
    assert forall|k: NodeId| #[trigger] valid(s, k) implies exists|n: nat| #[trigger] anc(s, k, n) is None by {
        lemma_chain_ends(s, h, k);
    }
}

proof fn lemma_chain_ends(s: Map<NodeId, Option<Slot>>, h: Map<NodeId, nat>, k: NodeId)
    requires
        forall|k: NodeId| #[trigger] valid(s, k) ==> h.contains_key(k) && match parent_of(s, k) {
            Some(p) => valid(s, p) && h[k] == h[p] + 1,
            None => true,
        },
        valid(s, k),
    ensures
        anc(s, k, h[k] + 1) is None,
    decreases h[k],
{
    match parent_of(s, k) {
        Some(p) => {
            lemma_chain_ends(s, h, p);
            assert(anc(s, k, h[k] + 1) == anc(s, p, h[p] + 1));
        },
        None => {
            assert(anc(s, k, h[k] + 1) is None);
        },
    }
}

/// Keeping some elements of a sequence without duplicates leaves none.
pub proof fn lemma_filter_no_dup(s: Seq<NodeId>, pred: spec_fn(NodeId) -> bool)
    requires
        s.no_duplicates(),
    ensures
        s.filter(pred).no_duplicates(),
    decreases s.len(),
{
    reveal(Seq::filter);
    if s.len() > 0 {
        let rest = s.drop_last();
        assert(rest.no_duplicates());
        lemma_filter_no_dup(rest, pred);
        if pred(s.last()) {
            if rest.filter(pred).contains(s.last()) {
                rest.lemma_filter_contains_rev(pred, s.last());
                let j = choose|j: int| 0 <= j < rest.len() && rest[j] == s.last();
                assert(s[j] == s[s.len() - 1]);
            }
            vstd::seq_lib::lemma_no_dup_in_concat(rest.filter(pred), seq![s.last()]);
            assert(rest.filter(pred) + seq![s.last()] =~= rest.filter(pred).push(s.last()));
        }
    }
}

/// `s` with `n` attached as the last child of `p`, holding `d`.
pub open spec fn with_child(s: Map<NodeId, Option<Slot>>, p: NodeId, n: NodeId, d: TarsNode) -> Map<NodeId, Option<Slot>> {
    s.insert(p, Some((data_of(s, p), parent_of(s, p), children_of(s, p).push(n)))).insert(
        n,
        Some((d, Some(p), Seq::empty())),
    )
}

/// `s` without the leaf `k`.
pub open spec fn without_leaf(s: Map<NodeId, Option<Slot>>, k: NodeId) -> Map<NodeId, Option<Slot>> {
    let p = parent_of(s, k).unwrap();
    s.insert(p, Some((data_of(s, p), parent_of(s, p), children_of(s, p).filter(other_than(k))))).insert(
        k,
        None,
    )
}

/// `s` with `k` moved to the end of the children of `np`.
pub open spec fn moved_under(s: Map<NodeId, Option<Slot>>, k: NodeId, np: NodeId) -> Map<NodeId, Option<Slot>> {
    let op = parent_of(s, k).unwrap();
    let s1 = s.insert(op, Some((data_of(s, op), parent_of(s, op), children_of(s, op).filter(other_than(k)))));
    let s2 = s1.insert(np, Some((data_of(s1, np), parent_of(s1, np), children_of(s1, np).push(k))));
    s2.insert(k, Some((data_of(s, k), Some(np), children_of(s, k))))
}

/// Going up from `lower`, the first node whose parent is `upper`, if
/// `f` steps reach it.
pub open spec fn between(s: Map<NodeId, Option<Slot>>, lower: NodeId, upper: NodeId, f: nat) -> Option<NodeId>
    decreases f,
{
    if f == 0 {
        None
    } else {
        match parent_of(s, lower) {
            Some(p) => if p == upper {
                Some(lower)
            } else {
                between(s, p, upper, (f - 1) as nat)
            },
            None => None,
        }
    }
}

/// The child of `k` on the way up from `np`, below `k`.
pub open spec fn lifted(s: Map<NodeId, Option<Slot>>, np: NodeId, k: NodeId) -> NodeId {
    between(s, np, k, choose|f: nat| #[trigger] between(s, np, k, f) is Some).unwrap()
}

/// `s` with `k` moved under `np`, a node below it: `c`, the child of `k`
/// on the way to `np`, takes the place of `k` at the end of the children
/// of `k`'s parent, and `k` goes to the end of the children of `np`.
pub open spec fn moved_down(s: Map<NodeId, Option<Slot>>, k: NodeId, np: NodeId, c: NodeId) -> Map<NodeId, Option<Slot>> {
    let op = parent_of(s, k).unwrap();
    let s1 = s.insert(op, Some((data_of(s, op), parent_of(s, op), children_of(s, op).filter(other_than(k)).push(c))));
    let s2 = s1.insert(c, Some((data_of(s1, c), Some(op), children_of(s1, c))));
    let s3 = s2.insert(k, Some((data_of(s2, k), parent_of(s2, k), children_of(s2, k).filter(other_than(c)))));
    let s4 = s3.insert(np, Some((data_of(s3, np), parent_of(s3, np), children_of(s3, np).push(k))));
    s4.insert(k, Some((data_of(s4, k), Some(np), children_of(s4, k))))
}

/// Two searches up the tree that both end agree.
pub proof fn lemma_between_fuel(s: Map<NodeId, Option<Slot>>, lower: NodeId, upper: NodeId, f1: nat, f2: nat)
    requires
        between(s, lower, upper, f1) is Some,
        between(s, lower, upper, f2) is Some,
    ensures
        between(s, lower, upper, f1) == between(s, lower, upper, f2),
    decreases f1,
{
    let p = parent_of(s, lower).unwrap();
    if p != upper {
        lemma_between_fuel(s, p, upper, (f1 - 1) as nat, (f2 - 1) as nat);
    }
}

/// When `k` is `n > 0` steps above `lower`, the search up from `lower`
/// finds a child of `k` that is `lower` or above it.
pub proof fn lemma_between_found(s: Map<NodeId, Option<Slot>>, lower: NodeId, k: NodeId, n: nat)
    requires
        n > 0,
        anc(s, lower, n) == Some(k),
    ensures
        between(s, lower, k, n) matches Some(c) && parent_of(s, c) == Some(k) && is_ancestor_or_self(s, c, lower),
    decreases n,
{
    let p = parent_of(s, lower).unwrap();
    if p == k {
        assert(anc(s, lower, 0) == Some(lower));
    } else {
        assert(anc(s, p, (n - 1) as nat) == Some(k));
        if n - 1 == 0 {
            assert(p == k);
        }
        lemma_between_found(s, p, k, (n - 1) as nat);
        let c = between(s, p, k, (n - 1) as nat).unwrap();
        let m = choose|m: nat| #[trigger] anc(s, p, m) == Some(c);
        assert(anc(s, lower, m + 1) == Some(c));
    }
}

/// Steps up the tree add up.
pub proof fn lemma_anc_add(s: Map<NodeId, Option<Slot>>, q: NodeId, c: NodeId, k: NodeId, n1: nat, n2: nat)
    requires
        anc(s, q, n1) == Some(c),
        anc(s, c, n2) == Some(k),
    ensures
        anc(s, q, n1 + n2) == Some(k),
    decreases n1,
{
    if n1 > 0 {
        let p = parent_of(s, q).unwrap();
        lemma_anc_add(s, p, c, k, (n1 - 1) as nat, n2);
    }
}

/// `s` with the data of `k` replaced by `d`.
pub open spec fn with_data(s: Map<NodeId, Option<Slot>>, k: NodeId, d: TarsNode) -> Map<NodeId, Option<Slot>> {
    s.insert(k, Some((d, parent_of(s, k), children_of(s, k))))
}

/// `t`, filed under the group `g`.
pub open spec fn in_group(t: Task, g: Group) -> Task {
    Task { group: g, ..t }
}

/// `d`, with the task it holds, if any, filed under `g`.
pub open spec fn regrouped(d: TarsNode, g: Group) -> TarsNode {
    match d.kind {
        TarsKind::Task(t) => TarsNode { kind: TarsKind::Task(in_group(t, g)), ..d },
        _ => d,
    }
}

/// `s` with every task directly under `k` filed under `g`.
pub open spec fn regroup_children(s: Map<NodeId, Option<Slot>>, k: NodeId, g: Group) -> Map<NodeId, Option<Slot>> {
    Map::new(
        |q: NodeId| s.contains_key(q),
        |q: NodeId|
            if valid(s, q) && children_of(s, k).contains(q) {
                Some((regrouped(data_of(s, q), g), parent_of(s, q), children_of(s, q)))
            } else {
                s[q]
            },
    )
}

/// `s` with every task among the nodes of `cs` filed under `g`.
pub open spec fn regroup_among(s: Map<NodeId, Option<Slot>>, cs: Seq<NodeId>, g: Group) -> Map<NodeId, Option<Slot>> {
    Map::new(
        |q: NodeId| s.contains_key(q),
        |q: NodeId|
            if valid(s, q) && cs.contains(q) {
                Some((regrouped(data_of(s, q), g), parent_of(s, q), children_of(s, q)))
            } else {
                s[q]
            },
    )
}

/// A copy of an optional node id.
pub fn clone_opt_node_id(o: &Option<NodeId>) -> (r: Option<NodeId>)
    ensures
        r == *o,
{
    match o {
        Some(k) => Some(k.clone()),
        None => None,
    }
}

/// Whether two optional daemon ids are the same.
pub fn same_id(a: Option<Id>, b: Option<Id>) -> (r: bool)
    ensures
        r == (a == b),
{
    match (a, b) {
        (Some(x), Some(y)) => x == y,
        (None, None) => true,
        _ => false,
    }
}

/// The group `g` sits `d` levels below the top among `groups`: it has no
/// parent for `d == 0`, else its parent group is among `groups` and sits
/// `d - 1` levels below the top.
pub open spec fn nests(groups: Seq<Group>, g: Group, d: nat) -> bool
    decreases d,
{
    if d == 0 {
        g.parent_id is None
    } else {
        g.parent_id matches Some(x) && exists|p: Group| #[trigger] groups.contains(p) && p.id == x && nests(groups, p, (d - 1) as nat)
    }
}

/// Every group among `groups` sits less than `u16::MAX` levels below the
/// top, so that it and its tasks have a depth that fits in a `u16`.
pub open spec fn nesting_fits(groups: Seq<Group>) -> bool {
    forall|g: Group, d: nat| #[trigger] nests(groups, g, d) && groups.contains(g) ==> d < u16::MAX
}

/// Whether a task belongs to the group `x`.
pub open spec fn task_in(x: Id) -> spec_fn(Task) -> bool {
    |t: Task| t.group.id == x
}

/// Whether a group hangs under the group `x`, or under the root for `None`.
pub open spec fn group_under(x: Option<Id>) -> spec_fn(Group) -> bool {
    |g: Group| g.parent_id == x
}

/// The ids of tasks, in order.
pub open spec fn task_ids(ts: Seq<Task>) -> Seq<Id> {
    ts.map_values(|t: Task| t.id)
}

/// The ids of groups, in order.
pub open spec fn group_ids(gs: Seq<Group>) -> Seq<Id> {
    gs.map_values(|g: Group| g.id)
}

/// The groups of `groups` whose id `ix` does not hold yet.
pub open spec fn pending(groups: Seq<Group>, ix: Map<Id, NodeId>) -> nat {
    groups.filter(|g: Group| !ix.contains_key(g.id)).len()
}

/// A larger index leaves fewer groups pending, strictly fewer when it holds
/// the id of one more of them.
pub proof fn lemma_pending_shrinks(groups: Seq<Group>, ix: Map<Id, NodeId>, ix2: Map<Id, NodeId>, g: Group)
    requires
        ix.dom().subset_of(ix2.dom()),
    ensures
        pending(groups, ix2) <= pending(groups, ix),
        groups.contains(g) && !ix.contains_key(g.id) && ix2.contains_key(g.id) ==> pending(groups, ix2) < pending(groups, ix),
    decreases groups.len(),
{
    reveal(Seq::filter);
    if groups.len() > 0 {
        let rest = groups.drop_last();
        lemma_pending_shrinks(rest, ix, ix2, g);
        assert(groups.filter(|x: Group| !ix.contains_key(x.id)) == {
            let sub = rest.filter(|x: Group| !ix.contains_key(x.id));
            if !ix.contains_key(groups.last().id) { sub.push(groups.last()) } else { sub }
        });
        assert(groups.filter(|x: Group| !ix2.contains_key(x.id)) == {
            let sub = rest.filter(|x: Group| !ix2.contains_key(x.id));
            if !ix2.contains_key(groups.last().id) { sub.push(groups.last()) } else { sub }
        });
        if groups.contains(g) && !ix.contains_key(g.id) && ix2.contains_key(g.id) {
            if g != groups.last() {
                let j = choose|j: int| 0 <= j < groups.len() && groups[j] == g;
                assert(rest[j] == g);
            }
        }
    }
}

/// The tree of groups and tasks: an `id_tree` tree whose root holds no item,
/// with the groups and tasks below it, and an index from daemon ids to nodes.
pub struct TarsTree {
    tree: Tree<TarsNode>,
    inverted: HashMap<Id, NodeId>,
    heights: Ghost<Map<NodeId, nat>>,
    bound: Ghost<nat>,
}

impl TarsTree {
    /// The slots of the underlying tree.
    pub closed spec fn slots(&self) -> Map<NodeId, Option<Slot>> {
        tree_slots(self.tree)
    }

    /// The root of the tree.
    pub closed spec fn root_opt(&self) -> Option<NodeId> {
        tree_root(self.tree)
    }

    /// The root of the tree.
    pub open spec fn root(&self) -> NodeId {
        self.root_opt().unwrap()
    }

    /// The index from daemon ids to nodes.
    pub closed spec fn index(&self) -> Map<Id, NodeId> {
        self.inverted@
    }

    /// The distance of each node from the root.
    pub closed spec fn heights(&self) -> Map<NodeId, nat> {
        self.heights@
    }

    /// A bound above every height.
    pub closed spec fn bound(&self) -> nat {
        self.bound@
    }

    pub open spec fn wf(&self) -> bool {
        tree_wf(self.slots(), self.root_opt(), self.heights(), self.bound(), self.index())
    }

    /// `k` is a node of the tree.
    pub open spec fn has(&self, k: NodeId) -> bool {
        valid(self.slots(), k)
    }

    /// `k` is an id this tree handed out, whether or not its node is still there.
    pub open spec fn issued(&self, k: NodeId) -> bool {
        self.slots().contains_key(k)
    }

    pub open spec fn node(&self, k: NodeId) -> TarsNode {
        data_of(self.slots(), k)
    }

    pub open spec fn parent(&self, k: NodeId) -> Option<NodeId> {
        parent_of(self.slots(), k)
    }

    pub open spec fn children(&self, k: NodeId) -> Seq<NodeId> {
        children_of(self.slots(), k)
    }

    /// The nodes of the subtree under `k`, in pre-order.
    pub open spec fn subtree(&self, k: NodeId) -> Seq<NodeId> {
        preorder(self.slots(), k, (self.bound() - self.heights()[k]) as nat).unwrap()
    }

    /// The ancestors of `k`, parent first.
    pub open spec fn ancestry(&self, k: NodeId) -> Seq<NodeId> {
        ancestors(self.slots(), k, self.heights()[k] + 1).unwrap()
    }

    /// Walking up `heights()[k]` parents from `k` reaches the root, one more
    /// step leaves the tree.
    pub proof fn lemma_chain(&self, k: NodeId)
        requires
            self.wf(),
            self.has(k),
        ensures
            anc(self.slots(), k, self.heights()[k]) == Some(self.root()),
            anc(self.slots(), k, self.heights()[k] + 1) is None,
            ancestors(self.slots(), k, self.heights()[k] + 1) is Some,
        decreases self.heights()[k],
    {
        let s = self.slots();
        if k == self.root() {
            assert(anc(s, k, 1) == anc(s, k, 1));
        } else {
            let p = parent_of(s, k).unwrap();
            self.lemma_chain(p);
            assert(anc(s, k, self.heights()[k]) == anc(s, p, self.heights()[p]));
            assert(anc(s, k, self.heights()[k] + 1) == anc(s, p, self.heights()[p] + 1));
        }
    }

    /// With enough levels, the pre-order of the subtree under `k` is defined.
    proof fn lemma_preorder_some(&self, k: NodeId, f: nat)
        requires
            self.wf(),
            self.has(k),
            f + self.heights()[k] >= self.bound(),
        ensures
            preorder(self.slots(), k, f) is Some,
        decreases f, 0nat,
    {
        let s = self.slots();
        assert(self.heights()[k] < self.bound());
        assert(children_of(s, k) =~= children_of(s, k).subrange(0, children_of(s, k).len() as int));
        self.lemma_preorder_list_some(k, children_of(s, k), (f - 1) as nat);
    }

    proof fn lemma_preorder_list_some(&self, k: NodeId, cs: Seq<NodeId>, f: nat)
        requires
            self.wf(),
            self.has(k),
            cs.len() <= children_of(self.slots(), k).len(),
            cs == children_of(self.slots(), k).subrange(children_of(self.slots(), k).len() - cs.len(), children_of(self.slots(), k).len() as int),
            f + self.heights()[k] + 1 >= self.bound(),
        ensures
            preorder_list(self.slots(), cs, f) is Some,
        decreases f, cs.len() + 1,
    {
        let s = self.slots();
        if cs.len() > 0 {
            let ch = children_of(s, k);
            let i = ch.len() - cs.len();
            assert(cs[0] == ch[i]);
            assert(valid(s, ch[i]) && parent_of(s, ch[i]) == Some(k));
            self.lemma_preorder_some(cs[0], f);
            assert(cs.drop_first() =~= ch.subrange(ch.len() - (cs.len() - 1), ch.len() as int));
            self.lemma_preorder_list_some(k, cs.drop_first(), f);
        }
    }

    /// The id of the root node.
    pub fn root_node_id(&self) -> (r: NodeId)
        requires
            self.wf(),
        ensures
            r == self.root(),
    {
        tree_root_id(&self.tree).unwrap()
    }

    /// The data of a node of the tree.
    pub fn data(&self, k: &NodeId) -> (r: &TarsNode)
        requires
            self.wf(),
            self.has(*k),
        ensures
            *r == self.node(*k),
    {
        tree_data(&self.tree, k)
    }

    /// The parent of a node of the tree.
    pub fn parent_id(&self, k: &NodeId) -> (r: Option<NodeId>)
        requires
            self.wf(),
            self.has(*k),
        ensures
            r == self.parent(*k),
    {
        tree_parent(&self.tree, k)
    }

    /// The children of a node of the tree, in order.
    pub fn children_ids(&self, k: &NodeId) -> (r: Vec<NodeId>)
        requires
            self.wf(),
            self.has(*k),
        ensures
            r@ == self.children(*k),
    {
        tree_children(&self.tree, k)
    }

    /// Whether a node id names one of the nodes of this tree; `false` for an
    /// id of a removed node or of another tree.
    pub fn contains(&self, k: &NodeId) -> (r: bool)
        requires
            self.wf(),
        ensures
            r == self.has(*k),
    {
        tree_contains(&self.tree, k)
    }

    /// The nodes of the subtree under `k`, `k` first, in pre-order.
    pub fn traverse(&self, k: &NodeId) -> (r: Vec<NodeId>)
        requires
            self.wf(),
            self.has(*k),
        ensures
            r@ == self.subtree(*k),
    {
        proof {
            self.lemma_subtree(*k);
        }
        tree_pre_order(&self.tree, k)
    }

    /// All the nodes of the tree, the root first, in pre-order.
    pub fn traverse_root(&self) -> (r: Vec<NodeId>)
        requires
            self.wf(),
        ensures
            r@ == self.subtree(self.root()),
    {
        let root = self.root_node_id();
        self.traverse(&root)
    }

    /// The ancestors of a node, its parent first and the root last.
    pub fn ancestor_ids(&self, k: &NodeId) -> (r: Vec<NodeId>)
        requires
            self.wf(),
            self.has(*k),
        ensures
            r@ == self.ancestry(*k),
    {
        proof {
            self.lemma_chain(*k);
        }
        tree_ancestor_ids(&self.tree, k)
    }

    /// The node that holds the group or task with daemon id `id`.
    pub fn translate_id_to_node_id(&self, id: &Id) -> (r: Option<NodeId>)
        requires
            self.wf(),
        ensures
            r == (if self.index().contains_key(*id) { Some(self.index()[*id]) } else { None }),
    {
        broadcast use vstd::std_specs::hash::group_hash_axioms;
        match self.inverted.get(id) {
            Some(k) => Some(k.clone()),
            None => None,
        }
    }

    /// The daemon id of the item a node holds; `None` for the root and for an
    /// id that names no node of the tree.
    pub fn translate_node_id_to_id(&self, k: &NodeId) -> (r: Option<Id>)
        requires
            self.wf(),
        ensures
            r == (if self.has(*k) { self.node(*k).kind.spec_id() } else { None }),
    {
        if !self.contains(k) {
            return None;
        }
        self.data(k).kind.id()
    }

    /// The data of the node that holds the group or task with daemon id `id`.
    pub fn get_by_tars_id(&self, id: &Id) -> (r: Option<&TarsNode>)
        requires
            self.wf(),
        ensures
            r == (if self.index().contains_key(*id) { Some(&self.node(self.index()[*id])) } else { None }),
    {
        match self.translate_id_to_node_id(id) {
            Some(k) => Some(self.data(&k)),
            None => None,
        }
    }

    /// A tree with the root alone.
    pub fn new() -> (r: TarsTree)
        ensures
            r.wf(),
            r.index() == Map::<Id, NodeId>::empty(),
            forall|k: NodeId| #[trigger] r.has(k) ==> k == r.root(),
            r.children(r.root()).len() == 0,
    {
        broadcast use vstd::std_specs::hash::group_hash_axioms;
        let mut tree = tree_new();
        let root = tree_insert_root(&mut tree, TarsNode { kind: TarsKind::Root, parent: None, depth: 0 });
        let root = root.unwrap();
        let inverted: HashMap<Id, NodeId> = HashMap::new();
        let ghost s = tree_slots(tree);
        let ghost h = Map::<NodeId, nat>::empty().insert(root, 0nat);
        proof {
            assert(forall|k: NodeId| valid(s, k) ==> k == root);
            lemma_chains_end(s, h);
        }
        TarsTree { tree, inverted, heights: Ghost(h), bound: Ghost(1) }
    }

    /// Attaches a new node holding `data` as the last child of `parent`.
    fn insert_child(&mut self, parent: &NodeId, data: TarsNode) -> (r: NodeId)
        requires
            old(self).wf(),
            old(self).has(*parent),
            data.kind.spec_id() is Some,
            !old(self).index().contains_key(data.kind.spec_id().unwrap()),
        ensures
            final(self).wf(),
            fresh(old(self).slots(), r),
            final(self).slots() == old(self).slots().insert(
                *parent,
                Some((old(self).node(*parent), old(self).parent(*parent), old(self).children(*parent).push(r))),
            ).insert(r, Some((data, Some(*parent), Seq::empty()))),
            final(self).index() == old(self).index().insert(data.kind.spec_id().unwrap(), r),
            final(self).root() == old(self).root(),
    {
        broadcast use vstd::std_specs::hash::group_hash_axioms;
        let ghost s0 = self.slots();
        let ghost h0 = self.heights();
        let ghost x = data.kind.spec_id().unwrap();
        let ghost d = data;
        let key = data.kind.id().unwrap();
        let res = tree_insert_under(&mut self.tree, data, parent);
        let id = res.unwrap();
        self.inverted.insert(key, id.clone());
        let ghost s = self.slots();
        let ghost h = h0.insert(id, h0[*parent] + 1);
        proof {
            let p = *parent;
            let r = self.root();
            assert(valid(s0, r));
            assert(r != id);
            assert forall|k: NodeId| #[trigger] valid(s, k) implies h.contains_key(k) && match parent_of(s, k) {
                Some(q) => valid(s, q) && h[k] == h[q] + 1,
                None => true,
            } by {
                if valid(s, k) && k != id {
                    assert(valid(s0, k));
                    if parent_of(s0, k) is Some {
                        let q = parent_of(s0, k).unwrap();
                        assert(valid(s0, q));
                        assert(q != id);
                    }
                }
            }
            lemma_chains_end(s, h);
            assert forall|k: NodeId| #[trigger] valid(s, k) implies match parent_of(s, k) {
                Some(q) => valid(s, q) && children_of(s, q).contains(k),
                None => true,
            } by {
                if k == id {
                    assert(children_of(s, p).last() == id);
                } else {
                    assert(valid(s0, k));
                    if parent_of(s0, k) is Some {
                        let q = parent_of(s0, k).unwrap();
                        assert(children_of(s0, q).contains(k));
                        if q == p {
                            let j = choose|j: int| 0 <= j < children_of(s0, q).len() && children_of(s0, q)[j] == k;
                            assert(children_of(s, q)[j] == k);
                        }
                    }
                }
            }
            assert forall|k: NodeId, i: int|
                #![trigger children_of(s, k)[i]]
                valid(s, k) && 0 <= i < children_of(s, k).len() implies valid(s, children_of(s, k)[i])
                    && parent_of(s, children_of(s, k)[i]) == Some(k) by {
                if k != id {
                    if k == p && i == children_of(s0, p).len() {
                    } else {
                        let c = children_of(s0, k)[i];
                        assert(valid(s0, c) && parent_of(s0, c) == Some(k));
                        assert(c != id);
                    }
                }
            }
            assert forall|k: NodeId| #[trigger] valid(s, k) implies children_of(s, k).no_duplicates() by {
                if k != p && k != id {
                    assert(valid(s0, k));
                    assert(children_of(s, k) == children_of(s0, k));
                }
                if k == p {
                    assert forall|i: int, j: int| 0 <= i < j < children_of(s, p).len() implies children_of(s, p)[i] != children_of(s, p)[j] by {
                        if j == children_of(s0, p).len() {
                            assert(valid(s0, children_of(s0, p)[i]));
                        } else {
                            assert(children_of(s0, p).no_duplicates());
                        }
                    }
                }
            }
            assert forall|y: Id| #[trigger] self.inverted@.contains_key(y) implies valid(s, self.inverted@[y]) && data_of(s, self.inverted@[y]).kind.spec_id() == Some(y) by {
                if y != x {
                    let kk = self.inverted@[y];
                    assert(valid(s0, kk));
                    assert(kk != id);
                }
            }
            assert forall|k: NodeId| #[trigger] valid(s, k) && data_of(s, k).kind.spec_id() is Some implies self.inverted@.contains_key(data_of(s, k).kind.spec_id().unwrap())
                && self.inverted@[data_of(s, k).kind.spec_id().unwrap()] == k by {
                if k != id {
                    assert(valid(s0, k));
                }
            }
        }
        self.heights = Ghost(h);
        self.bound = Ghost(self.bound@ + 1);
        proof {
            let r = self.root();
            let b = self.bound();
            assert(valid(s, r));
            assert(data_of(s, r).kind is Root);
            assert(parent_of(s, r) is None);
            assert(consistent(s));
            assert forall|k: NodeId| #[trigger] valid(s, k) && k != r implies parent_of(s, k) is Some && !(data_of(s, k).kind is Root) by {
                if k != id {
                    assert(valid(s0, k));
                } else {
                    assert(d.kind.spec_id() is Some);
                }
            }
            assert(forall|k: NodeId| #[trigger] valid(s, k) ==> h.contains_key(k) && h[k] < b);
            assert(h[r] == 0);
            assert(forall|k: NodeId| #[trigger] valid(s, k) && parent_of(s, k) is Some ==> h[k] == h[parent_of(s, k).unwrap()] + 1);
        }
        id
    }

    /// Removes a node without children, other than the root, and its id
    /// from the index.
    fn remove_leaf(&mut self, k: NodeId)
        requires
            old(self).wf(),
            old(self).has(k),
            k != old(self).root(),
            old(self).children(k).len() == 0,
        ensures
            final(self).wf(),
            ({
                let s = old(self).slots();
                let p = parent_of(s, k).unwrap();
                final(self).slots() == s.insert(
                    p,
                    Some((data_of(s, p), parent_of(s, p), children_of(s, p).filter(other_than(k)))),
                ).insert(k, None)
            }),
            final(self).index() == old(self).index().remove(old(self).node(k).kind.spec_id().unwrap()),
            final(self).root() == old(self).root(),
    {
        broadcast use vstd::std_specs::hash::group_hash_axioms;
        broadcast use vstd::seq_lib::group_filter_ensures;
        let ghost s0 = self.slots();
        let ghost h = self.heights();
        let ghost p = parent_of(s0, k).unwrap();
        let key = self.data(&k).kind.id().unwrap();
        proof {
            assert(valid(s0, p) && children_of(s0, p).contains(k));
            if p == k {
                assert(children_of(s0, k).len() > 0);
            }
        }
        tree_remove_leaf(&mut self.tree, k);
        self.inverted.remove(&key);
        let ghost s = self.slots();
        let ghost pred = other_than(k);
        proof {
            let r = self.root();
            assert forall|q: NodeId| #[trigger] valid(s, q) implies h.contains_key(q) && match parent_of(s, q) {
                Some(pp) => valid(s, pp) && h[q] == h[pp] + 1,
                None => true,
            } by {
                assert(valid(s0, q));
                if parent_of(s0, q) is Some {
                    let pp = parent_of(s0, q).unwrap();
                    assert(children_of(s0, pp).contains(q));
                    if pp == k {
                        assert(children_of(s0, k).len() > 0);
                    }
                }
            }
            lemma_chains_end(s, h);
            assert forall|q: NodeId| #[trigger] valid(s, q) implies match parent_of(s, q) {
                Some(pp) => valid(s, pp) && children_of(s, pp).contains(q),
                None => true,
            } by {
                assert(valid(s0, q));
                if parent_of(s0, q) is Some {
                    let pp = parent_of(s0, q).unwrap();
                    assert(children_of(s0, pp).contains(q));
                    if pp == p {
                        let j = choose|j: int| 0 <= j < children_of(s0, p).len() && children_of(s0, p)[j] == q;
                        children_of(s0, p).lemma_filter_contains(pred, j);
                    }
                }
            }
            assert forall|q: NodeId, i: int|
                #![trigger children_of(s, q)[i]]
                valid(s, q) && 0 <= i < children_of(s, q).len() implies valid(s, children_of(s, q)[i])
                    && parent_of(s, children_of(s, q)[i]) == Some(q) by {
                assert(valid(s0, q));
                let c = children_of(s, q)[i];
                if q == p {
                    assert(children_of(s, p) == children_of(s0, p).filter(pred));
                    assert(pred(c));
                    assert(children_of(s0, p).filter(pred).contains(c));
                    children_of(s0, p).lemma_filter_contains_rev(pred, c);
                    let j = choose|j: int| 0 <= j < children_of(s0, p).len() && children_of(s0, p)[j] == c;
                    assert(valid(s0, children_of(s0, p)[j]));
                } else {
                    assert(valid(s0, children_of(s0, q)[i]));
                }
            }
            assert forall|q: NodeId| #[trigger] valid(s, q) implies children_of(s, q).no_duplicates() by {
                assert(valid(s0, q));
                if q == p {
                    lemma_filter_no_dup(children_of(s0, p), pred);
                }
            }
            assert forall|y: Id| #[trigger] self.inverted@.contains_key(y) implies valid(s, self.inverted@[y]) && data_of(s, self.inverted@[y]).kind.spec_id() == Some(y) by {
                assert(valid(s0, self.inverted@[y]));
            }
            assert forall|q: NodeId| #[trigger] valid(s, q) && data_of(s, q).kind.spec_id() is Some implies self.inverted@.contains_key(data_of(s, q).kind.spec_id().unwrap())
                && self.inverted@[data_of(s, q).kind.spec_id().unwrap()] == q by {
                assert(valid(s0, q));
            }
            assert forall|q: NodeId| #[trigger] valid(s, q) && q != r implies parent_of(s, q) is Some && !(data_of(s, q).kind is Root) by {
                assert(valid(s0, q));
            }
            assert(valid(s0, r));
        }
    }

    /// Replaces the data of a node, other than the root, by data about the
    /// same id.
    fn set_node(&mut self, k: &NodeId, data: TarsNode)
        requires
            old(self).wf(),
            old(self).has(*k),
            *k != old(self).root(),
            data.kind.spec_id() == old(self).node(*k).kind.spec_id(),
        ensures
            final(self).wf(),
            final(self).slots() == old(self).slots().insert(
                *k,
                Some((data, old(self).parent(*k), old(self).children(*k))),
            ),
            final(self).index() == old(self).index(),
            final(self).root() == old(self).root(),
    {
        let ghost s0 = self.slots();
        let ghost h = self.heights();
        let ghost d = data;
        tree_set_data(&mut self.tree, k, data);
        let ghost s = self.slots();
        proof {
            let r = self.root();
            assert(valid(s0, r));
            assert forall|q: NodeId| #[trigger] valid(s, q) implies h.contains_key(q) && match parent_of(s, q) {
                Some(pp) => valid(s, pp) && h[q] == h[pp] + 1,
                None => true,
            } by {
                assert(valid(s0, q));
            }
            lemma_chains_end(s, h);
            assert forall|q: NodeId| #[trigger] valid(s, q) implies match parent_of(s, q) {
                Some(pp) => valid(s, pp) && children_of(s, pp).contains(q),
                None => true,
            } by {
                assert(valid(s0, q));
            }
            assert forall|q: NodeId, i: int|
                #![trigger children_of(s, q)[i]]
                valid(s, q) && 0 <= i < children_of(s, q).len() implies valid(s, children_of(s, q)[i])
                    && parent_of(s, children_of(s, q)[i]) == Some(q) by {
                assert(valid(s0, q));
                assert(valid(s0, children_of(s0, q)[i]));
            }
            assert forall|q: NodeId| #[trigger] valid(s, q) implies children_of(s, q).no_duplicates() by {
                assert(valid(s0, q));
            }
            assert forall|y: Id| #[trigger] self.inverted@.contains_key(y) implies valid(s, self.inverted@[y]) && data_of(s, self.inverted@[y]).kind.spec_id() == Some(y) by {
                assert(valid(s0, self.inverted@[y]));
            }
            assert forall|q: NodeId| #[trigger] valid(s, q) && data_of(s, q).kind.spec_id() is Some implies self.inverted@.contains_key(data_of(s, q).kind.spec_id().unwrap())
                && self.inverted@[data_of(s, q).kind.spec_id().unwrap()] == q by {
                assert(valid(s0, q));
            }
            assert forall|q: NodeId| #[trigger] valid(s, q) && q != r implies parent_of(s, q) is Some && !(data_of(s, q).kind is Root) by {
                assert(valid(s0, q));
                if q == *k {
                    assert(d.kind.spec_id() is Some);
                }
            }
        }
    }

    /// Walking `n` parents up from `q` to `a` climbs `n` levels.
    proof fn lemma_anc_height(&self, q: NodeId, a: NodeId, n: nat)
        requires
            self.wf(),
            self.has(q),
            anc(self.slots(), q, n) == Some(a),
        ensures
            self.has(a),
            self.heights()[q] == self.heights()[a] + n,
        decreases n,
    {
        if n > 0 {
            let p = parent_of(self.slots(), q).unwrap();
            self.lemma_anc_height(p, a, (n - 1) as nat);
        }
    }

    /// Moves the node `k`, with its subtree, to the end of the children of
    /// `new_parent`.
    fn move_under(&mut self, k: &NodeId, new_parent: &NodeId)
        requires
            old(self).wf(),
            old(self).has(*k),
            old(self).has(*new_parent),
            *k != old(self).root(),
            !is_ancestor_or_self(old(self).slots(), *k, *new_parent),
        ensures
            final(self).wf(),
            ({
                let s = old(self).slots();
                let op = parent_of(s, *k).unwrap();
                let s1 = s.insert(
                    op,
                    Some((data_of(s, op), parent_of(s, op), children_of(s, op).filter(other_than(*k)))),
                );
                let s2 = s1.insert(
                    *new_parent,
                    Some((data_of(s1, *new_parent), parent_of(s1, *new_parent), children_of(s1, *new_parent).push(*k))),
                );
                final(self).slots() == s2.insert(*k, Some((data_of(s, *k), Some(*new_parent), children_of(s, *k))))
            }),
            final(self).index() == old(self).index(),
            final(self).root() == old(self).root(),
    {
        broadcast use vstd::seq_lib::group_filter_ensures;
        let ghost s0 = self.slots();
        let ghost h0 = self.heights();
        let ghost b0 = self.bound();
        let ghost op = parent_of(s0, *k).unwrap();
        let ghost np = *new_parent;
        let ghost kk = *k;
        let ghost pred = other_than(kk);
        let ghost in_sub = |q: NodeId| is_ancestor_or_self(s0, kk, q);
        proof {
            assert(anc(s0, kk, 0) == Some(kk));
            assert(valid(s0, op) && children_of(s0, op).contains(kk));
            if op == kk {
                assert(anc(s0, kk, 1) == Some(kk));
                self.lemma_anc_height(kk, kk, 1);
            }
            let r = self.root();
            assert(valid(s0, r));
            // facts about the subtree of k in the old tree
            assert forall|q: NodeId| #[trigger] in_sub(q) && valid(s0, q) implies h0[q] >= h0[kk] by {
                let n = choose|n: nat| #[trigger] anc(s0, q, n) == Some(kk);
                self.lemma_anc_height(q, kk, n);
            }
            assert forall|q: NodeId| #[trigger] valid(s0, q) && q != kk && in_sub(q) implies in_sub(parent_of(s0, q).unwrap()) by {
                let n = choose|n: nat| #[trigger] anc(s0, q, n) == Some(kk);
                assert(n > 0);
                assert(anc(s0, parent_of(s0, q).unwrap(), (n - 1) as nat) == Some(kk));
            }
            assert forall|q: NodeId| #[trigger] valid(s0, q) && !in_sub(q) && parent_of(s0, q) is Some implies !in_sub(parent_of(s0, q).unwrap()) by {
                let pp = parent_of(s0, q).unwrap();
                if in_sub(pp) {
                    let n = choose|n: nat| #[trigger] anc(s0, pp, n) == Some(kk);
                    assert(anc(s0, q, n + 1) == Some(kk));
                }
            }
            assert(!in_sub(np));
            assert(in_sub(kk));
            assert(!in_sub(r)) by {
                if in_sub(r) {
                    assert(h0[r] >= h0[kk]);
                    assert(h0[kk] == h0[op] + 1);
                }
            }
        }
        tree_move(&mut self.tree, k, new_parent);
        let ghost s = self.slots();
        let ghost h = Map::new(
            |q: NodeId| h0.contains_key(q),
            |q: NodeId| if in_sub(q) { (h0[q] - h0[kk] + h0[np] + 1) as nat } else { h0[q] },
        );
        proof {
            let r = self.root();
            assert(valid(s0, r));
            // heights
            assert forall|q: NodeId| #[trigger] valid(s, q) implies h.contains_key(q) && match parent_of(s, q) {
                Some(pp) => valid(s, pp) && h[q] == h[pp] + 1,
                None => true,
            } by {
                assert(valid(s0, q));
                if q == kk {
                } else if parent_of(s0, q) is Some {
                    let pp = parent_of(s0, q).unwrap();
                    assert(valid(s0, pp));
                    if in_sub(q) {
                        assert(in_sub(pp));
                        assert(h0[pp] >= h0[kk]);
                    }
                }
            }
            lemma_chains_end(s, h);
            assert forall|q: NodeId| #[trigger] valid(s, q) implies h[q] < b0 + b0 by {
                assert(valid(s0, q));
                assert(h0[q] < b0 && h0[np] < b0);
            }
            // parents list their children
            assert forall|q: NodeId| #[trigger] valid(s, q) implies match parent_of(s, q) {
                Some(pp) => valid(s, pp) && children_of(s, pp).contains(q),
                None => true,
            } by {
                assert(valid(s0, q));
                if q == kk {
                    assert(children_of(s, np).last() == kk);
                } else if parent_of(s0, q) is Some {
                    let pp = parent_of(s0, q).unwrap();
                    assert(children_of(s0, pp).contains(q));
                    let j = choose|j: int| 0 <= j < children_of(s0, pp).len() && children_of(s0, pp)[j] == q;
                    if pp == op {
                        children_of(s0, op).lemma_filter_contains(pred, j);
                        let f = children_of(s0, op).filter(pred);
                        let j2 = choose|j2: int| 0 <= j2 < f.len() && f[j2] == q;
                        if pp == np {
                            assert(children_of(s, np)[j2] == q);
                        }
                    } else if pp == np {
                        assert(children_of(s, np)[j] == q);
                    }
                }
            }
            // children know their parent
            assert forall|q: NodeId, i: int|
                #![trigger children_of(s, q)[i]]
                valid(s, q) && 0 <= i < children_of(s, q).len() implies valid(s, children_of(s, q)[i])
                    && parent_of(s, children_of(s, q)[i]) == Some(q) by {
                assert(valid(s0, q));
                let c = children_of(s, q)[i];
                let base = if q == op { children_of(s0, op).filter(pred) } else { children_of(s0, q) };
                if q == np && i == base.len() {
                    assert(c == kk);
                } else {
                    assert(c == base[i]);
                    if q == op {
                        assert(pred(c));
                        assert(base.contains(c));
                        children_of(s0, op).lemma_filter_contains_rev(pred, c);
                        let j = choose|j: int| 0 <= j < children_of(s0, op).len() && children_of(s0, op)[j] == c;
                        assert(valid(s0, children_of(s0, op)[j]));
                    } else {
                        assert(valid(s0, children_of(s0, q)[i]));
                        assert(parent_of(s0, c) == Some(q));
                        assert(c != kk);
                    }
                }
            }
            // no child twice
            assert forall|q: NodeId| #[trigger] valid(s, q) implies children_of(s, q).no_duplicates() by {
                assert(valid(s0, q));
                let base = if q == op { children_of(s0, op).filter(pred) } else { children_of(s0, q) };
                if q == op {
                    lemma_filter_no_dup(children_of(s0, op), pred);
                }
                if q == np {
                    if base.contains(kk) {
                        if q == op {
                            children_of(s0, op).lemma_filter_pred(pred, choose|j: int| 0 <= j < base.len() && base[j] == kk);
                        } else {
                            let j = choose|j: int| 0 <= j < base.len() && base[j] == kk;
                            assert(parent_of(s0, children_of(s0, q)[j]) == Some(q));
                        }
                    }
                    assert forall|a: int, bb: int| 0 <= a < bb < children_of(s, q).len() implies children_of(s, q)[a] != children_of(s, q)[bb] by {
                        if bb == base.len() {
                            assert(children_of(s, q)[a] == base[a]);
                        } else {
                            assert(children_of(s, q)[a] == base[a]);
                            assert(children_of(s, q)[bb] == base[bb]);
                        }
                    }
                }
            }
            assert forall|y: Id| #[trigger] self.inverted@.contains_key(y) implies valid(s, self.inverted@[y]) && data_of(s, self.inverted@[y]).kind.spec_id() == Some(y) by {
                assert(valid(s0, self.inverted@[y]));
            }
            assert forall|q: NodeId| #[trigger] valid(s, q) && data_of(s, q).kind.spec_id() is Some implies self.inverted@.contains_key(data_of(s, q).kind.spec_id().unwrap())
                && self.inverted@[data_of(s, q).kind.spec_id().unwrap()] == q by {
                assert(valid(s0, q));
            }
            assert forall|q: NodeId| #[trigger] valid(s, q) && q != r implies parent_of(s, q) is Some && !(data_of(s, q).kind is Root) by {
                assert(valid(s0, q));
            }
        }
        self.heights = Ghost(h);
        self.bound = Ghost(b0 + b0);
    }

    /// Moves `k` under `np`, a node below it: the child of `k` on the way
    /// to `np` takes the place of `k` under `k`'s parent.
    #[verifier::spinoff_prover]
    #[verifier::rlimit(40)]
    fn move_down(&mut self, k: &NodeId, np: &NodeId)
        requires
            old(self).wf(),
            old(self).has(*k),
            old(self).has(*np),
            *k != old(self).root(),
            *k != *np,
            is_ancestor_or_self(old(self).slots(), *k, *np),
        ensures
            final(self).wf(),
            final(self).slots() == moved_down(old(self).slots(), *k, *np, lifted(old(self).slots(), *np, *k)),
            final(self).index() == old(self).index(),
            final(self).root() == old(self).root(),
    {
        broadcast use vstd::seq_lib::group_filter_ensures;
        let ghost s0 = self.slots();
        let ghost h0 = self.heights();
        let ghost b0 = self.bound();
        let ghost op = parent_of(s0, *k).unwrap();
        let ghost kk = *k;
        let ghost nn = *np;
        let ghost n0 = choose|n: nat| #[trigger] anc(s0, nn, n) == Some(kk);
        proof {
            assert(n0 > 0) by {
                if n0 == 0 {
                    assert(anc(s0, nn, 0) == Some(nn));
                }
            }
            lemma_between_found(s0, nn, kk, n0);
            let f = choose|f: nat| #[trigger] between(s0, nn, kk, f) is Some;
            lemma_between_fuel(s0, nn, kk, f, n0);
        }
        let ghost c = lifted(s0, nn, kk);
        let ghost in_c = |q: NodeId| is_ancestor_or_self(s0, c, q);
        let ghost in_k = |q: NodeId| is_ancestor_or_self(s0, kk, q);
        let ghost pc = other_than(c);
        let ghost pk = other_than(kk);
        proof {
            let r = self.root();
            assert(valid(s0, r));
            assert(parent_of(s0, c) == Some(kk));
            assert(valid(s0, nn));
            let mc = choose|m: nat| #[trigger] anc(s0, nn, m) == Some(c);
            self.lemma_anc_height(nn, c, mc);
            assert(valid(s0, c));
            assert(valid(s0, op) && children_of(s0, op).contains(kk));
            assert(children_of(s0, kk).contains(c));
            assert(h0[c] == h0[kk] + 1);
            assert(h0[kk] == h0[op] + 1);
            self.lemma_anc_height(nn, kk, n0);
            assert(anc(s0, c, 1) == Some(kk));
            assert forall|q: NodeId| #[trigger] in_k(q) && valid(s0, q) implies h0[q] >= h0[kk] by {
                let n = choose|n: nat| #[trigger] anc(s0, q, n) == Some(kk);
                self.lemma_anc_height(q, kk, n);
            }
            assert forall|q: NodeId| #[trigger] in_c(q) && valid(s0, q) implies h0[q] >= h0[c] && in_k(q) by {
                let n = choose|n: nat| #[trigger] anc(s0, q, n) == Some(c);
                self.lemma_anc_height(q, c, n);
                lemma_anc_add(s0, q, c, kk, n, 1);
            }
            assert forall|q: NodeId| #[trigger] valid(s0, q) && q != kk && in_k(q) implies in_k(parent_of(s0, q).unwrap()) by {
                let n = choose|n: nat| #[trigger] anc(s0, q, n) == Some(kk);
                assert(n > 0);
                assert(anc(s0, parent_of(s0, q).unwrap(), (n - 1) as nat) == Some(kk));
            }
            assert forall|q: NodeId| #[trigger] valid(s0, q) && q != c && in_c(q) implies in_c(parent_of(s0, q).unwrap()) by {
                let n = choose|n: nat| #[trigger] anc(s0, q, n) == Some(c);
                assert(n > 0);
                assert(anc(s0, parent_of(s0, q).unwrap(), (n - 1) as nat) == Some(c));
            }
            assert forall|q: NodeId| #[trigger] valid(s0, q) && parent_of(s0, q) is Some && in_k(parent_of(s0, q).unwrap()) implies in_k(q) by {
                let pp = parent_of(s0, q).unwrap();
                let n = choose|n: nat| #[trigger] anc(s0, pp, n) == Some(kk);
                assert(anc(s0, q, n + 1) == Some(kk));
            }
            assert forall|q: NodeId| #[trigger] valid(s0, q) && parent_of(s0, q) is Some && in_c(parent_of(s0, q).unwrap()) implies in_c(q) by {
                let pp = parent_of(s0, q).unwrap();
                let n = choose|n: nat| #[trigger] anc(s0, pp, n) == Some(c);
                assert(anc(s0, q, n + 1) == Some(c));
            }
            assert(in_k(kk)) by {
                assert(anc(s0, kk, 0) == Some(kk));
            }
            assert(in_c(c)) by {
                assert(anc(s0, c, 0) == Some(c));
            }
            assert(in_c(nn));
            assert(!in_c(kk));
            assert(!in_k(op));
            assert(!in_k(r)) by {
                if in_k(r) {
                    assert(h0[r] >= h0[kk]);
                }
            }
            assert(op != c && op != kk && c != kk && nn != op);
            assert(!children_of(s0, op).contains(c)) by {
                if children_of(s0, op).contains(c) {
                    let j = choose|j: int| 0 <= j < children_of(s0, op).len() && children_of(s0, op)[j] == c;
                    assert(parent_of(s0, children_of(s0, op)[j]) == Some(op));
                }
            }
            assert(!children_of(s0, nn).contains(kk)) by {
                if children_of(s0, nn).contains(kk) {
                    let j = choose|j: int| 0 <= j < children_of(s0, nn).len() && children_of(s0, nn)[j] == kk;
                    assert(parent_of(s0, children_of(s0, nn)[j]) == Some(nn));
                }
            }
            assert(!children_of(s0, c).contains(kk)) by {
                if children_of(s0, c).contains(kk) {
                    let j = choose|j: int| 0 <= j < children_of(s0, c).len() && children_of(s0, c)[j] == kk;
                    assert(parent_of(s0, children_of(s0, c)[j]) == Some(c));
                }
            }
            let f = choose|f: nat| #[trigger] between(s0, nn, kk, f) is Some;
            assert(between(s0, nn, kk, f) is Some);
        }
        tree_move(&mut self.tree, k, np);
        let ghost s = self.slots();
        proof {
            let f = choose|f: nat| #[trigger] between(s0, nn, kk, f) is Some;
            assert(between(s0, nn, kk, f) is Some);
            assert(s == moved_down(s0, kk, nn, c));
        }
        let ghost h = Map::new(
            |q: NodeId| h0.contains_key(q),
            |q: NodeId|
                if in_c(q) {
                    (h0[q] - 1) as nat
                } else if in_k(q) {
                    (h0[q] + h0[nn] - h0[kk]) as nat
                } else {
                    h0[q]
                },
        );
        proof {
            let r = self.root();
            assert(valid(s0, r));
            // the slots after the move, node by node
            assert(children_of(s, op) == children_of(s0, op).filter(pk).push(c));
            assert(parent_of(s, op) == parent_of(s0, op));
            assert(parent_of(s, c) == Some(op));
            assert(children_of(s, c) == if nn == c { children_of(s0, c).push(kk) } else { children_of(s0, c) });
            assert(parent_of(s, kk) == Some(nn));
            assert(children_of(s, kk) == children_of(s0, kk).filter(pc));
            assert(nn != c ==> children_of(s, nn) == children_of(s0, nn).push(kk) && parent_of(s, nn) == parent_of(s0, nn));
            assert forall|q: NodeId| q != op && q != c && q != kk && q != nn implies #[trigger] s[q] == s0[q] by {}
            assert forall|q: NodeId| #[trigger] valid(s, q) == valid(s0, q) && (valid(s, q) ==> data_of(s, q) == data_of(s0, q)) by {}
            // heights
            assert forall|q: NodeId| #[trigger] valid(s, q) implies h.contains_key(q) && match parent_of(s, q) {
                Some(pp) => valid(s, pp) && h[q] == h[pp] + 1,
                None => true,
            } by {
                assert(valid(s0, q));
                if q == kk {
                } else if q == c {
                } else if parent_of(s0, q) is Some {
                    let pp = parent_of(s0, q).unwrap();
                    assert(valid(s0, pp));
                    assert(parent_of(s, q) == Some(pp));
                    if in_c(q) {
                        assert(in_c(pp));
                    } else if in_k(q) {
                        assert(in_k(pp));
                        assert(!in_c(pp));
                    } else {
                        assert(!in_k(pp));
                        assert(!in_c(pp));
                    }
                }
            }
            lemma_chains_end(s, h);
            assert forall|q: NodeId| #[trigger] valid(s, q) implies h[q] < b0 + b0 by {
                assert(valid(s0, q));
                assert(h0[q] < b0 && h0[nn] < b0);
            }
            // parents list their children
            assert forall|q: NodeId| #[trigger] valid(s, q) implies match parent_of(s, q) {
                Some(pp) => valid(s, pp) && children_of(s, pp).contains(q),
                None => true,
            } by {
                assert(valid(s0, q));
                if q == kk {
                    assert(children_of(s, nn).last() == kk);
                } else if q == c {
                    assert(children_of(s, op).last() == c);
                } else if parent_of(s0, q) is Some {
                    let pp = parent_of(s0, q).unwrap();
                    assert(children_of(s0, pp).contains(q));
                    let j = choose|j: int| 0 <= j < children_of(s0, pp).len() && children_of(s0, pp)[j] == q;
                    if pp == op {
                        children_of(s0, op).lemma_filter_contains(pk, j);
                        let fl = children_of(s0, op).filter(pk);
                        let j2 = choose|j2: int| 0 <= j2 < fl.len() && fl[j2] == q;
                        assert(children_of(s, op)[j2] == q);
                    } else if pp == kk {
                        children_of(s0, kk).lemma_filter_contains(pc, j);
                        let fl = children_of(s0, kk).filter(pc);
                        let j2 = choose|j2: int| 0 <= j2 < fl.len() && fl[j2] == q;
                        assert(children_of(s, kk)[j2] == q);
                    } else {
                        assert(children_of(s, pp)[j] == q);
                    }
                }
            }
            // children know their parent
            assert forall|q: NodeId, i: int|
                #![trigger children_of(s, q)[i]]
                valid(s, q) && 0 <= i < children_of(s, q).len() implies valid(s, children_of(s, q)[i])
                    && parent_of(s, children_of(s, q)[i]) == Some(q) by {
                assert(valid(s0, q));
                let x = children_of(s, q)[i];
                if q == op {
                    let fl = children_of(s0, op).filter(pk);
                    if i < fl.len() {
                        assert(x == fl[i]);
                        assert(fl.contains(x));
                        children_of(s0, op).lemma_filter_contains_rev(pk, x);
                        let j = choose|j: int| 0 <= j < children_of(s0, op).len() && children_of(s0, op)[j] == x;
                        assert(valid(s0, children_of(s0, op)[j]));
                        assert(x != c);
                    }
                } else if q == kk {
                    let fl = children_of(s0, kk).filter(pc);
                    assert(x == fl[i]);
                    assert(fl.contains(x));
                    children_of(s0, kk).lemma_filter_contains_rev(pc, x);
                    let j = choose|j: int| 0 <= j < children_of(s0, kk).len() && children_of(s0, kk)[j] == x;
                    assert(valid(s0, children_of(s0, kk)[j]));
                    assert(x != kk) by {
                        assert(h0[x] == h0[kk] + 1);
                    }
                } else if (q == nn || q == c) && i == children_of(s, q).len() - 1 && (q == nn) {
                    assert(x == kk);
                } else {
                    assert(x == children_of(s0, q)[i]);
                    assert(valid(s0, children_of(s0, q)[i]));
                    assert(parent_of(s0, x) == Some(q));
                    assert(x != kk);
                    assert(x != c);
                }
            }
            // no child twice
            assert forall|q: NodeId| #[trigger] valid(s, q) implies children_of(s, q).no_duplicates() by {
                assert(valid(s0, q));
                if q == op {
                    lemma_filter_no_dup(children_of(s0, op), pk);
                    let fl = children_of(s0, op).filter(pk);
                    assert(!fl.contains(c)) by {
                        if fl.contains(c) {
                            children_of(s0, op).lemma_filter_contains_rev(pk, c);
                        }
                    }
                    assert forall|a: int, bb: int| 0 <= a < bb < children_of(s, q).len() implies children_of(s, q)[a] != children_of(s, q)[bb] by {
                        assert(children_of(s, q)[a] == fl[a]);
                        if bb < fl.len() {
                            assert(children_of(s, q)[bb] == fl[bb]);
                        }
                    }
                } else if q == kk {
                    lemma_filter_no_dup(children_of(s0, kk), pc);
                } else if q == nn {
                    let base = children_of(s0, nn);
                    assert forall|a: int, bb: int| 0 <= a < bb < children_of(s, q).len() implies children_of(s, q)[a] != children_of(s, q)[bb] by {
                        assert(children_of(s, q)[a] == base[a]);
                        if bb < base.len() {
                            assert(children_of(s, q)[bb] == base[bb]);
                        }
                    }
                }
            }
            assert forall|y: Id| #[trigger] self.inverted@.contains_key(y) implies valid(s, self.inverted@[y]) && data_of(s, self.inverted@[y]).kind.spec_id() == Some(y) by {
                assert(valid(s0, self.inverted@[y]));
            }
            assert forall|q: NodeId| #[trigger] valid(s, q) && data_of(s, q).kind.spec_id() is Some implies self.inverted@.contains_key(data_of(s, q).kind.spec_id().unwrap())
                && self.inverted@[data_of(s, q).kind.spec_id().unwrap()] == q by {
                assert(valid(s0, q));
            }
            assert forall|q: NodeId| #[trigger] valid(s, q) && q != r implies parent_of(s, q) is Some && !(data_of(s, q).kind is Root) by {
                assert(valid(s0, q));
            }
        }
        self.heights = Ghost(h);
        self.bound = Ghost(b0 + b0);
    }

    /// Files every task directly under `k` under the group `g`.
    fn regroup_tasks_of(&mut self, k: &NodeId, g: &Group)
        requires
            old(self).wf(),
            old(self).has(*k),
        ensures
            final(self).wf(),
            final(self).slots() == regroup_children(old(self).slots(), *k, *g),
            final(self).index() == old(self).index(),
            final(self).root() == old(self).root(),
    {
        let ghost s0 = self.slots();
        let children = self.children_ids(k);
        let ghost cs = children@;
        proof {
            assert(regroup_among(s0, cs.take(0), *g) =~= s0);
        }
        let n = children.len();
        let mut i: usize = 0;
        while i < n
            invariant
                self.wf(),
                n == children.len(),
                cs == children@,
                cs == children_of(s0, *k),
                0 <= i <= n,
                valid(s0, *k),
                consistent(s0),
                self.slots() == regroup_among(s0, cs.take(i as int), *g),
                self.index() == old(self).index(),
                self.root() == old(self).root(),
                forall|c: NodeId| #[trigger] cs.contains(c) ==> valid(s0, c) && parent_of(s0, c) == Some(*k),
                cs.no_duplicates(),
            decreases n - i,
        {
            let c = &children[i];
            let ghost s1 = self.slots();
            proof {
                assert(cs.contains(cs[i as int]));
                assert(!cs.take(i as int).contains(cs[i as int]));
                assert(valid(s1, *c));
                assert(data_of(s1, *c) == data_of(s0, *c));
            }
            let new_data = match &self.data(c).kind {
                TarsKind::Task(t) => {
                    let d = self.data(c);
                    Some(TarsNode {
                        kind: TarsKind::Task(Task {
                            id: t.id,
                            name: t.name.clone(),
                            group: g.duplicate(),
                            priority: t.priority,
                            description: t.description.clone(),
                            due: t.due,
                            finished_at: t.finished_at,
                        }),
                        parent: clone_opt_node_id(&d.parent),
                        depth: d.depth,
                    })
                },
                _ => None,
            };
            match new_data {
                Some(nd) => {
                    proof {
                        assert(nd == regrouped(data_of(s0, *c), *g));
                    }
                    self.set_node(c, nd);
                },
                None => {},
            }
            proof {
                let t1 = cs.take(i + 1);
                let t0 = cs.take(i as int);
                assert forall|q: NodeId| #[trigger] t1.contains(q) <==> (t0.contains(q) || q == cs[i as int]) by {
                    if t1.contains(q) {
                        let j = choose|j: int| 0 <= j < t1.len() && t1[j] == q;
                        if j < i {
                            assert(t0[j] == q);
                        }
                    }
                    if t0.contains(q) {
                        let j = choose|j: int| 0 <= j < t0.len() && t0[j] == q;
                        assert(t1[j] == q);
                    }
                    if q == cs[i as int] {
                        assert(t1[i as int] == q);
                    }
                }
                assert(self.slots() =~= regroup_among(s0, t1, *g));
            }
            i = i + 1;
        }
        proof {
            assert(cs.take(n as int) =~= cs);
            assert(regroup_among(s0, cs, *g) =~= regroup_children(s0, *k, *g));
        }
    }

    /// The node that stands for a parent group id: the root for `None`.
    pub open spec fn group_node(&self, pid: Option<Id>) -> NodeId {
        match pid {
            None => self.root(),
            Some(x) => self.index()[x],
        }
    }

    /// `x` is the id of a group in the tree.
    pub open spec fn is_group_id(&self, x: Id) -> bool {
        self.index().contains_key(x) && self.node(self.index()[x]).kind is Group
    }

    /// `x` is the id of a task in the tree.
    pub open spec fn is_task_id(&self, x: Id) -> bool {
        self.index().contains_key(x) && self.node(self.index()[x]).kind is Task
    }

    /// The daemon id of the parent of `k`, `None` when it is the root.
    pub open spec fn parent_item_id(&self, k: NodeId) -> Option<Id> {
        self.node(self.parent(k).unwrap()).kind.spec_id()
    }

    /// The diff names items the tree holds the way applying it expects: an
    /// added item is new and the item it goes under is in the tree, with room
    /// for one more level; an updated task holds no item and is not named as
    /// its own group; a moved group is not named as its own parent; a deleted
    /// item holds no item.
    pub open spec fn diff_applies(&self, diff: Diff) -> bool {
        match diff {
            Diff::Added(DiffInner::Task(t)) => self.index().contains_key(t.group.id) && !self.index().contains_key(t.id)
                && self.node(self.index()[t.group.id]).depth < u16::MAX,
            Diff::Added(DiffInner::Group(g)) => !self.index().contains_key(g.id) && match g.parent_id {
                None => true,
                Some(x) => self.index().contains_key(x) && self.node(self.index()[x]).depth < u16::MAX,
            },
            Diff::Updated(DiffInner::Task(t)) => self.is_task_id(t.id) && self.children(self.index()[t.id]).len() == 0
                && self.index().contains_key(t.group.id) && t.group.id != t.id
                && self.node(self.index()[t.group.id]).depth < u16::MAX,
            Diff::Updated(DiffInner::Group(g)) => self.index().contains_key(g.id) && (g.parent_id != self.parent_item_id(
                self.index()[g.id],
            ) ==> match g.parent_id {
                None => true,
                Some(x) => self.index().contains_key(x) && x != g.id,
            }),
            Diff::Deleted(x) => self.index().contains_key(x) && self.children(self.index()[x]).len() == 0,
        }
    }

    /// `post` is `pre` after the diff.
    pub open spec fn diff_effect(pre: &TarsTree, post: &TarsTree, diff: Diff) -> bool {
        match diff {
            Diff::Added(DiffInner::Task(t)) => {
                let p = pre.index()[t.group.id];
                let d = TarsNode { kind: TarsKind::Task(t), parent: Some(p), depth: (pre.node(p).depth + 1) as u16 };
                exists|n: NodeId|
                    fresh(pre.slots(), n) && post.slots() == with_child(pre.slots(), p, n, d) && post.index()
                        == pre.index().insert(t.id, n)
            },
            Diff::Added(DiffInner::Group(g)) => {
                let p = pre.group_node(g.parent_id);
                let d = TarsNode {
                    kind: TarsKind::Group(g),
                    parent: if g.parent_id is None { None } else { Some(p) },
                    depth: if g.parent_id is None { 0 } else { (pre.node(p).depth + 1) as u16 },
                };
                exists|n: NodeId|
                    fresh(pre.slots(), n) && post.slots() == with_child(pre.slots(), p, n, d) && post.index()
                        == pre.index().insert(g.id, n)
            },
            Diff::Updated(DiffInner::Task(t)) => {
                let s1 = without_leaf(pre.slots(), pre.index()[t.id]);
                let p = pre.index()[t.group.id];
                let d = TarsNode { kind: TarsKind::Task(t), parent: Some(p), depth: (data_of(s1, p).depth + 1) as u16 };
                exists|n: NodeId|
                    fresh(s1, n) && post.slots() == with_child(s1, p, n, d) && post.index() == pre.index().insert(
                        t.id,
                        n,
                    )
            },
            Diff::Updated(DiffInner::Group(g)) => {
                let k = pre.index()[g.id];
                let np = pre.group_node(g.parent_id);
                let s1 = if g.parent_id != pre.parent_item_id(k) {
                    if is_ancestor_or_self(pre.slots(), k, np) {
                        moved_down(pre.slots(), k, np, lifted(pre.slots(), np, k))
                    } else {
                        moved_under(pre.slots(), k, np)
                    }
                } else {
                    with_data(pre.slots(), k, TarsNode { kind: TarsKind::Group(g), parent: pre.parent(k), depth: pre.node(k).depth })
                };
                post.slots() == regroup_children(s1, k, g) && post.index() == pre.index()
            },
            Diff::Deleted(x) => post.slots() == without_leaf(pre.slots(), pre.index()[x]) && post.index()
                == pre.index().remove(x),
        }
    }

    /// Applies a diff the daemon broadcast.
    pub fn apply_diff(&mut self, diff: Diff)
        requires
            old(self).wf(),
            old(self).diff_applies(diff),
        ensures
            final(self).wf(),
            final(self).root() == old(self).root(),
            forall|k: NodeId| #[trigger] old(self).issued(k) ==> final(self).issued(k),
            TarsTree::diff_effect(old(self), final(self), diff),
    {
        let ghost d0 = diff;
        let ghost s0 = self.slots();
        match diff {
            Diff::Added(DiffInner::Task(t)) => {
                let g = self.translate_id_to_node_id(&t.group.id).unwrap();
                let depth = self.data(&g).depth;
                let data = TarsNode { kind: TarsKind::Task(t), parent: Some(g.clone()), depth: depth + 1 };
                let ghost d = data;
                let n = self.insert_child(&g, data);
                proof {
                    assert(fresh(s0, n) && self.slots() == with_child(s0, g, n, d));
                    assert(self.index() == old(self).index().insert(t.id, n));
                    assert(TarsTree::diff_effect(old(self), self, d0));
                }
            },
            Diff::Added(DiffInner::Group(g)) => {
                match g.parent_id {
                    None => {
                        let root = self.root_node_id();
                        let data = TarsNode { kind: TarsKind::Group(g), parent: None, depth: 0 };
                        let ghost d = data;
                        let n = self.insert_child(&root, data);
                        proof {
                            assert(fresh(s0, n) && self.slots() == with_child(s0, root, n, d));
                            assert(TarsTree::diff_effect(old(self), self, d0));
                        }
                    },
                    Some(pid) => {
                        let p = self.translate_id_to_node_id(&pid).unwrap();
                        let depth = self.data(&p).depth;
                        let data = TarsNode { kind: TarsKind::Group(g), parent: Some(p.clone()), depth: depth + 1 };
                        let ghost d = data;
                        let n = self.insert_child(&p, data);
                        proof {
                            assert(fresh(s0, n) && self.slots() == with_child(s0, p, n, d));
                            assert(TarsTree::diff_effect(old(self), self, d0));
                        }
                    },
                }
            },
            Diff::Updated(DiffInner::Task(t)) => {
                let k = self.translate_id_to_node_id(&t.id).unwrap();
                self.remove_leaf(k);
                let ghost s1 = self.slots();
                let p = self.translate_id_to_node_id(&t.group.id).unwrap();
                let depth = self.data(&p).depth;
                let data = TarsNode { kind: TarsKind::Task(t), parent: Some(p.clone()), depth: depth + 1 };
                let ghost d = data;
                let n = self.insert_child(&p, data);
                proof {
                    assert(fresh(s1, n) && self.slots() == with_child(s1, p, n, d));
                    assert(self.index() =~= old(self).index().insert(t.id, n));
                    assert(TarsTree::diff_effect(old(self), self, d0));
                }
            },
            Diff::Updated(DiffInner::Group(g)) => {
                let k = self.translate_id_to_node_id(&g.id).unwrap();
                let pk = self.parent_id(&k).unwrap();
                let current = self.data(&pk).kind.id();
                if !same_id(g.parent_id, current) {
                    let np = match g.parent_id {
                        Some(pid) => self.translate_id_to_node_id(&pid).unwrap(),
                        None => self.root_node_id(),
                    };
                    proof {
                        let r = self.root();
                        if g.parent_id is None {
                            if is_ancestor_or_self(s0, k, r) {
                                let m = choose|m: nat| #[trigger] anc(s0, r, m) == Some(k);
                                self.lemma_anc_height(r, k, m);
                            }
                        }
                    }
                    if self.is_within(&k, &np) {
                        self.move_down(&k, &np);
                    } else {
                        self.move_under(&k, &np);
                        assert(self.slots() == moved_under(s0, k, old(self).group_node(g.parent_id)));
                    }
                } else {
                    let depth = self.data(&k).depth;
                    let data = TarsNode { kind: TarsKind::Group(g.duplicate()), parent: Some(pk.clone()), depth };
                    self.set_node(&k, data);
                    assert(self.slots() == with_data(s0, k, TarsNode { kind: TarsKind::Group(g), parent: old(self).parent(k), depth: old(self).node(k).depth }));
                }
                let ghost s1 = self.slots();
                self.regroup_tasks_of(&k, &g);
                assert(self.slots() == regroup_children(s1, k, g));
                assert(TarsTree::diff_effect(old(self), self, d0));
            },
            Diff::Deleted(id) => {
                let k = self.translate_id_to_node_id(&id).unwrap();
                self.remove_leaf(k);
                assert(TarsTree::diff_effect(old(self), self, d0));
            },
        }
    }

    /// Whether `k` is `q` or one of its ancestors.
    pub fn is_within(&self, k: &NodeId, q: &NodeId) -> (r: bool)
        requires
            self.wf(),
            self.has(*q),
        ensures
            r == is_ancestor_or_self(self.slots(), *k, *q),
    {
        let ghost s = self.slots();
        let mut cur = q.clone();
        loop
            invariant
                self.wf(),
                s == self.slots(),
                self.has(cur),
                is_ancestor_or_self(s, *k, *q) == is_ancestor_or_self(s, *k, cur),
            decreases self.heights()[cur],
        {
            if node_id_eq(&cur, k) {
                proof {
                    assert(anc(s, cur, 0) == Some(cur));
                }
                return true;
            }
            match self.parent_id(&cur) {
                None => {
                    proof {
                        if is_ancestor_or_self(s, *k, cur) {
                            let n = choose|n: nat| #[trigger] anc(s, cur, n) == Some(*k);
                            assert(n > 0);
                        }
                    }
                    return false;
                },
                Some(p) => {
                    proof {
                        if is_ancestor_or_self(s, *k, cur) {
                            let n = choose|n: nat| #[trigger] anc(s, cur, n) == Some(*k);
                            assert(anc(s, p, (n - 1) as nat) == Some(*k));
                        }
                        if is_ancestor_or_self(s, *k, p) {
                            let n = choose|n: nat| #[trigger] anc(s, p, n) == Some(*k);
                            assert(anc(s, cur, n + 1) == Some(*k));
                        }
                    }
                    cur = p;
                },
            }
        }
    }

    /// Whether applying the diff is defined: the items it names are in the
    /// tree as it expects.
    pub fn can_apply(&self, diff: &Diff) -> (r: bool)
        requires
            self.wf(),
        ensures
            r == self.diff_applies(*diff),
    {
        match diff {
            Diff::Added(DiffInner::Task(t)) => {
                let g = match self.translate_id_to_node_id(&t.group.id) {
                    Some(g) => g,
                    None => {
                        return false;
                    },
                };
                self.translate_id_to_node_id(&t.id).is_none() && self.data(&g).depth < u16::MAX
            },
            Diff::Added(DiffInner::Group(g)) => {
                if self.translate_id_to_node_id(&g.id).is_some() {
                    return false;
                }
                match g.parent_id {
                    None => true,
                    Some(x) => match self.translate_id_to_node_id(&x) {
                        Some(p) => self.data(&p).depth < u16::MAX,
                        None => false,
                    },
                }
            },
            Diff::Updated(DiffInner::Task(t)) => {
                if !self.is_task(t.id) || t.group.id == t.id {
                    return false;
                }
                let k = self.translate_id_to_node_id(&t.id).unwrap();
                if self.children_ids(&k).len() != 0 {
                    return false;
                }
                match self.translate_id_to_node_id(&t.group.id) {
                    Some(g) => self.data(&g).depth < u16::MAX,
                    None => false,
                }
            },
            Diff::Updated(DiffInner::Group(g)) => {
                let k = match self.translate_id_to_node_id(&g.id) {
                    Some(k) => k,
                    None => {
                        return false;
                    },
                };
                let pk = self.parent_id(&k).unwrap();
                let current = self.data(&pk).kind.id();
                if same_id(g.parent_id, current) {
                    return true;
                }
                match g.parent_id {
                    None => true,
                    Some(x) => self.translate_id_to_node_id(&x).is_some() && x != g.id,
                }
            },
            Diff::Deleted(x) => {
                match self.translate_id_to_node_id(x) {
                    None => false,
                    Some(k) => self.children_ids(&k).len() == 0,
                }
            },
        }
    }

    /// Whether `x` is the id of a task in the tree.
    pub fn is_task(&self, x: Id) -> (r: bool)
        requires
            self.wf(),
        ensures
            r == self.is_task_id(x),
    {
        match self.translate_id_to_node_id(&x) {
            None => false,
            Some(k) => match self.data(&k).kind {
                TarsKind::Task(_) => true,
                _ => false,
            },
        }
    }

    /// The node `k` holds one of `groups` or `tasks`, under the node of its
    /// parent group (the root for a group without parent), one level deeper;
    /// a group sits less than `groups.len() - pending` deep, as deep as it
    /// nests among `groups`.
    pub open spec fn node_built(&self, k: NodeId, groups: Seq<Group>, tasks: Seq<Task>) -> bool {
        match self.node(k).kind {
            TarsKind::Group(g) => groups.contains(g) && match g.parent_id {
                None => self.parent(k) == Some(self.root()) && self.node(k).parent == Some(self.root())
                    && self.node(k).depth == 0,
                Some(x) => self.is_group_id(x) && self.parent(k) == Some(self.index()[x]) && self.node(k).parent
                    == Some(self.index()[x]) && self.node(k).depth == self.node(self.index()[x]).depth + 1,
            } && self.node(k).depth + pending(groups, self.index()) < groups.len() && nests(groups, g, self.node(k).depth as nat),
            TarsKind::Task(t) => tasks.contains(t) && self.is_group_id(t.group.id) && self.parent(k) == Some(
                self.index()[t.group.id],
            ) && self.node(k).parent == Some(self.index()[t.group.id]) && self.node(k).depth == self.node(
                self.index()[t.group.id],
            ).depth + 1,
            TarsKind::Root => false,
        }
    }

    /// Every node below the root is built from `groups` and `tasks`.
    pub open spec fn built_from(&self, groups: Seq<Group>, tasks: Seq<Task>) -> bool {
        forall|k: NodeId| #[trigger] self.has(k) && k != self.root() ==> self.node_built(k, groups, tasks)
    }

    /// A node built in `pre` stays built in `post` when it keeps its data
    /// and parent, the index keeps its entries and fewer groups are pending.
    proof fn lemma_node_built_kept(pre: &TarsTree, post: &TarsTree, k: NodeId, groups: Seq<Group>, tasks: Seq<Task>)
        requires
            pre.wf(),
            pre.has(k),
            pre.node_built(k, groups, tasks),
            post.has(k),
            post.node(k) == pre.node(k),
            post.parent(k) == pre.parent(k),
            post.root() == pre.root(),
            forall|x: Id| #[trigger] pre.index().contains_key(x) ==> post.index().contains_key(x) && post.index()[x] == pre.index()[x],
            forall|q: NodeId| #[trigger] pre.has(q) ==> post.has(q) && post.node(q) == pre.node(q),
            pending(groups, post.index()) <= pending(groups, pre.index()),
        ensures
            post.node_built(k, groups, tasks),
    {
        match pre.node(k).kind {
            TarsKind::Group(g) => {
                if let Some(x) = g.parent_id {
                    assert(pre.has(pre.index()[x]));
                }
            },
            TarsKind::Task(t) => {
                assert(pre.has(pre.index()[t.group.id]));
            },
            TarsKind::Root => {},
        }
    }

    /// All the subgroups and tasks of the group `x` among `groups` and
    /// `tasks` are in the tree.
    pub open spec fn complete(&self, x: Id, groups: Seq<Group>, tasks: Seq<Task>) -> bool {
        &&& forall|i: int| 0 <= i < groups.len() && #[trigger] groups[i].parent_id == Some(x) ==> self.index().contains_key(groups[i].id)
        &&& forall|i: int| 0 <= i < tasks.len() && #[trigger] tasks[i].group.id == x ==> self.index().contains_key(tasks[i].id)
    }

    /// Attaches `group` under `parent`, its tasks below it and, recursively,
    /// its subgroups after them, each in the order of `tasks` and `groups`.
    fn attach_children_of_group(
        &mut self,
        group: &Group,
        groups: &Vec<Group>,
        tasks: &Vec<Task>,
        depth: u16,
        parent: &NodeId,
        Ghost(fuel): Ghost<nat>,
    )
        requires
            fuel == pending(groups@, old(self).index()),
            old(self).wf(),
            old(self).built_from(groups@, tasks@),
            nesting_fits(groups@),
            nests(groups@, *group, depth as nat),
            groups@.contains(*group),
            TarsTree::distinct_ids(groups@, tasks@),
            !old(self).index().contains_key(group.id),
            old(self).has(*parent),
            match group.parent_id {
                None => *parent == old(self).root() && depth == 0,
                Some(x) => old(self).is_group_id(x) && *parent == old(self).index()[x] && depth == old(self).node(*parent).depth + 1,
            },
            depth + pending(groups@, old(self).index()) < groups@.len() + 1,
        ensures
            final(self).wf(),
            final(self).built_from(groups@, tasks@),
            final(self).root() == old(self).root(),
            old(self).index().dom().subset_of(final(self).index().dom()),
            forall|x: Id| #[trigger] old(self).index().contains_key(x) ==> final(self).index()[x] == old(self).index()[x],
            final(self).index().contains_key(group.id),
            forall|x: Id| #[trigger] final(self).is_group_id(x) && !old(self).index().contains_key(x) ==> final(self).complete(x, groups@, tasks@),
            forall|k: NodeId| #[trigger] old(self).has(k) ==> final(self).has(k) && final(self).node(k) == old(self).node(k),
            forall|q: NodeId| #[trigger] old(self).has(q) && q != *parent ==> final(self).children(q) == old(self).children(q),
            final(self).children(*parent) == old(self).children(*parent).push(final(self).index()[group.id]),
            forall|x: Id| #[trigger] final(self).is_group_id(x) && !old(self).index().contains_key(x) ==> final(self).ordered(x, groups@, tasks@),
        decreases fuel,
    {
        let ghost ix0 = self.index();
        let ghost s0 = self.slots();
        let ghost p0 = pending(groups@, ix0);
        let ghost n = groups@.len();
        let ghost pre0 = *self;
        let data = TarsNode { kind: TarsKind::Group(group.duplicate()), parent: Some(parent.clone()), depth };
        let gid = self.insert_child(parent, data);
        proof {
            lemma_pending_shrinks(groups@, ix0, self.index(), *group);
            if let Some(x) = group.parent_id {
                assert(pre0.has(ix0[x]));
            }
            assert forall|k: NodeId| #[trigger] self.has(k) && k != self.root() implies self.node_built(k, groups@, tasks@) by {
                if k != gid {
                    assert(valid(s0, k));
                    assert(pre0.has(k) && k != pre0.root());
                    TarsTree::lemma_node_built_kept(&pre0, self, k, groups@, tasks@);
                }
            }
        }
        proof {
            reveal(Seq::filter);
            assert(tasks@.take(0).filter(task_in(group.id)) =~= Seq::<Task>::empty());
            assert(self.child_ids(gid) =~= task_ids(tasks@.take(0).filter(task_in(group.id))));
        }
        let nt = tasks.len();
        let mut i: usize = 0;
        while i < nt
            invariant
                self.wf(),
                self.built_from(groups@, tasks@),
                nt == tasks@.len(),
                n == groups@.len(),
                nesting_fits(groups@),
                nests(groups@, *group, depth as nat),
                groups@.contains(*group),
                0 <= i <= nt,
                self.root() == old(self).root(),
                forall|x: Id| #[trigger] ix0.contains_key(x) ==> self.index().contains_key(x) && self.index()[x] == ix0[x],
                self.index().contains_key(group.id),
                self.index()[group.id] == gid,
                self.has(gid),
                self.node(gid).kind == TarsKind::Group(*group),
                self.node(gid).depth == depth,
                forall|k: NodeId| #[trigger] valid(s0, k) ==> self.has(k) && self.node(k) == data_of(s0, k),
                forall|q: NodeId| #[trigger] valid(s0, q) && q != *parent ==> self.children(q) == children_of(s0, q),
                self.children(*parent) == children_of(s0, *parent).push(gid),
                fresh(s0, gid),
                valid(s0, *parent),
                *parent != gid,
                forall|x: Id| #[trigger] self.is_group_id(x) && !ix0.contains_key(x) ==> x == group.id,
                forall|j: int| 0 <= j < i && #[trigger] tasks@[j].group.id == group.id ==> self.index().contains_key(tasks@[j].id),
                TarsTree::distinct_ids(groups@, tasks@),
                self.child_ids(gid) == task_ids(tasks@.take(i as int).filter(task_in(group.id))),
                pending(groups@, self.index()) < p0,
                depth + p0 < n + 1,
            decreases nt - i,
        {
            let t = &tasks[i];
            proof {
                lemma_filter_take_step(tasks@, task_in(group.id), i as int);
            }
            if t.group.id == group.id {
                proof {
                    self.lemma_task_not_yet(gid, group.id, i as int, groups@, tasks@);
                }
                let node = TarsNode { kind: TarsKind::Task(t.duplicate()), parent: Some(gid.clone()), depth: depth + 1 };
                let ghost pre = *self;
                let ghost s1 = self.slots();
                let ghost ix1 = self.index();
                let nid = self.insert_child(&gid, node);
                proof {
                    lemma_pending_shrinks(groups@, ix1, self.index(), *group);
                    assert forall|k: NodeId| #[trigger] self.has(k) && k != self.root() implies self.node_built(k, groups@, tasks@) by {
                        if k != nid {
                            assert(valid(s1, k));
                            assert(pre.has(k) && k != pre.root());
                            TarsTree::lemma_node_built_kept(&pre, self, k, groups@, tasks@);
                        } else {
                            assert(tasks@[i as int] == *t);
                            assert(tasks@.contains(*t));
                        }
                    }
                    assert forall|k: NodeId| #[trigger] valid(s0, k) implies self.has(k) && self.node(k) == data_of(s0, k) by {
                        assert(valid(s1, k));
                    }
                    assert forall|x: Id| #[trigger] self.is_group_id(x) && !ix0.contains_key(x) implies x == group.id by {
                        if x != t.id {
                            assert(pre.is_group_id(x));
                        }
                    }
                    assert forall|q: NodeId| #[trigger] valid(s0, q) && q != *parent implies self.children(q) == children_of(s0, q) by {
                        assert(valid(s1, q));
                        assert(q != nid);
                    }
                    assert(valid(s1, *parent));
                    let fs = tasks@.take(i as int).filter(task_in(group.id));
                    assert(task_ids(fs.push(*t)) =~= task_ids(fs).push(t.id));
                    assert forall|c: int| 0 <= c < pre.children(gid).len() implies self.node(#[trigger] pre.children(gid)[c]) == pre.node(pre.children(gid)[c]) by {
                        assert(valid(s1, pre.children(gid)[c]));
                    }
                    assert(self.child_ids(gid) =~= pre.child_ids(gid).push(t.id));
                }
            }
            i = i + 1;
        }
        proof {
            reveal(Seq::filter);
            assert(tasks@.take(nt as int) =~= tasks@);
            assert(groups@.take(0).filter(group_under(Some(group.id))) =~= Seq::<Group>::empty());
            assert(self.child_ids(gid) =~= task_ids(tasks@.filter(task_in(group.id))) + group_ids(
                groups@.take(0).filter(group_under(Some(group.id))),
            ));
        }
        let ng = groups.len();
        let mut j: usize = 0;
        while j < ng
            invariant
                self.wf(),
                self.built_from(groups@, tasks@),
                nt == tasks@.len(),
                ng == groups@.len(),
                n == groups@.len(),
                nesting_fits(groups@),
                nests(groups@, *group, depth as nat),
                groups@.contains(*group),
                0 <= j <= ng,
                self.root() == old(self).root(),
                forall|x: Id| #[trigger] ix0.contains_key(x) ==> self.index().contains_key(x) && self.index()[x] == ix0[x],
                self.index().contains_key(group.id),
                self.index()[group.id] == gid,
                self.has(gid),
                self.node(gid).kind == TarsKind::Group(*group),
                self.node(gid).depth == depth,
                forall|k: NodeId| #[trigger] valid(s0, k) ==> self.has(k) && self.node(k) == data_of(s0, k),
                forall|q: NodeId| #[trigger] valid(s0, q) && q != *parent ==> self.children(q) == children_of(s0, q),
                self.children(*parent) == children_of(s0, *parent).push(gid),
                fresh(s0, gid),
                valid(s0, *parent),
                *parent != gid,
                forall|x: Id| #[trigger] self.is_group_id(x) && !ix0.contains_key(x) && x != group.id ==> self.complete(x, groups@, tasks@),
                forall|m: int| 0 <= m < nt && #[trigger] tasks@[m].group.id == group.id ==> self.index().contains_key(tasks@[m].id),
                forall|m: int| 0 <= m < j && #[trigger] groups@[m].parent_id == Some(group.id) ==> self.index().contains_key(groups@[m].id),
                TarsTree::distinct_ids(groups@, tasks@),
                self.child_ids(gid) == task_ids(tasks@.filter(task_in(group.id))) + group_ids(
                    groups@.take(j as int).filter(group_under(Some(group.id))),
                ),
                forall|x: Id| #[trigger] self.is_group_id(x) && !ix0.contains_key(x) && x != group.id ==> self.ordered(x, groups@, tasks@),
                pending(groups@, self.index()) < p0,
                depth + p0 < n + 1,
                p0 == fuel,
            decreases ng - j,
        {
            let c = &groups[j];
            proof {
                lemma_filter_take_step(groups@, group_under(Some(group.id)), j as int);
            }
            if same_id(c.parent_id, Some(group.id)) {
                proof {
                    let prefix = task_ids(tasks@.filter(task_in(group.id)));
                    assert forall|q: int| 0 <= q < prefix.len() implies task_ids(tasks@).contains(#[trigger] prefix[q]) by {
                        let e = tasks@.filter(task_in(group.id))[q];
                        assert(tasks@.filter(task_in(group.id)).contains(e));
                        tasks@.lemma_filter_contains_rev(task_in(group.id), e);
                        let m = choose|m: int| 0 <= m < tasks@.len() && tasks@[m] == e;
                        assert(task_ids(tasks@)[m] == prefix[q]);
                    }
                    assert(groups@[j as int] == *c);
                    self.lemma_group_not_yet(gid, Some(group.id), j as int, prefix, groups@, tasks@);
                }
                let ghost ix1 = self.index();
                let ghost pre = *self;
                proof {
                    assert(groups@[j as int] == *c);
                    assert(self.is_group_id(group.id));
                }
                let ghost f2 = pending(groups@, self.index());
                assert(f2 < fuel);
                self.attach_children_of_group(c, groups, tasks, depth + 1, &gid, Ghost(f2));
                proof {
                    assert forall|k: NodeId| #[trigger] valid(s0, k) implies self.has(k) && self.node(k) == data_of(s0, k) by {
                        assert(pre.has(k));
                    }
                    assert forall|x: Id| #[trigger] self.is_group_id(x) && !ix0.contains_key(x) && x != group.id implies self.complete(x, groups@, tasks@) by {
                        if ix1.contains_key(x) {
                            assert(pre.has(ix1[x]));
                            assert(pre.is_group_id(x));
                            assert(pre.complete(x, groups@, tasks@));
                        }
                    }
                    assert forall|m: int| 0 <= m < nt && #[trigger] tasks@[m].group.id == group.id implies self.index().contains_key(tasks@[m].id) by {
                        assert(pre.index().contains_key(tasks@[m].id));
                    }
                    assert forall|q: NodeId| #[trigger] valid(s0, q) && q != *parent implies self.children(q) == children_of(s0, q) by {
                        assert(pre.has(q));
                    }
                    assert(pre.has(*parent));
                    assert forall|m: int| 0 <= m < j + 1 && #[trigger] groups@[m].parent_id == Some(group.id) implies self.index().contains_key(groups@[m].id) by {
                        if m < j {
                            assert(pre.index().contains_key(groups@[m].id));
                        }
                    }
                    lemma_pending_shrinks(groups@, ix1, self.index(), *c);
                    let fs = groups@.take(j as int).filter(group_under(Some(group.id)));
                    assert(group_ids(fs.push(*c)) =~= group_ids(fs).push(c.id));
                    assert forall|q: int| 0 <= q < pre.children(gid).len() implies self.node(#[trigger] pre.children(gid)[q]) == pre.node(pre.children(gid)[q]) by {
                        assert(pre.has(pre.children(gid)[q]));
                    }
                    assert(self.has(self.index()[c.id]));
                    assert(self.child_ids(gid) =~= pre.child_ids(gid).push(c.id));
                    assert forall|x: Id| #[trigger] self.is_group_id(x) && !ix0.contains_key(x) && x != group.id implies self.ordered(x, groups@, tasks@) by {
                        if ix1.contains_key(x) {
                            let kx = ix1[x];
                            assert(pre.has(kx));
                            assert(pre.is_group_id(x));
                            assert(pre.ordered(x, groups@, tasks@));
                            assert(kx != gid);
                            assert forall|q: int| 0 <= q < pre.children(kx).len() implies self.node(#[trigger] pre.children(kx)[q]) == pre.node(pre.children(kx)[q]) by {
                                assert(pre.has(pre.children(kx)[q]));
                            }
                            assert(self.child_ids(kx) =~= pre.child_ids(kx));
                        }
                    }
                }
            }
            j = j + 1;
        }
        proof {
            assert(groups@.take(ng as int) =~= groups@);
            assert(self.ordered(group.id, groups@, tasks@));
            assert(self.complete(group.id, groups@, tasks@));
            assert forall|k: NodeId| #[trigger] old(self).has(k) implies self.has(k) && self.node(k) == old(self).node(k) by {
                assert(valid(s0, k));
            }
        }
    }

    /// The daemon ids of the children of `k`, in order.
    pub open spec fn child_ids(&self, k: NodeId) -> Seq<Id> {
        Seq::new(self.children(k).len(), |i: int| self.node(self.children(k)[i]).kind.spec_id().unwrap())
    }

    /// Under the node of the group `x` hang its tasks, then its subgroups,
    /// each in the order of `tasks` and `groups`.
    pub open spec fn ordered(&self, x: Id, groups: Seq<Group>, tasks: Seq<Task>) -> bool {
        self.child_ids(self.index()[x]) == task_ids(tasks.filter(task_in(x))) + group_ids(groups.filter(group_under(Some(x))))
    }

    /// An item of the tree built from `groups` and `tasks` is among the
    /// children of the node of its group: the group of a task, the parent
    /// group of a group, the root for a group without one.
    proof fn lemma_indexed_is_child(&self, y: Id, groups: Seq<Group>, tasks: Seq<Task>)
        requires
            self.wf(),
            self.built_from(groups, tasks),
            self.index().contains_key(y),
        ensures
            match self.node(self.index()[y]).kind {
                TarsKind::Task(t) => self.child_ids(self.index()[t.group.id]).contains(y),
                TarsKind::Group(g) => self.child_ids(self.group_node(g.parent_id)).contains(y),
                TarsKind::Root => false,
            },
    {
        let s = self.slots();
        let k = self.index()[y];
        assert(self.has(k));
        assert(k != self.root());
        assert(self.node_built(k, groups, tasks));
        let p = self.parent(k).unwrap();
        assert(children_of(s, p).contains(k));
        let i = choose|i: int| 0 <= i < children_of(s, p).len() && children_of(s, p)[i] == k;
        assert(self.child_ids(p)[i] == y);
    }

    /// The next task of a group, while the tasks before it hang under the
    /// group's node, is not in the tree yet.
    proof fn lemma_task_not_yet(&self, gid: NodeId, gx: Id, i: int, groups: Seq<Group>, tasks: Seq<Task>)
        requires
            self.wf(),
            self.built_from(groups, tasks),
            TarsTree::distinct_ids(groups, tasks),
            0 <= i < tasks.len(),
            tasks[i].group.id == gx,
            self.index().contains_key(gx),
            self.index()[gx] == gid,
            self.child_ids(gid) == task_ids(tasks.take(i).filter(task_in(gx))),
        ensures
            !self.index().contains_key(tasks[i].id),
    {
        let y = tasks[i].id;
        if self.index().contains_key(y) {
            let k = self.index()[y];
            self.lemma_indexed_is_child(y, groups, tasks);
            TarsTree::lemma_same_id(groups, tasks);
            assert(self.has(k) && k != self.root());
            assert(self.node_built(k, groups, tasks));
            match self.node(k).kind {
                TarsKind::Task(tt) => {
                    assert(tasks.contains(tt) && tt.id == tasks[i].id);
                    assert(tt == tasks[i]);
                    let fs = tasks.take(i).filter(task_in(gx));
                    let q = choose|q: int| 0 <= q < task_ids(fs).len() && task_ids(fs)[q] == y;
                    assert(fs.contains(fs[q]));
                    tasks.take(i).lemma_filter_contains_rev(task_in(gx), fs[q]);
                    let m = choose|m: int| 0 <= m < tasks.take(i).len() && tasks.take(i)[m] == fs[q];
                    assert(tasks[m].id == tasks[i].id);
                },
                TarsKind::Group(gg) => {
                    assert(groups.contains(gg) && gg.id == tasks[i].id);
                },
                TarsKind::Root => {},
            }
        }
    }

    /// The next group under a node, while the tasks (`prefix`) and the groups
    /// before it hang under the node, is not in the tree yet.
    proof fn lemma_group_not_yet(&self, p: NodeId, px: Option<Id>, j: int, prefix: Seq<Id>, groups: Seq<Group>, tasks: Seq<Task>)
        requires
            self.wf(),
            self.built_from(groups, tasks),
            TarsTree::distinct_ids(groups, tasks),
            0 <= j < groups.len(),
            groups[j].parent_id == px,
            px matches Some(x) ==> self.index().contains_key(x),
            self.group_node(px) == p,
            self.child_ids(p) == prefix + group_ids(groups.take(j).filter(group_under(px))),
            forall|q: int| 0 <= q < prefix.len() ==> task_ids(tasks).contains(#[trigger] prefix[q]),
        ensures
            !self.index().contains_key(groups[j].id),
    {
        let y = groups[j].id;
        if self.index().contains_key(y) {
            let k = self.index()[y];
            self.lemma_indexed_is_child(y, groups, tasks);
            TarsTree::lemma_same_id(groups, tasks);
            assert(self.has(k) && k != self.root());
            assert(self.node_built(k, groups, tasks));
            match self.node(k).kind {
                TarsKind::Task(tt) => {
                    assert(tasks.contains(tt) && tt.id == groups[j].id);
                },
                TarsKind::Group(gg) => {
                    assert(groups.contains(gg) && gg.id == groups[j].id);
                    assert(gg == groups[j]);
                    let ids = self.child_ids(p);
                    let q = choose|q: int| 0 <= q < ids.len() && ids[q] == y;
                    if q < prefix.len() {
                        assert(ids[q] == prefix[q]);
                        assert(task_ids(tasks).contains(prefix[q]));
                        let m = choose|m: int| 0 <= m < task_ids(tasks).len() && task_ids(tasks)[m] == prefix[q];
                        assert(groups[j].id != tasks[m].id);
                    } else {
                        let fs = groups.take(j).filter(group_under(px));
                        assert(ids[q] == group_ids(fs)[q - prefix.len()]);
                        let e = fs[q - prefix.len()];
                        assert(fs.contains(e));
                        groups.take(j).lemma_filter_contains_rev(group_under(px), e);
                        let m = choose|m: int| 0 <= m < groups.take(j).len() && groups.take(j)[m] == e;
                        assert(groups[m].id == groups[j].id);
                    }
                },
                TarsKind::Root => {},
            }
        }
    }

    /// Two items with the same id, among distinct ids, are the same.
    proof fn lemma_same_id(groups: Seq<Group>, tasks: Seq<Task>)
        requires
            TarsTree::distinct_ids(groups, tasks),
        ensures
            forall|t: Task, i: int| #![trigger tasks.contains(t), tasks[i]] tasks.contains(t) && 0 <= i < tasks.len() && t.id == tasks[i].id ==> t == tasks[i],
            forall|g: Group, i: int| #![trigger groups.contains(g), groups[i]] groups.contains(g) && 0 <= i < groups.len() && g.id == groups[i].id ==> g == groups[i],
            forall|t: Task, i: int| #![trigger tasks.contains(t), groups[i]] tasks.contains(t) && 0 <= i < groups.len() ==> t.id != groups[i].id,
            forall|g: Group, i: int| #![trigger groups.contains(g), tasks[i]] groups.contains(g) && 0 <= i < tasks.len() ==> g.id != tasks[i].id,
    {
        assert forall|t: Task, i: int| #![trigger tasks.contains(t), tasks[i]] tasks.contains(t) && 0 <= i < tasks.len() && t.id == tasks[i].id implies t == tasks[i] by {
            let a = choose|a: int| 0 <= a < tasks.len() && tasks[a] == t;
            if a < i {
                assert(tasks[a].id != tasks[i].id);
            } else if a > i {
                assert(tasks[i].id != tasks[a].id);
            }
        }
        assert forall|g: Group, i: int| #![trigger groups.contains(g), groups[i]] groups.contains(g) && 0 <= i < groups.len() && g.id == groups[i].id implies g == groups[i] by {
            let a = choose|a: int| 0 <= a < groups.len() && groups[a] == g;
            if a < i {
                assert(groups[a].id != groups[i].id);
            } else if a > i {
                assert(groups[i].id != groups[a].id);
            }
        }
        assert forall|t: Task, i: int| #![trigger tasks.contains(t), groups[i]] tasks.contains(t) && 0 <= i < groups.len() implies t.id != groups[i].id by {
            let a = choose|a: int| 0 <= a < tasks.len() && tasks[a] == t;
            assert(groups[i].id != tasks[a].id);
        }
        assert forall|g: Group, i: int| #![trigger groups.contains(g), tasks[i]] groups.contains(g) && 0 <= i < tasks.len() implies g.id != tasks[i].id by {
            let a = choose|a: int| 0 <= a < groups.len() && groups[a] == g;
            assert(groups[a].id != tasks[i].id);
        }
    }

    /// The ids of `groups` and `tasks` are all different.
    pub open spec fn distinct_ids(groups: Seq<Group>, tasks: Seq<Task>) -> bool {
        &&& forall|i: int, j: int| 0 <= i < j < groups.len() ==> groups[i].id != groups[j].id
        &&& forall|i: int, j: int| 0 <= i < j < tasks.len() ==> tasks[i].id != tasks[j].id
        &&& forall|i: int, j: int| 0 <= i < groups.len() && 0 <= j < tasks.len() ==> groups[i].id != tasks[j].id
    }

    /// Builds the tree from all the groups and tasks: each group without a
    /// parent under the root, in order, then below each group its tasks, in
    /// order, followed by its subgroups.
    pub fn generate(groups: &Vec<Group>, tasks: &Vec<Task>) -> (r: TarsTree)
        requires
            nesting_fits(groups@),
            TarsTree::distinct_ids(groups@, tasks@),
        ensures
            r.wf(),
            r.built_from(groups@, tasks@),
            forall|i: int| 0 <= i < groups@.len() && #[trigger] groups@[i].parent_id is None ==> r.index().contains_key(groups@[i].id),
            forall|x: Id| #[trigger] r.is_group_id(x) ==> r.complete(x, groups@, tasks@),
            r.child_ids(r.root()) == group_ids(groups@.filter(group_under(None))),
            forall|x: Id| #[trigger] r.is_group_id(x) ==> r.ordered(x, groups@, tasks@),
    {
        broadcast use vstd::seq_lib::group_filter_ensures;
        let mut tree = TarsTree::new();
        let root = tree.root_node_id();
        let ng = groups.len();
        let mut j: usize = 0;
        proof {
            groups@.lemma_filter_len(|g: Group| !tree.index().contains_key(g.id));
            reveal(Seq::filter);
            assert(groups@.take(0).filter(group_under(None)) =~= Seq::<Group>::empty());
            assert(tree.child_ids(root) =~= group_ids(groups@.take(0).filter(group_under(None))));
        }
        while j < ng
            invariant
                tree.wf(),
                tree.built_from(groups@, tasks@),
                ng == groups@.len(),
                nesting_fits(groups@),
                0 <= j <= ng,
                root == tree.root(),
                TarsTree::distinct_ids(groups@, tasks@),
                forall|x: Id| #[trigger] tree.is_group_id(x) ==> tree.complete(x, groups@, tasks@),
                forall|m: int| 0 <= m < j && #[trigger] groups@[m].parent_id is None ==> tree.index().contains_key(groups@[m].id),
                tree.child_ids(root) == group_ids(groups@.take(j as int).filter(group_under(None))),
                forall|x: Id| #[trigger] tree.is_group_id(x) ==> tree.ordered(x, groups@, tasks@),
            decreases ng - j,
        {
            let g = &groups[j];
            proof {
                lemma_filter_take_step(groups@, group_under(None), j as int);
            }
            if g.parent_id.is_none() {
                let ghost pre = tree;
                let ghost f = pending(groups@, tree.index());
                proof {
                    assert(groups@[j as int] == *g);
                    assert(Seq::<Id>::empty() + group_ids(groups@.take(j as int).filter(group_under(None))) =~= tree.child_ids(root));
                    tree.lemma_group_not_yet(root, None, j as int, Seq::empty(), groups@, tasks@);
                    groups@.lemma_filter_len(|gg: Group| !tree.index().contains_key(gg.id));
                }
                tree.attach_children_of_group(g, groups, tasks, 0, &root, Ghost(f));
                proof {
                    assert forall|x: Id| #[trigger] tree.is_group_id(x) implies tree.complete(x, groups@, tasks@) by {
                        if pre.index().contains_key(x) {
                            assert(pre.has(pre.index()[x]));
                            assert(pre.is_group_id(x));
                            assert(pre.complete(x, groups@, tasks@));
                        }
                    }
                    assert forall|m: int| 0 <= m < j + 1 && #[trigger] groups@[m].parent_id is None implies tree.index().contains_key(groups@[m].id) by {
                        if m < j {
                            assert(pre.index().contains_key(groups@[m].id));
                        }
                    }
                    let fs = groups@.take(j as int).filter(group_under(None));
                    assert(group_ids(fs.push(*g)) =~= group_ids(fs).push(g.id));
                    assert forall|q: int| 0 <= q < pre.children(root).len() implies tree.node(#[trigger] pre.children(root)[q]) == pre.node(pre.children(root)[q]) by {
                        assert(pre.has(pre.children(root)[q]));
                    }
                    assert(tree.has(tree.index()[g.id]));
                    assert(tree.child_ids(root) =~= pre.child_ids(root).push(g.id));
                    assert forall|x: Id| #[trigger] tree.is_group_id(x) implies tree.ordered(x, groups@, tasks@) by {
                        if pre.index().contains_key(x) {
                            let kx = pre.index()[x];
                            assert(pre.has(kx));
                            assert(pre.is_group_id(x));
                            assert(pre.ordered(x, groups@, tasks@));
                            assert(kx != root);
                            assert forall|q: int| 0 <= q < pre.children(kx).len() implies tree.node(#[trigger] pre.children(kx)[q]) == pre.node(pre.children(kx)[q]) by {
                                assert(pre.has(pre.children(kx)[q]));
                            }
                            assert(tree.child_ids(kx) =~= pre.child_ids(kx));
                        }
                    }
                }
            }
            j = j + 1;
        }
        proof {
            assert(groups@.take(ng as int) =~= groups@);
        }
        tree
    }

    /// Every node of a pre-order is in the tree.
    proof fn lemma_preorder_valid(&self, k: NodeId, f: nat)
        requires
            self.wf(),
            self.has(k),
            preorder(self.slots(), k, f) is Some,
        ensures
            forall|i: int| 0 <= i < preorder(self.slots(), k, f).unwrap().len() ==> #[trigger] self.has(preorder(self.slots(), k, f).unwrap()[i]),
        decreases f, 0nat,
    {
        let s = self.slots();
        let ch = children_of(s, k);
        assert(ch =~= ch.subrange(0, ch.len() as int));
        self.lemma_preorder_list_valid(k, ch, (f - 1) as nat);
        let rest = preorder_list(s, ch, (f - 1) as nat).unwrap();
        assert forall|i: int| 0 <= i < preorder(s, k, f).unwrap().len() implies #[trigger] self.has(preorder(s, k, f).unwrap()[i]) by {
            if i > 0 {
                assert(preorder(s, k, f).unwrap()[i] == rest[i - 1]);
            }
        }
    }

    proof fn lemma_preorder_list_valid(&self, k: NodeId, cs: Seq<NodeId>, f: nat)
        requires
            self.wf(),
            self.has(k),
            cs.len() <= children_of(self.slots(), k).len(),
            cs == children_of(self.slots(), k).subrange(children_of(self.slots(), k).len() - cs.len(), children_of(self.slots(), k).len() as int),
            preorder_list(self.slots(), cs, f) is Some,
        ensures
            forall|i: int| 0 <= i < preorder_list(self.slots(), cs, f).unwrap().len() ==> #[trigger] self.has(preorder_list(self.slots(), cs, f).unwrap()[i]),
        decreases f, cs.len() + 1,
    {
        let s = self.slots();
        if cs.len() > 0 {
            let ch = children_of(s, k);
            let j = ch.len() - cs.len();
            assert(cs[0] == ch[j]);
            assert(valid(s, ch[j]));
            self.lemma_preorder_valid(cs[0], f);
            assert(cs.drop_first() =~= ch.subrange(ch.len() - (cs.len() - 1), ch.len() as int));
            self.lemma_preorder_list_valid(k, cs.drop_first(), f);
            let a = preorder(s, cs[0], f).unwrap();
            let b = preorder_list(s, cs.drop_first(), f).unwrap();
            assert forall|i: int| 0 <= i < preorder_list(s, cs, f).unwrap().len() implies #[trigger] self.has(preorder_list(s, cs, f).unwrap()[i]) by {
                if i < a.len() {
                    assert(preorder_list(s, cs, f).unwrap()[i] == a[i]);
                } else {
                    assert(preorder_list(s, cs, f).unwrap()[i] == b[i - a.len()]);
                }
            }
        }
    }

    /// Every node of the subtree under `k` is in the tree.
    pub proof fn lemma_subtree_valid(&self, k: NodeId)
        requires
            self.wf(),
            self.has(k),
        ensures
            forall|i: int| 0 <= i < self.subtree(k).len() ==> #[trigger] self.has(self.subtree(k)[i]),
    {
        self.lemma_subtree(k);
        self.lemma_preorder_valid(k, (self.bound() - self.heights()[k]) as nat);
    }

    /// The ancestors of a node are in the tree; the first one is the parent.
    pub proof fn lemma_ancestry(&self, k: NodeId)
        requires
            self.wf(),
            self.has(k),
        ensures
            ancestors(self.slots(), k, self.heights()[k] + 1) is Some,
            forall|i: int| 0 <= i < self.ancestry(k).len() ==> #[trigger] self.has(self.ancestry(k)[i]),
            self.parent(k) is None <==> self.ancestry(k).len() == 0,
            self.parent(k) matches Some(p) ==> self.ancestry(k)[0] == p,
        decreases self.heights()[k],
    {
        let s = self.slots();
        match parent_of(s, k) {
            None => {},
            Some(p) => {
                self.lemma_ancestry(p);
                assert(children_of(s, p).contains(k));
                let rest = self.ancestry(p);
                assert forall|i: int| 0 <= i < self.ancestry(k).len() implies #[trigger] self.has(self.ancestry(k)[i]) by {
                    if i > 0 {
                        assert(self.ancestry(k)[i] == rest[i - 1]);
                    }
                }
            },
        }
    }

    /// Stepping out to the parent, again and again, ends at the root: the
    /// ancestors of every node but the root end with the root.
    pub proof fn law_ancestry_ends_at_root(&self, k: NodeId)
        requires
            self.wf(),
            self.has(k),
            k != self.root(),
        ensures
            self.ancestry(k).len() > 0,
            self.ancestry(k).last() == self.root(),
        decreases self.heights()[k],
    {
        let s = self.slots();
        self.lemma_ancestry(k);
        let p = parent_of(s, k).unwrap();
        assert(valid(s, p));
        self.lemma_ancestry(p);
        assert(self.ancestry(k) =~= seq![p] + self.ancestry(p));
        if p != self.root() {
            self.law_ancestry_ends_at_root(p);
        }
    }

    /// One more step up the chain is one more parent.
    proof fn lemma_anc_step(&self, k: NodeId, m: nat)
        requires
            self.wf(),
            self.has(k),
        ensures
            anc(self.slots(), k, m) matches Some(x) ==> self.has(x),
            anc(self.slots(), k, m + 1) == match anc(self.slots(), k, m) {
                Some(x) => parent_of(self.slots(), x),
                None => None::<NodeId>,
            },
        decreases m,
    {
        let s = self.slots();
        if m > 0 {
            match parent_of(s, k) {
                Some(p) => {
                    self.lemma_anc_step(p, (m - 1) as nat);
                    assert(anc(s, k, m) == anc(s, p, (m - 1) as nat));
                    assert(anc(s, k, m + 1) == anc(s, p, m));
                },
                None => {
                    assert(anc(s, k, m) is None);
                    assert(anc(s, k, m + 1) is None);
                },
            }
        } else {
            assert(anc(s, k, 1) == parent_of(s, k)) by {
                match parent_of(s, k) {
                    Some(p) => assert(anc(s, p, 0) == Some(p)),
                    None => {},
                }
            }
        }
    }

    /// The pre-order of a list of subtrees holds the pre-order of each.
    proof fn lemma_list_holds(&self, cs: Seq<NodeId>, f: nat, j: int, k: NodeId)
        requires
            0 <= j < cs.len(),
            preorder_list(self.slots(), cs, f) is Some,
            preorder(self.slots(), cs[j], f) is Some,
            preorder(self.slots(), cs[j], f).unwrap().contains(k),
        ensures
            preorder_list(self.slots(), cs, f).unwrap().contains(k),
        decreases cs.len(),
    {
        let s = self.slots();
        let a = preorder(s, cs[0], f).unwrap();
        let b = preorder_list(s, cs.drop_first(), f).unwrap();
        if j == 0 {
            let i = choose|i: int| 0 <= i < a.len() && a[i] == k;
            assert((a + b)[i] == k);
        } else {
            self.lemma_list_holds(cs.drop_first(), f, j - 1, k);
            let i = choose|i: int| 0 <= i < b.len() && b[i] == k;
            assert((a + b)[a.len() + i] == k);
        }
    }

    /// A node lies in the subtree of each of its ancestors.
    pub proof fn lemma_in_subtree(&self, a: NodeId, k: NodeId, n: nat)
        requires
            self.wf(),
            self.has(k),
            anc(self.slots(), k, n) == Some(a),
        ensures
            self.has(a),
            self.subtree(a).contains(k),
        decreases n,
    {
        let s = self.slots();
        self.lemma_anc_height(k, a, n);
        self.lemma_subtree(a);
        let fa = (self.bound() - self.heights()[a]) as nat;
        if n == 0 {
            assert(self.subtree(a)[0] == k);
        } else {
            self.lemma_anc_step(k, (n - 1) as nat);
            assert(anc(s, k, (n - 1) as nat) is Some);
            let c = anc(s, k, (n - 1) as nat).unwrap();
            self.lemma_anc_height(k, c, (n - 1) as nat);
            self.lemma_in_subtree(c, k, (n - 1) as nat);
            assert(parent_of(s, c) == Some(a));
            assert(children_of(s, a).contains(c));
            let j = choose|j: int| 0 <= j < children_of(s, a).len() && children_of(s, a)[j] == c;
            self.lemma_subtree(c);
            assert(self.heights()[c] == self.heights()[a] + 1);
            assert((self.bound() - self.heights()[c]) as nat == (fa - 1) as nat);
            self.lemma_list_holds(children_of(s, a), (fa - 1) as nat, j, k);
            let rest = preorder_list(s, children_of(s, a), (fa - 1) as nat).unwrap();
            let i = choose|i: int| 0 <= i < rest.len() && rest[i] == k;
            assert(self.subtree(a)[i + 1] == k);
        }
    }

    /// Every node lies in the subtree of the root.
    pub proof fn lemma_in_root_subtree(&self, k: NodeId)
        requires
            self.wf(),
            self.has(k),
        ensures
            self.subtree(self.root()).contains(k),
    {
        self.lemma_chain(k);
        self.lemma_in_subtree(self.root(), k, self.heights()[k]);
    }

    /// The pre-order of the subtree under `k` is the one `subtree` names,
    /// and it starts with `k`.
    pub proof fn lemma_subtree(&self, k: NodeId)
        requires
            self.wf(),
            self.has(k),
        ensures
            preorder(self.slots(), k, (self.bound() - self.heights()[k]) as nat) is Some,
            self.subtree(k).len() > 0,
            self.subtree(k)[0] == k,
    {
        self.lemma_preorder_some(k, (self.bound() - self.heights()[k]) as nat);
    }
}

} // verus!
