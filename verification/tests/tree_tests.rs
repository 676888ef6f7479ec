use tars_tui::tree::{TarsKind, TarsTree};
use tars_tui::types::{Diff, DiffInner, Group, Priority, Task};

fn group(id: u64, name: &str, parent_id: Option<u64>) -> Group {
    Group { id, name: name.to_owned(), parent_id, color: "#ff0000".to_owned(), priority: Priority::Medium }
}

fn task(id: u64, name: &str, g: &Group, priority: Priority, finished_at: Option<i64>) -> Task {
    Task {
        id,
        name: name.to_owned(),
        group: g.clone(),
        priority,
        description: String::new(),
        due: None,
        finished_at,
    }
}

fn sample() -> (TarsTree, Group, Group, Task, Task) {
    let work = group(1, "work", None);
    let infra = group(2, "infra", Some(1));
    let t1 = task(10, "deploy", &infra, Priority::High, None);
    let t2 = task(11, "review", &work, Priority::Low, Some(5));
    let tree = TarsTree::generate(&vec![work.clone(), infra.clone()], &vec![t1.clone(), t2.clone()]);
    (tree, work, infra, t1, t2)
}

#[test]
fn generate_places_groups_and_tasks() {
    let (tree, work, infra, t1, t2) = sample();
    let root = tree.root_node_id();
    let pot = tree.traverse_root();
    // root, work, its task, infra, its task
    assert_eq!(pot.len(), 5);
    assert_eq!(pot[0], root);
    let w = tree.translate_id_to_node_id(&1).unwrap();
    let i = tree.translate_id_to_node_id(&2).unwrap();
    assert_eq!(tree.parent_id(&w), Some(root.clone()));
    assert_eq!(tree.parent_id(&i), Some(w.clone()));
    assert_eq!(tree.data(&w).kind, TarsKind::Group(work));
    assert_eq!(tree.data(&i).kind, TarsKind::Group(infra));
    assert_eq!(tree.data(&i).depth, 1);
    assert_eq!(tree.get_by_tars_id(&10).unwrap().kind, TarsKind::Task(t1));
    assert_eq!(tree.get_by_tars_id(&11).unwrap().kind, TarsKind::Task(t2));
    assert_eq!(tree.translate_node_id_to_id(&root), None);
    assert_eq!(tree.translate_node_id_to_id(&w), Some(1));
}

#[test]
fn orphan_group_is_left_out() {
    let lost = group(7, "lost", Some(99));
    let tree = TarsTree::generate(&vec![lost], &vec![]);
    assert_eq!(tree.traverse_root().len(), 1);
    assert!(tree.translate_id_to_node_id(&7).is_none());
}

#[test]
fn added_task_is_found() {
    let (mut tree, _work, infra, _t1, _t2) = sample();
    let t = task(12, "fix", &infra, Priority::Asap, None);
    let d = Diff::Added(DiffInner::Task(t.clone()));
    assert!(tree.can_apply(&d));
    tree.apply_diff(d);
    let n = tree.translate_id_to_node_id(&12).unwrap();
    assert_eq!(tree.data(&n).kind, TarsKind::Task(t));
    assert_eq!(tree.parent_id(&n), tree.translate_id_to_node_id(&2));
    assert_eq!(tree.data(&n).depth, 2);
    assert_eq!(tree.traverse_root().len(), 6);
}

#[test]
fn added_root_group_hangs_under_root() {
    let (mut tree, _work, _infra, _t1, _t2) = sample();
    let g = group(3, "home", None);
    let d = Diff::Added(DiffInner::Group(g.clone()));
    assert!(tree.can_apply(&d));
    tree.apply_diff(d);
    let n = tree.translate_id_to_node_id(&3).unwrap();
    assert_eq!(tree.parent_id(&n), Some(tree.root_node_id()));
    assert_eq!(tree.data(&n).kind, TarsKind::Group(g));
    assert_eq!(tree.data(&n).depth, 0);
}

#[test]
fn updated_task_moves_to_new_group() {
    let (mut tree, work, _infra, t1, _t2) = sample();
    let mut moved = t1.clone();
    moved.group = work.clone();
    moved.name = "deploy now".to_owned();
    let d = Diff::Updated(DiffInner::Task(moved.clone()));
    assert!(tree.can_apply(&d));
    tree.apply_diff(d);
    let n = tree.translate_id_to_node_id(&10).unwrap();
    assert_eq!(tree.data(&n).kind, TarsKind::Task(moved));
    assert_eq!(tree.parent_id(&n), tree.translate_id_to_node_id(&1));
    assert_eq!(tree.data(&n).depth, 1);
}

#[test]
fn updated_group_refiles_its_tasks() {
    let (mut tree, _work, infra, _t1, _t2) = sample();
    let mut renamed = infra.clone();
    renamed.name = "platform".to_owned();
    let d = Diff::Updated(DiffInner::Group(renamed.clone()));
    assert!(tree.can_apply(&d));
    tree.apply_diff(d);
    let n = tree.translate_id_to_node_id(&2).unwrap();
    assert_eq!(tree.data(&n).kind, TarsKind::Group(renamed.clone()));
    match &tree.get_by_tars_id(&10).unwrap().kind {
        TarsKind::Task(t) => assert_eq!(t.group, renamed),
        _ => panic!("task expected"),
    }
}

#[test]
fn moved_group_keeps_its_old_data() {
    let (mut tree, _work, infra, _t1, _t2) = sample();
    let mut moved = infra.clone();
    moved.parent_id = None;
    moved.name = "top".to_owned();
    let d = Diff::Updated(DiffInner::Group(moved.clone()));
    assert!(tree.can_apply(&d));
    tree.apply_diff(d);
    let n = tree.translate_id_to_node_id(&2).unwrap();
    assert_eq!(tree.parent_id(&n), Some(tree.root_node_id()));
    assert_eq!(tree.data(&n).kind, TarsKind::Group(infra));
    match &tree.get_by_tars_id(&10).unwrap().kind {
        TarsKind::Task(t) => assert_eq!(t.group, moved),
        _ => panic!("task expected"),
    }
}

#[test]
fn deleted_task_is_gone() {
    let (mut tree, _work, _infra, _t1, _t2) = sample();
    let old = tree.translate_id_to_node_id(&11).unwrap();
    let d = Diff::Deleted(11);
    assert!(tree.can_apply(&d));
    tree.apply_diff(d);
    assert!(tree.translate_id_to_node_id(&11).is_none());
    assert!(!tree.contains(&old));
    assert!(tree.get_by_tars_id(&10).is_some());
}

#[test]
fn diffs_that_do_not_fit_are_refused() {
    let (tree, work, _infra, _t1, _t2) = sample();
    // a group with children cannot be deleted
    assert!(!tree.can_apply(&Diff::Deleted(1)));
    // nothing is known under id 42
    assert!(!tree.can_apply(&Diff::Deleted(42)));
    // an id that is already in use cannot be added again
    let again = task(10, "dup", &work, Priority::Low, None);
    assert!(!tree.can_apply(&Diff::Added(DiffInner::Task(again))));
    // a group cannot become its own parent
    let mut cyc = work.clone();
    cyc.parent_id = Some(1);
    assert!(!tree.can_apply(&Diff::Updated(DiffInner::Group(cyc))));
}

#[test]
fn ancestors_lead_home() {
    let (tree, _work, _infra, _t1, _t2) = sample();
    let t = tree.translate_id_to_node_id(&10).unwrap();
    let anc = tree.ancestor_ids(&t);
    assert_eq!(anc.len(), 3);
    assert_eq!(anc[0], tree.translate_id_to_node_id(&2).unwrap());
    assert_eq!(anc[1], tree.translate_id_to_node_id(&1).unwrap());
    assert_eq!(anc[2], tree.root_node_id());
}

#[test]
fn generate_keeps_daemon_order() {
    let home = group(1, "home", None);
    let garden = group(2, "garden", Some(1));
    let office = group(3, "office", None);
    let b = task(20, "b", &home, Priority::Low, None);
    let a = task(21, "a", &home, Priority::Low, None);
    let tree = TarsTree::generate(
        &vec![office.clone(), garden.clone(), home.clone()],
        &vec![b.clone(), a.clone()],
    );
    let root = tree.root_node_id();
    let ids = |k| -> Vec<Option<u64>> {
        tree.children_ids(&k).iter().map(|c| tree.translate_node_id_to_id(c)).collect()
    };
    // groups without a parent hang under the root in the daemon's order
    assert_eq!(ids(root), vec![Some(3), Some(1)]);
    // under a group: its tasks first, then its subgroups
    let h = tree.translate_id_to_node_id(&1).unwrap();
    assert_eq!(ids(h), vec![Some(20), Some(21), Some(2)]);
}

#[test]
fn group_moved_under_its_subgroup_lifts_the_subgroup() {
    let (mut tree, work, _infra, _t1, _t2) = sample();
    let root = tree.root_node_id();
    let w = tree.translate_id_to_node_id(&1).unwrap();
    let i = tree.translate_id_to_node_id(&2).unwrap();
    let deploy = tree.translate_id_to_node_id(&10).unwrap();
    let review = tree.translate_id_to_node_id(&11).unwrap();
    let mut moved = work.clone();
    moved.parent_id = Some(2);
    let d = Diff::Updated(DiffInner::Group(moved.clone()));
    assert!(tree.can_apply(&d));
    tree.apply_diff(d);
    assert_eq!(tree.children_ids(&root), vec![i.clone()]);
    assert_eq!(tree.parent_id(&i), Some(root.clone()));
    assert_eq!(tree.children_ids(&i), vec![deploy, w.clone()]);
    assert_eq!(tree.parent_id(&w), Some(i.clone()));
    assert_eq!(tree.children_ids(&w), vec![review]);
    match &tree.get_by_tars_id(&11).unwrap().kind {
        TarsKind::Task(t) => assert_eq!(t.group, moved),
        _ => panic!("task expected"),
    }
    assert_eq!(tree.traverse_root().len(), 5);
}

#[test]
fn item_named_under_a_task_hangs_under_that_task() {
    let (mut tree, _work, _infra, _t1, _t2) = sample();
    // a group record whose id is that of the task "deploy"
    let holder = group(10, "deploy", Some(2));
    let sub = task(13, "subtask", &holder, Priority::Medium, None);
    let d = Diff::Added(DiffInner::Task(sub.clone()));
    assert!(tree.can_apply(&d));
    tree.apply_diff(d);
    let deploy = tree.translate_id_to_node_id(&10).unwrap();
    let n = tree.translate_id_to_node_id(&13).unwrap();
    assert_eq!(tree.parent_id(&n), Some(deploy.clone()));
    assert_eq!(tree.children_ids(&deploy), vec![n.clone()]);
    assert_eq!(tree.data(&n).depth, 3);
    let sg = group(14, "nested", Some(10));
    let d = Diff::Added(DiffInner::Group(sg.clone()));
    assert!(tree.can_apply(&d));
    tree.apply_diff(d);
    let g = tree.translate_id_to_node_id(&14).unwrap();
    assert_eq!(tree.parent_id(&g), Some(deploy.clone()));
    assert_eq!(tree.traverse_root().len(), 7);
}

#[test]
fn task_updates_that_would_break_the_index_are_refused() {
    let (mut tree, _work, infra, t1, _t2) = sample();
    // a task whose group record names the task itself
    let mut own = t1.clone();
    own.group = group(10, "deploy", Some(2));
    assert!(!tree.can_apply(&Diff::Updated(DiffInner::Task(own))));
    // a task that holds an item cannot be replaced
    let holder = group(10, "deploy", Some(2));
    let sub = task(13, "subtask", &holder, Priority::Medium, None);
    tree.apply_diff(Diff::Added(DiffInner::Task(sub)));
    let mut renamed = t1.clone();
    renamed.group = infra.clone();
    renamed.name = "deploy later".to_owned();
    assert!(!tree.can_apply(&Diff::Updated(DiffInner::Task(renamed))));
}

#[test]
fn group_record_naming_a_task_turns_it_into_a_group() {
    let (mut tree, _work, infra, _t1, _t2) = sample();
    let holder = group(10, "deploy", Some(2));
    let sub = task(13, "subtask", &holder, Priority::Medium, None);
    tree.apply_diff(Diff::Added(DiffInner::Task(sub)));
    let n = tree.translate_id_to_node_id(&10).unwrap();
    let renamed = group(10, "deploy steps", Some(2));
    let d = Diff::Updated(DiffInner::Group(renamed.clone()));
    assert!(tree.can_apply(&d));
    tree.apply_diff(d);
    assert_eq!(tree.data(&n).kind, TarsKind::Group(renamed.clone()));
    assert_eq!(tree.parent_id(&n), tree.translate_id_to_node_id(&infra.id));
    assert_eq!(tree.data(&n).depth, 2);
    match &tree.get_by_tars_id(&13).unwrap().kind {
        TarsKind::Task(t) => assert_eq!(t.group, renamed),
        _ => panic!("task expected"),
    }
}

#[test]
fn ids_of_another_tree_name_nothing() {
    let (tree, _work, _infra, _t1, _t2) = sample();
    let (other, _, _, _, _) = sample();
    let foreign = other.translate_id_to_node_id(&10).unwrap();
    assert!(!tree.contains(&foreign));
    assert_eq!(tree.translate_node_id_to_id(&foreign), None);
    assert_eq!(tree.translate_node_id_to_id(&tree.root_node_id()), None);
    let own = tree.translate_id_to_node_id(&10).unwrap();
    assert_eq!(tree.translate_node_id_to_id(&own), Some(10));
}
