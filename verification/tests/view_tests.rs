use tars_tui::action::{Action, Key, KeyCode, Mode, Signal};
use tars_tui::components::explorer::state::{Crumb, EntryLook};
use tars_tui::components::explorer::{Explorer, OnUpdate, Request};
use tars_tui::components::frame_block;
use tars_tui::components::todo_list::state::{due_text, priority_name, sort_by_urgency, Shade};
use tars_tui::components::todo_list::TodoList;
use std::collections::HashMap;
use tars_tui::tree::TarsTree;
use tars_tui::types::{Group, Priority, Task};
use tars_tui::components::explorer::ExplorerError;
use tars_tui::types::Diff;

fn group(id: u64, name: &str, parent_id: Option<u64>, color: &str) -> Group {
    Group { id, name: name.to_owned(), parent_id, color: color.to_owned(), priority: Priority::Medium }
}

fn task(id: u64, name: &str, g: &Group, priority: Priority, finished_at: Option<i64>) -> Task {
    Task {
        id,
        name: name.to_owned(),
        group: g.clone(),
        priority,
        description: String::new(),
        due: None,
        finished_at,
    }
}

/// work (1) holds review (11, finished) and infra (2); infra holds deploy (10).
fn sample() -> TarsTree {
    let work = group(1, "work", None, "red");
    let infra = group(2, "infra", Some(1), "blue");
    let t1 = task(10, "deploy", &infra, Priority::High, None);
    let t2 = task(11, "review", &work, Priority::Low, Some(5));
    TarsTree::generate(&vec![work, infra], &vec![t1, t2])
}

fn key(code: KeyCode) -> Key {
    Key { code, modifiers: 0 }
}

#[test]
fn explorer_hides_finished_tasks() {
    let tree = sample();
    let explorer = Explorer::new(&tree);
    let info = explorer.state.get_draw_info();
    let ids: Vec<_> = info.entries.iter().map(|e| e.id.clone()).collect();
    let work = tree.translate_id_to_node_id(&1).unwrap();
    let infra = tree.translate_id_to_node_id(&2).unwrap();
    let deploy = tree.translate_id_to_node_id(&10).unwrap();
    assert_eq!(ids, vec![work.clone(), infra, deploy]);
    assert_eq!(explorer.state.get_selected_id(), &work);
    assert_eq!(*explorer.state.get_selected_idx(), 0);
    assert!(info.entries[0].selected);
    assert_eq!(info.entries[0].look, EntryLook::Group { name: "work".to_owned(), color: "red".to_owned() });
    assert_eq!(info.entries[2].indent, 4);
    assert_eq!(info.breadcrumbs, vec![]);
}

#[test]
fn explorer_moves_and_steps_into_groups() {
    let tree = sample();
    let mut explorer = Explorer::new(&tree);
    explorer.init(Mode::Explorer);
    let infra = tree.translate_id_to_node_id(&2).unwrap();
    let out = explorer.update(Signal::Action(Action::MoveDown), &tree).unwrap();
    assert_eq!(out.reply, Some(Signal::Select(infra.clone())));
    assert_eq!(explorer.state.get_selected_id(), &infra);
    assert_eq!(*explorer.state.get_selected_idx(), 1);
    let out = explorer.update(Signal::Action(Action::MoveInto), &tree).unwrap();
    assert_eq!(out.reply, Some(Signal::ScopeUpdate(infra.clone())));
    assert_eq!(explorer.state.get_scope(), &infra);
    let info = explorer.state.get_draw_info();
    assert_eq!(info.entries.len(), 2);
    assert_eq!(
        info.breadcrumbs,
        vec![Crumb::Home, Crumb::Group { name: "work".to_owned(), color: "red".to_owned() }]
    );
    let out = explorer.update(Signal::Action(Action::MoveOutOf), &tree).unwrap();
    let work = tree.translate_id_to_node_id(&1).unwrap();
    assert_eq!(out.reply, Some(Signal::ScopeUpdate(work.clone())));
    let out = explorer.update(Signal::Action(Action::MoveOutOf), &tree).unwrap();
    assert_eq!(out.reply, Some(Signal::ScopeUpdate(tree.root_node_id())));
    let out = explorer.update(Signal::Action(Action::MoveOutOf), &tree).unwrap();
    assert_eq!(out.reply, None);
    assert_eq!(explorer.state.get_scope(), &tree.root_node_id());
}

#[test]
fn explorer_ignores_actions_while_inactive() {
    let tree = sample();
    let mut explorer = Explorer::new(&tree);
    let out = explorer.update(Signal::Action(Action::MoveDown), &tree).unwrap();
    assert!(out.reply.is_none());
    assert_eq!(*explorer.state.get_selected_idx(), 0);
    assert_eq!(explorer.handle_key_event(key(KeyCode::Enter)), None);
    let out = explorer.update(Signal::Action(Action::SwitchTo(Mode::Explorer)), &tree).unwrap();
    let work = tree.translate_id_to_node_id(&1).unwrap();
    assert_eq!(out.reply, Some(Signal::Select(work)));
    assert_eq!(
        explorer.handle_key_event(key(KeyCode::Enter)),
        Some(Signal::Action(Action::SwitchTo(Mode::Inspector)))
    );
}

#[test]
fn explorer_toggle_shows_finished_items() {
    let tree = sample();
    let mut explorer = Explorer::new(&tree);
    explorer.init(Mode::Explorer);
    explorer.update(Signal::Action(Action::ToggleShowFinished), &tree).unwrap();
    assert_eq!(explorer.state.get_draw_info().entries.len(), 4);
    explorer.update(Signal::Action(Action::ToggleShowFinished), &tree).unwrap();
    assert_eq!(explorer.state.get_draw_info().entries.len(), 3);
}

#[test]
fn explorer_plans_deletion_and_creation() {
    let tree = sample();
    let mut explorer = Explorer::new(&tree);
    explorer.init(Mode::Explorer);
    let out = explorer.update(Signal::Action(Action::Delete), &tree).unwrap();
    let infra = tree.translate_id_to_node_id(&2).unwrap();
    assert_eq!(out.then_select, Some(infra));
    match out.request {
        Some(Request::DeleteGroup(g)) => assert_eq!(g.id, 1),
        other => panic!("unexpected request {other:?}"),
    }
    let out = explorer.update(Signal::Action(Action::NewTask), &tree).unwrap();
    match out.request {
        Some(Request::NewTask(d)) => {
            assert_eq!(d.group.id, 1);
            assert_eq!(d.name, "new task");
            assert_eq!(d.priority, Priority::Medium);
            assert_eq!(d.description, "");
            assert_eq!(d.due, None);
        },
        other => panic!("unexpected request {other:?}"),
    }
    let out = explorer.update(Signal::Action(Action::NewGroup), &tree).unwrap();
    match out.request {
        Some(Request::NewGroup(d)) => {
            assert_eq!(d.parent_id, None);
            assert_eq!(d.name, "new_group");
        },
        other => panic!("unexpected request {other:?}"),
    }
    let created = explorer.on_created(10);
    assert_eq!(created, Signal::Refresh);
    assert_eq!(explorer.on_update, OnUpdate::Select(10));
    let out = explorer.update(Signal::Update, &tree).unwrap();
    let deploy = tree.translate_id_to_node_id(&10).unwrap();
    assert_eq!(out.send, Some(Signal::Select(deploy)));
    assert_eq!(explorer.on_update, OnUpdate::Idle);
}

#[test]
fn todo_list_orders_open_tasks_by_rank() {
    let home = group(1, "home", None, "green");
    let tasks = vec![
        task(10, "dishes", &home, Priority::Low, None),
        task(11, "taxes", &home, Priority::Asap, None),
        task(12, "call", &home, Priority::Low, None),
        task(13, "plants", &home, Priority::High, None),
        task(14, "done", &home, Priority::Asap, Some(3)),
    ];
    let tree = TarsTree::generate(&vec![home], &tasks);
    let ranks = HashMap::from([(10, 1), (11, 4), (12, 1), (13, 3), (14, 4)]);
    let list = TodoList::new(&tree, ranks);
    let names: Vec<String> = list.state.get_tasks().iter().map(|(_, t)| t.name.clone()).collect();
    assert_eq!(names, vec!["taxes", "plants", "call", "dishes"]);
    let lines = &list.state.get_draw_info().lines;
    assert_eq!(lines.len(), 4);
    assert_eq!(lines[0].prio_date, "Asap");
    assert_eq!(lines[0].group, "home");
    assert_eq!(lines[0].color, "green");
    // the first selection is the group, which is not listed
    assert!(lines.iter().all(|l| l.shade == Shade::Plain));
}

#[test]
fn sort_puts_later_of_equals_first() {
    let home = group(1, "home", None, "green");
    let tasks = vec![task(10, "a", &home, Priority::Low, None), task(11, "b", &home, Priority::Low, None)];
    let tree = TarsTree::generate(&vec![home], &tasks);
    let a = tree.translate_id_to_node_id(&10).unwrap();
    let b = tree.translate_id_to_node_id(&11).unwrap();
    let sorted = sort_by_urgency(&vec![(a.clone(), tasks[0].clone()), (b.clone(), tasks[1].clone())], &HashMap::new());
    assert_eq!(sorted[0].0, b);
    assert_eq!(sorted[1].0, a);
}

#[test]
fn todo_list_moves_through_tasks() {
    let home = group(1, "home", None, "green");
    let tasks = vec![task(10, "x", &home, Priority::High, None), task(11, "y", &home, Priority::Low, None)];
    let tree = TarsTree::generate(&vec![home], &tasks);
    let mut list = TodoList::new(&tree, HashMap::from([(10, 2), (11, 1)]));
    let x = tree.translate_id_to_node_id(&10).unwrap();
    let y = tree.translate_id_to_node_id(&11).unwrap();
    assert_eq!(list.update(Signal::Action(Action::SwitchTo(Mode::TodoList)), &tree), Some(Signal::Select(tree.translate_id_to_node_id(&1).unwrap())));
    assert_eq!(list.update(Signal::Select(x.clone()), &tree), None);
    assert_eq!(*list.state.get_selected_idx(), 0);
    assert_eq!(list.state.get_draw_info().lines[0].shade, Shade::Active);
    assert_eq!(list.update(Signal::Action(Action::MoveDown), &tree), Some(Signal::Select(y.clone())));
    list.update(Signal::Select(y.clone()), &tree);
    assert_eq!(*list.state.get_selected_idx(), 1);
    assert_eq!(list.update(Signal::Action(Action::MoveDown), &tree), None);
    assert_eq!(list.update(Signal::Action(Action::MoveUp), &tree), Some(Signal::Select(x)));
    assert_eq!(
        list.handle_key_event(key(KeyCode::Enter)),
        Some(Signal::Action(Action::SwitchTo(Mode::Inspector)))
    );
    list.update(Signal::Action(Action::SwitchTo(Mode::Explorer)), &tree);
    assert!(!list.state.active);
    assert_eq!(list.state.get_draw_info().lines[1].shade, Shade::Dim);
}

#[test]
fn due_dates_render_with_chrono() {
    assert_eq!(due_text(0), "01/01 12:00 AM");
    assert_eq!(due_text(86399), "01/01");
    assert_eq!(due_text(86400 + 13 * 3600 + 5 * 60), "01/02 01:05 PM");
}

#[test]
fn priority_names() {
    assert_eq!(priority_name(Priority::Far), "Far");
    assert_eq!(priority_name(Priority::Medium), "Medium");
    assert_eq!(priority_name(Priority::Asap), "Asap");
}

#[test]
fn frames_show_mode_numbers() {
    let f = frame_block(true, Mode::TodoList);
    assert_eq!(f.number, "[2]");
    assert_eq!(f.name, "TodoList");
    assert!(f.highlighted);
    let f = frame_block(false, Mode::Inspector);
    assert_eq!(f.number, "[3]");
    assert!(!f.highlighted);
    assert_eq!(u8::from(Mode::Explorer), 1);
    assert_eq!(u8::from(Mode::TodoList), 2);
    assert_eq!(u8::from(Mode::Inspector), 3);
    assert_eq!(Mode::default(), Mode::Explorer);
}

#[test]
fn explorer_reports_missing_and_invalid_nodes() {
    let mut tree = sample();
    let mut explorer = Explorer::new(&tree);
    explorer.init(Mode::Explorer);
    explorer.on_created(999);
    assert!(matches!(explorer.update(Signal::Update, &tree), Err(ExplorerError::MissingNode)));

    let deploy = tree.translate_id_to_node_id(&10).unwrap();
    explorer.update(Signal::Select(deploy), &tree).unwrap();
    tree.apply_diff(Diff::Deleted(10));
    assert!(matches!(
        explorer.update(Signal::Action(Action::Delete), &tree),
        Err(ExplorerError::InvalidSelection)
    ));
}

#[test]
fn stepping_in_and_out_returns_to_scope() {
    let tree = sample();
    let mut explorer = Explorer::new(&tree);
    explorer.init(Mode::Explorer);
    let work = tree.translate_id_to_node_id(&1).unwrap();
    explorer.update(Signal::Action(Action::MoveInto), &tree).unwrap();
    assert_eq!(explorer.state.get_scope(), &work);
    explorer.update(Signal::Action(Action::MoveOutOf), &tree).unwrap();
    assert_eq!(explorer.state.get_scope(), &tree.root_node_id());
}

#[test]
fn todo_list_follows_ranks_not_own_priority() {
    let home = group(1, "home", None, "green");
    let tasks = vec![
        task(10, "soon", &home, Priority::Low, None),
        task(11, "later", &home, Priority::Asap, None),
        task(12, "unranked", &home, Priority::High, None),
    ];
    let tree = TarsTree::generate(&vec![home], &tasks);
    let mut list = TodoList::new(&tree, HashMap::from([(10, 7), (11, 2)]));
    let names: Vec<String> = list.state.get_tasks().iter().map(|(_, t)| t.name.clone()).collect();
    assert_eq!(names, vec!["soon", "later", "unranked"]);
    // new ranks take effect on the next refresh
    list.state.ranks = HashMap::from([(10, 1), (11, 2), (12, 3)]);
    assert_eq!(list.update(Signal::Refresh, &tree), None);
    let names: Vec<String> = list.state.get_tasks().iter().map(|(_, t)| t.name.clone()).collect();
    assert_eq!(names, vec!["unranked", "later", "soon"]);
}
