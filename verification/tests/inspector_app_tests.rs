use tars_tui::action::{Action, Key, KeyCode, Mode, Signal};
use tars_tui::app::{description_path, lookup, App, AppError, Chore};
use tars_tui::components::inspector::group_component::{EditMode as GroupEditMode, SyncError};
use tars_tui::components::inspector::task_component::{EditMode, OnUpdate};
use tars_tui::components::inspector::{EditOutcome, Field, Inspector, Readings, RenderedComponentKind, Request};
use tars_tui::tree::TarsTree;
use tars_tui::types::{Diff, DiffInner, Group, Priority, Task};
use tars_tui::components::inspector::InspectorError;
use tars_tui::components::explorer::Explorer;
use tars_tui::components::todo_list::TodoList;

fn group(id: u64, name: &str, parent_id: Option<u64>) -> Group {
    Group { id, name: name.to_owned(), parent_id, color: "red".to_owned(), priority: Priority::Medium }
}

fn task(id: u64, name: &str, g: &Group) -> Task {
    Task {
        id,
        name: name.to_owned(),
        group: g.clone(),
        priority: Priority::Low,
        description: "notes".to_owned(),
        due: None,
        finished_at: None,
    }
}

fn sample() -> (TarsTree, Group, Task) {
    let g = group(1, "work", None);
    let t = task(10, "deploy", &g);
    let tree = TarsTree::generate(&vec![g.clone()], &vec![t.clone()]);
    (tree, g, t)
}

fn key(code: KeyCode) -> Key {
    Key { code, modifiers: 0 }
}

fn no_readings() -> Readings {
    Readings { color: None, priority: None }
}

#[test]
fn inspector_follows_selection() {
    let (tree, g, t) = sample();
    let mut inspector = Inspector::new();
    inspector.init(Mode::Explorer);
    assert!(!inspector.active);
    let tn = tree.translate_id_to_node_id(&10).unwrap();
    let gn = tree.translate_id_to_node_id(&1).unwrap();
    inspector.update(Signal::Select(tn), &tree).unwrap();
    assert_eq!(inspector.rendered_component.active_component, RenderedComponentKind::Task);
    let sheet = inspector.rendered_component.task_component.as_ref().unwrap();
    assert_eq!(sheet.task, t);
    assert_eq!(sheet.name.placeholder, "deploy");
    assert_eq!(sheet.priority.placeholder, "Low");
    assert_eq!(sheet.due.placeholder, "None");
    assert_eq!(sheet.sheet.completion, " ❌ Get to work cornball");
    assert!(!sheet.active);
    inspector.update(Signal::Select(gn), &tree).unwrap();
    assert_eq!(inspector.rendered_component.active_component, RenderedComponentKind::Group);
    assert_eq!(inspector.rendered_component.group_component.as_ref().unwrap().group, g);
    inspector.update(Signal::Action(Action::SwitchTo(Mode::Inspector)), &tree).unwrap();
    assert!(inspector.active);
    assert!(inspector.rendered_component.group_component.as_ref().unwrap().active);
    assert!(!inspector.rendered_component.task_component.as_ref().unwrap().active);
}

#[test]
fn renaming_a_task() {
    let (tree, _g, t) = sample();
    let mut inspector = Inspector::new();
    inspector.init(Mode::Inspector);
    let tn = tree.translate_id_to_node_id(&10).unwrap();
    inspector.update(Signal::Select(tn), &tree).unwrap();
    let out = inspector.update(Signal::Action(Action::EditName), &tree).unwrap();
    assert_eq!(out.reply, Some(Signal::RawText));
    let sheet = inspector.rendered_component.task_component.as_mut().unwrap();
    assert_eq!(sheet.edit_mode, EditMode::Name);
    assert!(sheet.name.active);
    assert!(matches!(sheet.handle_key_event(key(KeyCode::Char('x'))), EditOutcome::Forward(Field::Name)));
    sheet.name_edited("ship it".to_owned());
    match inspector.handle_key_event(key(KeyCode::Enter), &no_readings()).unwrap() {
        EditOutcome::Done { request: Some(Request::SyncTask(stored)) } => {
            let mut expected = t.clone();
            expected.name = "ship it".to_owned();
            assert_eq!(stored, expected);
        },
        other => panic!("unexpected outcome {other:?}"),
    }
    let sheet = inspector.rendered_component.task_component.as_ref().unwrap();
    assert_eq!(sheet.edit_mode, EditMode::Inactive);
    assert_eq!(sheet.on_update, OnUpdate::ReRender);
    assert!(!sheet.name.active);
    inspector.update(Signal::Update, &tree).unwrap();
    let sheet = inspector.rendered_component.task_component.as_ref().unwrap();
    assert_eq!(sheet.on_update, OnUpdate::NoOp);
    assert_eq!(sheet.task, t);
}

#[test]
fn invalid_due_date_is_not_stored() {
    let (tree, _g, _t) = sample();
    let mut inspector = Inspector::new();
    inspector.init(Mode::Inspector);
    let tn = tree.translate_id_to_node_id(&10).unwrap();
    inspector.update(Signal::Select(tn), &tree).unwrap();
    inspector.update(Signal::Action(Action::EditDue), &tree).unwrap();
    let sheet = inspector.rendered_component.task_component.as_mut().unwrap();
    sheet.due_edited("tomorrow-ish".to_owned(), None);
    assert!(!sheet.due.is_valid);
    assert!(matches!(sheet.handle_key_event(key(KeyCode::Esc)), EditOutcome::Done { request: None }));
    sheet.due_edited(String::new(), None);
    assert!(sheet.due.is_valid);
    assert_eq!(sheet.task.due, None);
    sheet.due_edited("jan 2".to_owned(), Some(86400));
    assert_eq!(sheet.task.due, Some(86400));
}

#[test]
fn task_actions_ask_for_work() {
    let (tree, _g, t) = sample();
    let mut inspector = Inspector::new();
    inspector.init(Mode::Inspector);
    let tn = tree.translate_id_to_node_id(&10).unwrap();
    inspector.update(Signal::Select(tn), &tree).unwrap();
    let out = inspector.update(Signal::Action(Action::EditDescription), &tree).unwrap();
    assert_eq!(out.reply, Some(Signal::EditDescriptionForTask(t.clone())));
    let out = inspector.update(Signal::Action(Action::ToggleFinishTask), &tree).unwrap();
    assert!(matches!(out.request, Some(Request::ToggleFinish(_))));
    let missing = inspector.update(Signal::Select(tree.translate_id_to_node_id(&10).unwrap()), &tree);
    assert!(missing.is_ok());
}

#[test]
fn recoloring_a_group() {
    let (tree, g, _t) = sample();
    let mut inspector = Inspector::new();
    inspector.init(Mode::Inspector);
    let gn = tree.translate_id_to_node_id(&1).unwrap();
    inspector.update(Signal::Select(gn), &tree).unwrap();
    inspector.update(Signal::Action(Action::EditColor), &tree).unwrap();
    let sheet = inspector.rendered_component.group_component.as_mut().unwrap();
    assert_eq!(sheet.edit_mode, GroupEditMode::Color);
    sheet.color_edited("blue".to_owned(), Some("blue".to_owned()));
    assert!(sheet.color.is_valid);
    let readings = Readings { color: Some("blue".to_owned()), priority: None };
    match inspector.handle_key_event(key(KeyCode::Enter), &readings).unwrap() {
        EditOutcome::Done { request: Some(Request::SyncGroup(stored)) } => {
            let mut expected = g.clone();
            expected.color = "blue".to_owned();
            assert_eq!(stored, expected);
        },
        other => panic!("unexpected outcome {other:?}"),
    }
}

#[test]
fn unparsable_priority_stops_storing() {
    let (tree, _g, _t) = sample();
    let mut inspector = Inspector::new();
    inspector.init(Mode::Inspector);
    let gn = tree.translate_id_to_node_id(&1).unwrap();
    inspector.update(Signal::Select(gn), &tree).unwrap();
    inspector.update(Signal::Action(Action::EditName), &tree).unwrap();
    let sheet = inspector.rendered_component.group_component.as_mut().unwrap();
    sheet.name_edited("home".to_owned());
    sheet.priority.line = "urgent!!".to_owned();
    let out = inspector.handle_key_event(key(KeyCode::Enter), &no_readings());
    assert!(matches!(out, Err(SyncError::BadPriority)));
    let sheet = inspector.rendered_component.group_component.as_ref().unwrap();
    assert_eq!(sheet.group.name, "home");
    assert_eq!(sheet.edit_mode, GroupEditMode::Name);
}

#[test]
fn new_task_gets_selected_after_update() {
    let (tree, _g, _t) = sample();
    let mut inspector = Inspector::new();
    inspector.init(Mode::Inspector);
    let gn = tree.translate_id_to_node_id(&1).unwrap();
    inspector.update(Signal::Select(gn), &tree).unwrap();
    let out = inspector.update(Signal::Action(Action::NewTask), &tree).unwrap();
    match out.request {
        Some(Request::NewTask(d)) => {
            assert_eq!(d.group.id, 1);
            assert_eq!(d.name, "new task");
            assert_eq!(d.priority, Priority::Medium);
        },
        other => panic!("unexpected request {other:?}"),
    }
    inspector.rendered_component.group_component.as_mut().unwrap().on_task_created(10);
    let out = inspector.update(Signal::Update, &tree).unwrap();
    assert_eq!(out.reply, Some(Signal::Select(tree.translate_id_to_node_id(&10).unwrap())));
}

fn bindings() -> Vec<(Mode, Vec<(Vec<Key>, Action)>)> {
    vec![(
        Mode::Explorer,
        vec![
            (vec![key(KeyCode::Char('j'))], Action::MoveDown),
            (vec![key(KeyCode::Char('g')), key(KeyCode::Char('g'))], Action::MoveUp),
        ],
    )]
}

#[test]
fn keys_trigger_bound_actions() {
    let mut app = App::new(Mode::Explorer, bindings());
    assert_eq!(app.handle_key_event(key(KeyCode::Char('j'))), Some(Signal::Action(Action::MoveDown)));
    assert_eq!(app.handle_key_event(key(KeyCode::Char('g'))), None);
    assert_eq!(app.handle_key_event(key(KeyCode::Char('g'))), Some(Signal::Action(Action::MoveUp)));
    let mut tree = TarsTree::new();
    app.handle_signal(Signal::Tick, &mut tree).unwrap();
    assert!(app.last_tick_key_events.is_empty());
    assert_eq!(app.handle_key_event(key(KeyCode::Char('g'))), None);
}

#[test]
fn raw_text_suppresses_bindings_until_refresh() {
    let mut app = App::new(Mode::Explorer, bindings());
    let mut tree = TarsTree::new();
    app.handle_signal(Signal::RawText, &mut tree).unwrap();
    assert_eq!(app.handle_key_event(key(KeyCode::Char('j'))), None);
    app.handle_signal(Signal::Refresh, &mut tree).unwrap();
    assert_eq!(app.handle_key_event(key(KeyCode::Char('j'))), Some(Signal::Action(Action::MoveDown)));
}

#[test]
fn modes_without_bindings_ignore_keys() {
    let mut app = App::new(Mode::Inspector, bindings());
    assert_eq!(app.handle_key_event(key(KeyCode::Char('j'))), None);
    assert!(app.last_tick_key_events.is_empty());
    let mut tree = TarsTree::new();
    app.handle_signal(Signal::Action(Action::SwitchTo(Mode::Explorer)), &mut tree).unwrap();
    assert_eq!(app.mode, Mode::Explorer);
    assert_eq!(lookup(&bindings()[0].1, &vec![key(KeyCode::Char('j'))]), Some(Action::MoveDown));
}

#[test]
fn app_signals_change_its_state() {
    let mut app = App::new(Mode::Explorer, bindings());
    let mut tree = TarsTree::new();
    app.handle_signal(Signal::Action(Action::Suspend), &mut tree).unwrap();
    assert!(app.should_suspend);
    app.handle_signal(Signal::Resume, &mut tree).unwrap();
    assert!(!app.should_suspend);
    app.handle_signal(Signal::Action(Action::Quit), &mut tree).unwrap();
    assert!(app.should_quit);
    let step = app.handle_signal(Signal::Resize(80, 24), &mut tree).unwrap();
    assert!(matches!(step.chore, Chore::Resize(80, 24)));
    let step = app.handle_signal(Signal::Render, &mut tree).unwrap();
    assert!(matches!(step.chore, Chore::Render));
}

#[test]
fn app_applies_diffs() {
    let mut app = App::new(Mode::Explorer, bindings());
    let mut tree = TarsTree::new();
    let g = group(5, "new", None);
    let step = app.handle_signal(Signal::Diff(Diff::Added(DiffInner::Group(g.clone()))), &mut tree).unwrap();
    assert_eq!(step.send, vec![Signal::Update, Signal::Refresh]);
    assert!(tree.translate_id_to_node_id(&5).is_some());
    let err = app.handle_signal(Signal::Diff(Diff::Deleted(99)), &mut tree);
    assert!(matches!(err, Err(AppError::DiffRejected)));
}

#[test]
fn description_editing() {
    let (_tree, _g, t) = sample();
    let mut app = App::new(Mode::Explorer, bindings());
    app.should_suspend = true;
    let stored = app.description_edited(t.clone(), "# plan".to_owned());
    assert_eq!(stored.description, "# plan");
    assert_eq!(stored.name, t.name);
    assert!(!app.should_suspend);
    assert_eq!(description_path(&"deploy".to_owned()), "/tmp/tars/deploy.md");
}

#[test]
fn selecting_a_removed_node_fails() {
    let (mut tree, _g, _t) = sample();
    let mut inspector = Inspector::new();
    let tn = tree.translate_id_to_node_id(&10).unwrap();
    inspector.update(Signal::Select(tn.clone()), &tree).unwrap();
    tree.apply_diff(Diff::Deleted(10));
    assert!(matches!(inspector.update(Signal::Select(tn), &tree), Err(InspectorError::MissingNode)));
}

#[test]
fn unparsable_color_stops_storing() {
    let (tree, _g, _t) = sample();
    let mut inspector = Inspector::new();
    inspector.init(Mode::Inspector);
    let gn = tree.translate_id_to_node_id(&1).unwrap();
    inspector.update(Signal::Select(gn), &tree).unwrap();
    inspector.update(Signal::Action(Action::EditName), &tree).unwrap();
    let sheet = inspector.rendered_component.group_component.as_mut().unwrap();
    sheet.color.line = "not a color".to_owned();
    let out = inspector.handle_key_event(key(KeyCode::Esc), &no_readings());
    assert!(matches!(out, Err(SyncError::BadColor)));
}

#[test]
fn switching_modes_activates_one_component() {
    let (tree, _g, _t) = sample();
    let mut explorer = Explorer::new(&tree);
    let mut todo_list = TodoList::new(&tree, std::collections::HashMap::new());
    let mut inspector = Inspector::new();
    explorer.init(Mode::Explorer);
    todo_list.init(Mode::Explorer);
    inspector.init(Mode::Explorer);
    for m in [Mode::TodoList, Mode::Inspector, Mode::Explorer] {
        let s = Signal::Action(Action::SwitchTo(m));
        explorer.update(s.clone(), &tree).unwrap();
        todo_list.update(s.clone(), &tree);
        inspector.update(s, &tree).unwrap();
        assert_eq!(explorer.state.active, m == Mode::Explorer);
        assert_eq!(todo_list.state.active, m == Mode::TodoList);
        assert_eq!(inspector.active, m == Mode::Inspector);
    }
}

#[test]
fn selecting_another_group_shows_its_priority() {
    let a = group(1, "work", None);
    let mut b = group(2, "home", None);
    b.priority = Priority::Asap;
    let tree = TarsTree::generate(&vec![a, b], &vec![]);
    let mut inspector = Inspector::new();
    inspector.update(Signal::Select(tree.translate_id_to_node_id(&1).unwrap()), &tree).unwrap();
    assert_eq!(inspector.rendered_component.group_component.as_ref().unwrap().priority.placeholder, "Medium");
    inspector.update(Signal::Select(tree.translate_id_to_node_id(&2).unwrap()), &tree).unwrap();
    let sheet = inspector.rendered_component.group_component.as_ref().unwrap();
    assert_eq!(sheet.group.id, 2);
    assert_eq!(sheet.name.placeholder, "home");
    assert_eq!(sheet.priority.placeholder, "Asap");
}
