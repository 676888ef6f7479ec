# tars_tui

The decision logic of a terminal task manager, verified with Verus.

A daemon keeps groups and tasks; this library holds them in a tree and
decides what the three views of the terminal program show and do:

- `src/tree.rs`: the tree of groups and tasks (an `id_tree` tree with an
  index from daemon ids to nodes), built from the daemon's records and kept
  up to date by the diffs the daemon broadcasts. A diff that would break
  the tree (an id added twice, a group made its own parent, a task with
  items under it replaced, an item with items under it deleted) or that
  names an item the tree does not hold is refused, and the program stops
  with an error.
- `src/components/explorer`: the scoped, scrollable explorer: which nodes it
  lists, the breadcrumbs, moving the selection, stepping into and out of
  groups, showing or hiding finished items, and planning creations and
  deletions.
- `src/components/todo_list`: the unfinished tasks of the scope, most urgent
  first by the rank each task has in the daemon's task order (which `app/`
  computes with the daemon's crate and hands in), with their due dates
  rendered through `chrono`.
- `src/components/inspector`: the task and group sheets and their editing
  modes.
- `src/app.rs`: key bindings, raw text input, mode switches and what each
  signal does before the components see it.
- `src/laws.rs`: properties that span several functions, proved.

`app/` is the terminal program around the library: it talks to the daemon,
reads the terminal, runs the event loop and draws with `ratatui`.
