//! The decision logic of a terminal task manager: the tree of groups and
//! tasks, the explorer and todo-list views over it, the inspector and the
//! application's signal handling.
pub mod types;
pub mod action;
pub mod tree;
pub mod components;
pub mod util;
pub mod dates;
pub mod app;
pub mod laws;
