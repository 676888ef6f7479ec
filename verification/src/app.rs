//! The application's own decisions: which mode has the focus, how key
//! presses become actions through the key bindings, and what each signal
//! does to the application before the components see it.
use vstd::prelude::*;
use crate::action::{Action, Key, Mode, Signal};
use crate::tree::TarsTree;
use crate::types::{Diff, Task};

verus! {

/// The key bindings of a mode: key sequences and the actions they trigger.
pub type Keymap = Vec<(Vec<Key>, Action)>;

/// The action bound to `keys` in `keymap`: that of the first binding of
/// exactly these keys.
pub open spec fn bound_action(keymap: Seq<(Vec<Key>, Action)>, keys: Seq<Key>) -> Option<Action>
    decreases keymap.len(),
{
    if keymap.len() == 0 {
        None
    } else if keymap[0].0@ == keys {
        Some(keymap[0].1)
    } else {
        bound_action(keymap.drop_first(), keys)
    }
}

/// The key bindings of `mode`: those of the first entry for it.
pub open spec fn mode_keymap(bindings: Seq<(Mode, Keymap)>, mode: Mode) -> Option<Keymap>
    decreases bindings.len(),
{
    if bindings.len() == 0 {
        None
    } else if bindings[0].0 == mode {
        Some(bindings[0].1)
    } else {
        mode_keymap(bindings.drop_first(), mode)
    }
}

/// Whether two key sequences are the same.
fn same_keys(a: &Vec<Key>, b: &Vec<Key>) -> (r: bool)
    ensures
        r == (a@ == b@),
{
    if a.len() != b.len() {
        return false;
    }
    let mut i: usize = 0;
    while i < a.len()
        invariant
            a@.len() == b@.len(),
            0 <= i <= a@.len(),
            forall|j: int| 0 <= j < i ==> a@[j] == b@[j],
        decreases a@.len() - i,
    {
        if a[i] != b[i] {
            return false;
        }
        i = i + 1;
    }
    proof {
        assert(a@ =~= b@);
    }
    true
}

/// The action bound to `keys` in `keymap`.
pub fn lookup(keymap: &Keymap, keys: &Vec<Key>) -> (r: Option<Action>)
    ensures
        r == bound_action(keymap@, keys@),
{
    let mut i: usize = 0;
    proof {
        assert(keymap@.skip(0) =~= keymap@);
    }
    while i < keymap.len()
        invariant
            0 <= i <= keymap@.len(),
            bound_action(keymap@, keys@) == bound_action(keymap@.skip(i as int), keys@),
        decreases keymap@.len() - i,
    {
        proof {
            assert(keymap@.skip(i as int).drop_first() =~= keymap@.skip(i + 1));
        }
        if same_keys(&keymap[i].0, keys) {
            return Some(keymap[i].1);
        }
        i = i + 1;
    }
    None
}

/// The key bindings of `mode`, if it has any.
pub fn keymap_of(bindings: &Vec<(Mode, Keymap)>, mode: Mode) -> (r: Option<&Keymap>)
    ensures
        match r {
            Some(m) => mode_keymap(bindings@, mode) == Some(*m),
            None => mode_keymap(bindings@, mode) is None,
        },
{
    let mut i: usize = 0;
    proof {
        assert(bindings@.skip(0) =~= bindings@);
    }
    while i < bindings.len()
        invariant
            0 <= i <= bindings@.len(),
            mode_keymap(bindings@, mode) == mode_keymap(bindings@.skip(i as int), mode),
        decreases bindings@.len() - i,
    {
        proof {
            assert(bindings@.skip(i as int).drop_first() =~= bindings@.skip(i + 1));
        }
        if bindings[i].0 == mode {
            return Some(&bindings[i].1);
        }
        i = i + 1;
    }
    None
}

/// The application's state: the mode with the focus, whether to quit or
/// suspend, whether key presses go to a text field unbound, the keys
/// pressed since the last tick and the key bindings of each mode.
#[derive(Debug)]
pub struct App {
    pub mode: Mode,
    pub should_quit: bool,
    pub should_suspend: bool,
    pub raw_text: bool,
    pub last_tick_key_events: Vec<Key>,
    pub keybindings: Vec<(Mode, Keymap)>,
}

/// Work for the terminal that a signal asks of the application.
#[derive(Debug)]
pub enum Chore {
    Nothing,
    ClearScreen,
    Resize(u16, u16),
    Render,
    /// Open the task's description in an editor, then store what was written.
    EditDescription(Task),
}

/// What the application does with a signal before the components see it:
/// the terminal work and the signals to send.
#[derive(Debug)]
pub struct Step {
    pub chore: Chore,
    pub send: Vec<Signal>,
}

/// Why the application could not handle a signal.
#[derive(Debug, PartialEq, Eq, Structural)]
pub enum AppError {
    /// The diff names items the tree does not hold as it expects.
    DiffRejected,
}

impl App {
    /// A fresh application in `mode` with the key bindings `keybindings`.
    pub fn new(mode: Mode, keybindings: Vec<(Mode, Keymap)>) -> (r: App)
        ensures
            r.mode == mode,
            !r.should_quit,
            !r.should_suspend,
            !r.raw_text,
            r.last_tick_key_events@.len() == 0,
            r.keybindings == keybindings,
    {
        App { mode, should_quit: false, should_suspend: false, raw_text: false, last_tick_key_events: Vec::new(), keybindings }
    }

    /// `post` is `pre` after the key press `key`, with the signal `r` to
    /// send: a key bound on its own triggers its action; any other key joins
    /// the keys of this tick, which trigger the action bound to them; no
    /// action while keys go to a text field; nothing when the mode has no key
    /// bindings.
    pub open spec fn keyed(pre: &App, post: &App, key: Key, r: Option<Signal>) -> bool {
        match mode_keymap(pre.keybindings@, pre.mode) {
            None => *post == *pre && r is None,
            Some(keymap) => match bound_action(keymap@, seq![key]) {
                Some(a) => *post == *pre && r == (if pre.raw_text { None } else { Some(Signal::Action(a)) }),
                None => {
                    let keys = pre.last_tick_key_events@.push(key);
                    &&& post.last_tick_key_events@ == keys
                    &&& *post == (App { last_tick_key_events: post.last_tick_key_events, ..*pre })
                    &&& r == (if pre.raw_text {
                        None
                    } else {
                        match bound_action(keymap@, keys) {
                            Some(a) => Some(Signal::Action(a)),
                            None => None,
                        }
                    })
                },
            },
        }
    }

    /// Turns a key press into the action bound to it.
    pub fn handle_key_event(&mut self, key: Key) -> (r: Option<Signal>)
        ensures
            App::keyed(old(self), final(self), key, r),
    {
        let keymap = match keymap_of(&self.keybindings, self.mode) {
            Some(m) => m,
            None => {
                return None;
            },
        };
        let single = vec![key];
        proof {
            assert(single@ =~= seq![key]);
        }
        match lookup(keymap, &single) {
            Some(a) => {
                if !self.raw_text {
                    Some(Signal::Action(a))
                } else {
                    None
                }
            },
            None => {
                let found = {
                    let mut keys = self.last_tick_key_events.clone();
                    keys.push(key);
                    lookup(keymap, &keys)
                };
                self.last_tick_key_events.push(key);
                match found {
                    Some(a) => {
                        if !self.raw_text {
                            Some(Signal::Action(a))
                        } else {
                            None
                        }
                    },
                    None => None,
                }
            },
        }
    }

    /// The application can handle `signal` the way it expects to.
    pub open spec fn can_handle(&self, signal: Signal, tree: &TarsTree) -> bool {
        signal is Diff ==> tree.wf()
    }

    /// `post` is `pre` after `signal`, with the result `r`; `tree` and
    /// `tree2` are the tree before and after.
    pub open spec fn handled(pre: &App, post: &App, signal: Signal, tree: &TarsTree, tree2: &TarsTree, r: Result<Step, AppError>) -> bool {
        let quiet = |chore: Chore| r matches Ok(step) && step.chore == chore && step.send@.len() == 0;
        &&& signal !is Diff ==> *tree2 == *tree
        &&& match signal {
            Signal::Tick => {
                &&& post.last_tick_key_events@.len() == 0
                &&& *post == (App { last_tick_key_events: post.last_tick_key_events, ..*pre })
                &&& quiet(Chore::Nothing)
            },
            Signal::Action(Action::Quit) => *post == (App { should_quit: true, ..*pre }) && quiet(Chore::Nothing),
            Signal::Action(Action::Suspend) => *post == (App { should_suspend: true, ..*pre }) && quiet(Chore::Nothing),
            Signal::Resume => *post == (App { should_suspend: false, ..*pre }) && quiet(Chore::Nothing),
            Signal::ClearScreen => *post == *pre && quiet(Chore::ClearScreen),
            Signal::Resize(w, h) => *post == *pre && quiet(Chore::Resize(w, h)),
            Signal::Render => *post == *pre && quiet(Chore::Render),
            Signal::Action(Action::SwitchTo(m)) => *post == (App { mode: m, ..*pre }) && quiet(Chore::Nothing),
            Signal::RawText => *post == (App { raw_text: true, ..*pre }) && quiet(Chore::Nothing),
            Signal::Refresh => *post == (App { raw_text: false, ..*pre }) && quiet(Chore::Nothing),
            Signal::Diff(d) => {
                &&& *post == *pre
                &&& if tree.diff_applies(d) {
                    &&& tree2.wf()
                    &&& tree2.root() == tree.root()
                    &&& forall|k| #[trigger] tree.issued(k) ==> tree2.issued(k)
                    &&& TarsTree::diff_effect(tree, tree2, d)
                    &&& r matches Ok(step) && step.chore == Chore::Nothing && step.send@ == seq![Signal::Update, Signal::Refresh]
                } else {
                    *tree2 == *tree && r == Err::<Step, AppError>(AppError::DiffRejected)
                }
            },
            Signal::EditDescriptionForTask(t) => *post == *pre && quiet(Chore::EditDescription(t)),
            _ => *post == *pre && quiet(Chore::Nothing),
        }
    }

    /// What a signal does to the application before the components see it:
    /// ticks clear the keys pressed, quit and suspend are noted, a mode
    /// switch moves the focus, raw text starts and a refresh ends it, and a
    /// diff from the daemon is applied to the tree, followed by an update
    /// and a refresh. A diff that `TarsTree::diff_applies` refuses is
    /// answered with `AppError::DiffRejected` and leaves the tree as it was:
    /// adding an id the tree already holds, making a group its own parent,
    /// replacing a task that holds items or naming a task as its own group,
    /// deleting an item that holds items, and any diff naming an item the
    /// tree does not hold. On the first three the daemon's records would no
    /// longer form a tree with one node per id.
    pub fn handle_signal(&mut self, signal: Signal, tree: &mut TarsTree) -> (r: Result<Step, AppError>)
        requires
            old(self).can_handle(signal, &*old(tree)),
        ensures
            App::handled(old(self), final(self), signal, old(tree), final(tree), r),
    {
        let nothing = Ok(Step { chore: Chore::Nothing, send: Vec::new() });
        match signal {
            Signal::Tick => {
                self.last_tick_key_events = Vec::new();
                nothing
            },
            Signal::Action(Action::Quit) => {
                self.should_quit = true;
                nothing
            },
            Signal::Action(Action::Suspend) => {
                self.should_suspend = true;
                nothing
            },
            Signal::Resume => {
                self.should_suspend = false;
                nothing
            },
            Signal::ClearScreen => Ok(Step { chore: Chore::ClearScreen, send: Vec::new() }),
            Signal::Resize(w, h) => Ok(Step { chore: Chore::Resize(w, h), send: Vec::new() }),
            Signal::Render => Ok(Step { chore: Chore::Render, send: Vec::new() }),
            Signal::Action(Action::SwitchTo(m)) => {
                self.mode = m;
                nothing
            },
            Signal::RawText => {
                self.raw_text = true;
                nothing
            },
            Signal::Refresh => {
                self.raw_text = false;
                nothing
            },
            Signal::Diff(d) => {
                if !tree.can_apply(&d) {
                    return Err(AppError::DiffRejected);
                }
                tree.apply_diff(d);
                Ok(Step { chore: Chore::Nothing, send: vec![Signal::Update, Signal::Refresh] })
            },
            Signal::EditDescriptionForTask(t) => Ok(Step { chore: Chore::EditDescription(t), send: Vec::new() }),
            _ => nothing,
        }
    }

    /// The description of `task` was edited to `text`: the task to store,
    /// and the application is no longer suspended.
    pub fn description_edited(&mut self, task: Task, text: String) -> (r: Task)
        ensures
            r == (Task { description: text, ..task }),
            *final(self) == (App { should_suspend: false, ..*old(self) }),
    {
        self.should_suspend = false;
        Task { description: text, ..task }
    }
}

/// Where the description of a task named `name` is written for editing.
pub open spec fn description_path_of(name: Seq<char>) -> Seq<char> {
    "/tmp/tars/"@ + name + ".md"@
}

/// Where the description of a task named `name` is written for editing.
pub fn description_path(name: &String) -> (r: String)
    ensures
        r@ == description_path_of(name@),
{
    "/tmp/tars/".to_owned().concat(name.as_str()).concat(".md")
}

} // verus!
