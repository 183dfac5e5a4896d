//! The decision logic of the render/input loop and of the script runner:
//! what one key press does to the menu, which shell function each entry
//! dispatches to, and how a step's outcome changes the menu. The terminal
//! and the subprocess themselves live outside the library; they hand these
//! functions plain values and act on what comes back.

use vstd::prelude::*;
use crate::menu::{MenuState, next_cursor, prev_cursor};

verus! {

use vstd::string::StringExecFns;

/// One recognized key press, as the input phase reports it.
#[derive(Clone, Copy, PartialEq, Eq, Structural, Debug)]
pub enum KeyPress {
    Quit,
    Down,
    Up,
    Enter,
    Other,
}

/// What the loop does after a key press: nothing further, terminate, or
/// dispatch the step of the entry with the given id.
#[derive(Clone, Copy, PartialEq, Eq, Structural, Debug)]
pub enum LoopAction {
    Idle,
    Terminate,
    Dispatch(usize),
}

/// A failure of one dispatched step.
pub enum StepError {
    /// No ancestor directory holds the installation script.
    ScriptNotFound,
    /// The step's subprocess exited with a non-zero status; carries the
    /// name of the shell function that failed.
    StepFailed(String),
}

/// The shell function name a menu id dispatches to; ids outside 1..=7 have
/// none (0 is the exit entry).
pub open spec fn spec_step_function_name(id: int) -> Option<Seq<char>> {
    if id == 1 {
        Some("full_installation"@)
    } else if id == 2 {
        Some("install_packages"@)
    } else if id == 3 {
        Some("deploy_configs"@)
    } else if id == 4 {
        Some("configure_wifi"@)
    } else if id == 5 {
        Some("setup_waybar_modules"@)
    } else if id == 6 {
        Some("install_starship"@)
    } else if id == 7 {
        Some("install_optional"@)
    } else {
        None
    }
}

/// The announcement printed before a step runs; ids outside 1..=7 have
/// none.
pub open spec fn spec_step_message(id: int) -> Option<Seq<char>> {
    if id == 1 {
        Some("Running full installation..."@)
    } else if id == 2 {
        Some("Installing core packages..."@)
    } else if id == 3 {
        Some("Deploying configuration files..."@)
    } else if id == 4 {
        Some("Configuring WiFi powersave..."@)
    } else if id == 5 {
        Some("Setting up Waybar modules..."@)
    } else if id == 6 {
        Some("Installing Starship shell..."@)
    } else if id == 7 {
        Some("Installing optional programs..."@)
    } else {
        None
    }
}

/// The shell function name for a menu id: the fixed id-to-action table.
pub fn step_function_name(id: usize) -> (r: Option<&'static str>)
    ensures
        match r {
            Some(s) => spec_step_function_name(id as int) == Some(s@),
            None => spec_step_function_name(id as int) is None,
        },
{
    match id {
        1 => Some("full_installation"),
        2 => Some("install_packages"),
        3 => Some("deploy_configs"),
        4 => Some("configure_wifi"),
        5 => Some("setup_waybar_modules"),
        6 => Some("install_starship"),
        7 => Some("install_optional"),
        _ => None,
    }
}

/// The announcement for a menu id's step.
pub fn step_message(id: usize) -> (r: Option<&'static str>)
    ensures
        match r {
            Some(s) => spec_step_message(id as int) == Some(s@),
            None => spec_step_message(id as int) is None,
        },
{
    match id {
        1 => Some("Running full installation..."),
        2 => Some("Installing core packages..."),
        3 => Some("Deploying configuration files..."),
        4 => Some("Configuring WiFi powersave..."),
        5 => Some("Setting up Waybar modules..."),
        6 => Some("Installing Starship shell..."),
        7 => Some("Installing optional programs..."),
        _ => None,
    }
}

impl StepError {
    /// The message shown to the user for this failure.
    pub fn message(&self) -> (r: String)
        ensures
            match self {
                StepError::ScriptNotFound => r@ == "Could not find install-functions.sh"@,
                StepError::StepFailed(name) => r@ == "Installation step failed: "@ + name@,
            },
    {
        match self {
            StepError::ScriptNotFound => String::from_str("Could not find install-functions.sh"),
            StepError::StepFailed(name) => {
                let mut r = String::from_str("Installation step failed: ");
                r.append(name.as_str());
                r
            },
        }
    }
}

/// One step of the input phase: what a key press does to the menu and what
/// the loop must do next. Quit and selecting the exit entry terminate;
/// arrow keys move the cursor with wraparound; enter on any other entry
/// dispatches that entry's step; anything else is ignored. The menu is
/// only ever navigated here, never completed or re-titled.
pub fn handle_key(state: &mut MenuState, key: KeyPress) -> (r: LoopAction)
    requires
        old(state).wf(),
    ensures
        final(state).wf(),
        final(state).items@ == old(state).items@,
        key == KeyPress::Quit ==> r == LoopAction::Terminate && *final(state) == *old(state),
        key == KeyPress::Other ==> r == LoopAction::Idle && *final(state) == *old(state),
        key == KeyPress::Down ==> r == LoopAction::Idle && final(state).selected == next_cursor(
            old(state).selected as int,
            old(state).items@.len() as int,
        ),
        key == KeyPress::Up ==> r == LoopAction::Idle && final(state).selected == prev_cursor(
            old(state).selected as int,
            old(state).items@.len() as int,
        ),
        key == KeyPress::Enter ==> *final(state) == *old(state) && (if old(state).items@[old(
            state,
        ).selected as int].id == 0 {
            r == LoopAction::Terminate
        } else {
            r == LoopAction::Dispatch(old(state).items@[old(state).selected as int].id)
        }),
{
    match key {
        KeyPress::Quit => LoopAction::Terminate,
        KeyPress::Down => {
            state.next();
            LoopAction::Idle
        },
        KeyPress::Up => {
            state.previous();
            LoopAction::Idle
        },
        KeyPress::Enter => {
            let id = state.get_selected().id;
            if id == 0 {
                LoopAction::Terminate
            } else {
                LoopAction::Dispatch(id)
            }
        },
        KeyPress::Other => LoopAction::Idle,
    }
}

/// How a dispatched step's outcome changes the menu: success marks the
/// selected entry completed and touches nothing else; failure changes
/// nothing.
pub fn apply_step_result(state: &mut MenuState, success: bool)
    requires
        old(state).wf(),
    ensures
        final(state).wf(),
        final(state).selected == old(state).selected,
        final(state).items@.len() == old(state).items@.len(),
        !success ==> *final(state) == *old(state),
        success ==> final(state).items@[old(state).selected as int].completed,
        success ==> final(state).items@[old(state).selected as int].id == old(state).items@[old(
            state).selected as int].id,
        forall|i: int|
            0 <= i < final(state).items@.len() && i != old(state).selected
                ==> final(state).items@[i] == old(state).items@[i],
{
    if success {
        state.set_selected_completed();
    }
}

/// The index of the first directory that holds the marker file, given for
/// each candidate directory, nearest first, whether it holds it: the pure
/// heart of the ancestor search.
pub fn first_index_with(flags: &Vec<bool>) -> (r: Option<usize>)
    ensures
        match r {
            Some(i) => i < flags@.len() && flags@[i as int] && forall|k: int|
                0 <= k < i ==> !flags@[k],
            None => forall|k: int| 0 <= k < flags@.len() ==> !flags@[k],
        },
{
    let mut i: usize = 0;
    while i < flags.len()
        invariant
            i <= flags@.len(),
            forall|k: int| 0 <= k < i ==> !flags@[k],
        decreases flags@.len() - i,
    {
        if flags[i] {
            return Some(i);
        }
        i = i + 1;
    }
    None
}

/// The one shell invocation a step runs: change into the script's
/// directory, source it, and call the named function.
pub fn shell_command(dir: &str, script: &str, func: &str) -> (r: String)
    ensures
        r@ == "cd "@ + dir@ + " && source "@ + script@ + " && "@ + func@,
{
    let mut r = String::from_str("cd ");
    r.append(dir);
    r.append(" && source ");
    r.append(script);
    r.append(" && ");
    r.append(func);
    r
}

} // verus!
