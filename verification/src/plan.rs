//! The whole way in one step: from the replies of the window manager and a
//! command to the texts to send.

use vstd::prelude::*;
use crate::builder::{StateError, all_readable, built, explains, get_program_state};
use crate::command::Command;
use crate::navigation::{commands, decide};
use crate::snapshot::{TreeNode, WorkspaceEntry};
use crate::state::ProgramState;

verus! {

/// Why nothing can be sent.
#[derive(Copy, Clone, Debug, PartialEq, Eq, Structural)]
pub enum PlanError {
    /// The list and the tree do not make a state.
    Snapshot(StateError),
    /// The state has no focus to start from.
    NoFocus,
}

/// The state that was read, and the texts to send, in order.
#[derive(Debug)]
pub struct Plan {
    pub state: ProgramState,
    pub texts: Vec<String>,
}

/// Reads the state from the two replies of the window manager and decides
/// what to send for a command.
///
/// Fails where a listed workspace cannot be read, and where the state that
/// was read has no focus; succeeds on every other input.
pub fn plan(workspaces: &Vec<WorkspaceEntry>, tree: &TreeNode, command: Command) -> (result: Result<
    Plan,
    PlanError,
>)
    ensures
        match result {
            Ok(plan) => {
                &&& all_readable(*tree, workspaces@)
                &&& plan.state.wf()
                &&& plan.state@ == built(workspaces@, *tree)
                &&& plan.state@.focused()
                &&& plan.texts.deep_view() == commands(plan.state@, command)
                &&& plan.texts@.len() == commands(plan.state@, command).len()
            },
            Err(PlanError::Snapshot(error)) => explains(error, *tree, workspaces@),
            Err(PlanError::NoFocus) => {
                &&& all_readable(*tree, workspaces@)
                &&& !built(workspaces@, *tree).focused()
            },
        },
{
    match get_program_state(workspaces, tree) {
        Ok(state) => {
            if state.has_focus() {
                let texts = decide(&state, command);
                Ok(Plan { state, texts })
            } else {
                Err(PlanError::NoFocus)
            }
        },
        Err(error) => Err(PlanError::Snapshot(error)),
    }
}

} // verus!
