//! The compositor control adapter: the injected channel through which the
//! engine queries live window state and issues imperative commands. The
//! engine inspects only success or failure of each command; rendering a
//! command into the compositor's textual syntax is the adapter's business.

use vstd::prelude::*;
use crate::records::HyprClient;

verus! {

/// Direction hint of a layout preselect: right for a horizontal split, down
/// for a vertical one.
#[derive(Clone, Copy, PartialEq, Eq, Structural, Debug)]
pub enum SplitDirection {
    Right,
    Down,
}

/// One imperative instruction for the compositor.
#[derive(PartialEq, Eq, Debug)]
pub enum Command {
    /// Switch the focused workspace.
    SwitchWorkspace { workspace_id: i32 },
    /// Move a window to a workspace without stealing focus.
    MoveToWorkspaceSilent { workspace_id: i32, address: String },
    /// Focus the window with the given address.
    FocusWindow { address: String },
    /// Fix the split direction for the next window inserted into the tiling
    /// layout.
    PreselectSplit { direction: SplitDirection },
    /// Toggle a window between floating and tiled.
    ToggleFloating { address: String },
    /// Move a window to an exact pixel position.
    MoveWindowPixel { address: String, x: i32, y: i32 },
    /// Resize a window to exact pixel dimensions.
    ResizeWindowPixel { address: String, w: i32, h: i32 },
    /// Execute a command line in a target workspace, silently.
    ExecInWorkspace { workspace_id: i32, command: String },
}

impl Clone for Command {
    fn clone(&self) -> (r: Self)
        ensures
            r == *self,
    {
        match self {
            Command::SwitchWorkspace { workspace_id } => Command::SwitchWorkspace {
                workspace_id: *workspace_id,
            },
            Command::MoveToWorkspaceSilent { workspace_id, address } => {
                Command::MoveToWorkspaceSilent {
                    workspace_id: *workspace_id,
                    address: address.clone(),
                }
            },
            Command::FocusWindow { address } => Command::FocusWindow { address: address.clone() },
            Command::PreselectSplit { direction } => Command::PreselectSplit {
                direction: *direction,
            },
            Command::ToggleFloating { address } => Command::ToggleFloating {
                address: address.clone(),
            },
            Command::MoveWindowPixel { address, x, y } => Command::MoveWindowPixel {
                address: address.clone(),
                x: *x,
                y: *y,
            },
            Command::ResizeWindowPixel { address, w, h } => Command::ResizeWindowPixel {
                address: address.clone(),
                w: *w,
                h: *h,
            },
            Command::ExecInWorkspace { workspace_id, command } => Command::ExecInWorkspace {
                workspace_id: *workspace_id,
                command: command.clone(),
            },
        }
    }
}

/// Failure of the control channel.
#[derive(PartialEq, Eq, Debug)]
pub enum AdapterError {
    /// The channel could not be reached at all.
    Unreachable { message: String },
    /// The channel was reached and reported non-success.
    CommandFailed { message: String },
    /// A response did not parse into the expected shape.
    Deserialization { message: String },
}

/// Outcome of a command whose failure is tolerated by design; the distinct
/// return path keeps "failure is intentionally tolerated here" visible.
#[derive(Clone, Copy, PartialEq, Eq, Structural, Debug)]
pub enum BestEffort {
    Applied,
    FailureTolerated,
}

/// The control channel of the compositor. The engine is written against this
/// trait and never reaches the compositor by ambient calls, so it can be run
/// against an in-memory adapter that replays scripted live-state sequences.
pub trait CompositorAdapter {
    /// Queries all currently live window records.
    fn query_clients(&mut self) -> (r: Result<Vec<HyprClient>, AdapterError>);

    /// Queries the id of the currently focused workspace.
    fn query_active_workspace_id(&mut self) -> (r: Result<i32, AdapterError>);

    /// Issues one command, reporting only success or failure.
    fn dispatch(&mut self, command: &Command) -> (r: Result<(), AdapterError>);

    /// Waits one poll interval before the live state is queried again.
    fn sleep_poll_interval(&mut self);
}

/// Issues a command whose failure is tolerated: the outcome is reported,
/// never escalated.
pub fn dispatch_best_effort<A: CompositorAdapter>(adapter: &mut A, command: &Command) -> (r:
    BestEffort)
{
    match adapter.dispatch(command) {
        Result::Ok(()) => BestEffort::Applied,
        Result::Err(_) => BestEffort::FailureTolerated,
    }
}

/// Moves a window to a workspace silently, without switching focus there.
pub fn move_window_to_workspace<A: CompositorAdapter>(
    adapter: &mut A,
    address: &str,
    workspace_id: i32,
) -> (r: Result<(), AdapterError>) {
    adapter.dispatch(
        &Command::MoveToWorkspaceSilent { workspace_id, address: address.to_owned() },
    )
}

/// Focuses a specific window.
pub fn focus_window<A: CompositorAdapter>(adapter: &mut A, address: &str) -> (r: Result<
    (),
    AdapterError,
>) {
    adapter.dispatch(&Command::FocusWindow { address: address.to_owned() })
}

/// Moves a window to a specific pixel coordinate.
pub fn move_window_pixel<A: CompositorAdapter>(
    adapter: &mut A,
    address: &str,
    x: i32,
    y: i32,
) -> (r: Result<(), AdapterError>) {
    adapter.dispatch(&Command::MoveWindowPixel { address: address.to_owned(), x, y })
}

/// Resizes a window to specific pixel dimensions.
pub fn resize_window_pixel<A: CompositorAdapter>(
    adapter: &mut A,
    address: &str,
    width: i32,
    height: i32,
) -> (r: Result<(), AdapterError>) {
    adapter.dispatch(&Command::ResizeWindowPixel { address: address.to_owned(), w: width, h: height })
}

} // verus!
