//! Position applicator: applies saved workspace placement and, for floating
//! windows, exact pixel geometry to a resolved window.

use vstd::prelude::*;
use crate::adapter::AdapterError;
use crate::adapter::Command;
use crate::adapter::CompositorAdapter;
use crate::records::HyprClient;

verus! {

/// Whether the live window already floats at the exact saved position.
pub open spec fn spec_position_settled(current: HyprClient, saved: HyprClient) -> bool {
    current.floating && current.at_x == saved.at_x && current.at_y == saved.at_y
}

/// Whether the live window already floats at the exact saved size.
pub open spec fn spec_size_settled(current: HyprClient, saved: HyprClient) -> bool {
    current.floating && current.size_w == saved.size_w && current.size_h == saved.size_h
}

/// The commands that bring a live window into its saved placement, in the
/// order they are issued: a silent workspace move when the workspace
/// differs; for a floating saved record a floating toggle when needed, then
/// the exact saved position and size, each skipped when the window already
/// floats with that exact geometry (a window in the saved configuration is
/// left alone); for a tiled saved record only a floating toggle when needed,
/// the tiling shape itself being the split replay's business.
pub open spec fn spec_position_plan(current: HyprClient, saved: HyprClient) -> Seq<Command> {
    let move_ws: Seq<Command> = if current.workspace.id != saved.workspace.id {
        seq![
            Command::MoveToWorkspaceSilent {
                workspace_id: saved.workspace.id,
                address: current.address,
            },
        ]
    } else {
        Seq::empty()
    };
    let shape: Seq<Command> = if saved.floating {
        let toggle: Seq<Command> = if !current.floating {
            seq![Command::ToggleFloating { address: current.address }]
        } else {
            Seq::empty()
        };
        let move_px: Seq<Command> = if spec_position_settled(current, saved) {
            Seq::empty()
        } else {
            seq![
                Command::MoveWindowPixel { address: current.address, x: saved.at_x, y: saved.at_y },
            ]
        };
        let resize_px: Seq<Command> = if spec_size_settled(current, saved) {
            Seq::empty()
        } else {
            seq![
                Command::ResizeWindowPixel {
                    address: current.address,
                    w: saved.size_w,
                    h: saved.size_h,
                },
            ]
        };
        toggle + move_px + resize_px
    } else {
        if current.floating {
            seq![Command::ToggleFloating { address: current.address }]
        } else {
            Seq::empty()
        }
    };
    move_ws + shape
}

/// Plans the position commands for one window.
pub fn plan_position_commands(current: &HyprClient, saved: &HyprClient) -> (plan: Vec<Command>)
    ensures
        plan@ == spec_position_plan(*current, *saved),
{
    let mut plan: Vec<Command> = Vec::new();
    if current.workspace.id != saved.workspace.id {
        plan.push(
            Command::MoveToWorkspaceSilent {
                workspace_id: saved.workspace.id,
                address: current.address.clone(),
            },
        );
    }
    if saved.floating {
        if !current.floating {
            plan.push(Command::ToggleFloating { address: current.address.clone() });
        }
        if !(current.floating && current.at_x == saved.at_x && current.at_y == saved.at_y) {
            plan.push(
                Command::MoveWindowPixel {
                    address: current.address.clone(),
                    x: saved.at_x,
                    y: saved.at_y,
                },
            );
        }
        if !(current.floating && current.size_w == saved.size_w && current.size_h
            == saved.size_h) {
            plan.push(
                Command::ResizeWindowPixel {
                    address: current.address.clone(),
                    w: saved.size_w,
                    h: saved.size_h,
                },
            );
        }
    } else {
        if current.floating {
            plan.push(Command::ToggleFloating { address: current.address.clone() });
        }
    }
    proof {
        assert(plan@ =~= spec_position_plan(*current, *saved));
    }
    plan
}

/// Restores the workspace and position of a single window: issues the
/// planned commands (`spec_position_plan`) in order and stops at the first
/// failure of the control channel, returning that failure unchanged. A
/// window whose plan is empty is owed success: no command is dispatched and
/// nothing can fail.
#[verifier::loop_isolation(false)]
pub fn restore_window_position<A: CompositorAdapter>(
    adapter: &mut A,
    current_client: &HyprClient,
    saved_client: &HyprClient,
) -> (r: Result<(), AdapterError>)
    ensures
        spec_position_plan(*current_client, *saved_client) == Seq::<Command>::empty() ==> r is Ok,
{
    let plan = plan_position_commands(current_client, saved_client);
    let mut i: usize = 0;
    while i < plan.len()
        invariant
            i <= plan@.len(),
        decreases plan@.len() - i,
    {
        match adapter.dispatch(&plan[i]) {
            Result::Ok(()) => {},
            Result::Err(e) => {
                return Result::Err(e);
            },
        }
        i += 1;
    }
    Result::Ok(())
}

/// A window already in its saved configuration needs no commands: when the
/// live window sits on the saved workspace, agrees with the saved record on
/// floating, and — for a floating record — already has the exact saved
/// position and size, the position plan is empty.
pub proof fn lemma_position_plan_settled(current: HyprClient, saved: HyprClient)
    requires
        current.workspace.id == saved.workspace.id,
        current.floating == saved.floating,
        saved.floating ==> current.at_x == saved.at_x && current.at_y == saved.at_y
            && current.size_w == saved.size_w && current.size_h == saved.size_h,
    ensures
        spec_position_plan(current, saved) == Seq::<Command>::empty(),
{
    assert(spec_position_plan(current, saved) =~= Seq::<Command>::empty());
}

} // verus!
