//! An in-memory compositor adapter that replays scripted live-state
//! sequences per poll tick and records every command it is handed. The
//! engine runs against it in tests, with no compositor present.

use vstd::prelude::*;
use crate::adapter::AdapterError;
use crate::adapter::Command;
use crate::adapter::CompositorAdapter;
use crate::records::HyprClient;
use crate::records::clone_clients;

verus! {

/// A scripted, recording stand-in for the compositor.
pub struct ScriptedAdapter {
    /// Successive answers to live-state queries; once the script is
    /// exhausted the last answer repeats, and an empty script answers with
    /// no windows.
    pub polls: Vec<Vec<HyprClient>>,
    /// Position of the next scripted answer.
    pub next_poll: usize,
    /// Answer to the active-workspace query; `None` makes that query fail.
    pub active_workspace_id: Option<i32>,
    /// Every command dispatched, in order.
    pub issued: Vec<Command>,
    /// The first so many execute commands report failure.
    pub fail_exec_count: usize,
    /// When set, every other dispatch reports failure.
    pub fail_other_dispatch: bool,
    /// When set, every live-state query fails.
    pub fail_queries: bool,
    /// Number of poll-interval waits performed.
    pub sleeps: usize,
}

impl ScriptedAdapter {
    /// An adapter that answers live-state queries from `polls` and lets
    /// every command succeed.
    pub fn new(polls: Vec<Vec<HyprClient>>, active_workspace_id: Option<i32>) -> (a:
        ScriptedAdapter)
        ensures
            a.polls@ == polls@,
            a.active_workspace_id == active_workspace_id,
            a.issued@.len() == 0,
            a.next_poll == 0,
            a.fail_exec_count == 0,
            !a.fail_other_dispatch,
            !a.fail_queries,
            a.sleeps == 0,
    {
        ScriptedAdapter {
            polls,
            next_poll: 0,
            active_workspace_id,
            issued: Vec::new(),
            fail_exec_count: 0,
            fail_other_dispatch: false,
            fail_queries: false,
            sleeps: 0,
        }
    }
}

impl CompositorAdapter for ScriptedAdapter {
    fn query_clients(&mut self) -> (r: Result<Vec<HyprClient>, AdapterError>) {
        if self.fail_queries {
            return Result::Err(
                AdapterError::Unreachable {
                    message: String::from_str("scripted live-state query failure"),
                },
            );
        }
        if self.next_poll < self.polls.len() {
            let answer = clone_clients(&self.polls[self.next_poll]);
            if self.next_poll + 1 < self.polls.len() {
                self.next_poll = self.next_poll + 1;
            }
            Result::Ok(answer)
        } else {
            Result::Ok(Vec::new())
        }
    }

    fn query_active_workspace_id(&mut self) -> (r: Result<i32, AdapterError>) {
        match self.active_workspace_id {
            Option::Some(id) => Result::Ok(id),
            Option::None => Result::Err(
                AdapterError::Unreachable {
                    message: String::from_str("scripted active-workspace query failure"),
                },
            ),
        }
    }

    fn dispatch(&mut self, command: &Command) -> (r: Result<(), AdapterError>) {
        self.issued.push(command.clone());
        match command {
            Command::ExecInWorkspace { .. } => {
                if self.fail_exec_count > 0 {
                    self.fail_exec_count = self.fail_exec_count - 1;
                    return Result::Err(
                        AdapterError::CommandFailed {
                            message: String::from_str("scripted execute failure"),
                        },
                    );
                }
                Result::Ok(())
            },
            _ => {
                if self.fail_other_dispatch {
                    Result::Err(
                        AdapterError::CommandFailed {
                            message: String::from_str("scripted dispatch failure"),
                        },
                    )
                } else {
                    Result::Ok(())
                }
            },
        }
    }

    fn sleep_poll_interval(&mut self) {
        if self.sleeps < usize::MAX {
            self.sleeps = self.sleeps + 1;
        }
    }
}

} // verus!
