//! Matcher: decides whether a live window corresponds to a saved window
//! record, using a tiered heuristic that tolerates class-name drift between
//! launch and steady state.

use vstd::prelude::*;
use crate::records::HyprClient;
use crate::strutil::lower_of;
use crate::strutil::lowercase;

verus! {

/// Whether a live window corresponds to a saved record. Tier 1: both records
/// carry a resolved executable path and the paths are equal. Tier 2
/// (case-insensitive): the saved class is non-empty and equals the live class
/// or initial class, or the saved initial class is non-empty and equals the
/// live class or initial class.
pub open spec fn spec_matches(current: HyprClient, saved: HyprClient) -> bool {
    ||| (current.exec_path is Some && saved.exec_path is Some && current.exec_path->Some_0@
        == saved.exec_path->Some_0@)
    ||| {
        let saved_class = lower_of(saved.class@);
        let saved_initial = lower_of(saved.initial_class@);
        let current_class = lower_of(current.class@);
        let current_initial = lower_of(current.initial_class@);
        ||| (saved_class.len() > 0 && (current_class == saved_class || current_initial
            == saved_class))
        ||| (saved_initial.len() > 0 && (current_class == saved_initial || current_initial
            == saved_initial))
    }
}

/// Decides whether the live window `current` corresponds to the saved record
/// `saved`.
pub fn launched_window_matches(current: &HyprClient, saved: &HyprClient) -> (r: bool)
    ensures
        r == spec_matches(*current, *saved),
{
    match (&current.exec_path, &saved.exec_path) {
        (Option::Some(current_path), Option::Some(saved_path)) => {
            if *current_path == *saved_path {
                return true;
            }
        },
        _ => {},
    }
    let saved_class = lowercase(saved.class.as_str());
    let saved_initial = lowercase(saved.initial_class.as_str());
    let current_class = lowercase(current.class.as_str());
    let current_initial = lowercase(current.initial_class.as_str());
    (!saved_class.as_str().is_empty() && (current_class == saved_class || current_initial
        == saved_class)) || (!saved_initial.as_str().is_empty() && (current_class == saved_initial
        || current_initial == saved_initial))
}

} // verus!
